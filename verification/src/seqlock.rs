//! Why a reader that shares a section with a running writer gets whole frames.
//!
//! A [`Moment`] is what the shared memory holds between two atomic accesses, together with how far
//! the writer has come with the frame it publishes. A history is a sequence of moments in which
//! each one follows from the one before by a step of the writer. A reader loads its values at
//! moments of its own choosing; it changes nothing that the writer looks at.

use vstd::prelude::*;
use crate::layout::{
    ReadEvent,
    ReadOutcome,
    ReadState,
    RingView,
    WriteEvent,
    WriteState,
    NO_SLOT,
    READ_ATTEMPTS,
    SLOT_COUNT,
};

verus! {

/// How far the writer has come with a frame.
pub enum Phase {
    Idle,
    /// The odd sequence number is stored, the bytes are being written. `before` is the sequence
    /// number that the slot had.
    Filling { slot: int, before: int },
    /// The even sequence number is stored.
    Filled { slot: int },
}

/// The shared memory between two accesses.
pub struct Moment {
    pub latest: int,
    pub seqs: Seq<int>,
    pub slots: Seq<Seq<u8>>,
    pub phase: Phase,
}

impl Moment {
    /// A slot whose bytes are being written carries an odd sequence number and is not the one
    /// that readers are sent to.
    pub open spec fn consistent(self) -> bool {
        &&& self.seqs.len() == SLOT_COUNT
        &&& self.slots.len() == SLOT_COUNT
        &&& forall|k: int| 0 <= k < SLOT_COUNT ==> 0 <= #[trigger] self.seqs[k]
        &&& match self.phase {
            Phase::Idle => true,
            Phase::Filling { slot, before } => {
                &&& 0 <= slot < SLOT_COUNT
                &&& slot != self.latest
                &&& 0 <= before
                &&& self.seqs[slot] == crate::layout::seq_during(before)
            },
            Phase::Filled { slot } => 0 <= slot < SLOT_COUNT && slot != self.latest,
        }
    }

    /// The bytes of the slot are being written.
    pub open spec fn fills(self, slot: int) -> bool {
        self.phase is Filling && self.phase->Filling_slot == slot
    }

    /// The sequence numbers have not wrapped around and are not about to.
    pub open spec fn below_wrap(self) -> bool {
        forall|k: int|
            0 <= k < self.seqs.len() ==> 0 <= #[trigger] self.seqs[k] < 0xffff_ffff_ffff_fff0
    }
}

/// One step of the writer, or none.
pub open spec fn writer_step(a: Moment, b: Moment) -> bool {
    ||| b == a
    ||| ({
        // The odd sequence number is stored.
        let slot = crate::layout::next_slot_spec(a.latest);
        &&& a.phase is Idle
        &&& b == (Moment {
            seqs: a.seqs.update(slot, crate::layout::seq_during(a.seqs[slot])),
            phase: Phase::Filling { slot, before: a.seqs[slot] },
            ..a
        })
    })
    ||| (a.phase matches Phase::Filling { slot, before } && {
        // Bytes of the slot are written.
        &&& b.slots.len() == a.slots.len()
        &&& b == (Moment { slots: a.slots.update(slot, b.slots[slot]), ..a })
    })
    ||| (a.phase matches Phase::Filling { slot, before } && {
        // The even sequence number is stored.
        b == (Moment {
            seqs: a.seqs.update(slot, crate::layout::seq_after(before)),
            phase: Phase::Filled { slot },
            ..a
        })
    })
    ||| (a.phase matches Phase::Filled { slot } && {
        // Readers are sent to the slot.
        b == (Moment { latest: slot, phase: Phase::Idle, ..a })
    })
    ||| ({
        // The published frame is dropped.
        &&& a.phase is Idle
        &&& b == (Moment { latest: NO_SLOT as int, ..a })
    })
}

/// A sequence of moments that starts consistently and goes on by the writer's steps.
pub open spec fn history(h: Seq<Moment>) -> bool {
    &&& h.len() > 0
    &&& h[0].consistent()
    &&& forall|t: int| 0 <= t && t + 1 < h.len() ==> writer_step(#[trigger] h[t], h[t + 1])
}

// ---------------------------------------------------------------------------------------------
// The writer at work

/// How far a writer in this state has come.
pub open spec fn phase_of(state: WriteState) -> Phase {
    match state {
        WriteState::Fill { slot, before } => Phase::Filling {
            slot: slot as int,
            before: before as int,
        },
        WriteState::End { slot, before } => Phase::Filling {
            slot: slot as int,
            before: before as int,
        },
        WriteState::Publish { slot } => Phase::Filled { slot: slot as int },
        _ => Phase::Idle,
    }
}

/// The moment at which the section is `ring` and its writer is in `state`.
pub open spec fn moment(ring: RingView, state: WriteState) -> Moment {
    Moment { latest: ring.latest, seqs: ring.seqs, slots: ring.slots, phase: phase_of(state) }
}

/// What happens between two moments.
pub enum Act {
    /// The writer does what its state asks for.
    Step { event: WriteEvent },
    /// The writer has put bytes into the slot and is not done with it.
    Bytes { bytes: Seq<u8> },
    /// The writer turns to the next frame.
    Again,
    /// The writer drops the published frame, before it starts on the next one or after.
    Invalidate,
    /// Heartbeats are set.
    Touch { writer_hb: int, reader_hb: int },
}

/// An act takes the writer from `s1` to `s2` and the section from `r1` to `r2`: loads give what
/// the section holds, and stores are those that the state asks for.
pub open spec fn acts(act: Act, s1: WriteState, r1: RingView, s2: WriteState, r2: RingView) -> bool {
    match act {
        Act::Step { event } => {
            &&& s1.awaits(event)
            &&& event matches WriteEvent::Latest { value } ==> value == r1.latest
            &&& event matches WriteEvent::Sequence { value } ==> value
                == r1.seqs[s1->Sequence_slot as int]
            &&& s2 == crate::layout::write_next(s1, event)
            &&& r2 == (match crate::layout::write_store(s1) {
                Some(store) => r1.stored(store),
                None => r1,
            })
        },
        Act::Bytes { bytes } => {
            &&& s1 is Fill
            &&& s2 == s1
            &&& r2 == (RingView { slots: r1.slots.update(s1->Fill_slot as int, bytes), ..r1 })
        },
        Act::Again => s1 is Done && s2 == WriteState::Latest && r2 == r1,
        Act::Invalidate => (s1 is Latest || s1 is Done) && s2 == s1 && r2 == r1.invalidated(),
        Act::Touch { writer_hb, reader_hb } => s2 == s1 && r2 == r1.touched_by_writer(
            writer_hb,
        ).touched_by_reader(reader_hb),
    }
}

/// A section and its writer, from the start of a frame on.
pub open spec fn writer_run(list: Seq<Act>, states: Seq<WriteState>, rings: Seq<RingView>) -> bool {
    &&& states.len() == list.len() + 1
    &&& rings.len() == list.len() + 1
    &&& states[0] == WriteState::Latest
    &&& rings[0].seqs.len() == SLOT_COUNT
    &&& rings[0].slots.len() == SLOT_COUNT
    &&& forall|k: int| 0 <= k < SLOT_COUNT ==> 0 <= #[trigger] rings[0].seqs[k]
    &&& forall|t: int|
        0 <= t < list.len() ==> acts(
            #[trigger] list[t],
            states[t],
            rings[t],
            states[t + 1],
            rings[t + 1],
        )
}

/// The moments of a run.
pub open spec fn moments(states: Seq<WriteState>, rings: Seq<RingView>) -> Seq<Moment> {
    Seq::new(states.len(), |t: int| moment(rings[t], states[t]))
}

/// What the writer loaded is still so.
spec fn follows(state: WriteState, ring: RingView) -> bool {
    let next = crate::layout::next_slot_spec(ring.latest);
    &&& ring.seqs.len() == SLOT_COUNT
    &&& ring.slots.len() == SLOT_COUNT
    &&& forall|k: int| 0 <= k < SLOT_COUNT ==> 0 <= #[trigger] ring.seqs[k]
    &&& match state {
        WriteState::Latest => true,
        WriteState::Sequence { slot } => slot == next,
        WriteState::Begin { slot, before } => slot == next && before == ring.seqs[next],
        WriteState::Fill { slot, before } => slot == next && ring.seqs[next]
            == crate::layout::seq_during(before as int),
        WriteState::End { slot, before } => slot == next && ring.seqs[next]
            == crate::layout::seq_during(before as int),
        WriteState::Publish { slot } => slot == next,
        WriteState::Done => true,
    }
}

proof fn lemma_act(act: Act, s1: WriteState, r1: RingView, s2: WriteState, r2: RingView)
    requires
        acts(act, s1, r1, s2, r2),
        follows(s1, r1),
    ensures
        follows(s2, r2),
        writer_step(moment(r1, s1), moment(r2, s2)),
{
    let a = moment(r1, s1);
    let b = moment(r2, s2);
    match s1 {
        WriteState::Begin { slot, before } => {
            if act is Step {
                assert(crate::layout::seq_during(before as int) <= u64::MAX);
                assert(b.seqs =~= a.seqs.update(
                    slot as int,
                    crate::layout::seq_during(before as int),
                ));
            }
        },
        WriteState::Fill { slot, before } => {
            if act is Bytes {
                assert(b.slots =~= a.slots.update(slot as int, b.slots[slot as int]));
            }
        },
        WriteState::End { slot, before } => {
            if act is Step {
                assert(b.seqs =~= a.seqs.update(
                    slot as int,
                    crate::layout::seq_after(before as int),
                ));
            }
        },
        _ => {},
    }
}

proof fn lemma_follows(list: Seq<Act>, states: Seq<WriteState>, rings: Seq<RingView>, t: int)
    requires
        writer_run(list, states, rings),
        0 <= t <= list.len(),
    ensures
        follows(states[t], rings[t]),
    decreases t,
{
    if t > 0 {
        lemma_follows(list, states, rings, t - 1);
        assert(acts(
            list[t - 1],
            states[t - 1],
            rings[t - 1],
            states[t - 1 + 1],
            rings[t - 1 + 1],
        ));
        lemma_act(list[t - 1], states[t - 1], rings[t - 1], states[t], rings[t]);
    }
}

/// A writer that does what [`WriteState`] asks for makes a history, however many frames it
/// publishes or drops, and whatever it writes into the slots.
pub proof fn law_writer_makes_history(
    list: Seq<Act>,
    states: Seq<WriteState>,
    rings: Seq<RingView>,
)
    requires
        writer_run(list, states, rings),
    ensures
        history(moments(states, rings)),
{
    let h = moments(states, rings);
    lemma_follows(list, states, rings, 0);
    assert forall|t: int| 0 <= t && t + 1 < h.len() implies writer_step(#[trigger] h[t], h[t + 1]) by {
        lemma_follows(list, states, rings, t);
        assert(acts(list[t], states[t], rings[t], states[t + 1], rings[t + 1]));
        lemma_act(list[t], states[t], rings[t], states[t + 1], rings[t + 1]);
    }
}

// ---------------------------------------------------------------------------------------------
// Laws

/// Every moment of a history is consistent: in particular the writer never writes the slot that
/// readers are sent to.
pub proof fn law_consistent(h: Seq<Moment>, t: int)
    requires
        history(h),
        0 <= t < h.len(),
    ensures
        h[t].consistent(),
    decreases t,
{
    if t > 0 {
        law_consistent(h, t - 1);
        assert(writer_step(h[t - 1], h[t - 1 + 1]));
    }
}

/// Until the numbers wrap around, the sequence number of a slot never falls, and the slot's bytes
/// stay as they are while its sequence number is even and stays the same.
proof fn lemma_step(a: Moment, b: Moment, slot: int)
    requires
        a.consistent(),
        a.below_wrap(),
        writer_step(a, b),
        0 <= slot < SLOT_COUNT,
    ensures
        a.seqs[slot] <= b.seqs[slot],
        a.seqs[slot] % 2 == 0 && b.seqs[slot] == a.seqs[slot] ==> b.slots[slot] == a.slots[slot],
{
    assert(0 <= a.seqs[slot] < 0xffff_ffff_ffff_fff0);
    match a.phase {
        Phase::Filling { slot: s, before } => {
            assert(0 <= a.seqs[s] < 0xffff_ffff_ffff_fff0);
        },
        _ => {},
    }
}

/// Until the numbers wrap around, the sequence number of a slot never falls.
pub proof fn law_sequence_grows(h: Seq<Moment>, slot: int, t1: int, t2: int)
    requires
        history(h),
        forall|t: int| 0 <= t < h.len() ==> (#[trigger] h[t]).below_wrap(),
        0 <= slot < SLOT_COUNT,
        0 <= t1 <= t2 < h.len(),
    ensures
        h[t1].seqs[slot] <= h[t2].seqs[slot],
    decreases t2 - t1,
{
    if t1 < t2 {
        law_sequence_grows(h, slot, t1, t2 - 1);
        law_consistent(h, t2 - 1);
        assert(writer_step(h[t2 - 1], h[t2 - 1 + 1]));
        lemma_step(h[t2 - 1], h[t2], slot);
    }
}

/// A slot whose sequence number is the same even number at two moments has the same bytes at all
/// moments in between.
pub proof fn law_slot_stable(h: Seq<Moment>, slot: int, t1: int, t: int, t2: int)
    requires
        history(h),
        forall|t: int| 0 <= t < h.len() ==> (#[trigger] h[t]).below_wrap(),
        0 <= slot < SLOT_COUNT,
        0 <= t1 <= t <= t2 < h.len(),
        h[t1].seqs[slot] == h[t2].seqs[slot],
        h[t1].seqs[slot] % 2 == 0,
    ensures
        h[t].slots[slot] == h[t1].slots[slot],
    decreases t - t1,
{
    if t1 < t {
        law_slot_stable(h, slot, t1, t - 1, t2);
        law_sequence_grows(h, slot, t1, t - 1);
        law_sequence_grows(h, slot, t - 1, t);
        law_sequence_grows(h, slot, t, t2);
        law_consistent(h, t - 1);
        assert(writer_step(h[t - 1], h[t - 1 + 1]));
        lemma_step(h[t - 1], h[t], slot);
    }
}

/// A frame that a reader accepts before its last attempt is whole: whatever the writer did
/// meanwhile, the copied bytes are what the slot held when the reader began, and nobody wrote the
/// slot then or until the reader was done.
///
/// The reader loads the slot's sequence number at moment `t1` and again at `t2`; in between it
/// copies byte `i` at moment `at[i]`.
pub proof fn law_accepted_frame_is_whole(
    h: Seq<Moment>,
    attempt: u32,
    slot: usize,
    t1: int,
    first: u64,
    at: Seq<int>,
    copied: Seq<u8>,
    t2: int,
    second: u64,
)
    requires
        history(h),
        forall|t: int| 0 <= t < h.len() ==> (#[trigger] h[t]).below_wrap(),
        attempt + 1 < READ_ATTEMPTS,
        slot < SLOT_COUNT,
        0 <= t1 <= t2 < h.len(),
        first == h[t1].seqs[slot as int],
        second == h[t2].seqs[slot as int],
        at.len() == copied.len(),
        copied.len() == h[t1].slots[slot as int].len(),
        forall|i: int|
            0 <= i < copied.len() ==> t1 <= #[trigger] at[i] <= t2 && copied[i]
                == h[at[i]].slots[slot as int][i],
        crate::layout::read_next(
            ReadState::Sequence { attempt, slot },
            ReadEvent::Sequence { value: first },
        ) == (ReadState::Copy { attempt, slot, seen: first }),
        crate::layout::read_next(
            ReadState::Recheck { attempt, slot, seen: first },
            ReadEvent::Sequence { value: second },
        ) == (ReadState::Done { outcome: ReadOutcome::Frame }),
    ensures
        copied == h[t1].slots[slot as int],
        forall|t: int| t1 <= t <= t2 ==> !(#[trigger] h[t]).fills(slot as int),
{
    assert forall|t: int| t1 <= t <= t2 implies !(#[trigger] h[t]).fills(slot as int) by {
        law_consistent(h, t);
        law_sequence_grows(h, slot as int, t1, t);
        law_sequence_grows(h, slot as int, t, t2);
    }
    assert forall|i: int| 0 <= i < copied.len() implies #[trigger] copied[i]
        == h[t1].slots[slot as int][i] by {
        assert(t1 <= at[i] <= t2);
        law_slot_stable(h, slot as int, t1, at[i], t2);
    }
    assert(copied =~= h[t1].slots[slot as int]);
}

}
