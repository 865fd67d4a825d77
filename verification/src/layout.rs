//! Layout of the shared frame section and its lock-free seqlock ring.
//!
//! A section is a header page followed by three NV12 frame slots. One writer publishes frames,
//! any number of readers copy the newest one. Every header field may be written by any process
//! that can open the section, so readers bound-check everything and never trust a size from the
//! header.
//!
//! The decisions of the protocol (what a writer stores in which order, what a reader does with each
//! value it loads) are functions on plain values, [`WriteState`] and [`ReadState`], so that a section
//! mapped into several processes can be driven by them one atomic access at a time. [`FrameRing`]
//! runs the same decisions on a section held in ordinary memory.

use vstd::prelude::*;
use crate::le::{get32, get64, put32, put64};
use crate::text::{push_decimal, push_text};

verus! {

pub const SLOT_COUNT: usize = 3;

pub const HEADER_SIZE: usize = 4096;

/// `b"DKCM"`.
pub const SECTION_MAGIC: u32 = 0x4D43_4B44;

pub const SECTION_VERSION: u32 = 1;

pub const NO_SLOT: u32 = 0xffff_ffff;

/// The app captures only while a reader delivered a sample within this window.
pub const READER_ACTIVE_MS: u64 = 1500;

/// Readers serve black when the app has not touched the ring within this window.
pub const WRITER_ALIVE_MS: u64 = 2000;

pub const OFF_MAGIC: usize = 0;

pub const OFF_VERSION: usize = 4;

pub const OFF_WIDTH: usize = 8;

pub const OFF_HEIGHT: usize = 12;

pub const OFF_LATEST: usize = 16;

pub const OFF_WRITER_HB: usize = 32;

pub const OFF_READER_HB: usize = 40;

pub const OFF_SEQ: usize = 64;

/// Kernel object namespace of the frame section.
#[derive(Clone, Copy, PartialEq, Eq, Debug, Structural)]
pub enum Namespace {
    /// Windows 11: created by the media source inside the Frame Server (session 0).
    Global,
    /// Windows 10: created by the app in the user's session, where DirectShow consumers run.
    Local,
}

/// The name of the section for frames of `width` x `height`.
pub open spec fn section_name_text(ns: Namespace, width: nat, height: nat) -> Seq<char> {
    (match ns {
        Namespace::Global => "Global"@,
        Namespace::Local => "Local"@,
    }) + "\\DeskCam-v1-"@ + crate::text::decimal(width) + "x"@ + crate::text::decimal(height)
}

/// The name of the section for frames of `width` x `height`.
pub fn section_name(ns: Namespace, width: u32, height: u32) -> (name: String)
    ensures
        name@ == section_name_text(ns, width as nat, height as nat),
{
    let mut name = String::new();
    match ns {
        Namespace::Global => push_text(&mut name, "Global"),
        Namespace::Local => push_text(&mut name, "Local"),
    }
    push_text(&mut name, "\\DeskCam-v1-");
    push_decimal(&mut name, width as u64);
    push_text(&mut name, "x");
    push_decimal(&mut name, height as u64);
    assert(name@ =~= section_name_text(ns, width as nat, height as nat));
    name
}

/// Bytes of an NV12 frame.
pub open spec fn frame_bytes(width: int, height: int) -> int {
    width * height * 3 / 2
}

/// Bytes of a section: the header page and the slots.
pub open spec fn section_bytes(width: int, height: int) -> int {
    HEADER_SIZE + SLOT_COUNT * frame_bytes(width, height)
}

/// The size computations for `width` x `height` stay within the address space.
pub open spec fn addressable(width: int, height: int) -> bool {
    &&& width * height * 3 <= usize::MAX
    &&& section_bytes(width, height) <= usize::MAX
}

/// NV12 frame size in bytes.
pub fn frame_size(width: u32, height: u32) -> (n: usize)
    requires
        width * height * 3 <= usize::MAX,
    ensures
        n == frame_bytes(width as int, height as int),
{
    assert(0 <= width * height <= width * height * 3) by (nonlinear_arith);
    width as usize * height as usize * 3 / 2
}

/// Bytes of the section for frames of `width` x `height`.
pub fn section_size(width: u32, height: u32) -> (n: usize)
    requires
        addressable(width as int, height as int),
    ensures
        n == section_bytes(width as int, height as int),
{
    HEADER_SIZE + SLOT_COUNT * frame_size(width, height)
}

// ---------------------------------------------------------------------------------------------
// Heartbeats

/// Whether a heartbeat lies less than `window` before `now`; one from the future counts.
pub open spec fn fresh(now: int, heartbeat: int, window: int) -> bool {
    0 < window && now - heartbeat < window
}

/// Whether a heartbeat lies less than `window` before `now`; one from the future counts.
pub fn is_fresh(now_ms: u64, heartbeat: u64, window: u64) -> (r: bool)
    ensures
        r == fresh(now_ms as int, heartbeat as int, window as int),
{
    now_ms.saturating_sub(heartbeat) < window
}

// ---------------------------------------------------------------------------------------------
// Header

/// One store into the header.
#[allow(inconsistent_fields)]
#[derive(Clone, Copy, PartialEq, Eq, Debug, Structural)]
pub enum Store {
    Word { off: usize, value: u32 },
    Long { off: usize, value: u64 },
}

/// The stores that initialise a section, in order. The magic number comes last: who finds it
/// finds everything else in place.
pub open spec fn header_stores_spec(width: u32, height: u32) -> Seq<Store> {
    seq![
        Store::Word { off: OFF_WIDTH, value: width },
        Store::Word { off: OFF_HEIGHT, value: height },
        Store::Word { off: OFF_LATEST, value: NO_SLOT },
        Store::Long { off: OFF_WRITER_HB, value: 0 },
        Store::Long { off: OFF_READER_HB, value: 0 },
        Store::Long { off: OFF_SEQ, value: 0 },
        Store::Long { off: (OFF_SEQ + 8) as usize, value: 0 },
        Store::Long { off: (OFF_SEQ + 16) as usize, value: 0 },
        Store::Word { off: OFF_VERSION, value: SECTION_VERSION },
        Store::Word { off: OFF_MAGIC, value: SECTION_MAGIC },
    ]
}

/// The stores that initialise a section, in order.
pub fn header_stores(width: u32, height: u32) -> (v: Vec<Store>)
    ensures
        v@ == header_stores_spec(width, height),
{
    let mut v: Vec<Store> = Vec::new();
    v.push(Store::Word { off: OFF_WIDTH, value: width });
    v.push(Store::Word { off: OFF_HEIGHT, value: height });
    v.push(Store::Word { off: OFF_LATEST, value: NO_SLOT });
    v.push(Store::Long { off: OFF_WRITER_HB, value: 0 });
    v.push(Store::Long { off: OFF_READER_HB, value: 0 });
    let mut slot: usize = 0;
    while slot < SLOT_COUNT
        invariant
            slot <= SLOT_COUNT,
            v@ =~= header_stores_spec(width, height).take(5 + slot),
        decreases SLOT_COUNT - slot,
    {
        v.push(Store::Long { off: OFF_SEQ + slot * 8, value: 0 });
        slot += 1;
    }
    v.push(Store::Word { off: OFF_VERSION, value: SECTION_VERSION });
    v.push(Store::Word { off: OFF_MAGIC, value: SECTION_MAGIC });
    v
}

impl Store {
    pub open spec fn offset(self) -> int {
        match self {
            Store::Word { off, .. } => off as int,
            Store::Long { off, .. } => off as int,
        }
    }

    pub open spec fn size(self) -> int {
        match self {
            Store::Word { .. } => 4,
            Store::Long { .. } => 8,
        }
    }

    /// The store changes exactly one field of the header.
    pub open spec fn is_field(self) -> bool {
        match self {
            Store::Word { off, .. } => off == OFF_MAGIC || off == OFF_VERSION || off == OFF_WIDTH
                || off == OFF_HEIGHT || off == OFF_LATEST,
            Store::Long { off, .. } => off == OFF_WRITER_HB || off == OFF_READER_HB || off == OFF_SEQ
                || off == OFF_SEQ + 8 || off == OFF_SEQ + 16,
        }
    }

    /// The stored value stands in `mem`.
    pub open spec fn holds(self, mem: Seq<u8>) -> bool {
        match self {
            Store::Word { off, value } => crate::le::le32(mem, off as int) == value,
            Store::Long { off, value } => crate::le::le64(mem, off as int) == value,
        }
    }
}

proof fn lemma_stores_disjoint(width: u32, height: u32, j: int, k: int)
    requires
        0 <= j < k < 10,
    ensures
        ({
            let s = header_stores_spec(width, height);
            ||| s[j].offset() + s[j].size() <= s[k].offset()
            ||| s[k].offset() + s[k].size() <= s[j].offset()
        }),
{
}

/// Whether header fields describe an initialised section for `width` x `height`.
pub fn header_matches(
    magic: u32,
    version: u32,
    field_width: u32,
    field_height: u32,
    width: u32,
    height: u32,
) -> (r: bool)
    ensures
        r == (magic == SECTION_MAGIC && version == SECTION_VERSION && field_width == width
            && field_height == height),
{
    magic == SECTION_MAGIC && version == SECTION_VERSION && field_width == width && field_height
        == height
}

// ---------------------------------------------------------------------------------------------
// Writer protocol

/// The slot that the next frame goes to: the one after the latest, or the first.
pub open spec fn next_slot_spec(latest: int) -> int {
    if 0 <= latest < SLOT_COUNT {
        (latest + 1) % (SLOT_COUNT as int)
    } else {
        0
    }
}

/// The slot that the next frame goes to.
pub fn next_slot(latest: u32) -> (slot: usize)
    ensures
        slot == next_slot_spec(latest as int),
        slot < SLOT_COUNT,
        slot != latest,
{
    if (latest as usize) < SLOT_COUNT {
        (latest as usize + 1) % SLOT_COUNT
    } else {
        0
    }
}

/// The odd sequence number that a slot carries while it is written.
pub open spec fn seq_during(seq: int) -> int {
    seq - seq % 2 + 1
}

/// The even sequence number that a slot carries once it is written; the numbers wrap around.
pub open spec fn seq_after(seq: int) -> int {
    (seq - seq % 2 + 2) % 0x1_0000_0000_0000_0000
}

/// The sequence number to store before a slot is written.
pub fn begin_write(seq: u64) -> (r: u64)
    ensures
        r == seq_during(seq as int),
        r % 2 == 1,
{
    seq - seq % 2 + 1
}

/// The sequence number to store after a slot was written. `seq` is the number from before.
pub fn end_write(seq: u64) -> (r: u64)
    ensures
        r == seq_after(seq as int),
        r % 2 == 0,
{
    (seq - seq % 2).wrapping_add(2)
}

/// What a writer does next.
#[derive(Clone, Copy, PartialEq, Eq, Debug, Structural)]
pub enum WriteState {
    /// Load the number of the latest slot.
    Latest,
    /// Load the sequence number of the slot to write.
    Sequence { slot: usize },
    /// Store the odd sequence number. `before` is the one that the slot had.
    Begin { slot: usize, before: u64 },
    /// Write the bytes of the slot.
    Fill { slot: usize, before: u64 },
    /// Store the even sequence number.
    End { slot: usize, before: u64 },
    /// Send readers to the slot.
    Publish { slot: usize },
    Done,
}

/// What came of the writer's last action.
#[allow(inconsistent_fields)]
#[derive(Clone, Copy, PartialEq, Eq, Debug, Structural)]
pub enum WriteEvent {
    Latest { value: u32 },
    Sequence { value: u64 },
    Filled,
    Stored,
}

/// What a writer does after an event.
pub open spec fn write_next(state: WriteState, event: WriteEvent) -> WriteState {
    match (state, event) {
        (WriteState::Latest, WriteEvent::Latest { value }) => WriteState::Sequence {
            slot: next_slot_spec(value as int) as usize,
        },
        (WriteState::Sequence { slot }, WriteEvent::Sequence { value }) => WriteState::Begin {
            slot,
            before: value,
        },
        (WriteState::Begin { slot, before }, WriteEvent::Stored) => WriteState::Fill { slot, before },
        (WriteState::Fill { slot, before }, WriteEvent::Filled) => WriteState::End { slot, before },
        (WriteState::End { slot, before }, WriteEvent::Stored) => WriteState::Publish { slot },
        (WriteState::Publish { slot }, WriteEvent::Stored) => WriteState::Done,
        _ => state,
    }
}

/// The store that a state asks for: the bytes of a slot are written between the odd and the even
/// sequence number, and only then readers are sent to it.
pub open spec fn write_store(state: WriteState) -> Option<Store> {
    match state {
        WriteState::Begin { slot, before } => Some(
            Store::Long { off: (OFF_SEQ + slot * 8) as usize, value: seq_during(before as int) as u64 },
        ),
        WriteState::End { slot, before } => Some(
            Store::Long { off: (OFF_SEQ + slot * 8) as usize, value: seq_after(before as int) as u64 },
        ),
        WriteState::Publish { slot } => Some(Store::Word { off: OFF_LATEST, value: slot as u32 }),
        _ => None,
    }
}

impl WriteState {
    /// The states that writing passes through.
    pub open spec fn wf(self) -> bool {
        match self {
            WriteState::Sequence { slot } => slot < SLOT_COUNT,
            WriteState::Begin { slot, before } => slot < SLOT_COUNT,
            WriteState::Fill { slot, before } => slot < SLOT_COUNT,
            WriteState::End { slot, before } => slot < SLOT_COUNT,
            WriteState::Publish { slot } => slot < SLOT_COUNT,
            _ => true,
        }
    }

    /// How many loads, stores and fills are still to come.
    pub open spec fn remaining(self) -> nat {
        match self {
            WriteState::Latest => 6,
            WriteState::Sequence { .. } => 5,
            WriteState::Begin { .. } => 4,
            WriteState::Fill { .. } => 3,
            WriteState::End { .. } => 2,
            WriteState::Publish { .. } => 1,
            WriteState::Done => 0,
        }
    }

    /// The event answers the state's action.
    pub open spec fn awaits(self, event: WriteEvent) -> bool {
        match self {
            WriteState::Latest => event is Latest,
            WriteState::Sequence { .. } => event is Sequence,
            WriteState::Fill { .. } => event is Filled,
            WriteState::Done => false,
            _ => event is Stored,
        }
    }

    /// Starts writing.
    pub fn first() -> (state: WriteState)
        ensures
            state == WriteState::Latest,
    {
        WriteState::Latest
    }

    /// What to do after an event.
    pub fn next(self, event: WriteEvent) -> (state: WriteState)
        requires
            self.wf(),
        ensures
            state == write_next(self, event),
            state.wf(),
            self.awaits(event) ==> state.remaining() < self.remaining(),
    {
        match (self, event) {
            (WriteState::Latest, WriteEvent::Latest { value }) => WriteState::Sequence {
                slot: next_slot(value),
            },
            (WriteState::Sequence { slot }, WriteEvent::Sequence { value }) => WriteState::Begin {
                slot,
                before: value,
            },
            (WriteState::Begin { slot, before }, WriteEvent::Stored) => WriteState::Fill {
                slot,
                before,
            },
            (WriteState::Fill { slot, before }, WriteEvent::Filled) => WriteState::End {
                slot,
                before,
            },
            (WriteState::End { slot, .. }, WriteEvent::Stored) => WriteState::Publish { slot },
            (WriteState::Publish { .. }, WriteEvent::Stored) => WriteState::Done,
            _ => self,
        }
    }

    /// The store that this state asks for, if any.
    pub fn store(self) -> (store: Option<Store>)
        requires
            self.wf(),
        ensures
            store == write_store(self),
    {
        match self {
            WriteState::Begin { slot, before } => Some(
                Store::Long { off: OFF_SEQ + slot * 8, value: begin_write(before) },
            ),
            WriteState::End { slot, before } => Some(
                Store::Long { off: OFF_SEQ + slot * 8, value: end_write(before) },
            ),
            WriteState::Publish { slot } => Some(
                Store::Word { off: OFF_LATEST, value: slot as u32 },
            ),
            _ => None,
        }
    }
}

// ---------------------------------------------------------------------------------------------
// Reader protocol

#[derive(Clone, Copy, PartialEq, Eq, Debug, Structural)]
pub enum ReadOutcome {
    Frame,
    NoFrame,
    WriterGone,
}

/// How often a reader tries to get an untorn frame.
pub const READ_ATTEMPTS: u32 = 3;

/// What a reader does next.
#[derive(Clone, Copy, PartialEq, Eq, Debug, Structural)]
pub enum ReadState {
    /// Load the number of the latest slot.
    Latest { attempt: u32 },
    /// Load the sequence number of the slot.
    Sequence { attempt: u32, slot: usize },
    /// Copy the slot.
    Copy { attempt: u32, slot: usize, seen: u64 },
    /// Load the sequence number of the slot again.
    Recheck { attempt: u32, slot: usize, seen: u64 },
    Done { outcome: ReadOutcome },
}

/// What came of the reader's last action.
#[allow(inconsistent_fields)]
#[derive(Clone, Copy, PartialEq, Eq, Debug, Structural)]
pub enum ReadEvent {
    Latest { value: u32 },
    Sequence { value: u64 },
    Copied,
}

/// What a reader does after an event: a slot that is being written is tried again, and so is one
/// that changed while it was copied, until the attempts are used up.
pub open spec fn read_next(state: ReadState, event: ReadEvent) -> ReadState {
    match (state, event) {
        (ReadState::Latest { attempt }, ReadEvent::Latest { value }) => if value < SLOT_COUNT {
            ReadState::Sequence { attempt, slot: value as usize }
        } else {
            ReadState::Done { outcome: ReadOutcome::NoFrame }
        },
        (ReadState::Sequence { attempt, slot }, ReadEvent::Sequence { value }) => if value % 2 == 1
            && attempt + 1 < READ_ATTEMPTS {
            ReadState::Latest { attempt: (attempt + 1) as u32 }
        } else {
            ReadState::Copy { attempt, slot, seen: value }
        },
        (ReadState::Copy { attempt, slot, seen }, ReadEvent::Copied) => ReadState::Recheck {
            attempt,
            slot,
            seen,
        },
        (ReadState::Recheck { attempt, slot, seen }, ReadEvent::Sequence { value }) => if value
            != seen && attempt + 1 < READ_ATTEMPTS {
            ReadState::Latest { attempt: (attempt + 1) as u32 }
        } else {
            ReadState::Done { outcome: ReadOutcome::Frame }
        },
        _ => state,
    }
}

/// The first state of a reader.
pub open spec fn read_first(writer_alive: bool) -> ReadState {
    if writer_alive {
        ReadState::Latest { attempt: 0 }
    } else {
        ReadState::Done { outcome: ReadOutcome::WriterGone }
    }
}

impl ReadState {
    /// The states that reading passes through.
    pub open spec fn wf(self) -> bool {
        match self {
            ReadState::Latest { attempt } => attempt < READ_ATTEMPTS,
            ReadState::Sequence { attempt, slot } => attempt < READ_ATTEMPTS && slot < SLOT_COUNT,
            ReadState::Copy { attempt, slot, seen } => attempt < READ_ATTEMPTS && slot < SLOT_COUNT,
            ReadState::Recheck { attempt, slot, seen } => attempt < READ_ATTEMPTS && slot
                < SLOT_COUNT,
            ReadState::Done { outcome } => true,
        }
    }

    /// How many loads and copies may still come.
    pub open spec fn remaining(self) -> nat {
        match self {
            ReadState::Latest { attempt } => (4 * (READ_ATTEMPTS - attempt)) as nat,
            ReadState::Sequence { attempt, slot } => (4 * (READ_ATTEMPTS - attempt) - 1) as nat,
            ReadState::Copy { attempt, slot, seen } => (4 * (READ_ATTEMPTS - attempt) - 2) as nat,
            ReadState::Recheck { attempt, slot, seen } => (4 * (READ_ATTEMPTS - attempt)
                - 3) as nat,
            ReadState::Done { outcome } => 0,
        }
    }

    /// The event answers the state's action.
    pub open spec fn awaits(self, event: ReadEvent) -> bool {
        match self {
            ReadState::Latest { .. } => event is Latest,
            ReadState::Sequence { .. } => event is Sequence,
            ReadState::Copy { .. } => event is Copied,
            ReadState::Recheck { .. } => event is Sequence,
            ReadState::Done { .. } => false,
        }
    }

    /// Starts reading.
    pub fn first(writer_alive: bool) -> (state: ReadState)
        ensures
            state == read_first(writer_alive),
            state.wf(),
    {
        if writer_alive {
            ReadState::Latest { attempt: 0 }
        } else {
            ReadState::Done { outcome: ReadOutcome::WriterGone }
        }
    }

    /// What to do after an event.
    pub fn next(self, event: ReadEvent) -> (state: ReadState)
        requires
            self.wf(),
        ensures
            state == read_next(self, event),
            state.wf(),
            self.awaits(event) ==> state.remaining() < self.remaining(),
    {
        match self {
            ReadState::Latest { attempt } => match event {
                ReadEvent::Latest { value } => if (value as usize) < SLOT_COUNT {
                    ReadState::Sequence { attempt, slot: value as usize }
                } else {
                    ReadState::Done { outcome: ReadOutcome::NoFrame }
                },
                _ => self,
            },
            ReadState::Sequence { attempt, slot } => match event {
                ReadEvent::Sequence { value } => if value % 2 == 1 && attempt + 1 < READ_ATTEMPTS {
                    ReadState::Latest { attempt: attempt + 1 }
                } else {
                    ReadState::Copy { attempt, slot, seen: value }
                },
                _ => self,
            },
            ReadState::Copy { attempt, slot, seen } => match event {
                ReadEvent::Copied => ReadState::Recheck { attempt, slot, seen },
                _ => self,
            },
            ReadState::Recheck { attempt, slot, seen } => match event {
                ReadEvent::Sequence { value } => if value != seen && attempt + 1 < READ_ATTEMPTS {
                    ReadState::Latest { attempt: attempt + 1 }
                } else {
                    ReadState::Done { outcome: ReadOutcome::Frame }
                },
                _ => self,
            },
            ReadState::Done { .. } => self,
        }
    }
}

/// Where a reader stands after some events.
pub open spec fn read_after(state: ReadState, events: Seq<ReadEvent>) -> ReadState
    decreases events.len(),
{
    if events.len() == 0 {
        state
    } else {
        read_next(read_after(state, events.drop_last()), events.last())
    }
}

/// The events are those of a reader at work: each answers what the reader asked for.
pub open spec fn read_run(state: ReadState, events: Seq<ReadEvent>) -> bool {
    forall|i: int|
        0 <= i < events.len() ==> read_after(state, #[trigger] events.take(i)).awaits(events[i])
}

/// How often a slot was copied.
pub open spec fn copies(events: Seq<ReadEvent>) -> int {
    events.filter(|e: ReadEvent| e is Copied).len() as int
}

proof fn lemma_run_step(state: ReadState, events: Seq<ReadEvent>)
    requires
        read_run(state, events),
        events.len() > 0,
    ensures
        read_run(state, events.drop_last()),
        read_after(state, events.drop_last()).awaits(events.last()),
        copies(events) == copies(events.drop_last()) + if events.last() is Copied {
            1int
        } else {
            0
        },
{
    let n = events.len() - 1;
    let before = events.drop_last();
    assert(events.take(n) =~= before);
    assert forall|i: int| 0 <= i < before.len() implies read_after(
        state,
        #[trigger] before.take(i),
    ).awaits(before[i]) by {
        assert(before.take(i) =~= events.take(i));
    }
    reveal(Seq::filter);
}

proof fn lemma_run(writer_alive: bool, events: Seq<ReadEvent>)
    requires
        read_run(read_first(writer_alive), events),
    ensures
        ({
            let state = read_after(read_first(writer_alive), events);
            let n = copies(events);
            &&& state.wf()
            &&& events.len() + state.remaining() <= 4 * READ_ATTEMPTS
            &&& !(state is Done) ==> writer_alive
            &&& match state {
                ReadState::Latest { attempt } => 0 <= n <= attempt,
                ReadState::Sequence { attempt, slot } => 0 <= n <= attempt,
                ReadState::Copy { attempt, slot, seen } => 0 <= n <= attempt,
                ReadState::Recheck { attempt, slot, seen } => 1 <= n <= attempt + 1,
                ReadState::Done { outcome } => {
                    &&& 0 <= n <= READ_ATTEMPTS
                    &&& outcome == ReadOutcome::Frame ==> 1 <= n
                    &&& outcome == ReadOutcome::WriterGone <==> !writer_alive
                },
            }
        }),
    decreases events.len(),
{
    if events.len() == 0 {
        reveal(Seq::filter);
    } else {
        lemma_run_step(read_first(writer_alive), events);
        lemma_run(writer_alive, events.drop_last());
    }
}

/// Whatever the loads of a reader give, and whoever changes the section meanwhile: reading ends,
/// it copies at most three times, each time one of the three slots, it reports a frame only after
/// a copy, and none where the number of the latest slot is no slot.
pub proof fn law_read_is_bounded(writer_alive: bool, events: Seq<ReadEvent>)
    requires
        read_run(read_first(writer_alive), events),
    ensures
        events.len() <= 4 * READ_ATTEMPTS,
        events.len() == 4 * READ_ATTEMPTS ==> read_after(read_first(writer_alive), events) is Done,
        copies(events) <= 3,
        forall|i: int|
            0 <= i < events.len() && events[i] is Copied ==> ({
                let state = read_after(read_first(writer_alive), #[trigger] events.take(i));
                state is Copy && 0 <= state->Copy_slot < SLOT_COUNT
            }),
        read_after(read_first(writer_alive), events) == (ReadState::Done {
            outcome: ReadOutcome::Frame,
        }) ==> copies(events) >= 1,
        !writer_alive ==> events.len() == 0 && read_after(read_first(writer_alive), events) == (
        ReadState::Done { outcome: ReadOutcome::WriterGone }),
        events.len() > 0 && (events.last() matches ReadEvent::Latest { value } && value
            >= SLOT_COUNT) ==> read_after(read_first(writer_alive), events) == (ReadState::Done {
            outcome: ReadOutcome::NoFrame,
        }),
{
    let first = read_first(writer_alive);
    lemma_run(writer_alive, events);
    assert forall|i: int| 0 <= i < events.len() && events[i] is Copied implies ({
        let state = read_after(first, #[trigger] events.take(i));
        state is Copy && 0 <= state->Copy_slot < SLOT_COUNT
    }) by {
        let before = events.take(i);
        assert forall|k: int| 0 <= k < before.len() implies read_after(
            first,
            #[trigger] before.take(k),
        ).awaits(before[k]) by {
            assert(before.take(k) =~= events.take(k));
        }
        lemma_run(writer_alive, before);
        assert(read_after(first, before).awaits(events[i]));
    }
    if events.len() > 0 {
        lemma_run_step(first, events);
    }
    if !writer_alive && events.len() > 0 {
        assert(events.take(0) =~= Seq::empty());
        assert(read_after(first, events.take(0)).awaits(events[0]));
    }
}

/// The loads give the same values all along.
pub open spec fn quiet(events: Seq<ReadEvent>, latest: u32, seq: u64) -> bool {
    forall|i: int|
        0 <= i < events.len() ==> match #[trigger] events[i] {
            ReadEvent::Latest { value } => value == latest,
            ReadEvent::Sequence { value } => value == seq,
            ReadEvent::Copied => true,
        }
}

/// While nobody changes the section, a reader copies the latest slot exactly once, even if its
/// writer stopped in the middle of it, and copies nothing if no slot is the latest.
pub proof fn law_quiet_read_copies_once(events: Seq<ReadEvent>, latest: u32, seq: u64)
    requires
        read_run(read_first(true), events),
        quiet(events, latest, seq),
        read_after(read_first(true), events) is Done,
    ensures
        read_after(read_first(true), events) == (ReadState::Done {
            outcome: if latest < SLOT_COUNT {
                ReadOutcome::Frame
            } else {
                ReadOutcome::NoFrame
            },
        }),
        copies(events) == if latest < SLOT_COUNT {
            1int
        } else {
            0
        },
        forall|i: int|
            0 <= i < events.len() && events[i] is Copied ==> ({
                let state = read_after(read_first(true), #[trigger] events.take(i));
                state is Copy && state->Copy_slot == latest
            }),
{
    lemma_quiet_run(events, latest, seq);
    assert forall|i: int| 0 <= i < events.len() && events[i] is Copied implies ({
        let state = read_after(read_first(true), #[trigger] events.take(i));
        state is Copy && state->Copy_slot == latest
    }) by {
        let before = events.take(i);
        assert forall|k: int| 0 <= k < before.len() implies read_after(
            read_first(true),
            #[trigger] before.take(k),
        ).awaits(before[k]) by {
            assert(before.take(k) =~= events.take(k));
        }
        lemma_quiet_run(before, latest, seq);
        assert(read_after(read_first(true), before).awaits(events[i]));
    }
}

proof fn lemma_quiet_run(events: Seq<ReadEvent>, latest: u32, seq: u64)
    requires
        read_run(read_first(true), events),
        quiet(events, latest, seq),
    ensures
        ({
            let n = copies(events);
            match read_after(read_first(true), events) {
                ReadState::Latest { attempt } => n == 0,
                ReadState::Sequence { attempt, slot } => n == 0 && slot == latest && latest
                    < SLOT_COUNT,
                ReadState::Copy { attempt, slot, seen } => n == 0 && slot == latest && latest
                    < SLOT_COUNT && seen == seq,
                ReadState::Recheck { attempt, slot, seen } => n == 1 && slot == latest && latest
                    < SLOT_COUNT && seen == seq,
                ReadState::Done { outcome } => if latest < SLOT_COUNT {
                    n == 1 && outcome == ReadOutcome::Frame
                } else {
                    n == 0 && outcome == ReadOutcome::NoFrame
                },
            }
        }),
    decreases events.len(),
{
    if events.len() == 0 {
        reveal(Seq::filter);
    } else {
        lemma_run_step(read_first(true), events);
        lemma_quiet_run(events.drop_last(), latest, seq);
    }
}

// ---------------------------------------------------------------------------------------------
// The ring

/// What a section holds.
#[verifier::ext_equal]
pub struct RingView {
    pub magic: int,
    pub version: int,
    pub width: int,
    pub height: int,
    pub latest: int,
    pub writer_hb: int,
    pub reader_hb: int,
    pub seqs: Seq<int>,
    pub slots: Seq<Seq<u8>>,
}

/// Where a slot starts.
pub open spec fn slot_offset(slot: int, width: int, height: int) -> int {
    HEADER_SIZE + slot * frame_bytes(width, height)
}

/// What the bytes of a section say.
pub open spec fn ring_view(mem: Seq<u8>, width: int, height: int) -> RingView {
    RingView {
        magic: crate::le::le32(mem, OFF_MAGIC as int),
        version: crate::le::le32(mem, OFF_VERSION as int),
        width: crate::le::le32(mem, OFF_WIDTH as int),
        height: crate::le::le32(mem, OFF_HEIGHT as int),
        latest: crate::le::le32(mem, OFF_LATEST as int),
        writer_hb: crate::le::le64(mem, OFF_WRITER_HB as int),
        reader_hb: crate::le::le64(mem, OFF_READER_HB as int),
        seqs: Seq::new(SLOT_COUNT as nat, |i: int| crate::le::le64(mem, OFF_SEQ + 8 * i)),
        slots: Seq::new(
            SLOT_COUNT as nat,
            |i: int| mem.subrange(slot_offset(i, width, height), slot_offset(i + 1, width, height)),
        ),
    }
}

impl RingView {
    /// The section is initialised for `width` x `height`.
    pub open spec fn valid_for(self, width: int, height: int) -> bool {
        &&& self.magic == SECTION_MAGIC
        &&& self.version == SECTION_VERSION
        &&& self.width == width
        &&& self.height == height
    }

    /// A freshly initialised section with the slots of `self`.
    pub open spec fn initialised(self, width: int, height: int) -> RingView {
        RingView {
            magic: SECTION_MAGIC as int,
            version: SECTION_VERSION as int,
            width,
            height,
            latest: NO_SLOT as int,
            writer_hb: 0,
            reader_hb: 0,
            seqs: seq![0, 0, 0],
            slots: self.slots,
        }
    }

    /// The section after one store into its header.
    pub open spec fn stored(self, store: Store) -> RingView {
        match store {
            Store::Word { off, value } => if off == OFF_MAGIC {
                RingView { magic: value as int, ..self }
            } else if off == OFF_VERSION {
                RingView { version: value as int, ..self }
            } else if off == OFF_WIDTH {
                RingView { width: value as int, ..self }
            } else if off == OFF_HEIGHT {
                RingView { height: value as int, ..self }
            } else {
                RingView { latest: value as int, ..self }
            },
            Store::Long { off, value } => if off == OFF_WRITER_HB {
                self.touched_by_writer(value as int)
            } else if off == OFF_READER_HB {
                self.touched_by_reader(value as int)
            } else {
                RingView { seqs: self.seqs.update((off - OFF_SEQ) / 8, value as int), ..self }
            },
        }
    }

    /// The section after the writer showed itself.
    pub open spec fn touched_by_writer(self, now: int) -> RingView {
        RingView { writer_hb: now, ..self }
    }

    /// The section after a reader showed itself.
    pub open spec fn touched_by_reader(self, now: int) -> RingView {
        RingView { reader_hb: now, ..self }
    }

    /// The section after the published frame was dropped.
    pub open spec fn invalidated(self) -> RingView {
        RingView { latest: NO_SLOT as int, ..self }
    }

    /// The section after `frame` was published.
    pub open spec fn published(self, frame: Seq<u8>) -> RingView {
        let slot = next_slot_spec(self.latest);
        RingView {
            latest: slot,
            seqs: self.seqs.update(slot, seq_after(self.seqs[slot])),
            slots: self.slots.update(slot, frame),
            ..self
        }
    }

    /// What a reader gets at `now`.
    pub open spec fn outcome(self, now: int) -> ReadOutcome {
        if !fresh(now, self.writer_hb, WRITER_ALIVE_MS as int) {
            ReadOutcome::WriterGone
        } else if !(0 <= self.latest < SLOT_COUNT) {
            ReadOutcome::NoFrame
        } else {
            ReadOutcome::Frame
        }
    }

    /// The frame that a reader gets when there is one.
    pub open spec fn frame(self) -> Seq<u8> {
        self.slots[self.latest]
    }
}

proof fn lemma_slot_bounds(slot: int, width: int, height: int)
    requires
        0 <= slot < SLOT_COUNT,
        0 <= width,
        0 <= height,
    ensures
        0 <= frame_bytes(width, height),
        HEADER_SIZE <= slot_offset(slot, width, height),
        slot_offset(slot + 1, width, height) == slot_offset(slot, width, height) + frame_bytes(
            width,
            height,
        ),
        slot_offset(slot + 1, width, height) <= section_bytes(width, height),
{
    assert(0 <= width * height) by (nonlinear_arith)
        requires
            0 <= width,
            0 <= height,
    ;
    let n = frame_bytes(width, height);
    assert(0 <= slot * n && (slot + 1) * n == slot * n + n && (slot + 1) * n <= 3 * n)
        by (nonlinear_arith)
        requires
            0 <= n,
            0 <= slot < 3,
    ;
}

/// A write within the header leaves the slots alone.
proof fn lemma_header_write(m1: Seq<u8>, m2: Seq<u8>, off: int, n: int, width: int, height: int)
    requires
        crate::le::same_outside(m1, m2, off, n),
        0 <= off,
        off + n <= HEADER_SIZE,
        0 <= width,
        0 <= height,
        section_bytes(width, height) <= m1.len(),
    ensures
        ring_view(m2, width, height).slots == ring_view(m1, width, height).slots,
{
    let v1 = ring_view(m1, width, height).slots;
    let v2 = ring_view(m2, width, height).slots;
    assert forall|i: int| 0 <= i < SLOT_COUNT implies #[trigger] v2[i] == v1[i] by {
        lemma_slot_bounds(i, width, height);
        assert(v2[i] =~= v1[i]);
    }
    assert(v2 =~= v1);
}

/// A section of at least [`section_size`] bytes, held in memory.
pub struct FrameRing {
    mem: Vec<u8>,
    width: u32,
    height: u32,
    writable: bool,
}

impl FrameRing {
    /// The bytes of the section.
    pub closed spec fn bytes(&self) -> Seq<u8> {
        self.mem@
    }

    pub closed spec fn spec_width(&self) -> u32 {
        self.width
    }

    pub closed spec fn spec_height(&self) -> u32 {
        self.height
    }

    pub closed spec fn spec_writable(&self) -> bool {
        self.writable
    }

    pub open spec fn view(&self) -> RingView {
        ring_view(self.bytes(), self.spec_width() as int, self.spec_height() as int)
    }

    /// The section is large enough for its frames.
    pub open spec fn wf(&self) -> bool {
        &&& addressable(self.spec_width() as int, self.spec_height() as int)
        &&& section_bytes(self.spec_width() as int, self.spec_height() as int) <= self.bytes().len()
    }

    /// `self` and `other` are rings of the same kind: same size, same access.
    pub open spec fn same_shape(&self, other: &FrameRing) -> bool {
        &&& self.spec_width() == other.spec_width()
        &&& self.spec_height() == other.spec_height()
        &&& self.spec_writable() == other.spec_writable()
        &&& self.bytes().len() == other.bytes().len()
    }

    /// A ring over the bytes of a section; only a `writable` one changes them.
    pub fn from_raw(mem: Vec<u8>, width: u32, height: u32, writable: bool) -> (ring: FrameRing)
        requires
            addressable(width as int, height as int),
            section_bytes(width as int, height as int) <= mem@.len(),
        ensures
            ring.wf(),
            ring.bytes() == mem@,
            ring.spec_width() == width,
            ring.spec_height() == height,
            ring.spec_writable() == writable,
    {
        FrameRing { mem, width, height, writable }
    }

    pub fn width(&self) -> (r: u32)
        ensures
            r == self.spec_width(),
    {
        self.width
    }

    pub fn height(&self) -> (r: u32)
        ensures
            r == self.spec_height(),
    {
        self.height
    }

    pub fn writable(&self) -> (r: bool)
        ensures
            r == self.spec_writable(),
    {
        self.writable
    }

    /// The bytes of the section, for another ring over the same section.
    pub fn into_bytes(self) -> (mem: Vec<u8>)
        ensures
            mem@ == self.bytes(),
    {
        self.mem
    }

    fn seq(&self, slot: usize) -> (r: u64)
        requires
            self.wf(),
            slot < SLOT_COUNT,
        ensures
            r == self@.seqs[slot as int],
    {
        proof {
            lemma_slot_bounds(0, self.width as int, self.height as int);
        }
        get64(self.mem.as_slice(), OFF_SEQ + slot * 8)
    }

    fn word(&self, off: usize) -> (r: u32)
        requires
            self.wf(),
            off + 4 <= HEADER_SIZE,
        ensures
            r == crate::le::le32(self.bytes(), off as int),
    {
        proof {
            lemma_slot_bounds(0, self.width as int, self.height as int);
        }
        get32(self.mem.as_slice(), off)
    }

    fn long(&self, off: usize) -> (r: u64)
        requires
            self.wf(),
            off + 8 <= HEADER_SIZE,
        ensures
            r == crate::le::le64(self.bytes(), off as int),
    {
        proof {
            lemma_slot_bounds(0, self.width as int, self.height as int);
        }
        get64(self.mem.as_slice(), off)
    }

    fn set_word(&mut self, off: usize, value: u32)
        requires
            old(self).wf(),
            off + 4 <= HEADER_SIZE,
        ensures
            final(self).wf(),
            final(self).same_shape(old(self)),
            crate::le::le32(final(self).bytes(), off as int) == value,
            crate::le::same_outside(old(self).bytes(), final(self).bytes(), off as int, 4),
            final(self)@.slots == old(self)@.slots,
    {
        proof {
            lemma_slot_bounds(0, self.width as int, self.height as int);
        }
        put32(self.mem.as_mut_slice(), off, value);
        proof {
            lemma_header_write(
                old(self).mem@,
                self.mem@,
                off as int,
                4,
                self.width as int,
                self.height as int,
            );
        }
    }

    fn set_long(&mut self, off: usize, value: u64)
        requires
            old(self).wf(),
            off + 8 <= HEADER_SIZE,
        ensures
            final(self).wf(),
            final(self).same_shape(old(self)),
            crate::le::le64(final(self).bytes(), off as int) == value,
            crate::le::same_outside(old(self).bytes(), final(self).bytes(), off as int, 8),
            final(self)@.slots == old(self)@.slots,
    {
        proof {
            lemma_slot_bounds(0, self.width as int, self.height as int);
        }
        put64(self.mem.as_mut_slice(), off, value);
        proof {
            lemma_header_write(
                old(self).mem@,
                self.mem@,
                off as int,
                8,
                self.width as int,
                self.height as int,
            );
        }
    }

    /// Carries out one store into the header.
    fn apply(&mut self, store: Store)
        requires
            old(self).wf(),
            store.is_field(),
        ensures
            final(self).wf(),
            final(self).same_shape(old(self)),
            final(self)@ == old(self)@.stored(store),
    {
        match store {
            Store::Word { off, value } => {
                self.set_word(off, value);
                assert(self@.seqs =~= old(self)@.seqs);
            },
            Store::Long { off, value } => {
                self.set_long(off, value);
                assert(self@.seqs =~= old(self)@.stored(store).seqs);
            },
        }
    }

    /// Carries out the store that a step of the writer asks for.
    fn carry_out(&mut self, state: WriteState)
        requires
            old(self).wf(),
            state.wf(),
        ensures
            final(self).wf(),
            final(self).same_shape(old(self)),
            final(self)@ == (match write_store(state) {
                Some(store) => old(self)@.stored(store),
                None => old(self)@,
            }),
    {
        if let Some(store) = state.store() {
            self.apply(store);
        }
    }

    /// Initialises a freshly created section.
    pub fn init_header(&mut self)
        requires
            old(self).wf(),
            old(self).spec_writable(),
        ensures
            final(self).wf(),
            final(self).same_shape(old(self)),
            final(self)@ == old(self)@.initialised(
                old(self).spec_width() as int,
                old(self).spec_height() as int,
            ),
    {
        let stores = header_stores(self.width, self.height);
        let mut i: usize = 0;
        while i < stores.len()
            invariant
                i <= stores@.len(),
                stores@ == header_stores_spec(self.width, self.height),
                self.wf(),
                self.same_shape(old(self)),
                self@.slots == old(self)@.slots,
                forall|k: int| 0 <= k < i ==> (#[trigger] stores@[k]).holds(self.bytes()),
            decreases stores@.len() - i,
        {
            let ghost before = self.bytes();
            match stores[i] {
                Store::Word { off, value } => self.set_word(off, value),
                Store::Long { off, value } => self.set_long(off, value),
            }
            assert forall|k: int| 0 <= k < i implies (#[trigger] stores@[k]).holds(self.bytes()) by {
                assert(stores@[k].holds(before));
                lemma_stores_disjoint(self.width, self.height, k, i as int);
            }
            i += 1;
        }
        assert(stores@[0].holds(self.bytes()) && stores@[1].holds(self.bytes()));
        assert(stores@[2].holds(self.bytes()) && stores@[3].holds(self.bytes()));
        assert(stores@[4].holds(self.bytes()) && stores@[5].holds(self.bytes()));
        assert(stores@[6].holds(self.bytes()) && stores@[7].holds(self.bytes()));
        assert(stores@[8].holds(self.bytes()) && stores@[9].holds(self.bytes()));
        assert(self@.seqs =~= seq![0, 0, 0]);
    }

    /// Whether the section is initialised for frames of this ring's size.
    pub fn header_valid(&self) -> (r: bool)
        requires
            self.wf(),
        ensures
            r == self@.valid_for(self.spec_width() as int, self.spec_height() as int),
    {
        header_matches(
            self.word(OFF_MAGIC),
            self.word(OFF_VERSION),
            self.word(OFF_WIDTH),
            self.word(OFF_HEIGHT),
            self.width,
            self.height,
        )
    }

    /// Sets the writer's heartbeat.
    pub fn touch_writer(&mut self, now_ms: u64)
        requires
            old(self).wf(),
        ensures
            final(self).wf(),
            final(self).same_shape(old(self)),
            final(self).spec_writable() ==> final(self)@ == old(self)@.touched_by_writer(
                now_ms as int,
            ),
            !final(self).spec_writable() ==> *final(self) == *old(self),
    {
        if self.writable {
            self.set_long(OFF_WRITER_HB, now_ms);
            assert(self@.seqs =~= old(self)@.seqs);
        }
    }

    /// Sets the readers' heartbeat.
    pub fn touch_reader(&mut self, now_ms: u64)
        requires
            old(self).wf(),
        ensures
            final(self).wf(),
            final(self).same_shape(old(self)),
            final(self).spec_writable() ==> final(self)@ == old(self)@.touched_by_reader(
                now_ms as int,
            ),
            !final(self).spec_writable() ==> *final(self) == *old(self),
    {
        if self.writable {
            self.set_long(OFF_READER_HB, now_ms);
            assert(self@.seqs =~= old(self)@.seqs);
        }
    }

    /// Whether a reader showed itself lately.
    pub fn reader_active(&self, now_ms: u64) -> (r: bool)
        requires
            self.wf(),
        ensures
            r == fresh(now_ms as int, self@.reader_hb, READER_ACTIVE_MS as int),
    {
        is_fresh(now_ms, self.long(OFF_READER_HB), READER_ACTIVE_MS)
    }

    /// Whether the writer showed itself lately.
    pub fn writer_alive(&self, now_ms: u64) -> (r: bool)
        requires
            self.wf(),
        ensures
            r == fresh(now_ms as int, self@.writer_hb, WRITER_ALIVE_MS as int),
    {
        is_fresh(now_ms, self.long(OFF_WRITER_HB), WRITER_ALIVE_MS)
    }

    /// Drops the published frame so no later reader can see stale desktop content.
    pub fn invalidate(&mut self)
        requires
            old(self).wf(),
        ensures
            final(self).wf(),
            final(self).same_shape(old(self)),
            final(self).spec_writable() ==> final(self)@ == old(self)@.invalidated(),
            !final(self).spec_writable() ==> *final(self) == *old(self),
    {
        if self.writable {
            self.set_word(OFF_LATEST, NO_SLOT);
            assert(self@.seqs =~= old(self)@.seqs);
        }
    }

    /// The number of the slot published last.
    pub fn latest_slot(&self) -> (r: u32)
        requires
            self.wf(),
        ensures
            r == self@.latest,
    {
        self.word(OFF_LATEST)
    }

    /// The bytes of a slot.
    pub fn slot(&self, slot: usize) -> (r: &[u8])
        requires
            self.wf(),
            slot < SLOT_COUNT,
        ensures
            r@ == self@.slots[slot as int],
            r@.len() == frame_bytes(self.spec_width() as int, self.spec_height() as int),
    {
        let n = frame_size(self.width, self.height);
        proof {
            lemma_slot_bounds(slot as int, self.width as int, self.height as int);
            lemma_slot_product(slot as int, n as int);
        }
        let start: usize = HEADER_SIZE + slot * n;
        vstd::slice::slice_subrange(self.mem.as_slice(), start, start + n)
    }

    /// Reader: the outcome at `now_ms` and the frame that goes with it (empty without one).
    pub fn newest(&self, now_ms: u64) -> (r: (ReadOutcome, &[u8]))
        requires
            self.wf(),
        ensures
            r.0 == self@.outcome(now_ms as int),
            r.0 == ReadOutcome::Frame ==> r.1@ == self@.frame(),
            r.0 != ReadOutcome::Frame ==> r.1@ == Seq::<u8>::empty(),
    {
        let mut frame: &[u8] = vstd::slice::slice_subrange(self.mem.as_slice(), 0, 0);
        let mut state = ReadState::first(self.writer_alive(now_ms));
        loop
            invariant
                self.wf(),
                state.wf(),
                match state {
                    ReadState::Latest { .. } => self@.outcome(now_ms as int) != ReadOutcome::WriterGone,
                    ReadState::Sequence { slot, .. } => slot == self@.latest,
                    ReadState::Copy { slot, seen, .. } => slot == self@.latest && seen
                        == self@.seqs[slot as int],
                    ReadState::Recheck { slot, seen, .. } => slot == self@.latest && seen
                        == self@.seqs[slot as int] && frame@ == self@.frame(),
                    ReadState::Done { outcome } => outcome == self@.outcome(now_ms as int),
                },
                !(state is Done) ==> self@.outcome(now_ms as int) != ReadOutcome::WriterGone,
                !(state is Done) && !(state is Recheck) ==> frame@ == Seq::<u8>::empty(),
                state is Done ==> frame@ == (if self@.outcome(now_ms as int) == ReadOutcome::Frame {
                    self@.frame()
                } else {
                    Seq::<u8>::empty()
                }),
            decreases state.remaining(),
        {
            match state {
                ReadState::Latest { .. } => {
                    state = state.next(ReadEvent::Latest { value: self.latest_slot() });
                },
                ReadState::Sequence { slot, .. } => {
                    state = state.next(ReadEvent::Sequence { value: self.seq(slot) });
                },
                ReadState::Copy { slot, .. } => {
                    frame = self.slot(slot);
                    state = state.next(ReadEvent::Copied);
                },
                ReadState::Recheck { slot, .. } => {
                    state = state.next(ReadEvent::Sequence { value: self.seq(slot) });
                },
                ReadState::Done { outcome } => {
                    return (outcome, frame);
                },
            }
        }
    }

    /// Reader: hands the latest published frame to `copy`. Nobody else changes the bytes of this
    /// ring, so `copy` runs once where there is a frame, and not at all where there is none.
    pub fn read_latest<F: FnOnce(&[u8])>(&self, now_ms: u64, copy: F) -> (r: ReadOutcome)
        requires
            self.wf(),
            self@.outcome(now_ms as int) == ReadOutcome::Frame ==> forall|b: &[u8]|
                b@ == self@.frame() ==> call_requires(copy, (b,)),
        ensures
            r == self@.outcome(now_ms as int),
            r == ReadOutcome::Frame ==> exists|b: &[u8]|
                b@ == self@.frame() && #[trigger] call_ensures(copy, (b,), ()),
            r == ReadOutcome::Frame ==> self@.frame().len() == frame_bytes(
                self.spec_width() as int,
                self.spec_height() as int,
            ),
    {
        let (outcome, frame) = self.newest(now_ms);
        if outcome == ReadOutcome::Frame {
            proof {
                lemma_slot_len(self, self@.latest);
            }
            copy(frame);
        }
        outcome
    }

    /// Writer: fills the slot after the latest one and publishes it.
    pub fn publish<F: FnOnce(&mut [u8])>(&mut self, fill: F)
        requires
            old(self).wf(),
            old(self).spec_writable(),
            forall|b: &mut [u8]|
                b@ == old(self)@.slots[next_slot_spec(old(self)@.latest)] ==> call_requires(
                    fill,
                    (b,),
                ),
            // Filling a slice keeps its length.
            forall|b: &mut [u8]|
                b@ == old(self)@.slots[next_slot_spec(old(self)@.latest)] && #[trigger] call_ensures(
                    fill,
                    (b,),
                    (),
                ) ==> final(b)@.len() == b@.len(),
        ensures
            final(self).wf(),
            final(self).same_shape(old(self)),
            exists|b: &mut [u8]|
                b@ == old(self)@.slots[next_slot_spec(old(self)@.latest)] && #[trigger] call_ensures(
                    fill,
                    (b,),
                    (),
                ) && final(self)@ == old(self)@.published(final(b)@),
    {
        let latest = self.latest_slot();
        let slot = next_slot(latest);
        let sequence = WriteState::first().next(WriteEvent::Latest { value: latest });
        let begin = sequence.next(WriteEvent::Sequence { value: self.seq(slot) });
        self.carry_out(begin);
        let ghost filling = *self;
        self.fill_slot(slot, fill);
        let ghost filled = *self;
        let end = begin.next(WriteEvent::Stored).next(WriteEvent::Filled);
        self.carry_out(end);
        self.carry_out(end.next(WriteEvent::Stored));
        proof {
            let b = choose|b: &mut [u8]|
                b@ == filling@.slots[slot as int] && #[trigger] call_ensures(fill, (b,), ())
                    && filled@.slots == filling@.slots.update(slot as int, final(b)@);
            assert forall|i: int| 0 <= i < HEADER_SIZE implies #[trigger] filled.bytes()[i]
                == filling.bytes()[i] by {
                assert(filled.bytes().take(HEADER_SIZE as int)[i] == filling.bytes().take(
                    HEADER_SIZE as int,
                )[i]);
            }
            assert(filled@.seqs =~= filling@.seqs);
            assert(self@.seqs =~= old(self)@.published(final(b)@).seqs);
            assert(self@.slots =~= old(self)@.published(final(b)@).slots);
            assert(self@ == old(self)@.published(final(b)@));
        }
    }

    fn fill_slot<F: FnOnce(&mut [u8])>(&mut self, slot: usize, fill: F)
        requires
            old(self).wf(),
            slot < SLOT_COUNT,
            forall|b: &mut [u8]|
                b@ == old(self)@.slots[slot as int] ==> call_requires(fill, (b,)),
            forall|b: &mut [u8]|
                b@ == old(self)@.slots[slot as int] && #[trigger] call_ensures(fill, (b,), ())
                    ==> final(b)@.len() == b@.len(),
        ensures
            final(self).wf(),
            final(self).same_shape(old(self)),
            final(self).bytes().take(HEADER_SIZE as int) == old(self).bytes().take(HEADER_SIZE as int),
            exists|b: &mut [u8]|
                b@ == old(self)@.slots[slot as int] && #[trigger] call_ensures(fill, (b,), ())
                    && final(self)@.slots == old(self)@.slots.update(slot as int, final(b)@),
    {
        let n = frame_size(self.width, self.height);
        proof {
            lemma_slot_bounds(slot as int, self.width as int, self.height as int);
            lemma_slot_product(slot as int, n as int);
        }
        let start: usize = HEADER_SIZE + slot * n;
        fill_range(self.mem.as_mut_slice(), start, n, fill);
        proof {
            let m1 = old(self).mem@;
            let b = choose|b: &mut [u8]|
                b@ == m1.subrange(start as int, start + n) && #[trigger] call_ensures(fill, (b,), ())
                    && final(b)@.len() == n && self.mem@ == m1.take(start as int) + final(b)@
                    + m1.skip(start + n);
            lemma_slot_write(
                m1,
                self.mem@,
                final(b)@,
                slot as int,
                self.width as int,
                self.height as int,
            );
            assert(b@ == old(self)@.slots[slot as int]);
        }
    }
}

fn fill_range<F: FnOnce(&mut [u8])>(mem: &mut [u8], start: usize, n: usize, fill: F)
    requires
        start + n <= old(mem)@.len(),
        forall|b: &mut [u8]|
            b@ == old(mem)@.subrange(start as int, start + n) ==> call_requires(fill, (b,)),
        forall|b: &mut [u8]|
            b@ == old(mem)@.subrange(start as int, start + n) && #[trigger] call_ensures(
                fill,
                (b,),
                (),
            ) ==> final(b)@.len() == b@.len(),
    ensures
        exists|b: &mut [u8]|
            b@ == old(mem)@.subrange(start as int, start + n) && #[trigger] call_ensures(
                fill,
                (b,),
                (),
            ) && final(b)@.len() == n && final(mem)@ == old(mem)@.take(start as int) + final(b)@ + old(mem)@.skip(start + n),
{
    let (_, rest) = mem.split_at_mut(start);
    let (bytes, _) = rest.split_at_mut(n);
    assert(bytes@ == old(mem)@.subrange(start as int, start + n));
    fill(bytes);
}

/// A write of one slot leaves the header and the other slots alone.
proof fn lemma_slot_write(m1: Seq<u8>, m2: Seq<u8>, b: Seq<u8>, slot: int, width: int, height: int)
    requires
        0 <= slot < SLOT_COUNT,
        0 <= width,
        0 <= height,
        section_bytes(width, height) <= m1.len(),
        b.len() == frame_bytes(width, height),
        m2 == m1.take(slot_offset(slot, width, height)) + b + m1.skip(
            slot_offset(slot + 1, width, height),
        ),
    ensures
        m2.len() == m1.len(),
        m2.take(HEADER_SIZE as int) == m1.take(HEADER_SIZE as int),
        ring_view(m2, width, height).slots == ring_view(m1, width, height).slots.update(slot, b),
{
    lemma_slot_bounds(slot, width, height);
    assert(m2.take(HEADER_SIZE as int) =~= m1.take(HEADER_SIZE as int));
    let v1 = ring_view(m1, width, height).slots;
    let v2 = ring_view(m2, width, height).slots;
    assert forall|i: int| 0 <= i < SLOT_COUNT implies #[trigger] v2[i] == v1.update(slot, b)[i] by {
        lemma_slot_bounds(i, width, height);
        if i < slot {
            lemma_slot_order(i, slot, width, height);
        } else if i > slot {
            lemma_slot_order(slot, i, width, height);
        }
        assert(v2[i] =~= v1.update(slot, b)[i]);
    }
    assert(v2 =~= v1.update(slot, b));
}

proof fn lemma_slot_order(i: int, j: int, width: int, height: int)
    requires
        0 <= i < j < SLOT_COUNT,
        0 <= frame_bytes(width, height),
    ensures
        slot_offset(i + 1, width, height) <= slot_offset(j, width, height),
{
    let n = frame_bytes(width, height);
    assert((i + 1) * n <= j * n) by (nonlinear_arith)
        requires
            i + 1 <= j,
            0 <= n,
    ;
}

/// A slot has the size of a frame.
pub proof fn lemma_slot_len(ring: &FrameRing, slot: int)
    requires
        ring.wf(),
        0 <= slot < SLOT_COUNT,
    ensures
        ring@.slots[slot].len() == frame_bytes(
            ring.spec_width() as int,
            ring.spec_height() as int,
        ),
{
    lemma_slot_bounds(slot, ring.spec_width() as int, ring.spec_height() as int);
}

proof fn lemma_slot_product(slot: int, n: int)
    requires
        0 <= slot < SLOT_COUNT,
        0 <= n,
    ensures
        0 <= slot * n,
        slot * n + n <= SLOT_COUNT * n,
{
    assert(0 <= slot * n && slot * n + n <= 3 * n) by (nonlinear_arith)
        requires
            0 <= n,
            0 <= slot < 3,
    ;
}

// ---------------------------------------------------------------------------------------------
// Laws

/// A reader gets what was published last, as long as the writer is alive.
pub proof fn law_read_gives_published(ring: RingView, frame: Seq<u8>, now: int)
    requires
        ring.slots.len() == SLOT_COUNT,
        ring.seqs.len() == SLOT_COUNT,
        fresh(now, ring.writer_hb, WRITER_ALIVE_MS as int),
    ensures
        ring.published(frame).outcome(now) == ReadOutcome::Frame,
        ring.published(frame).frame() == frame,
{
}

/// A change that a process makes to a section.
pub enum RingChange {
    Init,
    TouchWriter { now: u64 },
    TouchReader { now: u64 },
    Publish { frame: Seq<u8> },
    Invalidate,
}

/// The section after a change.
pub open spec fn changed(ring: RingView, change: RingChange, width: int, height: int) -> RingView {
    match change {
        RingChange::Init => ring.initialised(width, height),
        RingChange::TouchWriter { now } => ring.touched_by_writer(now as int),
        RingChange::TouchReader { now } => ring.touched_by_reader(now as int),
        RingChange::Publish { frame } => ring.published(frame),
        RingChange::Invalidate => ring.invalidated(),
    }
}

/// The section after some changes, one after the other.
pub open spec fn changed_by_all(
    ring: RingView,
    changes: Seq<RingChange>,
    width: int,
    height: int,
) -> RingView
    decreases changes.len(),
{
    if changes.len() == 0 {
        ring
    } else {
        changed(
            changed_by_all(ring, changes.drop_last(), width, height),
            changes.last(),
            width,
            height,
        )
    }
}

/// The frame published last, unless the section was initialised or the frame dropped since.
pub open spec fn last_published(changes: Seq<RingChange>) -> Option<Seq<u8>>
    decreases changes.len(),
{
    if changes.len() == 0 {
        None
    } else {
        match changes.last() {
            RingChange::Publish { frame } => Some(frame),
            RingChange::Init => None,
            RingChange::Invalidate => None,
            _ => last_published(changes.drop_last()),
        }
    }
}

/// When the writer showed itself last; 0 if it did not since the section was initialised.
pub open spec fn last_heartbeat(changes: Seq<RingChange>) -> int
    decreases changes.len(),
{
    if changes.len() == 0 {
        0
    } else {
        match changes.last() {
            RingChange::TouchWriter { now } => now as int,
            RingChange::Init => 0,
            _ => last_heartbeat(changes.drop_last()),
        }
    }
}

/// Whatever happened to a section since it was initialised, a reader learns that the writer is
/// gone if and only if its last heartbeat is too old; otherwise it gets the frame published last,
/// or none if none was published since the section was initialised or its frame dropped.
pub proof fn law_read_after_any_changes(
    ring: RingView,
    changes: Seq<RingChange>,
    width: int,
    height: int,
    now: int,
)
    requires
        ring.slots.len() == SLOT_COUNT,
        changes.len() > 0,
        changes[0] is Init,
    ensures
        ({
            let after = changed_by_all(ring, changes, width, height);
            &&& after.outcome(now) == (if !fresh(
                now,
                last_heartbeat(changes),
                WRITER_ALIVE_MS as int,
            ) {
                ReadOutcome::WriterGone
            } else if last_published(changes) is None {
                ReadOutcome::NoFrame
            } else {
                ReadOutcome::Frame
            })
            &&& last_published(changes) matches Some(frame) ==> after.frame() == frame
            &&& after.valid_for(width, height)
        }),
{
    lemma_changed_by_all(ring, changes, width, height);
}

proof fn lemma_changed_by_all(ring: RingView, changes: Seq<RingChange>, width: int, height: int)
    requires
        ring.slots.len() == SLOT_COUNT,
        changes.len() > 0,
        changes[0] is Init,
    ensures
        ({
            let after = changed_by_all(ring, changes, width, height);
            &&& after.slots.len() == SLOT_COUNT
            &&& after.writer_hb == last_heartbeat(changes)
            &&& after.valid_for(width, height)
            &&& match last_published(changes) {
                Some(frame) => 0 <= after.latest < SLOT_COUNT && after.frame() == frame,
                None => after.latest == NO_SLOT,
            }
        }),
    decreases changes.len(),
{
    if changes.len() > 1 {
        lemma_changed_by_all(ring, changes.drop_last(), width, height);
    } else {
        assert(changed_by_all(ring, changes.drop_last(), width, height) == ring);
    }
}

/// The three stores of a writer, with the bytes written between the first two, publish the frame.
pub proof fn law_stores_publish(ring: RingView, frame: Seq<u8>)
    requires
        ring.slots.len() == SLOT_COUNT,
        ring.seqs.len() == SLOT_COUNT,
        forall|k: int| 0 <= k < SLOT_COUNT ==> 0 <= #[trigger] ring.seqs[k] <= u64::MAX,
    ensures
        ({
            let slot = next_slot_spec(ring.latest) as usize;
            let before = ring.seqs[slot as int] as u64;
            let begun = ring.stored(write_store(WriteState::Begin { slot, before }).unwrap());
            let filled = RingView { slots: begun.slots.update(slot as int, frame), ..begun };
            let ended = filled.stored(write_store(WriteState::End { slot, before }).unwrap());
            let done = ended.stored(write_store(WriteState::Publish { slot }).unwrap());
            &&& begun.seqs[slot as int] % 2 == 1
            &&& done == ring.published(frame)
        }),
{
    let slot = next_slot_spec(ring.latest) as usize;
    let before = ring.seqs[slot as int] as u64;
    let begun = ring.stored(write_store(WriteState::Begin { slot, before }).unwrap());
    let ended = begun.stored(write_store(WriteState::End { slot, before }).unwrap());
    assert(ended.seqs =~= ring.published(frame).seqs);
}

/// Publishing never writes the slot published before, and moves on to another one.
pub proof fn law_publish_spares_latest(ring: RingView, frame: Seq<u8>)
    requires
        ring.slots.len() == SLOT_COUNT,
        ring.seqs.len() == SLOT_COUNT,
    ensures
        ring.published(frame).latest != ring.latest,
        0 <= ring.latest < SLOT_COUNT ==> ring.published(frame).slots[ring.latest]
            == ring.slots[ring.latest],
        0 <= ring.latest < SLOT_COUNT ==> ring.published(frame).seqs[ring.latest]
            == ring.seqs[ring.latest],
{
}

/// After three frames every slot was written.
pub proof fn law_publish_goes_round(ring: RingView, a: Seq<u8>, b: Seq<u8>, c: Seq<u8>)
    requires
        ring.slots.len() == SLOT_COUNT,
        ring.seqs.len() == SLOT_COUNT,
    ensures
        ({
            let last = ring.published(a).published(b).published(c);
            &&& last.slots[last.latest] == c
            &&& last.slots[(last.latest + 2) % 3] == b
            &&& last.slots[(last.latest + 1) % 3] == a
        }),
{
}

/// After the frame was dropped, no reader gets one, whatever the time.
pub proof fn law_invalidated_is_unreadable(ring: RingView, now: int)
    ensures
        ring.invalidated().outcome(now) != ReadOutcome::Frame,
{
}

/// A freshly initialised section is valid and holds no frame.
pub proof fn law_initialised_is_valid_and_empty(ring: RingView, width: int, height: int, now: int)
    ensures
        ring.initialised(width, height).valid_for(width, height),
        ring.initialised(width, height).outcome(now) != ReadOutcome::Frame,
{
}

/// A section is valid for at most one frame size.
pub proof fn law_valid_for_one_size(ring: RingView, w1: int, h1: int, w2: int, h2: int)
    requires
        ring.valid_for(w1, h1),
        ring.valid_for(w2, h2),
    ensures
        w1 == w2,
        h1 == h2,
{
}

/// `trace` is the memory of a section before and after each store of its initialisation.
pub open spec fn stored_in_order(trace: Seq<Seq<u8>>, width: u32, height: u32) -> bool {
    &&& trace.len() == 11
    &&& trace[0].len() >= HEADER_SIZE
    &&& forall|i: int|
        0 <= i < 10 ==> {
            let store = #[trigger] header_stores_spec(width, height)[i];
            &&& crate::le::same_outside(trace[i], trace[i + 1], store.offset(), store.size())
            &&& store.holds(trace[i + 1])
        }
}

/// While the header of a new section is being written, the section is not valid; once it is
/// written, the section is valid and empty.
pub proof fn law_header_appears_at_once(trace: Seq<Seq<u8>>, width: u32, height: u32)
    requires
        stored_in_order(trace, width, height),
        ring_view(trace[0], width as int, height as int).magic != SECTION_MAGIC,
    ensures
        forall|i: int|
            0 <= i < 10 ==> !ring_view(#[trigger] trace[i], width as int, height as int).valid_for(
                width as int,
                height as int,
            ),
        ring_view(trace[10], width as int, height as int).valid_for(width as int, height as int),
        ring_view(trace[10], width as int, height as int).latest == NO_SLOT,
        ring_view(trace[10], width as int, height as int).seqs == seq![0int, 0, 0],
{
    assert forall|i: int| 0 <= i < 10 implies !ring_view(
        #[trigger] trace[i],
        width as int,
        height as int,
    ).valid_for(width as int, height as int) by {
        lemma_magic_last(trace, width, height, i);
    }
    lemma_last_store(trace, width, height);
}

proof fn lemma_last_store(trace: Seq<Seq<u8>>, width: u32, height: u32)
    requires
        stored_in_order(trace, width, height),
    ensures
        ring_view(trace[10], width as int, height as int).valid_for(width as int, height as int),
        ring_view(trace[10], width as int, height as int).latest == NO_SLOT,
        ring_view(trace[10], width as int, height as int).seqs == seq![0int, 0, 0],
{
    let m = trace[10];
    lemma_store_kept(trace, width, height, 0, 10);
    assert(crate::le::le32(m, OFF_WIDTH as int) == width);
    lemma_store_kept(trace, width, height, 1, 10);
    assert(crate::le::le32(m, OFF_HEIGHT as int) == height);
    lemma_store_kept(trace, width, height, 2, 10);
    assert(crate::le::le32(m, OFF_LATEST as int) == NO_SLOT);
    lemma_store_kept(trace, width, height, 5, 10);
    lemma_store_kept(trace, width, height, 6, 10);
    lemma_store_kept(trace, width, height, 7, 10);
    assert(ring_view(m, width as int, height as int).seqs =~= seq![0int, 0, 0]);
    lemma_store_kept(trace, width, height, 8, 10);
    assert(crate::le::le32(m, OFF_VERSION as int) == SECTION_VERSION);
    lemma_store_kept(trace, width, height, 9, 10);
    assert(crate::le::le32(m, OFF_MAGIC as int) == SECTION_MAGIC);
}

proof fn lemma_magic_last(trace: Seq<Seq<u8>>, width: u32, height: u32, i: int)
    requires
        stored_in_order(trace, width, height),
        0 <= i < 10,
        crate::le::le32(trace[0], OFF_MAGIC as int) != SECTION_MAGIC,
    ensures
        crate::le::le32(trace[i], OFF_MAGIC as int) != SECTION_MAGIC,
        trace[i].len() == trace[0].len(),
    decreases i,
{
    if i > 0 {
        lemma_magic_last(trace, width, height, i - 1);
        let store = header_stores_spec(width, height)[i - 1];
        assert(crate::le::same_outside(trace[i - 1], trace[i], store.offset(), store.size()));
        lemma_stores_disjoint(width, height, i - 1, 9);
    }
}

proof fn lemma_store_kept(trace: Seq<Seq<u8>>, width: u32, height: u32, k: int, i: int)
    requires
        stored_in_order(trace, width, height),
        0 <= k < i <= 10,
    ensures
        header_stores_spec(width, height)[k].holds(trace[i]),
        trace[i].len() >= HEADER_SIZE,
    decreases i,
{
    let store = header_stores_spec(width, height)[i - 1];
    assert(crate::le::same_outside(trace[i - 1], trace[i], store.offset(), store.size()));
    if k + 1 < i {
        lemma_store_kept(trace, width, height, k, i - 1);
        lemma_stores_disjoint(width, height, k, i - 1);
    } else if k > 0 {
        lemma_store_kept(trace, width, height, k - 1, i - 1);
    }
}

/// Different sections have different names.
pub proof fn law_section_name_injective(
    ns1: Namespace,
    w1: nat,
    h1: nat,
    ns2: Namespace,
    w2: nat,
    h2: nat,
)
    requires
        section_name_text(ns1, w1, h1) == section_name_text(ns2, w2, h2),
    ensures
        ns1 == ns2,
        w1 == w2,
        h1 == h2,
{
    reveal_strlit("Global");
    reveal_strlit("Local");
    reveal_strlit("\\DeskCam-v1-");
    reveal_strlit("x");
    let s = section_name_text(ns1, w1, h1);
    assert(s[0] == (if ns1 == Namespace::Global {
        'G'
    } else {
        'L'
    }));
    assert(section_name_text(ns2, w2, h2)[0] == (if ns2 == Namespace::Global {
        'G'
    } else {
        'L'
    }));
    let n: int = if ns1 == Namespace::Global {
        18
    } else {
        17
    };
    let d1 = crate::text::decimal(w1);
    let d2 = crate::text::decimal(w2);
    crate::text::law_decimal_is_digits(w1);
    crate::text::law_decimal_is_digits(w2);
    assert(s.skip(n) =~= d1 + "x"@ + crate::text::decimal(h1));
    assert(s.skip(n) =~= d2 + "x"@ + crate::text::decimal(h2));
    let rest = s.skip(n);
    if d1.len() < d2.len() {
        assert(rest[d1.len() as int] == 'x');
        assert(rest[d1.len() as int] == d2[d1.len() as int]);
        assert(crate::text::is_digit(d2[d1.len() as int]));
    } else if d2.len() < d1.len() {
        assert(rest[d2.len() as int] == 'x');
        assert(rest[d2.len() as int] == d1[d2.len() as int]);
        assert(crate::text::is_digit(d1[d2.len() as int]));
    }
    assert(d1 =~= rest.take(d1.len() as int));
    assert(d2 =~= rest.take(d2.len() as int));
    assert(crate::text::decimal(h1) =~= rest.skip(d1.len() + 1int));
    assert(crate::text::decimal(h2) =~= rest.skip(d2.len() + 1int));
    crate::text::law_decimal_injective(w1, w2);
    crate::text::law_decimal_injective(h1, h2);
}

/// A heartbeat counts from the moment it is set until `window` milliseconds later, and no longer;
/// one from the future counts.
pub proof fn law_heartbeat_expires(heartbeat: int, window: int, d: int)
    requires
        0 < window,
        0 <= d,
    ensures
        fresh(heartbeat + d, heartbeat, window) <==> d < window,
        fresh(heartbeat - d, heartbeat, window),
{
}

/// Slots follow each other in a circle; without a latest one the first is next.
pub proof fn law_slots_go_round(latest: int)
    ensures
        next_slot_spec(0) == 1,
        next_slot_spec(1) == 2,
        next_slot_spec(2) == 0,
        latest < 0 || latest > 2 ==> next_slot_spec(latest) == 0,
{
}

/// A slot with the even number `2k` carries `2k + 1` while it is written and `2k + 2` afterwards; a
/// writer that died left an odd number, which the next one keeps while it writes.
pub proof fn law_sequence_numbers(k: int)
    requires
        0 <= k < 0x7fff_ffff_ffff_ffff,
    ensures
        seq_during(2 * k) == 2 * k + 1,
        seq_after(2 * k) == 2 * k + 2,
        seq_during(2 * k + 1) == 2 * k + 1,
        seq_after(2 * k + 1) == 2 * k + 2,
{
}

/// A section is a page of 4096 bytes and three slots behind it, one after the other, each as long
/// as an NV12 frame.
pub proof fn law_section_layout(width: int, height: int)
    requires
        0 <= width,
        0 <= height,
        height % 2 == 0,
    ensures
        frame_bytes(width, height) == width * height + width * (height / 2),
        slot_offset(0, width, height) == 4096,
        slot_offset(1, width, height) == 4096 + frame_bytes(width, height),
        slot_offset(2, width, height) == 4096 + 2 * frame_bytes(width, height),
        section_bytes(width, height) == 4096 + 3 * frame_bytes(width, height),
{
    let h2 = height / 2;
    assert(width * height == 2 * (width * h2)) by (nonlinear_arith)
        requires
            height == 2 * h2,
    ;
    let n = frame_bytes(width, height);
    assert(0 * n == 0 && 1 * n == n);
}

/// Where the fields of the header stand.
pub proof fn law_header_fields(mem: Seq<u8>, width: int, height: int)
    ensures
        ({
            let v = ring_view(mem, width, height);
            &&& v.magic == crate::le::le32(mem, 0)
            &&& v.version == crate::le::le32(mem, 4)
            &&& v.width == crate::le::le32(mem, 8)
            &&& v.height == crate::le::le32(mem, 12)
            &&& v.latest == crate::le::le32(mem, 16)
            &&& v.writer_hb == crate::le::le64(mem, 32)
            &&& v.reader_hb == crate::le::le64(mem, 40)
            &&& v.seqs == seq![
                crate::le::le64(mem, 64),
                crate::le::le64(mem, 72),
                crate::le::le64(mem, 80),
            ]
            &&& v.slots.len() == 3
        }),
{
    let v = ring_view(mem, width, height);
    assert(v.seqs =~= seq![
        crate::le::le64(mem, 64),
        crate::le::le64(mem, 72),
        crate::le::le64(mem, 80),
    ]);
}

/// Byte `i` of a slot is the byte that far behind the slot's start.
pub proof fn law_slot_bytes(mem: Seq<u8>, width: int, height: int, slot: int, i: int)
    requires
        0 <= width,
        0 <= height,
        section_bytes(width, height) <= mem.len(),
        0 <= slot < 3,
        0 <= i < width * height * 3 / 2,
    ensures
        ring_view(mem, width, height).slots[slot].len() == width * height * 3 / 2,
        ring_view(mem, width, height).slots[slot][i] == mem[4096 + slot * (width * height * 3 / 2)
            + i],
{
    lemma_slot_bounds(slot, width, height);
}

/// What a reader gets: the writer counts as gone from two seconds after it showed itself, and there
/// is a frame exactly when one of the three slots is the latest.
pub proof fn law_outcome(ring: RingView, now: int)
    ensures
        ring.outcome(now) == ReadOutcome::WriterGone <==> now >= ring.writer_hb + 2000,
        ring.outcome(now) == ReadOutcome::Frame <==> now < ring.writer_hb + 2000 && (ring.latest == 0
            || ring.latest == 1 || ring.latest == 2),
        ring.latest == 0 ==> ring.frame() == ring.slots[0],
        ring.latest == 1 ==> ring.frame() == ring.slots[1],
        ring.latest == 2 ==> ring.frame() == ring.slots[2],
{
}

/// A reader is seen for a second and a half after it showed itself, and showing itself changes
/// nothing else; nor does the writer's.
pub proof fn law_reader_is_seen(ring: RingView, now: int, d: int)
    requires
        0 <= d,
    ensures
        fresh(now + d, ring.touched_by_reader(now).reader_hb, READER_ACTIVE_MS as int) <==> d < 1500,
        ring.touched_by_reader(now).outcome(now + d) == ring.outcome(now + d),
        ring.touched_by_reader(now).frame() == ring.frame(),
        ring.touched_by_writer(now).frame() == ring.frame(),
        ring.touched_by_writer(now).reader_hb == ring.reader_hb,
        ring.touched_by_writer(now).outcome(now + d) == ReadOutcome::WriterGone <==> d >= 2000,
{
}

}
