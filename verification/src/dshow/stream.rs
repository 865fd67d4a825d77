//! Delivery: while the graph is paused or running, one sample per frame interval goes to the
//! downstream pin with the newest frame from the app's section (black while the app is not running
//! or not capturing yet).
//!
//! Reading the section also writes the reader heartbeat, which is what makes the app start
//! capturing the desktop. Times of the pacing are nanoseconds of a monotonic clock, times of the
//! section milliseconds since boot.

use vstd::prelude::*;
use crate::codes::{Code, E_FAIL, VFW_E_NOT_COMMITTED, VFW_E_WRONG_STATE};
use crate::convert::{black_420, black_yuy2, nv12_size, nv12_to_i420, nv12_to_yuy2, scale_nv12_nearest};
use crate::dshow::filter::{is_running, Core, FilterState, State};
use crate::dshow::format::{Format, VideoType};
use crate::layout::{FrameRing, ReadOutcome};

verus! {

pub const SECTION_RETRY_MS: u64 = 500;

/// After the writer has been gone this long, reopen: the app may be back with another size.
pub const REOPEN_AFTER_GONE_MS: u64 = 3000;

pub const SECOND_NS: u64 = 1_000_000_000;

// ---------------------------------------------------------------------------------------------
// The delivery loop

/// Everything one delivery needs, copied out of the state.
#[derive(Clone, Copy, PartialEq, Eq, Debug, Structural)]
pub struct Job {
    pub conn: u64,
    pub vtype: VideoType,
    pub new_type: bool,
    pub clock: Option<u64>,
    pub t_start: i64,
    pub running: bool,
}

/// What one delivery takes, in order; the first step that fails ends it.
#[derive(Clone, Copy, PartialEq, Eq, Debug, Structural)]
pub enum DeliverStep {
    /// Get a sample from the allocator, which may block.
    GetBuffer,
    /// Check its size.
    CheckSize,
    /// Write the newest frame into it, or black.
    Fill,
    /// Set the length of its data.
    Length { bytes: usize },
    SyncPoint { on: bool },
    Discontinuity { on: bool },
    Preroll { on: bool },
    /// Attach the media type.
    MediaType { vt: VideoType },
    /// Read the clock and, where it tells the time, set the sample's times.
    Time,
    /// Hand the sample to the connected pin.
    Receive,
}

/// What one delivery takes: the media type goes along exactly with a new type, the time exactly
/// while running with a clock.
pub open spec fn deliver_steps(job: Job) -> Seq<DeliverStep> {
    seq![
        DeliverStep::GetBuffer,
        DeliverStep::CheckSize,
        DeliverStep::Fill,
        DeliverStep::Length { bytes: job.vtype.spec_frame_bytes() as usize },
        DeliverStep::SyncPoint { on: true },
        DeliverStep::Discontinuity { on: false },
        DeliverStep::Preroll { on: false },
    ] + (if job.new_type {
        seq![DeliverStep::MediaType { vt: job.vtype }]
    } else {
        seq![]
    }) + (if job.running && job.clock is Some {
        seq![DeliverStep::Time]
    } else {
        seq![]
    }) + seq![DeliverStep::Receive]
}

/// What the delivery thread does next.
#[derive(Clone, Copy, PartialEq, Eq, Debug, Structural)]
pub enum Wake {
    Exit,
    /// Wait until something changes.
    Wait,
    /// Wait until something changes, at most so long.
    WaitFor { ns: u64 },
    Deliver { job: Job },
}

/// The delivery that a connected state asks for.
pub open spec fn job_of(st: State, conn: u64) -> Job {
    Job {
        conn,
        vtype: st.vtype,
        new_type: st.type_changed,
        clock: st.clock,
        t_start: st.t_start,
        running: st.filter_state == FilterState::Running,
    }
}

/// What the delivery thread does in a state at time `now`, with the next sample due at `due`.
pub open spec fn wake_of(st: State, due: u64, now: u64) -> Wake {
    if st.filter_state == FilterState::Stopped {
        Wake::Exit
    } else {
        match st.conn {
            None => Wake::Wait,
            Some(conn) => if due > now {
                Wake::WaitFor { ns: (due - now) as u64 }
            } else {
                Wake::Deliver { job: job_of(st, conn) }
            },
        }
    }
}

/// Nanoseconds per frame.
pub open spec fn interval_ns_of(fps: int) -> int {
    SECOND_NS as int / (if fps < 1 {
        1
    } else {
        fps
    })
}

/// Nanoseconds per frame.
pub fn interval_ns(fps: u32) -> (ns: u64)
    ensures
        ns == interval_ns_of(fps as int),
        ns <= SECOND_NS,
{
    let n: u64 = if fps < 1 {
        1
    } else {
        fps as u64
    };
    proof {
        vstd::arithmetic::div_mod::lemma_div_is_ordered_by_denominator(SECOND_NS as int, 1, n as int);
    }
    SECOND_NS / n
}

/// When the sample after the one due at `due` is due: one interval later, or now if that is past.
pub open spec fn due_after(due: int, interval: int, now: int) -> int {
    if due + interval < now {
        now
    } else {
        due + interval
    }
}

/// When the next sample is due.
pub fn next_due(due: u64, fps: u32, now: u64) -> (r: u64)
    requires
        due + SECOND_NS <= u64::MAX,
    ensures
        r == due_after(due as int, interval_ns_of(fps as int), now as int),
{
    let next: u64 = due + interval_ns(fps);
    if next < now {
        now
    } else {
        next
    }
}

impl Core {
    /// What the delivery thread does next. A delivery takes the new type along, once.
    pub fn wake(&mut self, due: u64, now: u64) -> (w: Wake)
        requires
            old(self).st.wf(),
        ensures
            w == wake_of(old(self).st, due, now),
            final(self).st == (if w is Deliver {
                State { type_changed: false, ..old(self).st }
            } else {
                old(self).st
            }),
            final(self).st.wf(),
            final(self).same_but_state(*old(self)),
    {
        if self.st.filter_state == FilterState::Stopped {
            return Wake::Exit;
        }
        match self.st.conn {
            None => Wake::Wait,
            Some(conn) => {
                if due > now {
                    return Wake::WaitFor { ns: due - now };
                }
                let job = Job {
                    conn,
                    vtype: self.st.vtype,
                    new_type: self.st.type_changed,
                    clock: self.st.clock,
                    t_start: self.st.t_start,
                    running: is_running(&self.st),
                };
                self.st.type_changed = false;
                Wake::Deliver { job }
            },
        }
    }

    /// Counts a delivery. `traced` is whether a failure was reported since the last success; the
    /// result, whether to report this one. Failures while stopping or flushing are not reported.
    pub fn delivered(&mut self, result: Result<(), Code>, traced: &mut bool) -> (report: bool)
        ensures
            final(self).st == old(self).st,
            final(self).info == old(self).info,
            final(self).graph_name == old(self).graph_name,
            match result {
                Ok(()) => {
                    &&& final(self).frames == (old(self).frames + 1) % 0x1_0000_0000_0000_0000
                    &&& !*final(traced)
                    &&& !report
                },
                Err(code) => {
                    &&& final(self).frames == old(self).frames
                    &&& if code == VFW_E_NOT_COMMITTED || code == VFW_E_WRONG_STATE {
                        *final(traced) == *old(traced) && !report
                    } else {
                        *final(traced) && report == !*old(traced)
                    }
                },
            },
    {
        match result {
            Ok(()) => {
                self.frames = self.frames.wrapping_add(1);
                *traced = false;
                false
            },
            Err(code) => {
                if code == VFW_E_NOT_COMMITTED || code == VFW_E_WRONG_STATE {
                    false
                } else {
                    let report = !*traced;
                    *traced = true;
                    report
                }
            },
        }
    }
}

/// Start and end of a sample in stream time, where it has them.
pub open spec fn times_of(job: Job, clock_now: Option<i64>) -> Option<(i64, i64)> {
    match clock_now {
        Some(now) => if job.running && job.clock is Some {
            Some(
                (
                    (now - job.t_start) as i64,
                    (now - job.t_start + crate::dshow::format::interval_of(
                        job.vtype.fps as int,
                    )) as i64,
                ),
            )
        } else {
            None
        },
        None => None,
    }
}

impl Job {
    /// What the delivery takes, in order.
    pub fn steps(&self) -> (list: Vec<DeliverStep>)
        requires
            crate::dshow::format::countable(
                self.vtype.format,
                self.vtype.width as int,
                self.vtype.height as int,
            ),
        ensures
            list@ == deliver_steps(*self),
    {
        let mut list: Vec<DeliverStep> = Vec::new();
        list.push(DeliverStep::GetBuffer);
        list.push(DeliverStep::CheckSize);
        list.push(DeliverStep::Fill);
        list.push(DeliverStep::Length { bytes: self.vtype.frame_bytes() });
        list.push(DeliverStep::SyncPoint { on: true });
        list.push(DeliverStep::Discontinuity { on: false });
        list.push(DeliverStep::Preroll { on: false });
        if self.new_type {
            list.push(DeliverStep::MediaType { vt: self.vtype });
        }
        if self.running && self.clock.is_some() {
            list.push(DeliverStep::Time);
        }
        list.push(DeliverStep::Receive);
        assert(list@ =~= deliver_steps(*self));
        list
    }

    /// Whether a sample buffer of `size` bytes can take the frame.
    pub fn check_size(&self, size: usize) -> (r: Result<(), Code>)
        requires
            crate::dshow::format::countable(
                self.vtype.format,
                self.vtype.width as int,
                self.vtype.height as int,
            ),
        ensures
            r == (if size < self.vtype.spec_frame_bytes() {
                Err::<(), Code>(E_FAIL)
            } else {
                Ok(())
            }),
    {
        if size < self.vtype.frame_bytes() {
            Err(E_FAIL)
        } else {
            Ok(())
        }
    }

    /// Start and end of the sample in stream time, once running with a clock that tells the time;
    /// untimed samples in Paused are rendered as soon as they arrive.
    pub fn times(&self, clock_now: Option<i64>) -> (r: Option<(i64, i64)>)
        requires
            clock_now matches Some(now) ==> i64::MIN <= now - self.t_start && now - self.t_start
                + crate::dshow::format::SECOND <= i64::MAX,
        ensures
            r == times_of(*self, clock_now),
    {
        if !self.running || self.clock.is_none() {
            return None;
        }
        match clock_now {
            Some(now) => {
                let start: i64 = now - self.t_start;
                Some((start, start + self.vtype.interval()))
            },
            None => None,
        }
    }
}

// ---------------------------------------------------------------------------------------------
// Frames

/// The size of an opened section.
#[derive(Clone, Copy, PartialEq, Eq, Debug, Structural)]
pub struct Size {
    pub width: u32,
    pub height: u32,
}

/// The app's frame section as the filter sees it: reopened with the current `stream.bin` size
/// whenever it is missing or its writer has been gone for a while.
#[derive(Clone, Copy, PartialEq, Eq, Debug, Structural)]
pub struct FrameSource {
    pub section: Option<Size>,
    pub next_try: u64,
    pub gone_since: Option<u64>,
    pub traced: Option<bool>,
}

/// The source after an attempt to open the section at `now`.
pub open spec fn after_try(now: u64, opened: Option<Size>) -> FrameSource {
    FrameSource {
        section: opened,
        next_try: (now + SECTION_RETRY_MS) as u64,
        gone_since: None,
        traced: Some(opened is Some),
    }
}

/// The source after a read at `now` with the given outcome.
pub open spec fn after_read(src: FrameSource, now: u64, outcome: ReadOutcome) -> FrameSource {
    if outcome == ReadOutcome::WriterGone {
        let since = match src.gone_since {
            Some(t) => t,
            None => now,
        };
        let seen = FrameSource { gone_since: Some(since), ..src };
        if now - since >= REOPEN_AFTER_GONE_MS {
            FrameSource { section: None, next_try: now, ..seen }
        } else {
            seen
        }
    } else {
        FrameSource { gone_since: None, ..src }
    }
}

/// The frame in the negotiated size.
pub open spec fn sized(slot: Seq<u8>, sw: int, sh: int, dw: int, dh: int) -> Seq<u8> {
    if sw == dw && sh == dh {
        slot
    } else {
        crate::convert::scaled(slot, sw, sh, dw, dh)
    }
}

/// An NV12 frame of `sw` x `sh` in the negotiated layout.
pub open spec fn converted(slot: Seq<u8>, sw: int, sh: int, format: Format, dw: int, dh: int) -> Seq<
    u8,
> {
    let frame = sized(slot, sw, sh, dw, dh);
    match format {
        Format::Nv12 => frame.take(crate::convert::nv12_bytes(dw, dh)),
        Format::I420 => crate::convert::i420_of(frame, dw * dh),
        Format::Yuy2 => crate::convert::yuy2_of(frame, dw, dh, Seq::empty()),
    }
}

/// A black frame in the negotiated layout.
pub open spec fn black(format: Format, dw: int, dh: int) -> Seq<u8> {
    match format {
        Format::Nv12 => crate::convert::black_420_of(dw * dh),
        Format::I420 => crate::convert::black_420_of(dw * dh),
        Format::Yuy2 => crate::convert::black_yuy2_of(dw * dh),
    }
}

proof fn lemma_even_luma(width: int, height: int)
    requires
        crate::convert::even_size(width, height),
    ensures
        (width * height) % 4 == 0,
        width * height == height * width,
        crate::convert::nv12_bytes(width, height) == width * height + width * height / 2,
        crate::convert::nv12_bytes(width, height) == width * height * 3 / 2,
        (height + 1) / 2 * width == (height / 2) * width,
        height * (width * 2) == width * height * 2,
        0 < width * height,
{
    let (a, b) = (width / 2, height / 2);
    assert(width * height == 4 * (a * b) && height * width == width * height && height * (width * 2)
        == width * height * 2 && 0 < width * height) by (nonlinear_arith)
        requires
            width == 2 * a,
            height == 2 * b,
            0 < a,
            0 < b,
    ;
    crate::convert::law_nv12_bytes(width, height);
}

/// Converts one NV12 frame of `sw` x `sh` into `out` (`dw` x `dh`, `format` layout), scaling first
/// when the app's resolution differs from the negotiated one.
pub fn convert_frame(
    slot: &[u8],
    sw: usize,
    sh: usize,
    format: Format,
    dw: usize,
    dh: usize,
    scratch: &mut Vec<u8>,
    out: &mut [u8],
)
    requires
        crate::convert::even_size(sw as int, sh as int),
        crate::convert::even_size(dw as int, dh as int),
        crate::convert::nv12_bytes(sw as int, sh as int) <= slot@.len(),
        old(out)@.len() == crate::dshow::format::frame_bytes_of(format, dw as int, dh as int),
        dw * dh * 3 <= usize::MAX,
        dw * sw <= usize::MAX,
        dh * sh <= usize::MAX,
    ensures
        final(out)@ == converted(slot@, sw as int, sh as int, format, dw as int, dh as int),
        final(out)@.len() == old(out)@.len(),
{
    proof {
        lemma_even_luma(dw as int, dh as int);
        lemma_even_luma(sw as int, sh as int);
    }
    if sw == dw && sh == dh {
        convert_sized(slot, format, dw, dh, out);
    } else {
        let n = nv12_size(dw, dh);
        scratch.resize(n, 0);
        scale_nv12_nearest(slot, sw, sh, scratch.as_mut_slice(), dw, dh);
        assert(scratch@ =~= crate::convert::scaled(
            slot@,
            sw as int,
            sh as int,
            dw as int,
            dh as int,
        ));
        convert_sized(scratch.as_slice(), format, dw, dh, out);
    }
}

fn convert_sized(frame: &[u8], format: Format, dw: usize, dh: usize, out: &mut [u8])
    requires
        crate::convert::even_size(dw as int, dh as int),
        crate::convert::nv12_bytes(dw as int, dh as int) <= frame@.len(),
        old(out)@.len() == crate::dshow::format::frame_bytes_of(format, dw as int, dh as int),
        dw * dh * 3 <= usize::MAX,
    ensures
        final(out)@ == converted(
            frame@,
            dw as int,
            dh as int,
            format,
            dw as int,
            dh as int,
        ),
        final(out)@.len() == old(out)@.len(),
{
    proof {
        lemma_even_luma(dw as int, dh as int);
    }
    match format {
        Format::Nv12 => {
            let n = nv12_size(dw, dh);
            copy_prefix(frame, n, out);
            assert(out@ =~= frame@.take(n as int));
        },
        Format::I420 => {
            nv12_to_i420(frame, dw, dh, out);
            assert(out@ =~= crate::convert::i420_of(frame@, dw * dh));
        },
        Format::Yuy2 => {
            nv12_to_yuy2(frame, dw, dh, out);
            proof {
                let whole = crate::convert::yuy2_of(frame@, dw as int, dh as int, Seq::empty());
                let n: int = dw * 2;
                assert forall|i: int| 0 <= i < whole.len() implies #[trigger] out@[i] == whole[i] by {
                    vstd::arithmetic::div_mod::lemma_mod_bound(i, n);
                }
                assert(out@ =~= whole);
            }
        },
    }
}

fn copy_prefix(src: &[u8], n: usize, dst: &mut [u8])
    requires
        n <= src@.len(),
        n <= old(dst)@.len(),
    ensures
        final(dst)@ == src@.take(n as int) + old(dst)@.skip(n as int),
{
    let mut i: usize = 0;
    while i < n
        invariant
            i <= n,
            n <= src@.len(),
            n <= dst@.len(),
            dst@.len() == old(dst)@.len(),
            forall|k: int| 0 <= k < i ==> #[trigger] dst@[k] == src@[k],
            forall|k: int| i <= k < dst@.len() ==> #[trigger] dst@[k] == old(dst)@[k],
        decreases n - i,
    {
        dst[i] = src[i];
        i += 1;
    }
    assert(dst@ =~= src@.take(n as int) + old(dst)@.skip(n as int));
}

/// Makes a frame black.
pub fn black_frame(format: Format, dw: usize, dh: usize, out: &mut [u8])
    requires
        crate::convert::even_size(dw as int, dh as int),
        old(out)@.len() == crate::dshow::format::frame_bytes_of(format, dw as int, dh as int),
    ensures
        final(out)@ == black(format, dw as int, dh as int),
{
    proof {
        lemma_even_luma(dw as int, dh as int);
    }
    match format {
        Format::Nv12 => black_420(dw, dh, out),
        Format::I420 => black_420(dw, dh, out),
        Format::Yuy2 => black_yuy2(dw, dh, out),
    }
    assert(out@ =~= black(format, dw as int, dh as int));
}

impl Default for FrameSource {
    fn default() -> (s: FrameSource)
        ensures
            s == (FrameSource { section: None, next_try: 0, gone_since: None, traced: None }),
    {
        FrameSource { section: None, next_try: 0, gone_since: None, traced: None }
    }
}

impl FrameSource {
    /// It is time to try to open the section.
    pub open spec fn wants(self, now: u64) -> bool {
        self.section is None && now >= self.next_try
    }

    /// Whether it is time to try to open the section.
    pub fn wants_section(&self, now: u64) -> (r: bool)
        ensures
            r == self.wants(now),
    {
        self.section.is_none() && now >= self.next_try
    }

    /// The section was tried: for writing, then for reading only (which still shows frames, but
    /// without the heartbeat the app never starts capturing). The result, whether to report that
    /// the section is there or missing.
    pub fn section_tried(&mut self, now: u64, opened: Option<Size>) -> (report: bool)
        requires
            now + SECTION_RETRY_MS <= u64::MAX,
        ensures
            *final(self) == after_try(now, opened),
            report == (old(self).traced != Some(opened is Some)),
    {
        self.next_try = now + SECTION_RETRY_MS;
        let ok = opened.is_some();
        self.section = opened;
        self.gone_since = None;
        let report = match self.traced {
            Some(t) => t != ok,
            None => true,
        };
        self.traced = Some(ok);
        report
    }

    /// A read is over: after the writer has been gone for a while the section is given up.
    pub fn read_done(&mut self, now: u64, outcome: ReadOutcome)
        ensures
            *final(self) == after_read(*old(self), now, outcome),
    {
        if outcome == ReadOutcome::WriterGone {
            let since = match self.gone_since {
                Some(t) => t,
                None => now,
            };
            self.gone_since = Some(since);
            if now.saturating_sub(since) >= REOPEN_AFTER_GONE_MS {
                self.section = None;
                self.next_try = now;
            }
        } else {
            self.gone_since = None;
        }
    }

    /// Writes the newest frame of the open section in the negotiated layout into `out`, or black,
    /// and shows the writer that someone is reading.
    pub fn fill(
        &mut self,
        ring: &mut FrameRing,
        vt: &VideoType,
        now: u64,
        scratch: &mut Vec<u8>,
        out: &mut [u8],
    ) -> (outcome: ReadOutcome)
        requires
            old(ring).wf(),
            crate::convert::even_size(old(ring).spec_width() as int, old(ring).spec_height() as int),
            crate::convert::even_size(vt.width as int, vt.height as int),
            old(out)@.len() == vt.spec_frame_bytes(),
            vt.width * vt.height * 3 <= usize::MAX,
            vt.width * old(ring).spec_width() <= usize::MAX,
            vt.height * old(ring).spec_height() <= usize::MAX,
        ensures
            outcome == old(ring)@.outcome(now as int),
            *final(self) == after_read(*old(self), now, outcome),
            final(ring).wf(),
            final(ring).same_shape(old(ring)),
            final(ring).spec_writable() ==> final(ring)@ == old(ring)@.touched_by_reader(now as int),
            !final(ring).spec_writable() ==> *final(ring) == *old(ring),
            final(out)@ == (if outcome == ReadOutcome::Frame {
                converted(
                    old(ring)@.frame(),
                    old(ring).spec_width() as int,
                    old(ring).spec_height() as int,
                    vt.format,
                    vt.width as int,
                    vt.height as int,
                )
            } else {
                black(vt.format, vt.width as int, vt.height as int)
            }),
    {
        let sw: usize = ring.width() as usize;
        let sh: usize = ring.height() as usize;
        let dw: usize = vt.width as usize;
        let dh: usize = vt.height as usize;
        ring.touch_reader(now);
        let (outcome, slot) = ring.newest(now);
        if outcome == ReadOutcome::Frame {
            proof {
                lemma_even_luma(sw as int, sh as int);
                assert(slot@ == old(ring)@.frame());
                assert(slot@.len() == crate::layout::frame_bytes(sw as int, sh as int)) by {
                    crate::layout::lemma_slot_len(ring, ring@.latest);
                }
            }
            convert_frame(slot, sw, sh, vt.format, dw, dh, scratch, out);
        }
        self.finish(outcome, vt, now, out);
        outcome
    }

    /// A read is over, or there is no section to read: `out` keeps the frame that was read, and
    /// without one it becomes black.
    pub fn finish(&mut self, outcome: ReadOutcome, vt: &VideoType, now: u64, out: &mut [u8])
        requires
            crate::convert::even_size(vt.width as int, vt.height as int),
            old(out)@.len() == vt.spec_frame_bytes(),
        ensures
            *final(self) == after_read(*old(self), now, outcome),
            final(out)@ == (if outcome == ReadOutcome::Frame {
                old(out)@
            } else {
                black(vt.format, vt.width as int, vt.height as int)
            }),
    {
        if outcome != ReadOutcome::Frame {
            black_frame(vt.format, vt.width as usize, vt.height as usize, out);
        }
        self.read_done(now, outcome);
    }
}

// ---------------------------------------------------------------------------------------------
// Laws

/// Once stopped, the delivery thread delivers nothing more: whatever the time, it exits.
pub proof fn law_no_delivery_after_stop(st: State, due: u64, now: u64)
    ensures
        wake_of(st.stopped(), due, now) == Wake::Exit,
{
}

/// A sample is delivered only when it is due, to a connected pin of a filter that is not stopped.
pub proof fn law_delivery_is_due(st: State, due: u64, now: u64)
    requires
        wake_of(st, due, now) is Deliver,
    ensures
        due <= now,
        st.conn is Some,
        st.filter_state != FilterState::Stopped,
{
}

/// A sample is handed on once, as the last step, and filled and sized before; it carries a media
/// type if and only if there is a new one, and times only while running with a clock.
pub proof fn law_sample_is_complete_when_handed_on(job: Job)
    ensures
        deliver_steps(job).last() == DeliverStep::Receive,
        forall|i: int|
            0 <= i < deliver_steps(job).len() - 1 ==> #[trigger] deliver_steps(job)[i]
                != DeliverStep::Receive,
        deliver_steps(job).len() > 4,
        deliver_steps(job)[1] == DeliverStep::CheckSize,
        deliver_steps(job)[2] == DeliverStep::Fill,
        deliver_steps(job)[3] == (DeliverStep::Length {
            bytes: job.vtype.spec_frame_bytes() as usize,
        }),
        deliver_steps(job).contains(DeliverStep::MediaType { vt: job.vtype }) == job.new_type,
        deliver_steps(job).contains(DeliverStep::Time) == (job.running && job.clock is Some),
{
    let steps = deliver_steps(job);
    if job.new_type {
        assert(steps[7] == DeliverStep::MediaType { vt: job.vtype });
    }
    if job.running && job.clock is Some {
        assert(steps[steps.len() - 2] == DeliverStep::Time);
    }
}

/// Delivery is paced: with deliveries due at `due[0]`, `due[1]`, ..., each found from the one
/// before at some time `now`, sample `k` is due no earlier than `k` intervals after the first.
pub proof fn law_paced(due: Seq<int>, now: Seq<int>, interval: int, k: int)
    requires
        0 <= k < due.len(),
        now.len() == due.len(),
        0 <= interval,
        forall|i: int|
            0 <= i && i + 1 < due.len() ==> #[trigger] due[i + 1] == due_after(
                due[i],
                interval,
                now[i],
            ),
    ensures
        due[k] >= due[0] + k * interval,
    decreases k,
{
    if k > 0 {
        law_paced(due, now, interval, k - 1);
        assert(due[k - 1 + 1] == due_after(due[k - 1], interval, now[k - 1]));
        assert(k * interval == (k - 1) * interval + interval) by (nonlinear_arith);
    } else {
        assert(0 * interval == 0);
    }
}

/// The times of a section that keeps finding its writer gone.
pub open spec fn gone_reads(src: FrameSource, times: Seq<u64>) -> FrameSource
    decreases times.len(),
{
    if times.len() == 0 {
        src
    } else {
        after_read(gone_reads(src, times.drop_last()), times.last(), ReadOutcome::WriterGone)
    }
}

/// A section whose writer stays gone is given up as soon as a read comes late enough, and is then
/// tried again at once: the app may be back with another size.
pub proof fn law_given_up_after_writer_gone(src: FrameSource, times: Seq<u64>)
    requires
        src.gone_since is None,
        times.len() >= 2,
        times.last() - times[0] >= REOPEN_AFTER_GONE_MS,
    ensures
        gone_reads(src, times).wants(times.last()),
{
    lemma_gone_since(src, times.drop_last());
}

proof fn lemma_gone_since(src: FrameSource, times: Seq<u64>)
    requires
        src.gone_since is None,
        times.len() >= 1,
    ensures
        gone_reads(src, times).gone_since == Some(times[0]),
    decreases times.len(),
{
    if times.len() == 1 {
        assert(gone_reads(src, times.drop_last()) == src);
    } else {
        lemma_gone_since(src, times.drop_last());
    }
}

/// A frame in the negotiated size and format NV12 is handed out as it is.
pub proof fn law_same_size_nv12_is_a_copy(slot: Seq<u8>, width: int, height: int)
    requires
        slot.len() == crate::convert::nv12_bytes(width, height),
    ensures
        converted(slot, width, height, Format::Nv12, width, height) == slot,
{
    assert(slot.take(slot.len() as int) =~= slot);
}

/// A sample starts when its graph's clock says, counted from the start of the run, and lasts one
/// frame, as nearly as 100 ns allow; it has times exactly while running with a clock that tells the
/// time.
pub proof fn law_sample_times(job: Job, now: i64)
    requires
        job.vtype.fps >= 1,
        i64::MIN <= now - job.t_start,
        now - job.t_start + 10_000_000 <= i64::MAX,
    ensures
        times_of(job, Some(now)) is Some <==> job.running && job.clock is Some,
        times_of(job, Some(now)) matches Some((start, end)) ==> {
            &&& job.t_start + start == now
            &&& (end - start) * job.vtype.fps <= 10_000_000 < (end - start + 1) * job.vtype.fps
        },
        times_of(job, None) is None,
{
    let fps = job.vtype.fps as int;
    crate::dshow::format::law_interval_is_the_rate(fps);
    vstd::arithmetic::div_mod::lemma_div_pos_is_pos(10_000_000, fps);
    vstd::arithmetic::div_mod::lemma_div_is_ordered_by_denominator(10_000_000, 1, fps);
}

/// The thread waits just until the sample is due.
pub proof fn law_waits_until_due(st: State, due: u64, now: u64)
    requires
        st.conn is Some,
        st.filter_state != FilterState::Stopped,
    ensures
        due > now ==> (wake_of(st, due, now) matches Wake::WaitFor { ns } && now + ns == due),
        due <= now ==> (wake_of(st, due, now) matches Wake::Deliver { job } && Some(job.conn) == st.conn
            && job.vtype == st.vtype && job.new_type == st.type_changed && job.clock == st.clock
            && job.t_start == st.t_start && job.running == (st.filter_state
            == FilterState::Running)),
{
}

/// A second holds as many intervals as the rate says, as nearly as a nanosecond allows.
pub proof fn law_interval_is_the_rate(fps: int)
    requires
        fps >= 1,
    ensures
        interval_ns_of(fps) * fps <= 1_000_000_000 < (interval_ns_of(fps) + 1) * fps,
{
    let q = interval_ns_of(fps);
    vstd::arithmetic::div_mod::lemma_fundamental_div_mod(1_000_000_000, fps);
    assert(q * fps == fps * q && (q + 1) * fps == fps * q + fps) by (nonlinear_arith);
}

/// A sample in time keeps the rhythm; after a delay the next is due at once, and only one.
pub proof fn law_rhythm(due: int, interval: int, now: int)
    ensures
        now <= due + interval ==> due_after(due, interval, now) == due + interval,
        now >= due + interval ==> due_after(due, interval, now) == now,
{
}

/// A section that was not there is tried again half a second later, not earlier; one that is there
/// is not tried again.
pub proof fn law_section_is_tried_again(now: u64, size: Size, t: u64)
    requires
        now + 500 <= u64::MAX,
    ensures
        after_try(now, None).wants(t) <==> t >= now + 500,
        !after_try(now, Some(size)).wants(t),
        after_try(now, Some(size)).section == Some(size),
{
}

/// A section is kept until its writer has been gone for three seconds; any other outcome starts the
/// count anew.
pub proof fn law_section_is_kept(src: FrameSource, since: u64, now: u64, outcome: ReadOutcome)
    ensures
        outcome != ReadOutcome::WriterGone ==> {
            let next = after_read(src, now, outcome);
            next.section == src.section && next.gone_since is None && next.next_try == src.next_try
        },
        src.gone_since is None ==> {
            let next = after_read(src, now, ReadOutcome::WriterGone);
            next.section == src.section && next.gone_since == Some(now)
        },
        src.gone_since == Some(since) ==> {
            let next = after_read(src, now, ReadOutcome::WriterGone);
            &&& now < since + 3000 ==> next.section == src.section && next.gone_since == Some(since)
            &&& now >= since + 3000 ==> next.section is None && next.next_try == now
        },
{
}

/// A frame of the negotiated size, byte for byte. NV12 is a copy. I420 has the luma bytes, then
/// those of U, then those of V. In YUY2 the pixels `2x` and `2x + 1` of row `r` are Y0 U Y1 V, with
/// the chroma of row `k`, which rows `2k` and `2k + 1` share.
pub proof fn law_delivered_bytes(
    slot: Seq<u8>,
    width: int,
    height: int,
    i: int,
    r: int,
    k: int,
    x: int,
)
    requires
        crate::convert::even_size(width, height),
        slot.len() == width * height * 3 / 2,
        0 <= i < width * height,
        0 <= r < height,
        r == 2 * k || r == 2 * k + 1,
        0 <= 2 * x < width,
    ensures
        ({
            let luma = width * height;
            let pairs = (width / 2) * (height / 2);
            let nv12 = converted(slot, width, height, Format::Nv12, width, height);
            let i420 = converted(slot, width, height, Format::I420, width, height);
            let yuy2 = converted(slot, width, height, Format::Yuy2, width, height);
            let at = 2 * (r * width + 2 * x);
            let chroma = luma + k * width;
            &&& nv12 == slot
            &&& i420.len() == slot.len() && i420[i] == slot[i]
            &&& 4 * i < luma ==> i420[luma + i] == slot[luma + 2 * i] && i420[luma + pairs + i]
                == slot[luma + 2 * i + 1]
            &&& yuy2.len() == 2 * luma
            &&& yuy2[at] == slot[r * width + 2 * x] && yuy2[at + 2] == slot[r * width + 2 * x + 1]
            &&& yuy2[at + 1] == slot[chroma + 2 * x] && yuy2[at + 3] == slot[chroma + 2 * x + 1]
        }),
{
    lemma_even_luma(width, height);
    law_same_size_nv12_is_a_copy(slot, width, height);
    let j = if 4 * i < width * height {
        i
    } else {
        0
    };
    crate::convert::law_i420_planes(slot, width, height, i, j);
    crate::convert::law_yuy2_pixels(slot, width, height, Seq::empty(), r, k, x);
}

/// A frame of another size is scaled, then handed out like one of the negotiated size.
pub proof fn law_other_sizes_are_scaled(
    slot: Seq<u8>,
    sw: int,
    sh: int,
    format: Format,
    dw: int,
    dh: int,
)
    requires
        sw != dw || sh != dh,
    ensures
        converted(slot, sw, sh, format, dw, dh) == converted(
            crate::convert::scaled(slot, sw, sh, dw, dh),
            dw,
            dh,
            format,
            dw,
            dh,
        ),
{
}

/// A black frame has luma 16 and chroma 128 everywhere and is as long as a frame of its type.
pub proof fn law_black_bytes(format: Format, width: int, height: int, i: int)
    requires
        crate::convert::even_size(width, height),
        0 <= i,
    ensures
        black(format, width, height).len() == crate::dshow::format::frame_bytes_of(
            format,
            width,
            height,
        ),
        format != Format::Yuy2 && i < width * height ==> black(format, width, height)[i] == 16,
        format != Format::Yuy2 && width * height <= i < width * height * 3 / 2 ==> black(
            format,
            width,
            height,
        )[i] == 128,
        format == Format::Yuy2 && i < width * height ==> black(format, width, height)[2 * i] == 16
            && black(format, width, height)[2 * i + 1] == 128,
{
    crate::convert::law_black_bytes(width, height, i);
}

}
