//! Background worker: what it does with the camera, the shared section and (only while an app is
//! pulling frames) the screen capture.
//!
//! Times of the section are milliseconds since boot, times of the pacing nanoseconds of a
//! monotonic clock.

use vstd::prelude::*;
use crate::config::{Config, FpsSel};
use crate::layout::FrameRing;
use crate::monitor::{describe, select, MonitorInfo};
use crate::os::can_capture;
use crate::stream_info::StreamInfo;
use crate::text::{push_decimal, push_text};

verus! {

pub const OPEN_RETRY_MS: u64 = 250;

/// Sleep between two looks at the section, in nanoseconds.
pub const IDLE_SLEEP_NS: u64 = 250_000_000;

/// Wait after a capture that could not be started.
pub const START_RETRY_MS: u64 = 2000;

/// Wait after a capture that failed while running.
pub const CAPTURE_RETRY_MS: u64 = 1000;

pub const SECOND_NS: u64 = 1_000_000_000;

/// Highest frame rate taken over from a display.
pub const MAX_FPS: u32 = 240;

// ---------------------------------------------------------------------------------------------
// Status

#[derive(Clone, PartialEq, Eq, Debug)]
pub enum Status {
    Starting,
    Idle,
    Streaming { w: u32, h: u32, fps: u32 },
    Error(String),
}

/// The tooltip for a status.
pub open spec fn status_text(status: Status) -> Seq<char> {
    match status {
        Status::Starting => "DeskCam: starting"@,
        Status::Idle => "DeskCam: idle (no app using the camera)"@,
        Status::Streaming { w, h, fps } => "DeskCam: streaming "@ + crate::text::decimal(w as nat)
            + "x"@ + crate::text::decimal(h as nat) + " @ "@ + crate::text::decimal(fps as nat)
            + " fps"@,
        Status::Error(msg) => "DeskCam: error: "@ + msg@,
    }
}

impl Status {
    /// The tooltip for the status.
    pub fn text(&self) -> (s: String)
        ensures
            s@ == status_text(*self),
    {
        let mut s = String::new();
        match self {
            Status::Starting => push_text(&mut s, "DeskCam: starting"),
            Status::Idle => push_text(&mut s, "DeskCam: idle (no app using the camera)"),
            Status::Streaming { w, h, fps } => {
                push_text(&mut s, "DeskCam: streaming ");
                push_decimal(&mut s, *w as u64);
                push_text(&mut s, "x");
                push_decimal(&mut s, *h as u64);
                push_text(&mut s, " @ ");
                push_decimal(&mut s, *fps as u64);
                push_text(&mut s, " fps");
            },
            Status::Error(msg) => {
                push_text(&mut s, "DeskCam: error: ");
                push_text(&mut s, msg.as_str());
            },
        }
        assert(s@ =~= status_text(*self));
        s
    }
}

/// `status` is the error `text`.
pub open spec fn is_error(status: Status, text: Seq<char>) -> bool {
    status matches Status::Error(m) && m@ == text
}

fn error(prefix: &str, detail: &str) -> (s: Status)
    ensures
        is_error(s, prefix@ + detail@),
{
    let mut m = String::new();
    push_text(&mut m, prefix);
    push_text(&mut m, detail);
    assert(m@ =~= prefix@ + detail@);
    Status::Error(m)
}

// ---------------------------------------------------------------------------------------------
// Preparation

/// What the worker starts with.
#[derive(Clone, Copy, PartialEq, Eq, Debug, Structural)]
pub struct Setup {
    pub monitor: MonitorInfo,
    pub info: StreamInfo,
}

/// The frame rate that a selection means on a monitor.
pub open spec fn chosen_fps(fps: FpsSel, monitor: MonitorInfo) -> u32 {
    match fps {
        FpsSel::Fixed(n) => n,
        FpsSel::Monitor => if monitor.refresh_hz < MAX_FPS {
            monitor.refresh_hz
        } else {
            MAX_FPS
        },
    }
}

/// The stream that settings mean on a monitor.
pub open spec fn stream_of(width: u32, height: u32, fps: FpsSel, monitor: MonitorInfo) -> StreamInfo {
    StreamInfo { width, height, fps: chosen_fps(fps, monitor) }
}

/// The monitor to capture and the stream to produce, or why there is none: Windows is too old, or
/// the monitor is not there.
pub fn prepare(cfg: &Config, monitors: &[MonitorInfo], build: u32) -> (r: Result<Setup, Status>)
    ensures
        match r {
            Ok(s) => {
                &&& build >= crate::os::MIN_BUILD
                &&& exists|i: int|
                    0 <= i < monitors@.len() && s.monitor == #[trigger] monitors@[i]
                        && crate::monitor::selected(monitors@[i], cfg.monitor) && forall|k: int|
                        0 <= k < i ==> !crate::monitor::selected(
                            #[trigger] monitors@[k],
                            cfg.monitor,
                        )
                &&& s.info == stream_of(cfg.width, cfg.height, cfg.fps, s.monitor)
            },
            Err(e) => if build < crate::os::MIN_BUILD {
                is_error(e, "Windows 10 1903 (build 18362) or newer is required"@)
            } else {
                &&& forall|k: int|
                    0 <= k < monitors@.len() ==> !crate::monitor::selected(
                        #[trigger] monitors@[k],
                        cfg.monitor,
                    )
                &&& is_error(e, crate::monitor::not_found(monitors@, cfg.monitor))
            },
        },
{
    if !can_capture(build) {
        let e = error("Windows 10 1903 (build 18362) or newer is required", "");
        proof {
            reveal_strlit("");
            assert("Windows 10 1903 (build 18362) or newer is required"@ + ""@
                =~= "Windows 10 1903 (build 18362) or newer is required"@);
        }
        return Err(e);
    }
    let monitor = match select(monitors, cfg.monitor) {
        Ok(m) => m,
        Err(e) => {
            return Err(Status::Error(e));
        },
    };
    let fps: u32 = match cfg.fps {
        FpsSel::Fixed(n) => n,
        FpsSel::Monitor => if monitor.refresh_hz < MAX_FPS {
            monitor.refresh_hz
        } else {
            MAX_FPS
        },
    };
    Ok(Setup { monitor, info: StreamInfo { width: cfg.width, height: cfg.height, fps } })
}

/// With settings read from a file and a monitor that has a refresh rate, the stream is one that a
/// camera can have.
pub proof fn law_prepared_stream_is_valid(
    cfg: crate::config::ConfigView,
    monitor: MonitorInfo,
)
    requires
        crate::config::valid_config(cfg),
        monitor.refresh_hz >= 1,
    ensures
        crate::stream_info::valid(
            StreamInfo {
                width: cfg.width,
                height: cfg.height,
                fps: chosen_fps(cfg.fps, monitor),
            },
        ),
{
}

/// The line about what is captured.
pub open spec fn using_text(s: Setup) -> Seq<char> {
    "using "@ + crate::monitor::description(s.monitor) + "; output "@ + crate::text::decimal(
        s.info.width as nat,
    ) + "x"@ + crate::text::decimal(s.info.height as nat) + " @ "@ + crate::text::decimal(
        s.info.fps as nat,
    ) + " fps"@
}

/// The line about what is captured.
pub fn using_line(s: &Setup) -> (line: String)
    requires
        crate::monitor::measurable(s.monitor.rect),
    ensures
        line@ == using_text(*s),
{
    let mut line = String::new();
    push_text(&mut line, "using ");
    let d = describe(&s.monitor);
    push_text(&mut line, d.as_str());
    push_text(&mut line, "; output ");
    push_decimal(&mut line, s.info.width as u64);
    push_text(&mut line, "x");
    push_decimal(&mut line, s.info.height as u64);
    push_text(&mut line, " @ ");
    push_decimal(&mut line, s.info.fps as u64);
    push_text(&mut line, " fps");
    assert(line@ =~= using_text(*s));
    line
}

// ---------------------------------------------------------------------------------------------
// The loop

/// What the worker holds and when it tries again. A round of its loop opens the section if it is
/// missing, looks for readers, starts or stops the capture, and then ticks or sleeps.
#[derive(Clone, Copy, PartialEq, Eq, Debug, Structural)]
pub struct Worker {
    pub info: StreamInfo,
    /// Whether the section is open.
    pub section: bool,
    /// Whether the capture runs.
    pub capture: bool,
    /// When the section is tried next.
    pub next_open: u64,
    /// When the capture may be started again.
    pub retry_at: u64,
    /// When the next frame is due.
    pub next_frame: u64,
}

/// What the presence of readers asks for.
#[derive(Clone, Copy, PartialEq, Eq, Debug, Structural)]
pub enum Demand {
    /// Start the capture.
    Start,
    /// Stop the capture, drop the published frame and report idle.
    Stop,
    /// Go on as before.
    Keep,
}

impl Demand {
    /// Whether the published frame is dropped: a capture that stops leaves none behind.
    pub fn drops_frame(self) -> (r: bool)
        ensures
            r == (self == Demand::Stop),
    {
        self == Demand::Stop
    }
}

/// What a round ends with.
#[derive(Clone, Copy, PartialEq, Eq, Debug, Structural)]
pub enum Turn {
    /// Publish the newest captured frame.
    Tick,
    Sleep { ns: u64 },
}

/// It is time to try to open the section.
pub open spec fn wants_of(w: Worker, now: u64) -> bool {
    !w.section && now >= w.next_open
}

/// The worker after the section was tried at `now`.
pub open spec fn after_section_try(w: Worker, now: u64, opened: bool) -> Worker {
    Worker { section: opened, next_open: (now + OPEN_RETRY_MS) as u64, ..w }
}

/// The worker after a capture could not be started at `now`.
pub open spec fn after_failed_start(w: Worker, now: u64) -> Worker {
    Worker { retry_at: (now + START_RETRY_MS) as u64, ..w }
}

/// The worker after its capture failed at `now`.
pub open spec fn after_failed_tick(w: Worker, now: u64) -> Worker {
    Worker { capture: false, retry_at: (now + CAPTURE_RETRY_MS) as u64, ..w }
}

/// What the presence of readers asks for.
pub open spec fn demand_of(w: Worker, now: u64, demand: bool) -> Demand {
    if demand && !w.capture && now >= w.retry_at {
        Demand::Start
    } else if !demand && w.capture {
        Demand::Stop
    } else {
        Demand::Keep
    }
}

/// What a round ends with.
pub open spec fn turn_of(w: Worker) -> Turn {
    if w.capture && w.section {
        Turn::Tick
    } else {
        Turn::Sleep { ns: IDLE_SLEEP_NS }
    }
}

/// When the frame after one that was due at `due` and is done at `now` is due: one interval later,
/// or one interval from now if that is past.
pub open spec fn frame_after(due: int, interval: int, now: int) -> int {
    if due + interval < now {
        now + interval
    } else {
        due + interval
    }
}

pub open spec fn interval_of(info: StreamInfo) -> int {
    SECOND_NS as int / info.fps as int
}

impl Worker {
    /// The worker captures into an open section only.
    pub open spec fn wf(self) -> bool {
        &&& self.capture ==> self.section
        &&& 0 < self.info.fps
    }

    pub fn new(info: StreamInfo, now_ns: u64) -> (w: Worker)
        requires
            0 < info.fps,
        ensures
            w == (Worker {
                info,
                section: false,
                capture: false,
                next_open: 0,
                retry_at: 0,
                next_frame: now_ns,
            }),
            w.wf(),
    {
        Worker {
            info,
            section: false,
            capture: false,
            next_open: 0,
            retry_at: 0,
            next_frame: now_ns,
        }
    }

    /// Whether to try to open the section.
    pub fn wants_section(&self, now: u64) -> (r: bool)
        ensures
            r == wants_of(*self, now),
    {
        !self.section && now >= self.next_open
    }

    /// The section was tried.
    pub fn section_tried(&mut self, now: u64, opened: bool)
        requires
            old(self).wf(),
            !old(self).section,
            now + OPEN_RETRY_MS <= u64::MAX,
        ensures
            final(self).wf(),
            *final(self) == after_section_try(*old(self), now, opened),
    {
        self.section = opened;
        self.next_open = now + OPEN_RETRY_MS;
    }

    /// Shows readers of an open section that the worker is alive, and whether there are any.
    pub fn look(ring: &mut FrameRing, now: u64) -> (demand: bool)
        requires
            old(ring).wf(),
        ensures
            demand == crate::layout::fresh(
                now as int,
                old(ring)@.reader_hb,
                crate::layout::READER_ACTIVE_MS as int,
            ),
            final(ring).wf(),
            final(ring).same_shape(old(ring)),
            final(ring).spec_writable() ==> final(ring)@ == old(ring)@.touched_by_writer(now as int),
            !final(ring).spec_writable() ==> *final(ring) == *old(ring),
    {
        ring.touch_writer(now);
        ring.reader_active(now)
    }

    /// What the presence of readers asks for. Without a section there are none.
    pub fn demand(&mut self, now: u64, readers: bool) -> (d: Demand)
        requires
            old(self).wf(),
        ensures
            final(self).wf(),
            d == demand_of(*old(self), now, readers && old(self).section),
            *final(self) == (if d == Demand::Stop {
                Worker { capture: false, ..*old(self) }
            } else {
                *old(self)
            }),
    {
        let demand = readers && self.section;
        if demand && !self.capture && now >= self.retry_at {
            Demand::Start
        } else if !demand && self.capture {
            self.capture = false;
            Demand::Stop
        } else {
            Demand::Keep
        }
    }

    /// Looks for readers of the open section and says what that asks for; a capture that is to
    /// stop leaves no frame behind for a later reader.
    pub fn serve(&mut self, ring: &mut FrameRing, now: u64) -> (d: Demand)
        requires
            old(self).wf(),
            old(self).section,
            old(ring).wf(),
            old(ring).spec_writable(),
        ensures
            final(self).wf(),
            final(ring).wf(),
            final(ring).same_shape(old(ring)),
            ({
                let readers = crate::layout::fresh(
                    now as int,
                    old(ring)@.reader_hb,
                    crate::layout::READER_ACTIVE_MS as int,
                );
                &&& d == demand_of(*old(self), now, readers)
                &&& *final(self) == after_demand(*old(self), now, readers)
            }),
            final(ring)@ == (if d == Demand::Stop {
                old(ring)@.touched_by_writer(now as int).invalidated()
            } else {
                old(ring)@.touched_by_writer(now as int)
            }),
    {
        let readers = Worker::look(ring, now);
        let d = self.demand(now, readers);
        if d.drops_frame() {
            ring.invalidate();
        }
        d
    }

    /// The capture was started, or not. The status to report.
    pub fn capture_tried(&mut self, now: u64, now_ns: u64, result: Result<(), String>) -> (status: Status)
        requires
            old(self).wf(),
            old(self).section,
            now + START_RETRY_MS <= u64::MAX,
        ensures
            final(self).wf(),
            match result {
                Ok(()) => {
                    &&& *final(self) == (Worker { capture: true, next_frame: now_ns, ..*old(self) })
                    &&& status == (Status::Streaming {
                        w: old(self).info.width,
                        h: old(self).info.height,
                        fps: old(self).info.fps,
                    })
                },
                Err(e) => {
                    &&& *final(self) == after_failed_start(*old(self), now)
                    &&& is_error(status, "capture failed: "@ + e@)
                },
            },
    {
        match result {
            Ok(()) => {
                self.capture = true;
                self.next_frame = now_ns;
                Status::Streaming { w: self.info.width, h: self.info.height, fps: self.info.fps }
            },
            Err(e) => {
                self.retry_at = now + START_RETRY_MS;
                error("capture failed: ", e.as_str())
            },
        }
    }

    /// What the round ends with.
    pub fn turn(&self) -> (t: Turn)
        ensures
            t == turn_of(*self),
    {
        if self.capture && self.section {
            Turn::Tick
        } else {
            Turn::Sleep { ns: IDLE_SLEEP_NS }
        }
    }

    /// A tick is done: how long to sleep until the next frame.
    pub fn ticked(&mut self, now_ns: u64) -> (sleep_ns: u64)
        requires
            old(self).wf(),
            old(self).next_frame + SECOND_NS <= u64::MAX,
            now_ns + SECOND_NS <= u64::MAX,
        ensures
            final(self).wf(),
            *final(self) == (Worker {
                next_frame: frame_after(
                    old(self).next_frame as int,
                    interval_of(old(self).info),
                    now_ns as int,
                ) as u64,
                ..*old(self)
            }),
            sleep_ns == final(self).next_frame - now_ns,
    {
        proof {
            vstd::arithmetic::div_mod::lemma_div_is_ordered_by_denominator(
                SECOND_NS as int,
                1,
                self.info.fps as int,
            );
            vstd::arithmetic::div_mod::lemma_div_pos_is_pos(SECOND_NS as int, self.info.fps as int);
        }
        let interval: u64 = SECOND_NS / self.info.fps as u64;
        self.next_frame = self.next_frame + interval;
        if self.next_frame < now_ns {
            self.next_frame = now_ns + interval;
        }
        self.next_frame - now_ns
    }

    /// A tick failed: the capture is over, its frame is to be dropped, and the worker sleeps as
    /// when idle. The status to report.
    pub fn tick_failed(&mut self, now: u64, detail: &str) -> (status: Status)
        requires
            old(self).wf(),
            now + CAPTURE_RETRY_MS <= u64::MAX,
        ensures
            final(self).wf(),
            *final(self) == after_failed_tick(*old(self), now),
            is_error(status, "capture error: "@ + detail@),
    {
        self.capture = false;
        self.retry_at = now + CAPTURE_RETRY_MS;
        error("capture error: ", detail)
    }

    /// The worker ends: whether the published frame is to be dropped.
    pub fn finish(&mut self) -> (invalidate: bool)
        ensures
            *final(self) == (Worker { capture: false, ..*old(self) }),
            invalidate == old(self).section,
    {
        self.capture = false;
        self.section
    }
}

// ---------------------------------------------------------------------------------------------
// Laws

/// The worker after the presence of readers was looked at.
pub open spec fn after_demand(w: Worker, now: u64, demand: bool) -> Worker {
    if demand_of(w, now, demand) == Demand::Stop {
        Worker { capture: false, ..w }
    } else {
        w
    }
}

/// The desktop is captured only while someone is reading: without readers a round never ticks, it
/// stops a running capture, and never starts one.
pub proof fn law_no_capture_without_readers(w: Worker, now: u64)
    ensures
        turn_of(after_demand(w, now, false)) == (Turn::Sleep { ns: IDLE_SLEEP_NS }),
        demand_of(w, now, false) != Demand::Start,
        w.capture ==> demand_of(w, now, false) == Demand::Stop,
{
}

/// While someone is reading, a running capture goes on, and one that is not running is started
/// unless it failed just now.
pub proof fn law_capture_while_reading(w: Worker, now: u64)
    requires
        w.wf(),
    ensures
        w.capture ==> demand_of(w, now, true) == Demand::Keep && turn_of(
            after_demand(w, now, true),
        ) == Turn::Tick,
        !w.capture && now >= w.retry_at ==> demand_of(w, now, true) == Demand::Start,
{
}

/// The worker sleeps until the next frame is due: one interval after the last one was due, never
/// in the past, and at most one interval after a tick that did not come early.
pub proof fn law_sleep_is_bounded(due: int, interval: int, now: int)
    requires
        0 <= interval,
    ensures
        frame_after(due, interval, now) >= due + interval,
        frame_after(due, interval, now) >= now,
        due <= now ==> frame_after(due, interval, now) - now <= interval,
{
}

/// Frames come no faster than the configured rate: with frames due at `due[0]`, `due[1]`, ..., each
/// found from the one before at some time `now`, frame `k` is due no earlier than `k` intervals
/// after the first.
pub proof fn law_frames_are_paced(due: Seq<int>, now: Seq<int>, interval: int, k: int)
    requires
        0 <= k < due.len(),
        now.len() == due.len(),
        0 <= interval,
        forall|i: int|
            0 <= i && i + 1 < due.len() ==> #[trigger] due[i + 1] == frame_after(
                due[i],
                interval,
                now[i],
            ),
    ensures
        due[k] >= due[0] + k * interval,
    decreases k,
{
    if k > 0 {
        law_frames_are_paced(due, now, interval, k - 1);
        assert(due[k - 1 + 1] == frame_after(due[k - 1], interval, now[k - 1]));
        assert(k * interval == (k - 1) * interval + interval) by (nonlinear_arith);
    } else {
        assert(0 * interval == 0);
    }
}

/// A fixed rate is taken as it is; the monitor's rate is taken up to 240.
pub proof fn law_rate_is_the_chosen_one(n: u32, monitor: MonitorInfo)
    ensures
        chosen_fps(FpsSel::Fixed(n), monitor) == n,
        monitor.refresh_hz <= 240 ==> chosen_fps(FpsSel::Monitor, monitor) == monitor.refresh_hz,
        monitor.refresh_hz > 240 ==> chosen_fps(FpsSel::Monitor, monitor) == 240,
{
}

/// As many intervals as frames fit into a second, and no more time is left over than that many
/// nanoseconds.
pub proof fn law_interval_is_the_rate(info: StreamInfo)
    requires
        info.fps >= 1,
    ensures
        interval_of(info) * info.fps <= 1_000_000_000 < (interval_of(info) + 1) * info.fps,
{
    let q = interval_of(info);
    vstd::arithmetic::div_mod::lemma_fundamental_div_mod(SECOND_NS as int, info.fps as int);
    assert(q * info.fps == info.fps * q && (q + 1) * info.fps == info.fps * q + info.fps)
        by (nonlinear_arith);
}

/// Frames that are in time keep their rhythm; one that is late starts a new rhythm, and missed ones
/// are not made up for.
pub proof fn law_rhythm(due: int, interval: int, now: int)
    requires
        0 <= interval,
    ensures
        now <= due + interval ==> frame_after(due, interval, now) == due + interval,
        now > due + interval ==> frame_after(due, interval, now) == now + interval,
{
}

/// A capture that failed is not started again before its time; an idle worker sleeps a while.
pub proof fn law_failed_capture_waits(w: Worker, now: u64)
    requires
        w.wf(),
        !w.capture,
    ensures
        now < w.retry_at ==> demand_of(w, now, true) == Demand::Keep,
        turn_of(w) is Sleep,
        after_demand(w, now, true) == w,
        after_demand(w, now, false) == w,
{
}

/// The stream has the size of the settings, whatever the monitor, and a fixed rate as it is.
pub proof fn law_stream_is_as_configured(width: u32, height: u32, n: u32, monitor: MonitorInfo)
    ensures
        stream_of(width, height, FpsSel::Fixed(n), monitor) == (StreamInfo { width, height, fps: n }),
        stream_of(width, height, FpsSel::Monitor, monitor).width == width,
        stream_of(width, height, FpsSel::Monitor, monitor).height == height,
        1 <= monitor.refresh_hz <= 240 ==> stream_of(width, height, FpsSel::Monitor, monitor).fps
            == monitor.refresh_hz,
{
}

/// While there are readers a capture that could not be started is tried again two seconds later,
/// one that failed one second later, and neither earlier.
pub proof fn law_capture_is_tried_again(w: Worker, now: u64, t: u64)
    requires
        now + 2000 <= u64::MAX,
    ensures
        !w.capture ==> (demand_of(after_failed_start(w, now), t, true) == Demand::Start <==> t >= now
            + 2000),
        demand_of(after_failed_tick(w, now), t, true) == Demand::Start <==> t >= now + 1000,
        demand_of(after_failed_tick(w, now), t, false) == Demand::Keep,
        after_failed_start(w, now).section == w.section,
        after_failed_tick(w, now).section == w.section,
{
}

/// A section that could not be opened is tried again a quarter of a second later, not earlier; one
/// that is open is kept.
pub proof fn law_section_is_tried_again(w: Worker, now: u64, t: u64)
    requires
        now + 250 <= u64::MAX,
    ensures
        wants_of(after_section_try(w, now, false), t) <==> t >= now + 250,
        !wants_of(after_section_try(w, now, true), t),
        after_section_try(w, now, true).capture == w.capture,
{
}

/// The tooltip of a running capture tells its numbers: other numbers give another text.
pub proof fn law_status_tells_the_stream(w1: u32, h1: u32, f1: u32, w2: u32, h2: u32, f2: u32)
    requires
        status_text(Status::Streaming { w: w1, h: h1, fps: f1 }) == status_text(
            Status::Streaming { w: w2, h: h2, fps: f2 },
        ),
    ensures
        w1 == w2 && h1 == h2 && f1 == f2,
{
    let p = "DeskCam: streaming "@;
    lemma_stream_text(p, w1, h1, f1);
    lemma_stream_text(p, w2, h2, f2);
    crate::text::law_same_rest(p, stream_text(w1, h1, f1), stream_text(w2, h2, f2));
    lemma_stream_text_tells(w1, h1, f1, w2, h2, f2);
}

/// The line about what is captured tells the monitor and the stream: another monitor or stream
/// gives another line.
pub proof fn law_line_tells_the_setup(a: Setup, b: Setup)
    requires
        using_text(a) == using_text(b),
    ensures
        a.info == b.info,
        a.monitor.number == b.monitor.number,
        a.monitor.primary == b.monitor.primary,
        a.monitor.rect == b.monitor.rect,
        a.monitor.refresh_hz == b.monitor.refresh_hz,
{
    let (p, o) = ("using "@, "; output "@);
    let ta = stream_text(a.info.width, a.info.height, a.info.fps);
    let tb = stream_text(b.info.width, b.info.height, b.info.fps);
    let (da, db) = (crate::monitor::description(a.monitor), crate::monitor::description(b.monitor));
    lemma_line_text(a);
    lemma_line_text(b);
    crate::text::law_same_rest(p, da + (o + ta), db + (o + tb));
    crate::monitor::law_description_tells_the_monitor(a.monitor, o + ta, b.monitor, o + tb);
    crate::text::law_same_rest(o, ta, tb);
    lemma_stream_text_tells(
        a.info.width,
        a.info.height,
        a.info.fps,
        b.info.width,
        b.info.height,
        b.info.fps,
    );
}

proof fn lemma_line_text(a: Setup)
    ensures
        using_text(a) == "using "@ + (crate::monitor::description(a.monitor) + ("; output "@
            + stream_text(a.info.width, a.info.height, a.info.fps))),
{
    let (p, o) = ("using "@, "; output "@);
    let d = crate::monitor::description(a.monitor);
    let t = stream_text(a.info.width, a.info.height, a.info.fps);
    lemma_stream_text(p + d + o, a.info.width, a.info.height, a.info.fps);
    crate::text::law_joined_texts(p + d, o, t);
    crate::text::law_joined_texts(p, d, o + t);
}

spec fn stream_text(w: u32, h: u32, fps: u32) -> Seq<char> {
    crate::text::decimal(w as nat) + ("x"@ + (crate::text::decimal(h as nat) + (" @ "@ + (
    crate::text::decimal(fps as nat) + " fps"@))))
}

proof fn lemma_stream_text(p: Seq<char>, w: u32, h: u32, fps: u32)
    ensures
        p + stream_text(w, h, fps) == p + crate::text::decimal(w as nat) + "x"@
            + crate::text::decimal(h as nat) + " @ "@ + crate::text::decimal(fps as nat) + " fps"@,
{
    let (x, at, end) = ("x"@, " @ "@, " fps"@);
    let (a, b, c) = (
        crate::text::decimal(w as nat),
        crate::text::decimal(h as nat),
        crate::text::decimal(fps as nat),
    );
    crate::text::law_joined_texts(p + a + x + b + at, c, end);
    crate::text::law_joined_texts(p + a + x + b, at, c + end);
    crate::text::law_joined_texts(p + a + x, b, at + (c + end));
    crate::text::law_joined_texts(p + a, x, b + (at + (c + end)));
    crate::text::law_joined_texts(p, a, x + (b + (at + (c + end))));
}

proof fn lemma_stream_text_tells(w1: u32, h1: u32, f1: u32, w2: u32, h2: u32, f2: u32)
    requires
        stream_text(w1, h1, f1) == stream_text(w2, h2, f2),
    ensures
        w1 == w2 && h1 == h2 && f1 == f2,
{
    reveal_strlit("x");
    reveal_strlit(" @ ");
    reveal_strlit(" fps");
    let (x, at, end) = ("x"@, " @ "@, " fps"@);
    let (c1, c2) = (
        crate::text::decimal(f1 as nat) + end,
        crate::text::decimal(f2 as nat) + end,
    );
    let (b1, b2) = (
        crate::text::decimal(h1 as nat) + (at + c1),
        crate::text::decimal(h2 as nat) + (at + c2),
    );
    assert((x + b1)[0] == 'x' && (x + b2)[0] == 'x');
    crate::text::law_number_ends_at_text(w1 as nat, x + b1, w2 as nat, x + b2);
    crate::text::law_same_rest(x, b1, b2);
    assert((at + c1)[0] == ' ' && (at + c2)[0] == ' ');
    crate::text::law_number_ends_at_text(h1 as nat, at + c1, h2 as nat, at + c2);
    crate::text::law_same_rest(at, c1, c2);
    crate::text::law_number_ends_at_text(f1 as nat, end, f2 as nat, end);
}

}
