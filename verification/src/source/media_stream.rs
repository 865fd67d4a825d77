//! The single video stream. A request for a sample only queues its token; a delivery thread
//! completes one request per frame interval with the newest frame from the shared section, so
//! consumers see evenly paced samples instead of bursts of repeated frames.
//!
//! Times of the pacing are nanoseconds of a monotonic clock, times of the section milliseconds
//! since boot. Tokens are the numbers that stand for them.

use vstd::prelude::*;
use std::collections::VecDeque;
use crate::codes::{
    Code,
    Guid,
    MF_E_INVALIDMEDIATYPE,
    MF_E_INVALID_STATE_TRANSITION,
    MF_E_MEDIA_SOURCE_WRONGSTATE,
    MF_E_SHUTDOWN,
};
use crate::stream_info::StreamInfo;

verus! {

/// Samples that the allocator holds.
pub const ALLOCATOR_SAMPLES: u32 = 6;

pub const SECTION_RETRY_MS: u64 = 500;

pub const SECOND_NS: u64 = 1_000_000_000;

/// `MEStreamStarted`.
pub const STREAM_STARTED: u32 = 202;

/// `MEStreamStopped`.
pub const STREAM_STOPPED: u32 = 208;

/// `MEMediaSample`.
pub const MEDIA_SAMPLE: u32 = 213;

/// `PINNAME_VIDEO_CAPTURE`.
pub const CATEGORY_VIDEO_CAPTURE: Guid = 0xfb6c4281_0353_11d1_905f_0000c0cc16ba;

/// `MFMediaType_Video`.
pub const MEDIA_VIDEO: Guid = 0x73646976_0000_0010_8000_00aa00389b71;

/// `MFVideoInterlace_Progressive`.
pub const PROGRESSIVE: u32 = 2;

/// `MFVideoTransferMatrix_BT601`.
pub const MATRIX_BT601: u32 = 2;

/// `MFNominalRange_16_235`.
pub const RANGE_16_235: u32 = 2;

/// `MFVideoFormat_NV12`.
pub const VIDEO_NV12: Guid = 0x3231564e_0000_0010_8000_00aa00389b71;

/// `MFVideoFormat_RGB32`.
pub const VIDEO_RGB32: Guid = 0x00000016_0000_0010_8000_00aa00389b71;

#[derive(Clone, Copy, PartialEq, Eq, Debug, Structural)]
pub enum Format {
    Nv12,
    Rgb32,
}

#[derive(Clone, Copy, PartialEq, Eq, Debug, Structural)]
pub enum StreamState {
    Stopped,
    Paused,
    Running,
}

/// What the stream says about itself.
#[derive(Clone, Copy, PartialEq, Eq, Debug, Structural)]
pub struct StreamAttributes {
    pub category: Guid,
    pub id: u32,
    /// `MF_DEVICESTREAM_FRAMESERVER_SHARED`.
    pub shared: u32,
    /// `MFFrameSourceTypes_Color`.
    pub frame_source_types: u32,
}

/// What the stream with an id says about itself.
pub fn attributes(id: u32) -> (a: StreamAttributes)
    ensures
        a == (StreamAttributes {
            category: CATEGORY_VIDEO_CAPTURE,
            id,
            shared: 1,
            frame_source_types: 1,
        }),
{
    StreamAttributes { category: CATEGORY_VIDEO_CAPTURE, id, shared: 1, frame_source_types: 1 }
}

// ---------------------------------------------------------------------------------------------
// Media types

/// The attributes of an offered type.
#[derive(Clone, Copy, PartialEq, Eq, Debug, Structural)]
pub struct MediaType {
    pub major_type: Guid,
    pub subtype: Guid,
    /// Width in the high, height in the low 32 bits.
    pub frame_size: u64,
    /// Numerator in the high, denominator in the low 32 bits.
    pub frame_rate: u64,
    pub stride: u32,
    pub interlace_mode: u32,
    pub all_samples_independent: u32,
    pub pixel_aspect_ratio: u64,
    pub avg_bitrate: u32,
    /// Set for NV12 only: BT.601 in limited range.
    pub yuv_matrix: Option<u32>,
    pub nominal_range: Option<u32>,
}

pub open spec fn subtype_of(format: Format) -> Guid {
    match format {
        Format::Nv12 => VIDEO_NV12,
        Format::Rgb32 => VIDEO_RGB32,
    }
}

/// Bytes of a frame.
pub open spec fn frame_bytes_of(format: Format, width: int, height: int) -> int {
    match format {
        Format::Nv12 => width * height * 3 / 2,
        Format::Rgb32 => width * height * 4,
    }
}

/// The attributes of a type.
pub open spec fn media_type_of(info: StreamInfo, fps: u32, format: Format) -> MediaType {
    let bits = frame_bytes_of(format, info.width as int, info.height as int) * 8 * fps;
    MediaType {
        major_type: MEDIA_VIDEO,
        subtype: subtype_of(format),
        frame_size: (info.width * 0x1_0000_0000 + info.height) as u64,
        frame_rate: (fps * 0x1_0000_0000 + 1) as u64,
        stride: (match format {
            Format::Nv12 => info.width as int,
            Format::Rgb32 => info.width * 4,
        }) as u32,
        interlace_mode: PROGRESSIVE,
        all_samples_independent: 1,
        pixel_aspect_ratio: 0x1_0000_0001,
        avg_bitrate: (if bits > u32::MAX {
            u32::MAX as int
        } else {
            bits
        }) as u32,
        yuv_matrix: match format {
            Format::Nv12 => Some(MATRIX_BT601),
            Format::Rgb32 => None,
        },
        nominal_range: match format {
            Format::Nv12 => Some(RANGE_16_235),
            Format::Rgb32 => None,
        },
    }
}

/// The attributes of a type can be computed.
pub open spec fn describable(info: StreamInfo, fps: u32) -> bool {
    &&& info.width * 4 <= u32::MAX
    &&& info.width * info.height * 4 <= u64::MAX
    &&& info.width * info.height * 4 * 8 * fps <= u64::MAX
}

/// The attributes of a type.
pub fn media_type(info: StreamInfo, fps: u32, format: Format) -> (t: MediaType)
    requires
        describable(info, fps),
    ensures
        t == media_type_of(info, fps, format),
{
    let w: u64 = info.width as u64;
    let h: u64 = info.height as u64;
    let f: u64 = fps as u64;
    proof {
        let n = w * h;
        assert(0 <= n && 0 <= n * 3 <= n * 4 && 0 <= n * 3 / 2 <= n * 4) by (nonlinear_arith)
            requires
                n == w * h,
                0 <= w,
                0 <= h,
        ;
        lemma_bits(n * 3 / 2, n * 4, f as int);
        lemma_bits(n * 4, n * 4, f as int);
    }
    let bytes: u64 = match format {
        Format::Nv12 => w * h * 3 / 2,
        Format::Rgb32 => w * h * 4,
    };
    let bits: u64 = if f == 0 {
        0
    } else {
        bytes * 8 * f
    };
    MediaType {
        major_type: MEDIA_VIDEO,
        subtype: match format {
            Format::Nv12 => VIDEO_NV12,
            Format::Rgb32 => VIDEO_RGB32,
        },
        frame_size: w * 0x1_0000_0000 + h,
        frame_rate: f * 0x1_0000_0000 + 1,
        stride: match format {
            Format::Nv12 => info.width,
            Format::Rgb32 => info.width * 4,
        },
        interlace_mode: PROGRESSIVE,
        all_samples_independent: 1,
        pixel_aspect_ratio: 0x1_0000_0001,
        avg_bitrate: if bits > 0xffff_ffff {
            0xffff_ffff
        } else {
            bits as u32
        },
        yuv_matrix: match format {
            Format::Nv12 => Some(MATRIX_BT601),
            Format::Rgb32 => None,
        },
        nominal_range: match format {
            Format::Nv12 => Some(RANGE_16_235),
            Format::Rgb32 => None,
        },
    }
}

proof fn lemma_bits(bytes: int, most: int, fps: int)
    requires
        0 <= bytes <= most,
        0 <= fps,
        most * 8 * fps <= u64::MAX,
    ensures
        0 <= bytes * 8 * fps <= u64::MAX,
        fps > 0 ==> bytes * 8 <= u64::MAX,
        fps == 0 ==> bytes * 8 * fps == 0,
{
    assert(0 <= bytes * 8 * fps <= most * 8 * fps && (fps > 0 ==> bytes * 8 <= bytes * 8 * fps) && (
    fps == 0 ==> bytes * 8 * fps == 0)) by (nonlinear_arith)
        requires
            0 <= bytes <= most,
            0 <= fps,
    ;
}

/// The types the stream offers: both formats at the stream's rate, and both at 30 frames per
/// second where the stream is faster.
pub open spec fn offered_types(info: StreamInfo) -> Seq<MediaType> {
    let own = seq![
        media_type_of(info, info.fps, Format::Nv12),
        media_type_of(info, info.fps, Format::Rgb32),
    ];
    if info.fps > 30 {
        own + seq![media_type_of(info, 30, Format::Nv12), media_type_of(info, 30, Format::Rgb32)]
    } else {
        own
    }
}

/// The types the stream offers; the first is the one it starts with.
pub fn types(info: StreamInfo) -> (list: Vec<MediaType>)
    requires
        describable(info, info.fps),
    ensures
        list@ == offered_types(info),
{
    let mut list: Vec<MediaType> = Vec::new();
    list.push(media_type(info, info.fps, Format::Nv12));
    list.push(media_type(info, info.fps, Format::Rgb32));
    if info.fps > 30 {
        proof {
            let n = info.width * info.height * 4 * 8;
            assert(0 <= n) by {
                assert(0 <= info.width * info.height) by (nonlinear_arith);
            }
            assert(n * 30 <= n * info.fps) by (nonlinear_arith)
                requires
                    0 <= n,
                    30 <= info.fps,
            ;
        }
        list.push(media_type(info, 30, Format::Nv12));
        list.push(media_type(info, 30, Format::Rgb32));
    }
    assert(list@ =~= offered_types(info));
    list
}

/// Every stream that the app produces can be described.
pub proof fn law_valid_stream_is_describable(info: StreamInfo)
    requires
        crate::stream_info::valid(info),
    ensures
        describable(info, info.fps),
{
    let (w, h) = (info.width as int, info.height as int);
    assert(0 <= w * h <= 3840 * 2160) by (nonlinear_arith)
        requires
            0 <= w <= 3840,
            0 <= h <= 2160,
    ;
    let n = w * h * 4 * 8;
    assert(n * info.fps <= 3840 * 2160 * 32 * 240) by (nonlinear_arith)
        requires
            0 <= n <= 3840 * 2160 * 32,
            0 <= info.fps <= 240,
    ;
}

// ---------------------------------------------------------------------------------------------
// State

/// What the stream holds, but for the pending requests.
#[derive(Clone, Copy, PartialEq, Eq, Debug, Structural)]
pub struct StreamCore {
    pub info: StreamInfo,
    pub state: StreamState,
    /// Whether the event queue is there.
    pub queue: bool,
    /// Whether there is a sample allocator, and whether it is initialised.
    pub allocator: bool,
    pub allocator_ready: bool,
    pub source: Option<u64>,
    pub format: Format,
    pub interval_ns: u64,
    /// Whether the section is open, and when it is tried next.
    pub section: bool,
    pub next_section_try: u64,
    pub section_traced: Option<bool>,
    pub alloc_fail_traced: bool,
    pub shutdown: bool,
    /// Whether the delivery thread runs.
    pub thread: bool,
}

pub struct MediaStream {
    pub core: StreamCore,
    /// Tokens of the requested samples, in order; a request may come without one.
    pub pending: VecDeque<Option<u64>>,
}

/// What starting the stream still takes.
#[derive(Clone, Copy, PartialEq, Eq, Debug, Structural)]
pub struct StartPlan {
    pub create_allocator: bool,
    pub init_allocator: bool,
}

/// What a change of state takes.
#[derive(Clone, Copy, PartialEq, Eq, Debug, Structural)]
pub enum StateAction {
    Nothing,
    /// Start the stream with its current type.
    Start,
    Stop,
}

/// What shutting down takes.
#[derive(Clone, Copy, PartialEq, Eq, Debug, Structural)]
pub struct ShutdownPlan {
    /// Whether to wait for the delivery thread (unless it is the one shutting down).
    pub join: bool,
    /// Whether to shut the event queue down.
    pub queue: bool,
}

/// The format with a subtype.
pub open spec fn format_of(subtype: Guid) -> Option<Format> {
    if subtype == VIDEO_NV12 {
        Some(Format::Nv12)
    } else if subtype == VIDEO_RGB32 {
        Some(Format::Rgb32)
    } else {
        None
    }
}

/// It is time to try to get the section.
pub open spec fn wants(core: StreamCore, now: u64) -> bool {
    !core.section && now >= core.next_section_try
}

/// The stream after the section was tried at `now`.
pub open spec fn after_try(core: StreamCore, now: u64, ok: bool) -> StreamCore {
    StreamCore {
        section: ok,
        next_section_try: if ok {
            core.next_section_try
        } else {
            (now + SECTION_RETRY_MS) as u64
        },
        section_traced: Some(ok),
        ..core
    }
}

/// Nanoseconds per frame of a frame rate; the stream's own rate where none is given or the given
/// one makes no sense.
pub open spec fn interval_of_rate(rate: Option<u64>, fps: u32) -> int {
    match rate {
        Some(r) => {
            let num = r as int / 0x1_0000_0000;
            let den = r as int % 0x1_0000_0000;
            if num == 0 || den == 0 {
                SECOND_NS as int / fps as int
            } else {
                SECOND_NS * den / num
            }
        },
        None => SECOND_NS as int / fps as int,
    }
}

/// Nanoseconds per frame of a frame rate.
pub fn rate_interval(rate: Option<u64>, fps: u32) -> (ns: u64)
    requires
        fps > 0,
    ensures
        ns == interval_of_rate(rate, fps),
{
    let mut num: u64 = fps as u64;
    let mut den: u64 = 1;
    if let Some(r) = rate {
        let n: u64 = r / 0x1_0000_0000;
        let d: u64 = r % 0x1_0000_0000;
        if n != 0 && d != 0 {
            num = n;
            den = d;
        }
    }
    assert(SECOND_NS * den <= u64::MAX);
    SECOND_NS * den / num
}

/// A stopped stream.
pub fn new(info: StreamInfo) -> (s: MediaStream)
    requires
        info.fps > 0,
    ensures
        s.core == (StreamCore {
            info,
            state: StreamState::Stopped,
            queue: true,
            allocator: false,
            allocator_ready: false,
            source: None,
            format: Format::Nv12,
            interval_ns: (SECOND_NS as int / info.fps as int) as u64,
            section: false,
            next_section_try: 0,
            section_traced: None,
            alloc_fail_traced: false,
            shutdown: false,
            thread: false,
        }),
        s.pending@ == Seq::<Option<u64>>::empty(),
{
    let interval_ns: u64 = rate_interval(None, info.fps);
    MediaStream {
        core: StreamCore {
            info,
            state: StreamState::Stopped,
            queue: true,
            allocator: false,
            allocator_ready: false,
            source: None,
            format: Format::Nv12,
            interval_ns,
            section: false,
            next_section_try: 0,
            section_traced: None,
            alloc_fail_traced: false,
            shutdown: false,
            thread: false,
        },
        pending: VecDeque::new(),
    }
}

impl MediaStream {
    pub fn set_source(&mut self, source: u64)
        ensures
            final(self).core == (StreamCore { source: Some(source), ..old(self).core }),
            final(self).pending == old(self).pending,
    {
        self.core.source = Some(source);
    }

    /// The stream gets an allocator, which is to be initialised before it is used.
    pub fn set_allocator(&mut self)
        ensures
            final(self).core == (StreamCore {
                allocator: true,
                allocator_ready: false,
                ..old(self).core
            }),
            final(self).pending == old(self).pending,
    {
        self.core.allocator = true;
        self.core.allocator_ready = false;
    }

    pub fn state(&self) -> (s: StreamState)
        ensures
            s == self.core.state,
    {
        self.core.state
    }

    /// Whether the event queue is still there.
    pub fn check_queue(&self) -> (r: Result<(), Code>)
        ensures
            r == (if self.core.queue {
                Ok::<(), Code>(())
            } else {
                Err(MF_E_SHUTDOWN)
            }),
    {
        if self.core.queue {
            Ok(())
        } else {
            Err(MF_E_SHUTDOWN)
        }
    }

    /// Starts to start the stream. `explicit` is whether the caller gave the type, `subtype` what
    /// the type says (or why there is none), `rate` its frame rate if it has one. Afterwards the
    /// plan is to be carried out.
    pub fn begin_start(
        &mut self,
        explicit: bool,
        subtype: Result<Guid, Code>,
        rate: Option<u64>,
    ) -> (r: Result<StartPlan, Code>)
        requires
            old(self).core.info.fps > 0,
        ensures
            final(self).pending == old(self).pending,
            ({
                let c = old(self).core;
                if c.shutdown || !c.queue {
                    r == Err::<StartPlan, Code>(MF_E_SHUTDOWN) && final(self).core == c
                } else {
                    match subtype {
                        Err(code) => r == Err::<StartPlan, Code>(code) && final(self).core == c,
                        Ok(g) => match format_of(g) {
                            None => r == Err::<StartPlan, Code>(MF_E_INVALIDMEDIATYPE)
                                && final(self).core == c,
                            Some(format) => {
                                &&& r == Ok::<StartPlan, Code>(
                                    StartPlan {
                                        create_allocator: !c.allocator,
                                        init_allocator: explicit || !c.allocator
                                            || !c.allocator_ready,
                                    },
                                )
                                &&& final(self).core == (StreamCore {
                                    format,
                                    interval_ns: interval_of_rate(rate, c.info.fps) as u64,
                                    ..c
                                })
                            },
                        },
                    }
                }
            }),
    {
        if self.core.shutdown || !self.core.queue {
            return Err(MF_E_SHUTDOWN);
        }
        let g = match subtype {
            Ok(g) => g,
            Err(code) => {
                return Err(code);
            },
        };
        let format = if g == VIDEO_NV12 {
            Format::Nv12
        } else if g == VIDEO_RGB32 {
            Format::Rgb32
        } else {
            return Err(MF_E_INVALIDMEDIATYPE);
        };
        self.core.format = format;
        self.core.interval_ns = rate_interval(rate, self.core.info.fps);
        Ok(
            StartPlan {
                create_allocator: !self.core.allocator,
                init_allocator: explicit || !self.core.allocator || !self.core.allocator_ready,
            },
        )
    }

    /// The allocator is initialised.
    pub fn allocator_initialised(&mut self)
        ensures
            final(self).core == (StreamCore { allocator_ready: true, ..old(self).core }),
            final(self).pending == old(self).pending,
    {
        self.core.allocator_ready = true;
    }

    /// Failures to allocate a sample are reported anew.
    pub fn allocator_settled(&mut self)
        ensures
            final(self).core == (StreamCore { alloc_fail_traced: false, ..old(self).core }),
            final(self).pending == old(self).pending,
    {
        self.core.alloc_fail_traced = false;
    }

    /// The start was announced: the stream runs. Whether to start the delivery thread, which
    /// exists only once an app actually streams. Where that fails, `spawn_failed` is to follow.
    pub fn started(&mut self) -> (spawn: bool)
        ensures
            final(self).core == (StreamCore {
                state: StreamState::Running,
                thread: true,
                ..old(self).core
            }),
            final(self).pending == old(self).pending,
            spawn == !old(self).core.thread,
    {
        let spawn = !self.core.thread;
        self.core.state = StreamState::Running;
        self.core.thread = true;
        spawn
    }

    /// The delivery thread could not be started: the next start tries again.
    pub fn spawn_failed(&mut self)
        ensures
            final(self).core == (StreamCore { thread: false, ..old(self).core }),
            final(self).pending == old(self).pending,
    {
        self.core.thread = false;
    }

    /// Stops the stream and forgets the requests. Whether the allocator is to be uninitialised.
    pub fn stop(&mut self) -> (r: Result<bool, Code>)
        ensures
            ({
                let c = old(self).core;
                if c.shutdown || !c.queue {
                    &&& r == Err::<bool, Code>(MF_E_SHUTDOWN)
                    &&& final(self).core == c
                    &&& final(self).pending == old(self).pending
                } else {
                    &&& r == Ok::<bool, Code>(c.allocator && c.allocator_ready)
                    &&& final(self).core == (StreamCore {
                        allocator_ready: false,
                        state: StreamState::Stopped,
                        ..c
                    })
                    &&& final(self).pending@ == Seq::<Option<u64>>::empty()
                }
            }),
    {
        if self.core.shutdown || !self.core.queue {
            return Err(MF_E_SHUTDOWN);
        }
        self.pending.clear();
        let uninit = self.core.allocator && self.core.allocator_ready;
        self.core.allocator_ready = false;
        self.core.state = StreamState::Stopped;
        Ok(uninit)
    }

    /// Ends the stream for good.
    pub fn shutdown(&mut self) -> (p: ShutdownPlan)
        ensures
            final(self).core == (StreamCore {
                shutdown: true,
                queue: false,
                allocator: false,
                source: None,
                section: false,
                thread: false,
                ..old(self).core
            }),
            final(self).pending@ == Seq::<Option<u64>>::empty(),
            p == (ShutdownPlan { join: old(self).core.thread, queue: old(self).core.queue }),
    {
        let p = ShutdownPlan { join: self.core.thread, queue: self.core.queue };
        self.core.shutdown = true;
        self.pending.clear();
        self.core.queue = false;
        self.core.allocator = false;
        self.core.source = None;
        self.core.section = false;
        self.core.thread = false;
        p
    }

    /// The stream is released: it is shut down if its delivery thread still runs.
    pub fn needs_shutdown(&self) -> (r: bool)
        ensures
            r == self.core.thread,
    {
        self.core.thread
    }

    /// `IMFMediaStream::GetMediaSource`.
    pub fn media_source(&self) -> (r: Result<u64, Code>)
        ensures
            r == (match self.core.source {
                Some(s) => Ok::<u64, Code>(s),
                None => Err(MF_E_SHUTDOWN),
            }),
    {
        match self.core.source {
            Some(s) => Ok(s),
            None => Err(MF_E_SHUTDOWN),
        }
    }

    /// `IMFMediaStream::GetStreamDescriptor`.
    pub fn check_descriptor(&self) -> (r: Result<(), Code>)
        ensures
            r == (if self.core.shutdown {
                Err::<(), Code>(MF_E_SHUTDOWN)
            } else {
                Ok(())
            }),
    {
        if self.core.shutdown {
            Err(MF_E_SHUTDOWN)
        } else {
            Ok(())
        }
    }

    /// `IMFMediaStream::RequestSample`: queues the request.
    pub fn request_sample(&mut self, token: Option<u64>) -> (r: Result<(), Code>)
        ensures
            final(self).core == old(self).core,
            ({
                let c = old(self).core;
                if c.shutdown || !c.queue {
                    r == Err::<(), Code>(MF_E_SHUTDOWN) && final(self).pending@ == old(self).pending@
                } else if c.state != StreamState::Running {
                    r == Err::<(), Code>(MF_E_MEDIA_SOURCE_WRONGSTATE) && final(self).pending@
                        == old(self).pending@
                } else {
                    r == Ok::<(), Code>(()) && final(self).pending@ == old(self).pending@.push(token)
                }
            }),
    {
        if self.core.shutdown || !self.core.queue {
            return Err(MF_E_SHUTDOWN);
        }
        if self.core.state != StreamState::Running {
            return Err(MF_E_MEDIA_SOURCE_WRONGSTATE);
        }
        self.pending.push_back(token);
        Ok(())
    }

    /// `IMFMediaStream2::SetStreamState`: only a running stream can be paused. `value` is `None`
    /// for a number that is no state.
    pub fn set_stream_state(&mut self, value: Option<StreamState>) -> (r: Result<StateAction, Code>)
        ensures
            final(self).pending == old(self).pending,
            ({
                let c = old(self).core;
                match value {
                    None => r == Err::<StateAction, Code>(MF_E_INVALID_STATE_TRANSITION)
                        && final(self).core == c,
                    Some(v) => if v == c.state {
                        r == Ok::<StateAction, Code>(StateAction::Nothing) && final(self).core == c
                    } else {
                        match v {
                            StreamState::Paused => if c.state == StreamState::Running {
                                r == Ok::<StateAction, Code>(StateAction::Nothing)
                                    && final(self).core == (StreamCore {
                                    state: StreamState::Paused,
                                    ..c
                                })
                            } else {
                                r == Err::<StateAction, Code>(MF_E_INVALID_STATE_TRANSITION)
                                    && final(self).core == c
                            },
                            StreamState::Running => r == Ok::<StateAction, Code>(StateAction::Start)
                                && final(self).core == c,
                            StreamState::Stopped => r == Ok::<StateAction, Code>(StateAction::Stop)
                                && final(self).core == c,
                        }
                    },
                }
            }),
    {
        let v = match value {
            None => {
                return Err(MF_E_INVALID_STATE_TRANSITION);
            },
            Some(v) => v,
        };
        if v == self.core.state {
            return Ok(StateAction::Nothing);
        }
        match v {
            StreamState::Paused => if self.core.state == StreamState::Running {
                self.core.state = StreamState::Paused;
                Ok(StateAction::Nothing)
            } else {
                Err(MF_E_INVALID_STATE_TRANSITION)
            },
            StreamState::Running => Ok(StateAction::Start),
            StreamState::Stopped => Ok(StateAction::Stop),
        }
    }

    /// Whether it is time to try to get the section.
    pub fn wants_section(&self, now: u64) -> (r: bool)
        ensures
            r == wants(self.core, now),
    {
        !self.core.section && now >= self.core.next_section_try
    }

    /// The section was tried. Whether to report that it is there or missing.
    pub fn section_tried(&mut self, now: u64, ok: bool) -> (report: bool)
        requires
            now + SECTION_RETRY_MS <= u64::MAX,
        ensures
            final(self).core == after_try(old(self).core, now, ok),
            final(self).pending == old(self).pending,
            report == (old(self).core.section_traced != Some(ok)),
    {
        self.core.section = ok;
        if !ok {
            self.core.next_section_try = now + SECTION_RETRY_MS;
        }
        let report = match self.core.section_traced {
            Some(t) => t != ok,
            None => true,
        };
        self.core.section_traced = Some(ok);
        report
    }
}

// ---------------------------------------------------------------------------------------------
// Delivery

/// What the delivery thread does next.
#[derive(Clone, Copy, PartialEq, Eq, Debug, Structural)]
pub enum Step {
    Exit,
    /// Wait until something changes.
    Wait,
    /// Sleep, then look again.
    Sleep { ns: u64 },
    /// Complete a request.
    Deliver,
}

/// What completing a request with an allocated sample takes, in order; the first step that fails
/// ends it.
#[derive(Clone, Copy, PartialEq, Eq, Debug, Structural)]
pub enum SampleStep {
    /// Write the newest frame into the sample, or black.
    Fill,
    /// Show the writer that someone is reading.
    TouchReader,
    /// Set the sample's time to the system's.
    Time,
    /// Set its duration, in 100 ns units.
    Duration { hns: i64 },
    CleanPoint { value: u32 },
    /// Attach the token of the request.
    Token { token: u64 },
    /// Raise the event that hands the sample on.
    Announce { event: u32 },
}

/// What completing a request takes: the section is told of a reader where it is open, and the
/// sample carries the token of the request where it came with one.
pub open spec fn sample_steps(core: StreamCore, token: Option<u64>) -> Seq<SampleStep> {
    seq![SampleStep::Fill] + (if core.section {
        seq![SampleStep::TouchReader]
    } else {
        seq![]
    }) + seq![
        SampleStep::Time,
        SampleStep::Duration { hns: (core.interval_ns as int / 100) as i64 },
        SampleStep::CleanPoint { value: 1 },
    ] + (match token {
        Some(token) => seq![SampleStep::Token { token }],
        None => seq![],
    }) + seq![SampleStep::Announce { event: MEDIA_SAMPLE }]
}

/// When a sample that was due at `due` is due: as planned, or now if that is more than an interval
/// ago.
pub open spec fn caught_up(due: int, interval: int, now: int) -> int {
    if due + interval < now {
        now
    } else {
        due
    }
}

/// What the delivery thread does, with `pending` requests and the next sample due at `due`.
pub open spec fn step_of(core: StreamCore, pending: nat, due: int, now: int) -> Step {
    if core.shutdown {
        Step::Exit
    } else if pending == 0 || core.state != StreamState::Running {
        Step::Wait
    } else {
        let d = caught_up(due, core.interval_ns as int, now);
        if d > now {
            Step::Sleep { ns: (d - now) as u64 }
        } else {
            Step::Deliver
        }
    }
}

/// When the sample after the step is due.
pub open spec fn due_after(core: StreamCore, pending: nat, due: int, now: int) -> int {
    let d = caught_up(due, core.interval_ns as int, now);
    match step_of(core, pending, due, now) {
        Step::Exit => due,
        Step::Wait => due,
        Step::Sleep { .. } => d,
        Step::Deliver => d + core.interval_ns,
    }
}

impl MediaStream {
    /// What the delivery thread does next, and when the next sample is due then.
    pub fn step(&self, due: u64, now: u64) -> (r: (Step, u64))
        requires
            due + self.core.interval_ns <= u64::MAX,
            now + self.core.interval_ns <= u64::MAX,
        ensures
            r.0 == step_of(self.core, self.pending@.len(), due as int, now as int),
            r.1 == due_after(self.core, self.pending@.len(), due as int, now as int),
    {
        if self.core.shutdown {
            return (Step::Exit, due);
        }
        if self.pending.len() == 0 || self.core.state != StreamState::Running {
            return (Step::Wait, due);
        }
        let d: u64 = if due + self.core.interval_ns < now {
            now
        } else {
            due
        };
        if d > now {
            (Step::Sleep { ns: d - now }, d)
        } else {
            (Step::Deliver, d + self.core.interval_ns)
        }
    }

    /// Takes the oldest request; whether it can be completed, or is dropped for want of an
    /// allocator or an event queue.
    pub fn take_request(&mut self) -> (r: Option<(Option<u64>, bool)>)
        ensures
            final(self).core == old(self).core,
            old(self).pending@.len() == 0 ==> r is None && final(self).pending@ == old(self).pending@,
            old(self).pending@.len() > 0 ==> r == Some(
                (old(self).pending@[0], old(self).core.allocator && old(self).core.queue),
            ) && final(self).pending@ == old(self).pending@.skip(1),
    {
        match self.pending.pop_front() {
            Some(token) => Some((token, self.core.allocator && self.core.queue)),
            None => None,
        }
    }

    /// No sample could be allocated: all are held downstream. The request is dropped, the pipeline
    /// asks again. Whether to report it, once until the stream is started anew.
    pub fn sample_missing(&mut self) -> (report: bool)
        ensures
            final(self).core == (StreamCore { alloc_fail_traced: true, ..old(self).core }),
            final(self).pending == old(self).pending,
            report == !old(self).core.alloc_fail_traced,
    {
        let report = !self.core.alloc_fail_traced;
        self.core.alloc_fail_traced = true;
        report
    }

    /// What completing a request with an allocated sample takes, in order.
    pub fn steps(&self, token: Option<u64>) -> (list: Vec<SampleStep>)
        ensures
            list@ == sample_steps(self.core, token),
    {
        let mut list: Vec<SampleStep> = Vec::new();
        list.push(SampleStep::Fill);
        if self.core.section {
            list.push(SampleStep::TouchReader);
        }
        list.push(SampleStep::Time);
        list.push(SampleStep::Duration { hns: self.sample_duration() });
        list.push(SampleStep::CleanPoint { value: 1 });
        if let Some(token) = token {
            list.push(SampleStep::Token { token });
        }
        list.push(SampleStep::Announce { event: MEDIA_SAMPLE });
        assert(list@ =~= sample_steps(self.core, token));
        list
    }

    /// The duration of a sample in 100 ns units.
    pub fn sample_duration(&self) -> (d: i64)
        ensures
            d == self.core.interval_ns as int / 100,
    {
        (self.core.interval_ns / 100) as i64
    }
}

// ---------------------------------------------------------------------------------------------
// Laws

/// What happens to the queue of requests.
pub enum QueueEvent {
    Requested { token: Option<u64> },
    Taken,
}

/// The queue and what was taken from it, after the events.
pub open spec fn queue_after(pending: Seq<Option<u64>>, events: Seq<QueueEvent>) -> (
    Seq<Option<u64>>,
    Seq<Option<u64>>,
)
    decreases events.len(),
{
    if events.len() == 0 {
        (pending, Seq::empty())
    } else {
        let (queue, taken) = queue_after(pending, events.drop_last());
        match events.last() {
            QueueEvent::Requested { token } => (queue.push(token), taken),
            QueueEvent::Taken => if queue.len() == 0 {
                (queue, taken)
            } else {
                (queue.skip(1), taken.push(queue[0]))
            },
        }
    }
}

/// The tokens requested, in order.
pub open spec fn requested(events: Seq<QueueEvent>) -> Seq<Option<u64>>
    decreases events.len(),
{
    if events.len() == 0 {
        Seq::empty()
    } else {
        match events.last() {
            QueueEvent::Requested { token } => requested(events.drop_last()).push(token),
            QueueEvent::Taken => requested(events.drop_last()),
        }
    }
}

/// Requests are completed in the order they were made, each once: what was taken, followed by what
/// still waits, is what waited at first, followed by what was requested.
pub proof fn law_requests_are_first_in_first_out(pending: Seq<Option<u64>>, events: Seq<QueueEvent>)
    ensures
        queue_after(pending, events).1 + queue_after(pending, events).0 == pending + requested(
            events,
        ),
    decreases events.len(),
{
    let all = queue_after(pending, events).1 + queue_after(pending, events).0;
    if events.len() == 0 {
        assert(all =~= pending + requested(events));
    } else {
        law_requests_are_first_in_first_out(pending, events.drop_last());
        let (queue, taken) = queue_after(pending, events.drop_last());
        let before = pending + requested(events.drop_last());
        assert(taken + queue == before);
        match events.last() {
            QueueEvent::Requested { token } => {
                assert(all =~= (taken + queue).push(token));
                assert(pending + requested(events) =~= before.push(token));
            },
            QueueEvent::Taken => {
                assert(all =~= taken + queue);
            },
        }
    }
}

/// A sample is delivered only to a running stream that was asked for one, and not before it is
/// due; the next one is then due at least one interval later.
pub proof fn law_delivery_is_due(core: StreamCore, pending: nat, due: int, now: int)
    requires
        step_of(core, pending, due, now) == Step::Deliver,
    ensures
        due <= now,
        pending > 0,
        core.state == StreamState::Running,
        !core.shutdown,
        due_after(core, pending, due, now) >= due + core.interval_ns,
{
}

/// Sample `i` is delivered at `now[i]`, and the one after it is due as that says.
pub open spec fn delivered_at(
    core: StreamCore,
    pending: Seq<nat>,
    due: Seq<int>,
    now: Seq<int>,
    i: int,
) -> bool {
    &&& step_of(core, pending[i], due[i], now[i]) == Step::Deliver
    &&& due[i + 1] == due_after(core, pending[i], due[i], now[i])
}

/// Delivery is paced: with deliveries due at `due[0]`, `due[1]`, ..., sample `k` is due no earlier
/// than `k` intervals after the first.
pub proof fn law_paced(core: StreamCore, pending: Seq<nat>, due: Seq<int>, now: Seq<int>, k: int)
    requires
        0 <= k < due.len(),
        now.len() == due.len(),
        pending.len() == due.len(),
        forall|i: int|
            0 <= i && i + 1 < due.len() ==> #[trigger] delivered_at(core, pending, due, now, i),
    ensures
        due[k] >= due[0] + k * core.interval_ns,
    decreases k,
{
    if k > 0 {
        law_paced(core, pending, due, now, k - 1);
        assert(delivered_at(core, pending, due, now, k - 1));
        assert(k * core.interval_ns == (k - 1) * core.interval_ns + core.interval_ns)
            by (nonlinear_arith);
    } else {
        assert(0 * core.interval_ns == 0);
    }
}

/// A sample is announced once, as the last step, and filled as the first; it carries exactly the
/// token of the request.
pub proof fn law_sample_is_complete_when_announced(core: StreamCore, token: Option<u64>, t: u64)
    ensures
        sample_steps(core, token)[0] == SampleStep::Fill,
        sample_steps(core, token).last() == (SampleStep::Announce { event: MEDIA_SAMPLE }),
        forall|i: int|
            0 <= i < sample_steps(core, token).len() - 1 ==> !(#[trigger] sample_steps(
                core,
                token,
            )[i] is Announce),
        sample_steps(core, token).contains(SampleStep::Token { token: t }) == (token == Some(t)),
        sample_steps(core, token).contains(SampleStep::TouchReader) == core.section,
{
    let steps = sample_steps(core, token);
    if token == Some(t) {
        assert(steps[steps.len() - 2] == SampleStep::Token { token: t });
    }
    if core.section {
        assert(steps[1] == SampleStep::TouchReader);
    }
}

/// A stream that is shut down delivers nothing more.
pub proof fn law_no_delivery_after_shutdown(core: StreamCore, pending: nat, due: int, now: int)
    ensures
        step_of(StreamCore { shutdown: true, ..core }, pending, due, now) == Step::Exit,
{
}

/// A section that was not there is tried again half a second later, not earlier; one that is there
/// is not tried again.
pub proof fn law_section_is_tried_again(core: StreamCore, now: u64, t: u64)
    requires
        now + 500 <= u64::MAX,
    ensures
        wants(after_try(core, now, false), t) <==> t >= now + 500,
        !wants(after_try(core, now, true), t),
{
}

/// What a type says: the frame size and the rate in two halves each, rows as long as their pixels,
/// and eight bits for every byte of every frame of a second, as far as 32 bits can say.
pub proof fn law_type_says_what_it_is(info: StreamInfo, fps: u32, format: Format)
    requires
        describable(info, fps),
    ensures
        ({
            let t = media_type_of(info, fps, format);
            let bytes = frame_bytes_of(format, info.width as int, info.height as int);
            &&& t.frame_size as int / 0x1_0000_0000 == info.width
            &&& t.frame_size as int % 0x1_0000_0000 == info.height
            &&& t.frame_rate as int / 0x1_0000_0000 == fps
            &&& t.frame_rate as int % 0x1_0000_0000 == 1
            &&& format_of(t.subtype) == Some(format)
            &&& format == Format::Nv12 ==> t.stride == info.width
            &&& format == Format::Rgb32 ==> t.stride == 4 * info.width
            &&& 8 * (fps * bytes) <= 0xffff_ffff ==> t.avg_bitrate == 8 * (fps * bytes)
            &&& 8 * (fps * bytes) > 0xffff_ffff ==> t.avg_bitrate == 0xffff_ffff
        }),
{
    let bytes = frame_bytes_of(format, info.width as int, info.height as int);
    assert(bytes * 8 * fps == 8 * (fps * bytes)) by (nonlinear_arith);
    assert(0 <= info.width * info.height) by (nonlinear_arith);
    assert(0 <= 8 * (fps * bytes)) by (nonlinear_arith)
        requires
            0 <= bytes,
            0 <= fps,
    ;
}

/// A frame of a type is its rows: in RGB32 one row of `stride` bytes per pixel row, in NV12 half as
/// many again.
pub proof fn law_stride_times_rows(info: StreamInfo, fps: u32, format: Format)
    requires
        describable(info, fps),
        crate::convert::even_size(info.width as int, info.height as int),
    ensures
        ({
            let stride = media_type_of(info, fps, format).stride;
            let bytes = frame_bytes_of(format, info.width as int, info.height as int);
            bytes == stride * info.height + (if format == Format::Nv12 {
                stride * (info.height as int / 2)
            } else {
                0
            })
        }),
{
    let (w, h) = (info.width as int, info.height as int);
    let h2 = h / 2;
    assert(w * h == 2 * (w * h2) && w * h * 4 == (w * 4) * h) by (nonlinear_arith)
        requires
            h == 2 * h2,
    ;
}

/// Both formats are offered at the stream's rate, NV12 first, and at 30 frames per second where the
/// stream is faster; nothing else is.
pub proof fn law_offered(info: StreamInfo)
    ensures
        ({
            let list = offered_types(info);
            &&& list.len() == (if info.fps >= 31 {
                4int
            } else {
                2
            })
            &&& list[0] == media_type_of(info, info.fps, Format::Nv12)
            &&& list[1] == media_type_of(info, info.fps, Format::Rgb32)
            &&& info.fps >= 31 ==> list[2] == media_type_of(info, 30, Format::Nv12) && list[3]
                == media_type_of(info, 30, Format::Rgb32)
        }),
{
}

/// A rate of `num / den` frames per second means intervals of `den / num` seconds, as nearly as a
/// nanosecond allows; a rate with a zero in it, or none, means the stream's own.
pub proof fn law_interval_is_the_rate(num: u32, den: u32, fps: u32)
    requires
        fps >= 1,
    ensures
        ({
            let rate = (num * 0x1_0000_0000 + den) as u64;
            let t = interval_of_rate(Some(rate), fps);
            let own = interval_of_rate(None, fps);
            &&& num > 0 && den > 0 ==> t * num <= 1_000_000_000 * den < (t + 1) * num
            &&& num == 0 || den == 0 ==> t == own
            &&& own * fps <= 1_000_000_000 < (own + 1) * fps
        }),
{
    let rate = (num * 0x1_0000_0000 + den) as u64;
    assert(rate as int / 0x1_0000_0000 == num && rate as int % 0x1_0000_0000 == den);
    lemma_quotient(1_000_000_000, fps as int);
    if num > 0 && den > 0 {
        lemma_quotient(1_000_000_000 * den, num as int);
    }
}

proof fn lemma_quotient(a: int, b: int)
    requires
        0 <= a,
        0 < b,
    ensures
        (a / b) * b <= a < (a / b + 1) * b,
{
    let q = a / b;
    vstd::arithmetic::div_mod::lemma_fundamental_div_mod(a, b);
    assert(q * b == b * q && (q + 1) * b == b * q + b) by (nonlinear_arith);
}

/// A request in time is completed when the next sample is due, one interval after the last; after a
/// pause of more than an interval it is completed at once and the rhythm starts anew.
pub proof fn law_rhythm(core: StreamCore, pending: nat, due: int, now: int)
    requires
        !core.shutdown,
        core.state == StreamState::Running,
        pending > 0,
        now < due ==> due - now <= u64::MAX,
    ensures
        ({
            let step = step_of(core, pending, due, now);
            let next = due_after(core, pending, due, now);
            &&& now < due ==> (step matches Step::Sleep { ns } && now + ns == due) && next == due
            &&& due <= now <= due + core.interval_ns ==> step == Step::Deliver && next == due
                + core.interval_ns
            &&& now > due + core.interval_ns ==> step == Step::Deliver && next == now
                + core.interval_ns
        }),
{
}

/// A sample lasts an interval, in units of 100 ns, and the section learns of a reader exactly where
/// it is open.
pub proof fn law_sample_duration(core: StreamCore, token: Option<u64>)
    ensures
        exists|hns: i64|
            {
                &&& #[trigger] sample_steps(core, token).contains(SampleStep::Duration { hns })
                &&& 100 * hns <= core.interval_ns < 100 * hns + 100
            },
        sample_steps(core, token).contains(SampleStep::TouchReader) == core.section,
{
    let steps = sample_steps(core, token);
    let hns = (core.interval_ns as int / 100) as i64;
    if core.section {
        assert(steps[1] == SampleStep::TouchReader);
        assert(steps[3] == SampleStep::Duration { hns });
    } else {
        assert(steps[2] == SampleStep::Duration { hns });
    }
    assert(steps.contains(SampleStep::Duration { hns }));
}

}
