//! The single output pin: connection and allocator negotiation, format selection and the capture
//! pin category apps look for.

use vstd::prelude::*;
use crate::codes::{
    Code,
    Guid,
    E_FAIL,
    E_INVALIDARG,
    E_POINTER,
    E_PROP_ID_UNSUPPORTED,
    E_PROP_SET_UNSUPPORTED,
    E_UNEXPECTED,
    S_FALSE,
    S_OK,
    VFW_E_ALREADY_CONNECTED,
    VFW_E_INVALIDMEDIATYPE,
    VFW_E_NOT_CONNECTED,
    VFW_E_NOT_STOPPED,
    VFW_E_NO_ACCEPTABLE_TYPES,
};
use crate::dshow::enums::EnumMediaTypes;
use crate::dshow::filter::{Core, FilterState, State, PIN_ID};
use crate::dshow::format::{Format, MediaType, VideoType, FORMAT_VIDEOINFO};
use crate::stream_info::StreamInfo;
use crate::utf16::{copy_name, encode_z};

verus! {

/// Samples the allocator should hold at least, so a slow consumer does not stall delivery.
pub const MIN_BUFFERS: i32 = 3;

/// `KSPROPERTY_SUPPORT_GET`.
pub const SUPPORT_GET: u32 = 1;

/// `AMPROPSETID_Pin`.
pub const PIN_PROPERTIES: Guid = 0x9b00f101_1567_11d1_b3f1_00aa003761c5;

/// `AMPROPERTY_PIN_CATEGORY`.
pub const PIN_CATEGORY: u32 = 0;

/// `PIN_CATEGORY_CAPTURE`.
pub const CATEGORY_CAPTURE: Guid = 0xfb6c4281_0353_11d1_905f_0000c0cc16ba;

/// Bytes of a `VIDEO_STREAM_CONFIG_CAPS`.
pub const CAPS_BYTES: i32 = 128;

/// Bytes of a `GUID`.
pub const GUID_BYTES: u32 = 16;

// ---------------------------------------------------------------------------------------------
// Acceptable types

/// Types we can produce: our advertised size, any of our formats, any sane frame rate.
pub open spec fn acceptable(info: StreamInfo, vt: VideoType) -> bool {
    vt.width == info.width && vt.height == info.height && 1 <= vt.fps <= 240
}

/// A caller's type, with our frame rate where it left that unspecified.
pub open spec fn accepted(info: StreamInfo, mt: Option<MediaType>) -> Option<VideoType> {
    match mt {
        None => None,
        Some(m) => match crate::dshow::format::video_type_of(m) {
            None => None,
            Some(t) => {
                let vt = if t.fps == 0 {
                    VideoType { fps: info.fps, ..t }
                } else {
                    t
                };
                if acceptable(info, vt) {
                    Some(vt)
                } else {
                    None
                }
            },
        },
    }
}

/// The media type behind a reference, where there is one.
pub open spec fn deref(mt: Option<&MediaType>) -> Option<MediaType> {
    match mt {
        Some(m) => Some(*m),
        None => None,
    }
}

/// Parses a caller's type and fills in our frame rate when it left it unspecified.
pub fn accept(info: StreamInfo, mt: Option<&MediaType>) -> (r: Option<VideoType>)
    ensures
        r == accepted(info, deref(mt)),
{
    match VideoType::parse(mt) {
        None => None,
        Some(t) => {
            let mut vt = t;
            if vt.fps == 0 {
                vt.fps = info.fps;
            }
            if vt.width == info.width && vt.height == info.height && 1 <= vt.fps && vt.fps <= 240 {
                Some(vt)
            } else {
                None
            }
        },
    }
}

// ---------------------------------------------------------------------------------------------
// Connecting

/// The types to try, in order: a fully specified acceptable type as it is, otherwise ours as far
/// as the caller's partial type admits them, preferred first.
pub open spec fn candidates_of(
    info: StreamInfo,
    preferred: VideoType,
    mt: Option<MediaType>,
) -> Seq<VideoType> {
    match accepted(info, mt) {
        Some(vt) => seq![vt],
        None => VideoType::offered_list(preferred).filter(
            |vt: VideoType| mt is None || vt.admitted(mt.unwrap()),
        ),
    }
}

/// An attempt to connect: the types to try and how far it has come.
pub struct Connecting {
    pub candidates: Vec<VideoType>,
    pub index: usize,
    /// The code that the attempt fails with if nothing more is tried.
    pub last: Code,
    /// Whether the current type was accepted and the allocator is being negotiated.
    pub negotiating: bool,
    pub connected: bool,
}

/// What an attempt to connect does next.
#[derive(Clone, Copy, PartialEq, Eq, Debug, Structural)]
pub enum ConnectAction {
    /// Offer the type to the peer.
    Offer { vt: VideoType },
    /// Negotiate an allocator for the type.
    Negotiate { vt: VideoType },
    Connected { vt: VideoType },
    Failed { code: Code },
}

/// An attempt to connect, mathematically.
pub struct ConnectView {
    pub candidates: Seq<VideoType>,
    pub index: int,
    pub last: Code,
    pub negotiating: bool,
    pub connected: bool,
}

impl ConnectView {
    pub open spec fn wf(self) -> bool {
        &&& 0 <= self.index <= self.candidates.len()
        &&& self.negotiating || self.connected ==> self.index < self.candidates.len()
    }

    pub open spec fn action(self) -> ConnectAction {
        if self.connected {
            ConnectAction::Connected { vt: self.candidates[self.index] }
        } else if self.negotiating {
            ConnectAction::Negotiate { vt: self.candidates[self.index] }
        } else if self.index < self.candidates.len() {
            ConnectAction::Offer { vt: self.candidates[self.index] }
        } else {
            ConnectAction::Failed { code: self.last }
        }
    }

    /// The peer answered the offer: on to the allocator, or to the next type.
    pub open spec fn after_offer(self, reply: Result<(), Code>) -> ConnectView {
        match reply {
            Ok(()) => ConnectView { negotiating: true, ..self },
            Err(code) => ConnectView { index: self.index + 1, last: code, ..self },
        }
    }

    /// The allocator is negotiated, or not: connected, or on to the next type.
    pub open spec fn after_negotiation(self, reply: Result<(), Code>) -> ConnectView {
        match reply {
            Ok(()) => ConnectView { negotiating: false, connected: true, ..self },
            Err(code) => ConnectView {
                negotiating: false,
                index: self.index + 1,
                last: code,
                ..self
            },
        }
    }

    /// The current type is offered and, if the peer takes it, negotiated about.
    pub open spec fn after_attempt(self, r: Replies) -> ConnectView {
        match r.offer {
            Ok(()) => self.after_offer(r.offer).after_negotiation(r.negotiation),
            Err(_) => self.after_offer(r.offer),
        }
    }

    /// Type after type is tried; `replies` holds what comes of each.
    pub open spec fn after_all(self, replies: Seq<Replies>) -> ConnectView
        decreases
                self.candidates.len() - self.index,
                if self.connected {
                    0int
                } else {
                    1
                },
    {
        if self.connected || self.index < 0 || self.index >= self.candidates.len() {
            self
        } else {
            self.after_attempt(replies[self.index]).after_all(replies)
        }
    }
}

/// What comes of trying a type: the peer's answer to the offer, then the negotiation's result.
pub struct Replies {
    pub offer: Result<(), Code>,
    pub negotiation: Result<(), Code>,
}

impl Replies {
    /// The type gets through, or the code it is refused with.
    pub open spec fn outcome(self) -> Result<(), Code> {
        match self.offer {
            Ok(()) => self.negotiation,
            Err(code) => Err(code),
        }
    }
}

impl View for Connecting {
    type V = ConnectView;

    open spec fn view(&self) -> ConnectView {
        ConnectView {
            candidates: self.candidates@,
            index: self.index as int,
            last: self.last,
            negotiating: self.negotiating,
            connected: self.connected,
        }
    }
}

impl Connecting {
    pub fn action(&self) -> (a: ConnectAction)
        requires
            self@.wf(),
        ensures
            a == self@.action(),
    {
        if self.connected {
            ConnectAction::Connected { vt: self.candidates[self.index] }
        } else if self.negotiating {
            ConnectAction::Negotiate { vt: self.candidates[self.index] }
        } else if self.index < self.candidates.len() {
            ConnectAction::Offer { vt: self.candidates[self.index] }
        } else {
            ConnectAction::Failed { code: self.last }
        }
    }

    /// The peer answered the offer: go on to the allocator, or to the next type.
    pub fn offered(&mut self, reply: Result<(), Code>)
        requires
            old(self)@.wf(),
            old(self)@.action() is Offer,
        ensures
            final(self)@.wf(),
            final(self)@ == old(self)@.after_offer(reply),
    {
        match reply {
            Ok(()) => {
                self.negotiating = true;
            },
            Err(code) => {
                let total: usize = self.candidates.len();
                assert(self.index < total);
                self.last = code;
                self.index += 1;
            },
        }
    }

    /// The allocator is negotiated, or not: then the peer is to be disconnected (the result) and
    /// the next type is tried.
    pub fn negotiated(&mut self, reply: Result<(), Code>) -> (disconnect: bool)
        requires
            old(self)@.wf(),
            old(self)@.action() is Negotiate,
        ensures
            final(self)@.wf(),
            final(self)@ == old(self)@.after_negotiation(reply),
            disconnect == reply is Err,
    {
        self.negotiating = false;
        match reply {
            Ok(()) => {
                self.connected = true;
                false
            },
            Err(code) => {
                let total: usize = self.candidates.len();
                assert(self.index < total);
                self.last = code;
                self.index += 1;
                true
            },
        }
    }
}

/// An attempt connects with the first type that gets through, or fails with the last refusal; with
/// nothing to try it fails with the code it began with.
pub proof fn law_first_working_type_connects(c: ConnectView, replies: Seq<Replies>)
    requires
        c.wf(),
        !c.connected,
        !c.negotiating,
        replies.len() == c.candidates.len(),
    ensures
        match c.after_all(replies).action() {
            ConnectAction::Connected { vt } => exists|i: int|
                c.index <= i < c.candidates.len() && vt == #[trigger] c.candidates[i]
                    && replies[i].outcome() is Ok && forall|k: int|
                    c.index <= k < i ==> (#[trigger] replies[k]).outcome() is Err,
            ConnectAction::Failed { code } => {
                &&& forall|k: int|
                    c.index <= k < c.candidates.len() ==> (#[trigger] replies[k]).outcome() is Err
                &&& code == (if c.index == c.candidates.len() {
                    c.last
                } else {
                    replies[c.candidates.len() - 1].outcome()->Err_0
                })
            },
            _ => false,
        },
    decreases c.candidates.len() - c.index,
{
    reveal_with_fuel(ConnectView::after_all, 2);
    if c.index < c.candidates.len() {
        let next = c.after_attempt(replies[c.index]);
        match replies[c.index].outcome() {
            Ok(()) => {
                assert(c.candidates[c.index] == c.candidates[c.index]);
            },
            Err(_) => {
                law_first_working_type_connects(next, replies);
                if let ConnectAction::Connected { vt } = next.after_all(replies).action() {
                    let i = choose|i: int|
                        next.index <= i < c.candidates.len() && vt == #[trigger] next.candidates[i]
                            && replies[i].outcome() is Ok && forall|k: int|
                            next.index <= k < i ==> (#[trigger] replies[k]).outcome() is Err;
                    assert(vt == c.candidates[i]);
                }
            },
        }
    }
}

// ---------------------------------------------------------------------------------------------
// Allocator negotiation

/// `ALLOCATOR_PROPERTIES`: number and size of the buffers, their alignment and prefix.
#[derive(Clone, Copy, PartialEq, Eq, Debug, Structural)]
pub struct AllocatorProps {
    pub buffers: i32,
    pub bytes: i32,
    pub align: i32,
    pub prefix: i32,
}

/// What to ask of an allocator, given what the peer requires (if it says): enough buffers of the
/// frame size.
pub open spec fn request_of(required: Option<AllocatorProps>, bytes: i32) -> AllocatorProps {
    let p = match required {
        Some(p) => p,
        None => AllocatorProps { buffers: 0, bytes: 0, align: 0, prefix: 0 },
    };
    AllocatorProps {
        buffers: crate::num::at_least(p.buffers as int, MIN_BUFFERS as int) as i32,
        bytes,
        align: crate::num::at_least(p.align as int, 1) as i32,
        prefix: crate::num::at_least(p.prefix as int, 0) as i32,
    }
}

/// What to ask of an allocator.
pub fn allocator_request(required: Option<AllocatorProps>, bytes: i32) -> (r: AllocatorProps)
    ensures
        r == request_of(required, bytes),
{
    let p = match required {
        Some(p) => p,
        None => AllocatorProps { buffers: 0, bytes: 0, align: 0, prefix: 0 },
    };
    AllocatorProps {
        buffers: if p.buffers < MIN_BUFFERS {
            MIN_BUFFERS
        } else {
            p.buffers
        },
        bytes,
        align: if p.align < 1 {
            1
        } else {
            p.align
        },
        prefix: if p.prefix < 0 {
            0
        } else {
            p.prefix
        },
    }
}

/// What the negotiation does next. The peer's allocator is tried first, the standard one if
/// anything goes wrong with it.
#[derive(Clone, Copy, PartialEq, Eq, Debug, Structural)]
pub enum AllocatorStep {
    /// Get the allocator.
    Obtain { standard: bool },
    /// Set its properties.
    Configure { standard: bool },
    /// Tell the peer.
    Notify { standard: bool },
    /// The negotiation is over: the allocator in use.
    Agreed { standard: bool },
    Failed { code: Code },
}

/// What came of a step.
#[derive(Clone, Copy, PartialEq, Eq, Debug, Structural)]
pub enum AllocatorEvent {
    Succeeded,
    Configured { actual: AllocatorProps },
    Failed { code: Code },
}

/// The step after a failure.
pub open spec fn after_failure(standard: bool, code: Code) -> AllocatorStep {
    if standard {
        AllocatorStep::Failed { code }
    } else {
        AllocatorStep::Obtain { standard: true }
    }
}

/// The step after an event; the buffers must hold a frame of `bytes`.
pub open spec fn allocator_next(step: AllocatorStep, event: AllocatorEvent, bytes: i32) -> AllocatorStep {
    match step {
        AllocatorStep::Obtain { standard } => match event {
            AllocatorEvent::Failed { code } => after_failure(standard, code),
            _ => AllocatorStep::Configure { standard },
        },
        AllocatorStep::Configure { standard } => match event {
            AllocatorEvent::Configured { actual } => if actual.bytes < bytes || actual.buffers < 1 {
                after_failure(standard, E_FAIL)
            } else {
                AllocatorStep::Notify { standard }
            },
            AllocatorEvent::Failed { code } => after_failure(standard, code),
            AllocatorEvent::Succeeded => after_failure(standard, E_FAIL),
        },
        AllocatorStep::Notify { standard } => match event {
            AllocatorEvent::Failed { code } => after_failure(standard, code),
            _ => AllocatorStep::Agreed { standard },
        },
        AllocatorStep::Agreed { .. } => step,
        AllocatorStep::Failed { .. } => step,
    }
}

impl AllocatorStep {
    /// How many events may still come.
    pub open spec fn remaining(self) -> nat {
        match self {
            AllocatorStep::Obtain { standard } => if standard {
                3
            } else {
                6
            },
            AllocatorStep::Configure { standard } => if standard {
                2
            } else {
                5
            },
            AllocatorStep::Notify { standard } => if standard {
                1
            } else {
                4
            },
            AllocatorStep::Agreed { .. } => 0,
            AllocatorStep::Failed { .. } => 0,
        }
    }

    pub fn first() -> (s: AllocatorStep)
        ensures
            s == (AllocatorStep::Obtain { standard: false }),
    {
        AllocatorStep::Obtain { standard: false }
    }

    pub fn next(self, event: AllocatorEvent, bytes: i32) -> (s: AllocatorStep)
        ensures
            s == allocator_next(self, event, bytes),
            !(self is Agreed || self is Failed) ==> s.remaining() < self.remaining(),
    {
        match self {
            AllocatorStep::Obtain { standard } => match event {
                AllocatorEvent::Failed { code } => failed(standard, code),
                _ => AllocatorStep::Configure { standard },
            },
            AllocatorStep::Configure { standard } => match event {
                AllocatorEvent::Configured { actual } => if actual.bytes < bytes || actual.buffers
                    < 1 {
                    failed(standard, E_FAIL)
                } else {
                    AllocatorStep::Notify { standard }
                },
                AllocatorEvent::Failed { code } => failed(standard, code),
                AllocatorEvent::Succeeded => failed(standard, E_FAIL),
            },
            AllocatorStep::Notify { standard } => match event {
                AllocatorEvent::Failed { code } => failed(standard, code),
                _ => AllocatorStep::Agreed { standard },
            },
            AllocatorStep::Agreed { .. } => self,
            AllocatorStep::Failed { .. } => self,
        }
    }
}

fn failed(standard: bool, code: Code) -> (s: AllocatorStep)
    ensures
        s == after_failure(standard, code),
{
    if standard {
        AllocatorStep::Failed { code }
    } else {
        AllocatorStep::Obtain { standard: true }
    }
}

/// The request asks for enough: an allocator that gives what was asked for passes, whatever the
/// peer required.
pub proof fn law_request_suffices(standard: bool, required: Option<AllocatorProps>, bytes: i32)
    ensures
        allocator_next(
            AllocatorStep::Configure { standard },
            AllocatorEvent::Configured { actual: request_of(required, bytes) },
            bytes,
        ) == (AllocatorStep::Notify { standard }),
{
}

// ---------------------------------------------------------------------------------------------
// Pin calls

/// What a `SetFormat` call does.
#[derive(Clone, Copy, PartialEq, Eq, Debug, Structural)]
pub enum FormatAction {
    /// Nothing more.
    Done,
    /// The pin is connected with another type: ask the peer whether it takes `vt`.
    AskPeer { vt: VideoType, peer: u64, graph: Option<u64> },
}

/// The result of asking for a type.
pub open spec fn wanted_type(info: StreamInfo, mt: Option<MediaType>) -> Option<VideoType> {
    match mt {
        None => Some(
            VideoType { format: Format::Nv12, width: info.width, height: info.height, fps: info.fps },
        ),
        Some(_) => accepted(info, mt),
    }
}

/// A `SIZE`.
#[derive(Clone, Copy, PartialEq, Eq, Debug, Structural)]
pub struct Extent {
    pub cx: i32,
    pub cy: i32,
}

/// What one mode of the pin can do: the fields of `VIDEO_STREAM_CONFIG_CAPS`, in their order.
#[derive(Clone, Copy, PartialEq, Eq, Debug, Structural)]
pub struct StreamCaps {
    pub guid: Guid,
    pub video_standard: u32,
    pub input_size: Extent,
    pub min_cropping_size: Extent,
    pub max_cropping_size: Extent,
    pub crop_granularity_x: i32,
    pub crop_granularity_y: i32,
    pub crop_align_x: i32,
    pub crop_align_y: i32,
    pub min_output_size: Extent,
    pub max_output_size: Extent,
    pub output_granularity_x: i32,
    pub output_granularity_y: i32,
    pub stretch_taps_x: i32,
    pub stretch_taps_y: i32,
    pub shrink_taps_x: i32,
    pub shrink_taps_y: i32,
    pub min_frame_interval: i64,
    pub max_frame_interval: i64,
    pub min_bits_per_second: i32,
    pub max_bits_per_second: i32,
}

/// The modes of the pin: one per format.
pub open spec fn modes(info: StreamInfo) -> Seq<VideoType> {
    VideoType::offered_list(
        VideoType { format: Format::Nv12, width: info.width, height: info.height, fps: info.fps },
    )
}

/// What a mode can do: one size, neither cropped nor scaled, at rates from one frame per second
/// to its own.
pub open spec fn caps_of(vt: VideoType) -> StreamCaps {
    let size = Extent {
        cx: crate::dshow::format::signed32(vt.width as int) as i32,
        cy: crate::dshow::format::signed32(vt.height as int) as i32,
    };
    StreamCaps {
        guid: FORMAT_VIDEOINFO,
        video_standard: 0,
        input_size: size,
        min_cropping_size: size,
        max_cropping_size: size,
        crop_granularity_x: 1,
        crop_granularity_y: 1,
        crop_align_x: 1,
        crop_align_y: 1,
        min_output_size: size,
        max_output_size: size,
        output_granularity_x: 1,
        output_granularity_y: 1,
        stretch_taps_x: 0,
        stretch_taps_y: 0,
        shrink_taps_x: 0,
        shrink_taps_y: 0,
        min_frame_interval: crate::dshow::format::interval_of(vt.fps as int) as i64,
        max_frame_interval: crate::dshow::format::SECOND,
        min_bits_per_second: crate::dshow::format::signed32(
            (VideoType { fps: 1, ..vt }).spec_bit_rate() as int,
        ) as i32,
        max_bits_per_second: crate::dshow::format::signed32(vt.spec_bit_rate() as int) as i32,
    }
}

fn to_signed(n: u32) -> (r: i32)
    ensures
        r == crate::dshow::format::signed32(n as int),
{
    if n < 0x8000_0000 {
        n as i32
    } else {
        -1 - ((0xffff_ffff - n) as i32)
    }
}

impl Core {
    /// `IPin::Connect`: the attempt to make, or why none is made.
    pub fn begin_connect(&self, has_receiver: bool, mt: Option<&MediaType>) -> (r: Result<
        Connecting,
        Code,
    >)
        ensures
            r is Ok <==> has_receiver && self.st.filter_state == FilterState::Stopped
                && self.st.conn is None,
            match r {
                Err(code) => code == (if !has_receiver {
                    E_POINTER
                } else if self.st.filter_state != FilterState::Stopped {
                    VFW_E_NOT_STOPPED
                } else {
                    VFW_E_ALREADY_CONNECTED
                }),
                Ok(c) => {
                    &&& c@.wf()
                    &&& c@ == (ConnectView {
                        candidates: candidates_of(self.info, self.st.vtype, deref(mt)),
                        index: 0,
                        last: VFW_E_NO_ACCEPTABLE_TYPES,
                        negotiating: false,
                        connected: false,
                    })
                },
            },
    {
        if !has_receiver {
            return Err(E_POINTER);
        }
        if self.st.filter_state != FilterState::Stopped {
            return Err(VFW_E_NOT_STOPPED);
        }
        if self.st.conn.is_some() {
            return Err(VFW_E_ALREADY_CONNECTED);
        }
        let candidates = self.candidates(mt);
        Ok(
            Connecting {
                candidates,
                index: 0,
                last: VFW_E_NO_ACCEPTABLE_TYPES,
                negotiating: false,
                connected: false,
            },
        )
    }

    fn candidates(&self, mt: Option<&MediaType>) -> (list: Vec<VideoType>)
        ensures
            list@ == candidates_of(self.info, self.st.vtype, deref(mt)),
    {
        let mut list: Vec<VideoType> = Vec::new();
        if let Some(vt) = accept(self.info, mt) {
            list.push(vt);
            assert(list@ =~= seq![vt]);
            return list;
        }
        let ghost m = deref(mt);
        let ghost pred = |vt: VideoType| m is None || vt.admitted(m.unwrap());
        let offered = VideoType::offered(self.st.vtype);
        let mut i: usize = 0;
        assert(offered@.take(0).filter(pred) =~= Seq::<VideoType>::empty()) by {
            reveal(Seq::filter);
        }
        while i < offered.len()
            invariant
                i <= offered@.len(),
                m == deref(mt),
                pred == (|vt: VideoType| m is None || vt.admitted(m.unwrap())),
                list@ == offered@.take(i as int).filter(pred),
            decreases offered@.len() - i,
        {
            let vt = offered[i];
            assert(offered@.take(i + 1).drop_last() == offered@.take(i as int));
            assert(offered@.take(i + 1).filter(pred) == (if pred(vt) {
                offered@.take(i as int).filter(pred).push(vt)
            } else {
                offered@.take(i as int).filter(pred)
            })) by {
                reveal(Seq::filter);
            }
            if vt.admitted_by(mt) {
                list.push(vt);
            }
            i += 1;
        }
        assert(offered@.take(i as int) == offered@);
        list
    }

    /// The pin is connected with `vt`. A filter that was started meanwhile keeps its state; it
    /// delivers once it is stopped and started again.
    pub fn connected(&mut self, vt: VideoType, conn: u64)
        requires
            old(self).st.wf(),
        ensures
            final(self).st.wf(),
            final(self).st == (State {
                vtype: vt,
                type_changed: false,
                conn: Some(conn),
                ..old(self).st
            }),
            final(self).same_but_state(*old(self)),
    {
        self.st.vtype = vt;
        self.st.type_changed = false;
        self.st.conn = Some(conn);
    }

    /// `IPin::Disconnect`: the connection whose allocator is to be decommitted, if there was one.
    pub fn disconnect(&mut self) -> (r: Result<Option<u64>, Code>)
        requires
            old(self).st.wf(),
        ensures
            final(self).st.wf(),
            final(self).same_but_state(*old(self)),
            old(self).st.filter_state != FilterState::Stopped ==> r == Err::<Option<u64>, Code>(
                VFW_E_NOT_STOPPED,
            ) && final(self).st == old(self).st,
            old(self).st.filter_state == FilterState::Stopped ==> r == Ok::<Option<u64>, Code>(
                old(self).st.conn,
            ) && final(self).st == (State { conn: None, ..old(self).st }),
    {
        if self.st.filter_state != FilterState::Stopped {
            return Err(VFW_E_NOT_STOPPED);
        }
        let conn = self.st.conn;
        self.st.conn = None;
        Ok(conn)
    }

    /// `IPin::ConnectedTo`.
    pub fn connected_to(&self) -> (r: Result<u64, Code>)
        ensures
            r == (match self.st.conn {
                Some(c) => Ok::<u64, Code>(c),
                None => Err(VFW_E_NOT_CONNECTED),
            }),
    {
        match self.st.conn {
            Some(c) => Ok(c),
            None => Err(VFW_E_NOT_CONNECTED),
        }
    }

    /// `IPin::ConnectionMediaType`.
    pub fn connection_type(&self, has_out: bool) -> (r: Result<VideoType, Code>)
        ensures
            r == (if !has_out {
                Err::<VideoType, Code>(E_POINTER)
            } else if self.st.conn is None {
                Err(VFW_E_NOT_CONNECTED)
            } else {
                Ok(self.st.vtype)
            }),
    {
        if !has_out {
            Err(E_POINTER)
        } else if self.st.conn.is_none() {
            Err(VFW_E_NOT_CONNECTED)
        } else {
            Ok(self.st.vtype)
        }
    }

    /// The pin's name field.
    pub fn pin_name(&self, name: &mut [u16])
        requires
            old(name)@.len() > 0,
        ensures
            final(name)@ == crate::utf16::field(PIN_ID@, old(name)@.len() as int),
    {
        copy_name(name, PIN_ID);
    }

    /// The pin's id with its closing zero.
    pub fn pin_id(&self) -> (v: Vec<u16>)
        ensures
            v@ == crate::utf16::units(PIN_ID@).push(0),
    {
        encode_z(PIN_ID)
    }

    /// `IPin::QueryAccept`.
    pub fn query_accept(&self, mt: Option<&MediaType>) -> (code: Code)
        ensures
            code == (if accepted(self.info, deref(mt)) is Some {
                S_OK
            } else {
                S_FALSE
            }),
    {
        if accept(self.info, mt).is_some() {
            S_OK
        } else {
            S_FALSE
        }
    }

    /// `IPin::EnumMediaTypes`: the offered types, the current one first.
    pub fn enum_media_types(&self) -> (e: EnumMediaTypes)
        ensures
            e.wf(),
            e.types@ == VideoType::offered_list(self.st.vtype),
            e.cursor.pos == 0,
    {
        EnumMediaTypes::new(VideoType::offered(self.st.vtype))
    }

    /// `IAMStreamConfig::SetFormat`.
    pub fn set_format(&mut self, mt: Option<&MediaType>) -> (r: Result<FormatAction, Code>)
        requires
            old(self).st.wf(),
        ensures
            final(self).st.wf(),
            final(self).same_but_state(*old(self)),
            match wanted_type(old(self).info, deref(mt)) {
                None => r == Err::<FormatAction, Code>(VFW_E_INVALIDMEDIATYPE) && final(self).st
                    == old(self).st,
                Some(vt) => if old(self).st.filter_state != FilterState::Stopped {
                    r == Err::<FormatAction, Code>(VFW_E_NOT_STOPPED) && final(self).st == old(self).st
                } else {
                    match old(self).st.conn {
                        None => r == Ok::<FormatAction, Code>(FormatAction::Done) && final(self).st
                            == (State { vtype: vt, ..old(self).st }),
                        Some(peer) => final(self).st == old(self).st && r == Ok::<
                            FormatAction,
                            Code,
                        >(
                            if old(self).st.vtype == vt {
                                FormatAction::Done
                            } else {
                                FormatAction::AskPeer { vt, peer, graph: old(self).st.graph }
                            },
                        ),
                    }
                },
            },
    {
        let vt = match mt {
            None => VideoType::new(Format::Nv12, self.info),
            Some(_) => match accept(self.info, mt) {
                Some(vt) => vt,
                None => {
                    return Err(VFW_E_INVALIDMEDIATYPE);
                },
            },
        };
        if self.st.filter_state != FilterState::Stopped {
            return Err(VFW_E_NOT_STOPPED);
        }
        match self.st.conn {
            None => {
                self.st.vtype = vt;
                Ok(FormatAction::Done)
            },
            Some(peer) => if self.st.vtype == vt {
                Ok(FormatAction::Done)
            } else {
                Ok(FormatAction::AskPeer { vt, peer, graph: self.st.graph })
            },
        }
    }

    /// The peer answered whether it takes `vt`. On success the graph is to reconnect the pin.
    pub fn peer_answered(&mut self, vt: VideoType, accepts: bool) -> (r: Result<(), Code>)
        requires
            old(self).st.wf(),
        ensures
            final(self).st.wf(),
            final(self).same_but_state(*old(self)),
            accepts ==> r == Ok::<(), Code>(()) && final(self).st == (State {
                vtype: vt,
                type_changed: true,
                ..old(self).st
            }),
            !accepts ==> r == Err::<(), Code>(VFW_E_INVALIDMEDIATYPE) && final(self).st == old(self).st,
    {
        if !accepts {
            return Err(VFW_E_INVALIDMEDIATYPE);
        }
        self.st.vtype = vt;
        self.st.type_changed = true;
        Ok(())
    }

    /// `IAMStreamConfig::GetFormat`.
    pub fn get_format(&self) -> (vt: VideoType)
        ensures
            vt == self.st.vtype,
    {
        self.st.vtype
    }

    /// `IAMStreamConfig::GetNumberOfCapabilities`: how many modes there are, and the size of what
    /// is said about each.
    pub fn capability_count(&self, has_out: bool) -> (r: Result<(i32, i32), Code>)
        ensures
            has_out ==> r == Ok::<(i32, i32), Code>((3, CAPS_BYTES)),
            !has_out ==> r == Err::<(i32, i32), Code>(E_POINTER),
    {
        if !has_out {
            return Err(E_POINTER);
        }
        Ok((3, CAPS_BYTES))
    }

    /// `IAMStreamConfig::GetStreamCaps`: the mode with the given index and what it can do.
    pub fn stream_caps(&self, index: i32, has_out: bool) -> (r: Result<(VideoType, StreamCaps), Code>)
        requires
            forall|i: int| 0 <= i < 3 ==> (#[trigger] modes(self.info)[i]).fits(),
            forall|i: int| 0 <= i < 3 ==> (VideoType { fps: 1, ..#[trigger] modes(self.info)[i] }).fits(),
        ensures
            r == (if !has_out {
                Err::<(VideoType, StreamCaps), Code>(E_POINTER)
            } else if index < 0 {
                Err(E_INVALIDARG)
            } else if index >= 3 {
                Err(S_FALSE)
            } else {
                Ok((modes(self.info)[index as int], caps_of(modes(self.info)[index as int])))
            }),
    {
        if !has_out {
            return Err(E_POINTER);
        }
        if index < 0 {
            return Err(E_INVALIDARG);
        }
        let offered = VideoType::offered(VideoType::new(Format::Nv12, self.info));
        if index as usize >= offered.len() {
            return Err(S_FALSE);
        }
        let vt = offered[index as usize];
        assert(vt.fits());
        let slow = VideoType { fps: 1, ..vt };
        let size = Extent { cx: to_signed(vt.width), cy: to_signed(vt.height) };
        let caps = StreamCaps {
            guid: FORMAT_VIDEOINFO,
            video_standard: 0,
            input_size: size,
            min_cropping_size: size,
            max_cropping_size: size,
            crop_granularity_x: 1,
            crop_granularity_y: 1,
            crop_align_x: 1,
            crop_align_y: 1,
            min_output_size: size,
            max_output_size: size,
            output_granularity_x: 1,
            output_granularity_y: 1,
            stretch_taps_x: 0,
            stretch_taps_y: 0,
            shrink_taps_x: 0,
            shrink_taps_y: 0,
            min_frame_interval: vt.interval(),
            max_frame_interval: slow.interval(),
            min_bits_per_second: to_signed(slow.bit_rate()),
            max_bits_per_second: to_signed(vt.bit_rate()),
        };
        assert(crate::dshow::format::interval_of(1) == crate::dshow::format::SECOND);
        Ok((vt, caps))
    }
}

/// Only the pin category can be asked for.
pub open spec fn category_refusal(set: Option<Guid>, id: u32) -> Option<Code> {
    match set {
        None => Some(E_POINTER),
        Some(s) => if s != PIN_PROPERTIES {
            Some(E_PROP_SET_UNSUPPORTED)
        } else if id != PIN_CATEGORY {
            Some(E_PROP_ID_UNSUPPORTED)
        } else {
            None
        },
    }
}

/// Only the pin category can be asked for.
pub fn check_category(set: Option<Guid>, id: u32) -> (r: Result<(), Code>)
    ensures
        r == (match category_refusal(set, id) {
            Some(code) => Err::<(), Code>(code),
            None => Ok(()),
        }),
{
    match set {
        None => Err(E_POINTER),
        Some(s) => if s != PIN_PROPERTIES {
            Err(E_PROP_SET_UNSUPPORTED)
        } else if id != PIN_CATEGORY {
            Err(E_PROP_ID_UNSUPPORTED)
        } else {
            Ok(())
        },
    }
}

/// `IKsPropertySet::Get`: the pin's category, where the caller has room for it.
pub fn get_property(set: Option<Guid>, id: u32, has_data: bool, data_len: u32) -> (r: Result<
    Guid,
    Code,
>)
    ensures
        r == (match category_refusal(set, id) {
            Some(code) => Err::<Guid, Code>(code),
            None => if !has_data {
                Err(E_POINTER)
            } else if data_len < GUID_BYTES {
                Err(E_UNEXPECTED)
            } else {
                Ok(CATEGORY_CAPTURE)
            },
        }),
{
    match check_category(set, id) {
        Err(code) => Err(code),
        Ok(()) => if !has_data {
            Err(E_POINTER)
        } else if data_len < GUID_BYTES {
            Err(E_UNEXPECTED)
        } else {
            Ok(CATEGORY_CAPTURE)
        },
    }
}

/// `IKsPropertySet::QuerySupported`.
pub fn query_supported(set: Option<Guid>, id: u32) -> (r: Result<u32, Code>)
    ensures
        r == (match category_refusal(set, id) {
            Some(code) => Err::<u32, Code>(code),
            None => Ok(SUPPORT_GET),
        }),
{
    match check_category(set, id) {
        Err(code) => Err(code),
        Ok(()) => Ok(SUPPORT_GET),
    }
}

// ---------------------------------------------------------------------------------------------
// Laws

/// Whatever stream the app produces, the sizes of every acceptable type can be computed.
pub proof fn law_acceptable_fits(info: StreamInfo, vt: VideoType)
    requires
        crate::stream_info::valid(info),
        acceptable(info, vt),
    ensures
        vt.fits(),
        (VideoType { fps: 1, ..vt }).fits(),
        vt.spec_frame_bytes() <= i32::MAX,
{
    crate::dshow::format::law_valid_stream_fits(vt.format, StreamInfo { fps: 1, ..info });
    crate::dshow::format::law_valid_stream_fits(vt.format, StreamInfo { fps: vt.fps, ..info });
    let (w, h) = (info.width as int, info.height as int);
    assert(0 <= w * h <= 3840 * 2160) by (nonlinear_arith)
        requires
            0 <= w <= 3840,
            0 <= h <= 2160,
    ;
}

proof fn lemma_filtered_from(list: Seq<VideoType>, pred: spec_fn(VideoType) -> bool, i: int)
    requires
        0 <= i < list.filter(pred).len(),
    ensures
        list.contains(list.filter(pred)[i]),
    decreases list.len(),
{
    reveal(Seq::filter);
    let rest = list.drop_last();
    let out = list.filter(pred);
    if i < rest.filter(pred).len() {
        lemma_filtered_from(rest, pred, i);
        let k = choose|k: int| 0 <= k < rest.len() && rest[k] == out[i];
        assert(list[k] == out[i]);
    } else {
        assert(list[list.len() - 1] == out[i]);
    }
}

/// Every type that a connection is tried with is acceptable, when the current one is.
pub proof fn law_candidates_are_acceptable(
    info: StreamInfo,
    preferred: VideoType,
    mt: Option<MediaType>,
    i: int,
)
    requires
        acceptable(info, preferred),
        0 <= i < candidates_of(info, preferred, mt).len(),
    ensures
        acceptable(info, candidates_of(info, preferred, mt)[i]),
{
    let list = VideoType::offered_list(preferred);
    let pred = |vt: VideoType| mt is None || vt.admitted(mt.unwrap());
    if accepted(info, mt) is None {
        lemma_filtered_from(list, pred, i);
    }
}

/// The pin accepts what it offers.
pub proof fn law_offers_are_accepted(info: StreamInfo, vt: VideoType, mt: MediaType)
    requires
        acceptable(info, vt),
        crate::stream_info::valid(info),
        vt.described_by(mt),
    ensures
        accepted(info, Some(mt)) == Some(vt),
{
    crate::dshow::format::law_media_type_round_trip(vt, mt);
}

/// What is accepted: a video type of the stream's size at any rate from 1 to 240, as it is; one
/// that leaves the rate open gets the stream's. Another size is never accepted.
pub proof fn law_acceptance(info: StreamInfo, mt: MediaType, t: VideoType)
    requires
        crate::dshow::format::video_type_of(mt) == Some(t),
        1 <= info.fps <= 240,
    ensures
        t.width == info.width && t.height == info.height && 0 < t.fps < 241 ==> accepted(
            info,
            Some(mt),
        ) == Some(t),
        t.width == info.width && t.height == info.height && t.fps == 0 ==> accepted(info, Some(mt))
            == Some(VideoType { format: t.format, width: t.width, height: t.height, fps: info.fps }),
        t.width != info.width || t.height != info.height || t.fps > 240 ==> accepted(info, Some(mt))
            is None,
        accepted(info, None) is None,
{
}

/// A type that is no video type of ours is not accepted.
pub proof fn law_other_types_are_not_accepted(info: StreamInfo, mt: MediaType)
    requires
        crate::dshow::format::video_type_of(mt) is None,
    ensures
        accepted(info, Some(mt)) is None,
{
}

proof fn lemma_all_kept(list: Seq<VideoType>, pred: spec_fn(VideoType) -> bool)
    requires
        forall|i: int| 0 <= i < list.len() ==> pred(#[trigger] list[i]),
    ensures
        list.filter(pred) == list,
    decreases list.len(),
{
    reveal(Seq::filter);
    if list.len() > 0 {
        let rest = list.drop_last();
        assert forall|i: int| 0 <= i < rest.len() implies pred(#[trigger] rest[i]) by {
            assert(rest[i] == list[i]);
        }
        lemma_all_kept(rest, pred);
        assert(pred(list[list.len() - 1]));
        assert(rest.push(list.last()) =~= list);
    }
}

/// Without a wish of the caller all types are tried, the preferred one first.
pub proof fn law_all_types_are_tried(info: StreamInfo, preferred: VideoType, vt: VideoType)
    requires
        vt.width == preferred.width && vt.height == preferred.height && vt.fps == preferred.fps,
    ensures
        candidates_of(info, preferred, None).len() == 3,
        candidates_of(info, preferred, None)[0] == preferred,
        candidates_of(info, preferred, None).contains(vt),
{
    let list = VideoType::offered_list(preferred);
    let mt: Option<MediaType> = None;
    let pred = |vt: VideoType| mt is None || vt.admitted(mt.unwrap());
    assert(candidates_of(info, preferred, mt) == list) by {
        lemma_all_kept(list, pred);
    }
    lemma_all_formats_offered(preferred, vt);
}

proof fn lemma_all_formats_offered(preferred: VideoType, vt: VideoType)
    requires
        vt.width == preferred.width && vt.height == preferred.height && vt.fps == preferred.fps,
    ensures
        VideoType::offered_list(preferred).len() == 3,
        VideoType::offered_list(preferred)[0] == preferred,
        VideoType::offered_list(preferred).contains(vt),
{
    let list = VideoType::offered_list(preferred);
    if vt.format == preferred.format {
        assert(list[0] == vt);
    } else if vt.format == Format::Nv12 || (vt.format == Format::I420 && preferred.format
        == Format::Nv12) {
        assert(list[1] == vt);
    } else {
        assert(list[2] == vt);
    }
}

/// With a partial type exactly those of our types are tried that it admits; with a complete one
/// that we accept, that one alone.
pub proof fn law_admitted_types_are_tried(
    info: StreamInfo,
    preferred: VideoType,
    mt: MediaType,
    vt: VideoType,
)
    requires
        vt.width == preferred.width && vt.height == preferred.height && vt.fps == preferred.fps,
    ensures
        accepted(info, Some(mt)) is None ==> (candidates_of(info, preferred, Some(mt)).contains(vt)
            <==> vt.admitted(mt)),
        accepted(info, Some(mt)) matches Some(t) ==> candidates_of(info, preferred, Some(mt))
            == seq![t],
{
    let list = VideoType::offered_list(preferred);
    let m = Some(mt);
    let pred = |vt: VideoType| m is None || vt.admitted(m.unwrap());
    lemma_all_formats_offered(preferred, vt);
    let out = list.filter(pred);
    if vt.admitted(mt) {
        assert(pred(vt));
        let k = choose|k: int| 0 <= k < list.len() && list[k] == vt;
        list.lemma_filter_contains(pred, k);
    }
    if out.contains(vt) {
        let k = choose|k: int| 0 <= k < out.len() && out[k] == vt;
        list.lemma_filter_pred(pred, k);
    }
}

/// What is asked of an allocator: buffers of the frame size, at least three and as many as the peer
/// requires, with its alignment and prefix where they make sense.
pub proof fn law_request(required: AllocatorProps, bytes: i32)
    ensures
        ({
            let r = request_of(Some(required), bytes);
            &&& r.bytes == bytes
            &&& required.buffers > 2 ==> r.buffers == required.buffers
            &&& required.buffers < 4 ==> r.buffers == 3
            &&& required.align > 0 ==> r.align == required.align
            &&& required.align < 2 ==> r.align == 1
            &&& required.prefix >= 0 ==> r.prefix == required.prefix
            &&& required.prefix < 1 ==> r.prefix == 0
        }),
        request_of(None, bytes) == (AllocatorProps { buffers: 3, bytes, align: 1, prefix: 0 }),
{
}

/// An allocator is agreed on only after it was configured with buffers that hold a frame; the
/// standard one takes over when anything fails, and when that fails the negotiation does.
pub proof fn law_allocator_holds_a_frame(step: AllocatorStep, event: AllocatorEvent, bytes: i32)
    ensures
        ({
            let next = allocator_next(step, event, bytes);
            &&& next matches AllocatorStep::Notify { standard } ==> step == (
            AllocatorStep::Configure { standard }) && (event matches AllocatorEvent::Configured {
                actual,
            } && actual.bytes >= bytes && actual.buffers > 0)
            &&& next matches AllocatorStep::Agreed { standard } ==> step == next || (step == (
            AllocatorStep::Notify { standard }) && !(event is Failed))
            &&& event matches AllocatorEvent::Failed { code } ==> match step {
                AllocatorStep::Obtain { standard } => next == after_failure(standard, code),
                AllocatorStep::Configure { standard } => next == after_failure(standard, code),
                AllocatorStep::Notify { standard } => next == after_failure(standard, code),
                _ => next == step,
            }
            &&& after_failure(false, E_FAIL) == (AllocatorStep::Obtain { standard: true })
        }),
        forall|code: Code| after_failure(true, code) == (AllocatorStep::Failed { code }),
        forall|code: Code| after_failure(false, code) == (AllocatorStep::Obtain { standard: true }),
{
}

/// A mode's capabilities: its size and no other, from one frame per second to its own rate, and the
/// bits that takes.
pub proof fn law_caps_are_the_mode(info: StreamInfo, vt: VideoType)
    requires
        crate::stream_info::valid(info),
        acceptable(info, vt),
    ensures
        ({
            let c = caps_of(vt);
            let size = Extent { cx: vt.width as i32, cy: vt.height as i32 };
            &&& c.input_size == size && c.min_output_size == size && c.max_output_size == size
            &&& c.min_cropping_size == size && c.max_cropping_size == size
            &&& c.min_frame_interval * vt.fps <= 10_000_000 < (c.min_frame_interval + 1) * vt.fps
            &&& c.max_frame_interval == 10_000_000
            &&& c.min_bits_per_second == 8 * vt.spec_frame_bytes()
            &&& 8 * (vt.fps * vt.spec_frame_bytes()) <= i32::MAX ==> c.max_bits_per_second == 8 * (
            vt.fps * vt.spec_frame_bytes())
        }),
{
    let (w, h) = (info.width as int, info.height as int);
    assert(0 <= w * h <= 3840 * 2160) by (nonlinear_arith)
        requires
            0 <= w <= 3840,
            0 <= h <= 2160,
    ;
    crate::dshow::format::law_interval_is_the_rate(vt.fps as int);
    crate::dshow::format::law_bit_rate(vt);
    crate::dshow::format::law_bit_rate(VideoType { fps: 1, ..vt });
    let t = crate::dshow::format::interval_of(vt.fps as int);
    vstd::arithmetic::div_mod::lemma_div_pos_is_pos(10_000_000, vt.fps as int);
    vstd::arithmetic::div_mod::lemma_div_is_ordered_by_denominator(10_000_000, 1, vt.fps as int);
    assert(0 <= t <= 10_000_000);
    assert(0 <= vt.fps * vt.spec_frame_bytes()) by (nonlinear_arith)
        requires
            0 <= vt.fps,
            0 <= vt.spec_frame_bytes(),
    ;
}

/// Asking for no type in particular means the stream as it is, in NV12.
pub proof fn law_no_wish_means_nv12(info: StreamInfo)
    ensures
        wanted_type(info, None) matches Some(vt) && vt.format == Format::Nv12 && vt.width == info.width
            && vt.height == info.height && vt.fps == info.fps,
{
}

}
