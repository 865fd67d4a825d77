//! The media source handed to the Frame Server.

use vstd::prelude::*;
use crate::codes::{
    hresult_from_win32,
    Code,
    Guid,
    ERROR_SET_NOT_FOUND,
    E_INVALIDARG,
    E_POINTER,
    MF_E_INVALID_STATE_TRANSITION,
    MF_E_SHUTDOWN,
};
use crate::source::activator::ActivatorAttributes;

verus! {

/// `KSCAMERAPROFILE_Legacy` and what it admits.
pub const LEGACY_PROFILE: Guid = 0xb4894d81_62b7_4eec_8740_80658c4a9d3e;

pub const LEGACY_FILTER: &'static str = "((RES==;FRT<=30,1;SUT==))";

/// `KSCAMERAPROFILE_HighFrameRate` and what it admits.
pub const HIGH_RATE_PROFILE: Guid = 0x566e6113_8c35_48e7_b89f_d23fdc1219dc;

pub const HIGH_RATE_FILTER: &'static str = "((RES==;FRT>=60,1;SUT==))";

/// The id of the single stream.
pub const STREAM_ID: u32 = 0;

/// `MENewStream`.
pub const NEW_STREAM: u32 = 205;

/// `MESourceStarted`.
pub const SOURCE_STARTED: u32 = 201;

/// `MESourceStopped`.
pub const SOURCE_STOPPED: u32 = 207;

/// `MFMEDIASOURCE_IS_LIVE`, all that the source says of its characteristics.
pub const IS_LIVE: u32 = 1;

/// A profile that apps can choose among the stream's types by.
#[derive(Clone, Copy, PartialEq, Eq, Debug, Structural)]
pub enum Profile {
    /// Rates up to 30 frames per second.
    Legacy,
    /// Rates from 60 frames per second on.
    HighFrameRate,
}

/// What the source says about itself: what its activation object says, and its profiles.
#[derive(Clone, Copy, PartialEq, Eq, Debug, Structural)]
pub struct SourceAttributes {
    pub activator: ActivatorAttributes,
    pub first_profile: Profile,
    pub second_profile: Profile,
}

/// A source until it is shut down.
#[derive(Clone, Copy, PartialEq, Eq, Debug, Structural)]
pub struct MediaSource {
    pub attrs: SourceAttributes,
    pub live: bool,
}

impl Profile {
    /// Id and filter of a profile.
    pub fn definition(self) -> (d: (Guid, &'static str))
        ensures
            d.0 == (match self {
                Profile::Legacy => LEGACY_PROFILE,
                Profile::HighFrameRate => HIGH_RATE_PROFILE,
            }),
            d.1@ == (match self {
                Profile::Legacy => LEGACY_FILTER@,
                Profile::HighFrameRate => HIGH_RATE_FILTER@,
            }),
    {
        match self {
            Profile::Legacy => (LEGACY_PROFILE, LEGACY_FILTER),
            Profile::HighFrameRate => (HIGH_RATE_PROFILE, HIGH_RATE_FILTER),
        }
    }
}

/// What a presentation descriptor says about its first stream.
#[derive(Clone, Copy, PartialEq, Eq, Debug, Structural)]
pub struct Presentation {
    pub stream_count: u32,
    pub has_stream: bool,
    pub stream_id: u32,
    pub selected: bool,
}

/// What starting the source does to its stream.
#[derive(Clone, Copy, PartialEq, Eq, Debug, Structural)]
pub enum StartAction {
    /// Select the stream, announce it and start it with its current type.
    StartStream,
    /// Deselect the stream and stop it.
    StopStream,
    Nothing,
}

/// What stopping the source does.
#[derive(Clone, Copy, PartialEq, Eq, Debug, Structural)]
pub enum StopAction {
    /// Stop the stream, then deselect it.
    StopStream,
    /// Deselect the stream.
    Deselect,
}

/// Why a start is refused whatever the presentation says, if so.
pub open spec fn call_refusal(live: bool, has_pd: bool, time_format: Option<Guid>) -> Option<Code> {
    if !has_pd {
        Some(E_POINTER)
    } else if time_format is Some && time_format != Some(0u128) {
        Some(E_INVALIDARG)
    } else if !live {
        Some(MF_E_SHUTDOWN)
    } else {
        None
    }
}

/// Why a presentation cannot be started, if so.
pub open spec fn start_refusal(
    live: bool,
    pd: Option<Presentation>,
    time_format: Option<Guid>,
) -> Option<Code> {
    match (call_refusal(live, pd is Some, time_format), pd) {
        (None, Some(p)) => if p.stream_count != 1 {
            Some(E_INVALIDARG)
        } else if !p.has_stream {
            Some(E_POINTER)
        } else if p.stream_id != STREAM_ID {
            Some(E_INVALIDARG)
        } else {
            None
        },
        (refusal, _) => refusal,
    }
}

/// What starting does to the stream.
pub open spec fn start_action(selected: bool, running: bool) -> StartAction {
    if selected && !running {
        StartAction::StartStream
    } else if !selected && running {
        StartAction::StopStream
    } else {
        StartAction::Nothing
    }
}

/// A live source with the attributes of its activation object and its profiles.
pub fn create(activator: ActivatorAttributes) -> (s: MediaSource)
    ensures
        s == (MediaSource {
            attrs: SourceAttributes {
                activator,
                first_profile: Profile::Legacy,
                second_profile: Profile::HighFrameRate,
            },
            live: true,
        }),
{
    MediaSource {
        attrs: SourceAttributes {
            activator,
            first_profile: Profile::Legacy,
            second_profile: Profile::HighFrameRate,
        },
        live: true,
    }
}

/// The events that a successful start raises on the source, in order: the new stream where it is
/// started, then the start of the source.
pub fn start_events(action: StartAction) -> (events: Vec<u32>)
    ensures
        events@ == (if action == StartAction::StartStream {
            seq![NEW_STREAM, SOURCE_STARTED]
        } else {
            seq![SOURCE_STARTED]
        }),
{
    let mut events: Vec<u32> = Vec::new();
    if action == StartAction::StartStream {
        events.push(NEW_STREAM);
    }
    events.push(SOURCE_STARTED);
    assert(events@ =~= (if action == StartAction::StartStream {
        seq![NEW_STREAM, SOURCE_STARTED]
    } else {
        seq![SOURCE_STARTED]
    }));
    events
}

impl MediaSource {
    /// The source after a shutdown.
    pub open spec fn ended(self) -> MediaSource {
        MediaSource { live: false, ..self }
    }

    /// What a call answers that only asks the source to be alive.
    pub open spec fn liveness(self) -> Result<(), Code> {
        if self.live {
            Ok(())
        } else {
            Err(MF_E_SHUTDOWN)
        }
    }

    /// What a stop answers.
    pub open spec fn stop_result(self, running: bool) -> Result<StopAction, Code> {
        if !self.live {
            Err(MF_E_SHUTDOWN)
        } else if running {
            Ok(StopAction::StopStream)
        } else {
            Ok(StopAction::Deselect)
        }
    }

    /// Whether the event queue and the descriptor are still there.
    pub fn check(&self) -> (r: Result<(), Code>)
        ensures
            r == self.liveness(),
    {
        if self.live {
            Ok(())
        } else {
            Err(MF_E_SHUTDOWN)
        }
    }

    /// What a start is refused for before the presentation is looked at.
    pub fn may_start(&self, has_pd: bool, time_format: Option<Guid>) -> (r: Result<(), Code>)
        ensures
            match call_refusal(self.live, has_pd, time_format) {
                Some(code) => r == Err::<(), Code>(code),
                None => r == Ok::<(), Code>(()),
            },
    {
        if !has_pd {
            return Err(E_POINTER);
        }
        if let Some(g) = time_format {
            if g != 0 {
                return Err(E_INVALIDARG);
            }
        }
        self.check()
    }

    /// `IMFMediaSource::Start`. `running` is whether the stream is not stopped.
    pub fn start(&self, pd: Option<Presentation>, time_format: Option<Guid>, running: bool) -> (r: Result<
        StartAction,
        Code,
    >)
        ensures
            match start_refusal(self.live, pd, time_format) {
                Some(code) => r == Err::<StartAction, Code>(code),
                None => r == Ok::<StartAction, Code>(start_action(pd.unwrap().selected, running)),
            },
    {
        if let Err(code) = self.may_start(pd.is_some(), time_format) {
            return Err(code);
        }
        let p = match pd {
            None => {
                return Err(E_POINTER);
            },
            Some(p) => p,
        };
        if p.stream_count != 1 {
            return Err(E_INVALIDARG);
        }
        if !p.has_stream {
            return Err(E_POINTER);
        }
        if p.stream_id != STREAM_ID {
            return Err(E_INVALIDARG);
        }
        if p.selected && !running {
            Ok(StartAction::StartStream)
        } else if !p.selected && running {
            Ok(StartAction::StopStream)
        } else {
            Ok(StartAction::Nothing)
        }
    }

    /// `IMFMediaSource::Stop`.
    pub fn stop(&self, running: bool) -> (r: Result<StopAction, Code>)
        ensures
            r == self.stop_result(running),
    {
        if !self.live {
            Err(MF_E_SHUTDOWN)
        } else if running {
            Ok(StopAction::StopStream)
        } else {
            Ok(StopAction::Deselect)
        }
    }

    /// `IMFMediaSource::Pause`: a live source cannot be paused.
    pub fn pause(&self) -> (r: Result<(), Code>)
        ensures
            r == Err::<(), Code>(MF_E_INVALID_STATE_TRANSITION),
    {
        Err(MF_E_INVALID_STATE_TRANSITION)
    }

    /// `IMFMediaSource::Shutdown`: works once.
    pub fn shutdown(&mut self) -> (r: Result<(), Code>)
        ensures
            *final(self) == old(self).ended(),
            r == old(self).liveness(),
    {
        let live = self.live;
        self.live = false;
        if live {
            Ok(())
        } else {
            Err(MF_E_SHUTDOWN)
        }
    }

    /// Whether a stream id is that of the stream.
    pub fn check_stream(&self, id: u32) -> (r: Result<(), Code>)
        ensures
            r == (if id == STREAM_ID {
                Ok::<(), Code>(())
            } else {
                Err(E_INVALIDARG)
            }),
    {
        if id == STREAM_ID {
            Ok(())
        } else {
            Err(E_INVALIDARG)
        }
    }

    /// `IMFSampleAllocatorControl::GetAllocatorUsage`: the id of the stream, whose samples come
    /// from the provided allocator.
    pub fn allocator_usage(&self, id: u32, has_out: bool) -> (r: Result<u32, Code>)
        ensures
            r == (if !has_out {
                Err::<u32, Code>(E_POINTER)
            } else if id != STREAM_ID {
                Err(E_INVALIDARG)
            } else {
                Ok(id)
            }),
    {
        if !has_out {
            Err(E_POINTER)
        } else if id != STREAM_ID {
            Err(E_INVALIDARG)
        } else {
            Ok(id)
        }
    }
}

/// The answer to every property, method and event of kernel streaming: there is no such set.
pub fn ks_not_found() -> (code: Code)
    ensures
        code == 0x8007_0492u32,
{
    hresult_from_win32(ERROR_SET_NOT_FOUND)
}

/// A source that was shut down answers so: its events and its descriptor are gone, it can neither
/// be started nor stopped, and it cannot be shut down again.
pub proof fn law_shut_down_source_refuses(
    source: MediaSource,
    pd: Presentation,
    time_format: Option<Guid>,
    running: bool,
)
    requires
        time_format is None || time_format == Some(0u128),
    ensures
        source.ended().liveness() == Err::<(), Code>(MF_E_SHUTDOWN),
        source.ended().stop_result(running) == Err::<StopAction, Code>(MF_E_SHUTDOWN),
        start_refusal(source.ended().live, Some(pd), time_format) == Some(MF_E_SHUTDOWN),
        source.ended().ended() == source.ended(),
{
}

/// After a successful start the stream runs exactly when it is selected.
pub proof fn law_start_makes_stream_match_selection(selected: bool, running: bool)
    ensures
        (match start_action(selected, running) {
            StartAction::StartStream => true,
            StartAction::StopStream => false,
            StartAction::Nothing => running,
        }) == selected,
{
}

/// A start works on a live source, without a time format or with the null one, for a presentation
/// of just the source's stream, and otherwise not.
pub proof fn law_start_is_accepted(live: bool, pd: Presentation, time_format: Option<Guid>)
    ensures
        start_refusal(live, Some(pd), time_format) is None <==> live && (time_format is None
            || time_format == Some(0u128)) && pd.stream_count == 1 && pd.has_stream && pd.stream_id
            == 0,
        start_refusal(live, None, time_format) == Some(E_POINTER),
        call_refusal(live, true, time_format) is None <==> live && (time_format is None || time_format
            == Some(0u128)),
{
}

}
