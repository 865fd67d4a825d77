//! The capture filter: graph state (Stopped/Paused/Running), clock and the single output pin.
//!
//! State shared by the filter, its pin and the delivery thread lives in [`Core`]. Objects of other
//! components (the graph, the clock, the connected pin) appear as the numbers that stand for them.

use vstd::prelude::*;
use crate::codes::{Code, E_POINTER, VFW_E_NOT_FOUND, VFW_E_NO_CLOCK};
use crate::dshow::enums::{Cursor, EnumPins};
use crate::dshow::format::{Format, VideoType};
use crate::stream_info::StreamInfo;
use crate::utf16::{copy_name, encode};

verus! {

/// Pin id and name. Apps find the pin by category, not by name.
pub const PIN_ID: &'static str = "Capture";

/// `AM_FILTER_MISC_FLAGS_IS_SOURCE`.
pub const IS_SOURCE: u32 = 2;

#[derive(Clone, Copy, PartialEq, Eq, Debug, Structural)]
pub enum FilterState {
    Stopped,
    Paused,
    Running,
}

#[derive(Clone, Copy, PartialEq, Eq, Debug, Structural)]
pub struct State {
    pub filter_state: FilterState,
    pub clock: Option<u64>,
    /// Reference time passed to `Run`; stream time = clock time - `t_start`.
    pub t_start: i64,
    /// The graph we belong to.
    pub graph: Option<u64>,
    /// The type the pin connects with (or will, once connected).
    pub vtype: VideoType,
    /// Set when `vtype` changed on a live connection; the next sample carries the new type.
    pub type_changed: bool,
    /// The connection to a downstream pin.
    pub conn: Option<u64>,
    /// Whether the delivery thread runs.
    pub thread: bool,
}

/// What stopping takes, in order.
#[derive(Clone, Copy, PartialEq, Eq, Debug, Structural)]
pub enum StopAction {
    /// Wake the delivery thread.
    Wake,
    /// Decommit the allocator, which unblocks a waiting delivery.
    Decommit,
    /// Make downstream drop what it holds.
    BeginFlush,
    /// Wait for the delivery thread to end.
    Join,
    EndFlush,
}

pub struct Core {
    /// The mode advertised to consumers (from `stream.bin` when the filter was created).
    pub info: StreamInfo,
    pub st: State,
    pub graph_name: String,
    pub frames: u64,
}

/// What stopping takes for a connection and a thread.
pub open spec fn stop_actions(conn: bool, thread: bool) -> Seq<StopAction> {
    seq![StopAction::Wake] + (if conn {
        seq![StopAction::Decommit, StopAction::BeginFlush]
    } else {
        seq![]
    }) + (if thread {
        seq![StopAction::Join]
    } else {
        seq![]
    }) + (if conn {
        seq![StopAction::EndFlush]
    } else {
        seq![]
    })
}

impl State {
    /// The delivery thread runs only while a connected filter is not stopped.
    pub open spec fn wf(self) -> bool {
        self.thread ==> self.filter_state != FilterState::Stopped && self.conn is Some
    }

    /// The state of a stopped filter.
    pub open spec fn stopped(self) -> State {
        State { filter_state: FilterState::Stopped, thread: false, ..self }
    }

    /// The state after a `Pause`: a connected filter that was stopped starts to deliver.
    pub open spec fn paused(self) -> State {
        State {
            filter_state: FilterState::Paused,
            thread: self.thread || (self.filter_state == FilterState::Stopped && self.conn is Some),
            ..self
        }
    }
}

pub struct Filter {
    pub core: Core,
}

/// A stopped, unconnected filter.
pub fn create(info: StreamInfo) -> (filter: Filter)
    ensures
        filter.core.info == info,
        filter.core.st == (State {
            filter_state: FilterState::Stopped,
            clock: None,
            t_start: 0,
            graph: None,
            vtype: VideoType {
                format: Format::Nv12,
                width: info.width,
                height: info.height,
                fps: info.fps,
            },
            type_changed: false,
            conn: None,
            thread: false,
        }),
        filter.core.st.wf(),
        filter.core.graph_name@ == Seq::<char>::empty(),
        filter.core.frames == 0,
{
    let core = Core {
        info,
        st: State {
            filter_state: FilterState::Stopped,
            clock: None,
            t_start: 0,
            graph: None,
            vtype: VideoType::new(Format::Nv12, info),
            type_changed: false,
            conn: None,
            thread: false,
        },
        graph_name: String::new(),
        frames: 0,
    };
    Filter { core }
}

impl Filter {
    /// Samples handed to the downstream pin so far.
    pub fn frames_delivered(&self) -> (n: u64)
        ensures
            n == self.core.frames,
    {
        self.core.frames
    }
}

impl Core {
    /// `self` and `other` differ in `st` at most.
    pub open spec fn same_but_state(self, other: Core) -> bool {
        &&& self.info == other.info
        &&& self.graph_name == other.graph_name
        &&& self.frames == other.frames
    }

    /// Stops streaming, so that no sample is delivered once the actions are done: decommits the
    /// allocator, flushes downstream and joins the delivery thread.
    pub fn stop(&mut self) -> (actions: Vec<StopAction>)
        requires
            old(self).st.wf(),
        ensures
            final(self).st.wf(),
            final(self).st == old(self).st.stopped(),
            final(self).same_but_state(*old(self)),
            actions@ == stop_actions(old(self).st.conn is Some, old(self).st.thread),
    {
        let connected = self.st.conn.is_some();
        let thread = self.st.thread;
        self.st.filter_state = FilterState::Stopped;
        self.st.thread = false;
        let mut actions: Vec<StopAction> = Vec::new();
        actions.push(StopAction::Wake);
        if connected {
            actions.push(StopAction::Decommit);
            actions.push(StopAction::BeginFlush);
        }
        if thread {
            actions.push(StopAction::Join);
        }
        if connected {
            actions.push(StopAction::EndFlush);
        }
        assert(actions@ =~= stop_actions(connected, thread));
        actions
    }

    /// `IMediaFilter::Stop`: stops a filter that is not stopped.
    pub fn on_stop(&mut self) -> (actions: Vec<StopAction>)
        requires
            old(self).st.wf(),
        ensures
            final(self).st.wf(),
            final(self).st == old(self).st.stopped(),
            final(self).same_but_state(*old(self)),
            actions@ == (if old(self).st.filter_state == FilterState::Stopped {
                Seq::<StopAction>::empty()
            } else {
                stop_actions(old(self).st.conn is Some, old(self).st.thread)
            }),
    {
        if self.st.filter_state != FilterState::Stopped {
            self.stop()
        } else {
            Vec::new()
        }
    }

    /// The filter is released: stops it if the app did not.
    pub fn on_release(&mut self) -> (actions: Vec<StopAction>)
        requires
            old(self).st.wf(),
        ensures
            final(self).st.wf(),
            !final(self).st.thread,
            final(self).same_but_state(*old(self)),
            final(self).st == (if old(self).st.thread {
                old(self).st.stopped()
            } else {
                old(self).st
            }),
            actions@ == (if old(self).st.thread {
                stop_actions(true, true)
            } else {
                Seq::<StopAction>::empty()
            }),
    {
        if self.st.thread {
            self.stop()
        } else {
            Vec::new()
        }
    }

    /// Whether a `Pause` (or a `Run`) has to commit the allocator first.
    pub fn needs_commit(&self) -> (r: bool)
        ensures
            r == (self.st.filter_state == FilterState::Stopped && self.st.conn is Some),
    {
        self.st.filter_state == FilterState::Stopped && self.st.conn.is_some()
    }

    /// `IMediaFilter::Pause`. `commit` is what committing the allocator gave, where that was
    /// needed. On success, whether to start the delivery thread.
    pub fn pause(&mut self, commit: Result<(), Code>) -> (r: Result<bool, Code>)
        requires
            old(self).st.wf(),
        ensures
            final(self).st.wf(),
            final(self).same_but_state(*old(self)),
            ({
                let starts = old(self).st.filter_state == FilterState::Stopped && old(self).st.conn is Some;
                match commit {
                    Err(code) => if starts {
                        r == Err::<bool, Code>(code) && final(self).st == old(self).st
                    } else {
                        r == Ok::<bool, Code>(false) && final(self).st == old(self).st.paused()
                    },
                    Ok(()) => r == Ok::<bool, Code>(starts) && final(self).st == old(self).st.paused(),
                }
            }),
    {
        let starts = self.needs_commit();
        if starts {
            if let Err(code) = commit {
                return Err(code);
            }
            self.st.thread = true;
        }
        self.st.filter_state = FilterState::Paused;
        Ok(starts)
    }

    /// `IMediaFilter::Run`: as `pause` for a stopped filter, then runs from `tstart` on.
    pub fn run(&mut self, tstart: i64, commit: Result<(), Code>) -> (r: Result<bool, Code>)
        requires
            old(self).st.wf(),
        ensures
            final(self).st.wf(),
            final(self).same_but_state(*old(self)),
            ({
                let starts = old(self).st.filter_state == FilterState::Stopped && old(self).st.conn is Some;
                if starts && commit is Err {
                    r == Err::<bool, Code>(commit->Err_0) && final(self).st == old(self).st
                } else {
                    r == Ok::<bool, Code>(starts) && final(self).st == (State {
                        filter_state: FilterState::Running,
                        t_start: tstart,
                        ..old(self).st.paused()
                    })
                }
            }),
    {
        let mut starts = false;
        if self.st.filter_state == FilterState::Stopped {
            match self.pause(commit) {
                Ok(s) => starts = s,
                Err(code) => {
                    return Err(code);
                },
            }
        }
        self.st.t_start = tstart;
        self.st.filter_state = FilterState::Running;
        Ok(starts)
    }

    pub fn state(&self) -> (r: FilterState)
        ensures
            r == self.st.filter_state,
    {
        self.st.filter_state
    }

    pub fn set_sync_source(&mut self, clock: Option<u64>)
        ensures
            final(self).st == (State { clock, ..old(self).st }),
            final(self).same_but_state(*old(self)),
    {
        self.st.clock = clock;
    }

    pub fn sync_source(&self) -> (r: Result<u64, Code>)
        ensures
            r == (match self.st.clock {
                Some(c) => Ok::<u64, Code>(c),
                None => Err(VFW_E_NO_CLOCK),
            }),
    {
        match self.st.clock {
            Some(c) => Ok(c),
            None => Err(VFW_E_NO_CLOCK),
        }
    }

    /// The cursor over the filter's pins.
    pub fn enum_pins(&self) -> (e: EnumPins)
        ensures
            e.cursor == (Cursor { pos: 0, len: 1 }),
    {
        EnumPins::new()
    }

    /// Whether the pin has the given id (the units without their closing zero).
    pub fn find_pin(&self, id: Option<&[u16]>) -> (r: Result<(), Code>)
        ensures
            r == (match id {
                None => Err::<(), Code>(E_POINTER),
                Some(u) => if u@ == crate::utf16::units(PIN_ID@) {
                    Ok(())
                } else {
                    Err(VFW_E_NOT_FOUND)
                },
            }),
    {
        let id = match id {
            None => {
                return Err(E_POINTER);
            },
            Some(u) => u,
        };
        let want = encode(PIN_ID);
        if same_units(id, want.as_slice()) {
            Ok(())
        } else {
            Err(VFW_E_NOT_FOUND)
        }
    }

    /// Fills the filter's name field and gives the graph it belongs to.
    pub fn filter_info(&self, name: &mut [u16]) -> (graph: Option<u64>)
        requires
            old(name)@.len() > 0,
        ensures
            final(name)@ == crate::utf16::field(self.graph_name@, old(name)@.len() as int),
            graph == self.st.graph,
    {
        copy_name(name, self.graph_name.as_str());
        self.st.graph
    }

    /// `IBaseFilter::JoinFilterGraph`; a missing name is an empty one.
    pub fn join_graph(&mut self, graph: Option<u64>, name: Option<String>)
        ensures
            final(self).st == (State { graph, ..old(self).st }),
            final(self).info == old(self).info,
            final(self).frames == old(self).frames,
            final(self).graph_name@ == (match name {
                Some(n) => n@,
                None => Seq::<char>::empty(),
            }),
    {
        self.st.graph = graph;
        self.graph_name = match name {
            Some(n) => n,
            None => String::new(),
        };
    }
}

fn same_units(a: &[u16], b: &[u16]) -> (r: bool)
    ensures
        r == (a@ == b@),
{
    if a.len() != b.len() {
        return false;
    }
    let mut i: usize = 0;
    while i < a.len()
        invariant
            i <= a@.len(),
            a@.len() == b@.len(),
            forall|k: int| 0 <= k < i ==> a@[k] == b@[k],
        decreases a@.len() - i,
    {
        if a[i] != b[i] {
            assert(a@[i as int] != b@[i as int]);
            return false;
        }
        i += 1;
    }
    assert(a@ =~= b@);
    true
}

/// Whether the graph is currently running (as opposed to paused): timestamps are only meaningful
/// once `Run` supplied a start time.
pub fn is_running(st: &State) -> (r: bool)
    ensures
        r == (st.filter_state == FilterState::Running),
{
    st.filter_state == FilterState::Running
}

/// Stopping wakes the delivery thread first, and waits for it only after the allocator and the peer
/// were told to let go of it; the peer takes samples again only once the thread is gone.
pub proof fn law_stop_order(conn: bool, thread: bool, i: int, j: int)
    requires
        0 <= i < stop_actions(conn, thread).len(),
        0 <= j < stop_actions(conn, thread).len(),
    ensures
        ({
            let s = stop_actions(conn, thread);
            &&& s[0] == StopAction::Wake
            &&& s.contains(StopAction::Join) == thread
            &&& s.contains(StopAction::Decommit) == conn
            &&& s.contains(StopAction::BeginFlush) == conn
            &&& s.contains(StopAction::EndFlush) == conn
            &&& s[i] == StopAction::Decommit && s[j] == StopAction::BeginFlush ==> i < j
            &&& s[i] == StopAction::BeginFlush && s[j] == StopAction::Join ==> i < j
            &&& s[i] == StopAction::Join && s[j] == StopAction::EndFlush ==> i < j
            &&& i != j ==> s[i] != s[j]
        }),
{
    let s = stop_actions(conn, thread);
    if thread {
        assert(s[if conn {
            3
        } else {
            1int
        }] == StopAction::Join);
    }
    if conn {
        assert(s[1] == StopAction::Decommit && s[2] == StopAction::BeginFlush);
        assert(s[s.len() - 1] == StopAction::EndFlush);
    }
}

}
