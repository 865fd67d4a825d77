//! The named section that holds the [`FrameRing`]: how it is created or opened.

use vstd::prelude::*;
use crate::layout::{section_name, section_size, FrameRing, Namespace};

verus! {

/// SYSTEM + LocalService full access; Authenticated Users read/write (the app writes frames);
/// Everyone, AppContainers and LPAC read (sandboxed consumers).
pub const SECTION_SDDL: &'static str =
    "D:P(A;;GA;;;SY)(A;;GA;;;LS)(A;;GRGW;;;AU)(A;;GR;;;WD)(A;;GR;;;AC)(A;;GR;;;S-1-15-2-2)";

/// As [`SECTION_SDDL`], with a low integrity label: low-integrity consumers of a section in the
/// user's session can then write the reader heartbeat, without which capture never starts.
pub const LOCAL_SECTION_SDDL: &'static str =
    "D:P(A;;GA;;;SY)(A;;GA;;;LS)(A;;GRGW;;;AU)(A;;GR;;;WD)(A;;GR;;;AC)(A;;GR;;;S-1-15-2-2)S:(ML;;NW;;;LW)";

/// The security descriptor of a section.
pub open spec fn descriptor_of(ns: Namespace) -> Seq<char> {
    match ns {
        Namespace::Global => SECTION_SDDL@,
        Namespace::Local => LOCAL_SECTION_SDDL@,
    }
}

/// What Windows is asked for to create a section.
pub struct SectionRequest {
    pub name: String,
    pub descriptor: &'static str,
    /// The size in bytes, as its high and its low 32 bits.
    pub size_high: u32,
    pub size_low: u32,
}

/// What to ask Windows for.
pub fn request(ns: Namespace, width: u32, height: u32) -> (r: SectionRequest)
    requires
        crate::layout::addressable(width as int, height as int),
    ensures
        r.name@ == crate::layout::section_name_text(ns, width as nat, height as nat),
        r.descriptor@ == descriptor_of(ns),
        r.size_high * 0x1_0000_0000 + r.size_low == crate::layout::section_bytes(
            width as int,
            height as int,
        ),
{
    let size: u64 = section_size(width, height) as u64;
    SectionRequest {
        name: section_name(ns, width, height),
        descriptor: match ns {
            Namespace::Global => SECTION_SDDL,
            Namespace::Local => LOCAL_SECTION_SDDL,
        },
        size_high: (size / 0x1_0000_0000) as u32,
        size_low: (size % 0x1_0000_0000) as u32,
    }
}

// ---------------------------------------------------------------------------------------------
// Opening

/// One way to get hold of a section.
#[derive(Clone, Copy, PartialEq, Eq, Debug, Structural)]
pub enum Attempt {
    /// Create it, or get the existing one of that name for writing.
    Create,
    /// Open the existing one for writing.
    OpenWrite,
    /// Open the existing one for reading only.
    OpenRead,
}

/// What opening a section does next.
#[derive(Clone, Copy, PartialEq, Eq, Debug, Structural)]
pub enum OpenStep {
    /// Get the section.
    Acquire { attempt: Attempt },
    /// Map it. `existed` is whether it was there before.
    MapView { attempt: Attempt, existed: bool },
    /// Initialise the header of the new section.
    Init { attempt: Attempt },
    /// See whether the header is valid.
    Check { attempt: Attempt },
    Ready { writable: bool },
    Unavailable,
}

/// What came of a step.
#[derive(Clone, Copy, PartialEq, Eq, Debug, Structural)]
pub enum OpenEvent {
    Acquired { existed: bool },
    Mapped,
    Initialised,
    Checked { valid: bool },
    Failed,
}

/// Where opening goes on when an attempt to open failed: from writing to reading, if both are to
/// be tried.
pub open spec fn after_open(attempt: Attempt, both: bool) -> OpenStep {
    if both && attempt == Attempt::OpenWrite {
        OpenStep::Acquire { attempt: Attempt::OpenRead }
    } else {
        OpenStep::Unavailable
    }
}

/// Where opening goes on. With `both`, a section that cannot be created is opened for writing, and
/// one that cannot be opened for writing is opened for reading; a section that was created but
/// cannot be used is given up.
pub open spec fn open_next(step: OpenStep, event: OpenEvent, both: bool) -> OpenStep {
    match step {
        OpenStep::Acquire { attempt } => match event {
            OpenEvent::Acquired { existed } => OpenStep::MapView {
                attempt,
                existed: existed || attempt != Attempt::Create,
            },
            _ => if both && attempt == Attempt::Create {
                OpenStep::Acquire { attempt: Attempt::OpenWrite }
            } else {
                after_open(attempt, both)
            },
        },
        OpenStep::MapView { attempt, existed } => match event {
            OpenEvent::Mapped => if existed {
                OpenStep::Check { attempt }
            } else {
                OpenStep::Init { attempt }
            },
            _ => after_open(attempt, both),
        },
        OpenStep::Init { attempt } => OpenStep::Check { attempt },
        OpenStep::Check { attempt } => match event {
            OpenEvent::Checked { valid } => if valid {
                OpenStep::Ready { writable: attempt != Attempt::OpenRead }
            } else {
                after_open(attempt, both)
            },
            _ => after_open(attempt, both),
        },
        OpenStep::Ready { .. } => step,
        OpenStep::Unavailable => step,
    }
}

impl OpenStep {
    /// How many events may still come.
    pub open spec fn remaining(self) -> nat {
        match self {
            OpenStep::Acquire { attempt } => match attempt {
                Attempt::Create => 12,
                Attempt::OpenWrite => 8,
                Attempt::OpenRead => 4,
            },
            OpenStep::MapView { attempt, .. } => match attempt {
                Attempt::Create => 11,
                Attempt::OpenWrite => 7,
                Attempt::OpenRead => 3,
            },
            OpenStep::Init { attempt } => match attempt {
                Attempt::Create => 10,
                Attempt::OpenWrite => 6,
                Attempt::OpenRead => 2,
            },
            OpenStep::Check { attempt } => match attempt {
                Attempt::Create => 9,
                Attempt::OpenWrite => 5,
                Attempt::OpenRead => 1,
            },
            OpenStep::Ready { .. } => 0,
            OpenStep::Unavailable => 0,
        }
    }

    /// The first step: create the section, or open it.
    pub fn first(attempt: Attempt) -> (s: OpenStep)
        ensures
            s == (OpenStep::Acquire { attempt }),
    {
        OpenStep::Acquire { attempt }
    }

    fn failed(attempt: Attempt, both: bool) -> (s: OpenStep)
        ensures
            s == after_open(attempt, both),
    {
        if both && attempt == Attempt::OpenWrite {
            OpenStep::Acquire { attempt: Attempt::OpenRead }
        } else {
            OpenStep::Unavailable
        }
    }

    /// The step after an event.
    pub fn next(self, event: OpenEvent, both: bool) -> (s: OpenStep)
        ensures
            s == open_next(self, event, both),
            !(self is Ready || self is Unavailable) ==> s.remaining() < self.remaining(),
    {
        match self {
            OpenStep::Acquire { attempt } => match event {
                OpenEvent::Acquired { existed } => OpenStep::MapView {
                    attempt,
                    existed: existed || attempt != Attempt::Create,
                },
                _ => if both && attempt == Attempt::Create {
                    OpenStep::Acquire { attempt: Attempt::OpenWrite }
                } else {
                    OpenStep::failed(attempt, both)
                },
            },
            OpenStep::MapView { attempt, existed } => match event {
                OpenEvent::Mapped => if existed {
                    OpenStep::Check { attempt }
                } else {
                    OpenStep::Init { attempt }
                },
                _ => OpenStep::failed(attempt, both),
            },
            OpenStep::Init { attempt } => OpenStep::Check { attempt },
            OpenStep::Check { attempt } => match event {
                OpenEvent::Checked { valid } => if valid {
                    OpenStep::Ready { writable: attempt != Attempt::OpenRead }
                } else {
                    OpenStep::failed(attempt, both)
                },
                _ => OpenStep::failed(attempt, both),
            },
            OpenStep::Ready { .. } => self,
            OpenStep::Unavailable => self,
        }
    }
}

// ---------------------------------------------------------------------------------------------
// Sections

/// A mapped section: its ring.
pub struct Section {
    pub ring: FrameRing,
}

/// The bytes of a section that was created or opened.
pub struct Mapped {
    pub bytes: Vec<u8>,
    pub existed: bool,
}

impl Section {
    pub open spec fn wf(self) -> bool {
        self.ring.wf()
    }

    /// `self` is a ring over `bytes`.
    pub open spec fn over(self, bytes: Seq<u8>, width: u32, height: u32, writable: bool) -> bool {
        &&& self.ring.wf()
        &&& self.ring.spec_width() == width
        &&& self.ring.spec_height() == height
        &&& self.ring.spec_writable() == writable
        &&& self.ring@.valid_for(width as int, height as int)
        &&& self.ring.bytes().len() == bytes.len()
    }

    /// Opens an existing section; `None` if it is not initialised for this size.
    pub fn open(bytes: Vec<u8>, width: u32, height: u32, writable: bool) -> (r: Option<Section>)
        requires
            crate::layout::addressable(width as int, height as int),
            crate::layout::section_bytes(width as int, height as int) <= bytes@.len(),
        ensures
            ({
                let valid = crate::layout::ring_view(
                    bytes@,
                    width as int,
                    height as int,
                ).valid_for(width as int, height as int);
                match r {
                    Some(s) => valid && s.over(bytes@, width, height, writable) && s.ring.bytes()
                        == bytes@,
                    None => !valid,
                }
            }),
    {
        let ring = FrameRing::from_raw(bytes, width, height, writable);
        if ring.header_valid() {
            Some(Section { ring })
        } else {
            None
        }
    }

    /// Takes over a created section: a new one gets its header, an existing one must have it.
    pub fn create(mapped: Mapped, width: u32, height: u32) -> (r: Option<Section>)
        requires
            crate::layout::addressable(width as int, height as int),
            crate::layout::section_bytes(width as int, height as int) <= mapped.bytes@.len(),
        ensures
            ({
                let view = crate::layout::ring_view(mapped.bytes@, width as int, height as int);
                match r {
                    Some(s) => {
                        &&& s.over(mapped.bytes@, width, height, true)
                        &&& mapped.existed ==> view.valid_for(width as int, height as int)
                            && s.ring.bytes() == mapped.bytes@
                        &&& !mapped.existed ==> s.ring@ == view.initialised(
                            width as int,
                            height as int,
                        )
                    },
                    None => mapped.existed && !view.valid_for(width as int, height as int),
                }
            }),
    {
        let existed = mapped.existed;
        let mut ring = FrameRing::from_raw(mapped.bytes, width, height, true);
        if !existed {
            ring.init_header();
        }
        if ring.header_valid() {
            Some(Section { ring })
        } else {
            None
        }
    }

    /// The media source's section: the created one where creation was possible (`created`, mapped
    /// or not), otherwise the one that could be opened for writing, otherwise the one that could be
    /// opened for reading.
    pub fn create_or_open_global(
        created: Option<Option<Mapped>>,
        for_writing: Option<Vec<u8>>,
        for_reading: Option<Vec<u8>>,
        width: u32,
        height: u32,
    ) -> (r: Option<Section>)
        requires
            crate::layout::addressable(width as int, height as int),
            created matches Some(Some(m)) ==> crate::layout::section_bytes(
                width as int,
                height as int,
            ) <= m.bytes@.len(),
            for_writing matches Some(b) ==> crate::layout::section_bytes(
                width as int,
                height as int,
            ) <= b@.len(),
            for_reading matches Some(b) ==> crate::layout::section_bytes(
                width as int,
                height as int,
            ) <= b@.len(),
        ensures
            match created {
                Some(None) => r is None,
                Some(Some(m)) => {
                    let view = crate::layout::ring_view(m.bytes@, width as int, height as int);
                    match r {
                        Some(s) => {
                            &&& s.over(m.bytes@, width, height, true)
                            &&& m.existed ==> view.valid_for(width as int, height as int)
                                && s.ring.bytes() == m.bytes@
                            &&& !m.existed ==> s.ring@ == view.initialised(
                                width as int,
                                height as int,
                            )
                        },
                        None => m.existed && !view.valid_for(width as int, height as int),
                    }
                },
                None => {
                    let w = usable(for_writing, width, height);
                    let rd = usable(for_reading, width, height);
                    match r {
                        Some(s) => if w {
                            s.over(for_writing.unwrap()@, width, height, true) && s.ring.bytes()
                                == for_writing.unwrap()@
                        } else {
                            rd && s.over(for_reading.unwrap()@, width, height, false)
                                && s.ring.bytes() == for_reading.unwrap()@
                        },
                        None => !w && !rd,
                    }
                },
            },
    {
        match created {
            Some(None) => None,
            Some(Some(m)) => Section::create(m, width, height),
            None => {
                if let Some(b) = for_writing {
                    if let Some(s) = Section::open(b, width, height, true) {
                        return Some(s);
                    }
                }
                match for_reading {
                    Some(b) => Section::open(b, width, height, false),
                    None => None,
                }
            },
        }
    }
}

/// The bytes are there and hold a valid section of this size.
pub open spec fn usable(bytes: Option<Vec<u8>>, width: u32, height: u32) -> bool {
    bytes matches Some(b) && crate::layout::ring_view(
        b@,
        width as int,
        height as int,
    ).valid_for(width as int, height as int)
}

// ---------------------------------------------------------------------------------------------
// Laws

/// Only a section that was newly created gets its header initialised.
pub proof fn law_only_new_sections_are_initialised(step: OpenStep, event: OpenEvent, both: bool)
    requires
        open_next(step, event, both) is Init,
        !(step is Init),
    ensures
        step matches OpenStep::MapView { attempt, existed } && !existed,
{
}

/// What was opened, not created, counts as existing.
pub proof fn law_opened_sections_existed(step: OpenStep, event: OpenEvent, both: bool)
    requires
        open_next(step, event, both) matches OpenStep::MapView { attempt, existed } && attempt
            != Attempt::Create,
        !(step is MapView),
    ensures
        open_next(step, event, both) matches OpenStep::MapView { attempt, existed } && existed,
{
}

/// A section is ready only once its header was found valid.
pub proof fn law_ready_only_when_valid(step: OpenStep, event: OpenEvent, both: bool)
    requires
        open_next(step, event, both) is Ready,
        !(step is Ready),
    ensures
        step is Check,
        event == (OpenEvent::Checked { valid: true }),
{
}

}
