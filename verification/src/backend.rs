//! How the camera is exposed to apps:
//!
//! - **Media Foundation** (Windows 11): `MFCreateVirtualCamera` registers `deskcam_source.dll`
//!   with the Frame Server, which creates the `Global\` frame section.
//! - **DirectShow** (Windows 10): `deskcam_dshow.dll` is registered once by `install.ps1` as a
//!   video capture device and loaded inside each consumer app. The app owns the `Local\` frame
//!   section here, so it exists before any consumer opens it.
//!
//! Either way the worker writes frames into the same ring and captures only while a reader
//! heartbeat is present.

use vstd::prelude::*;
use crate::config::BackendSel;
use crate::layout::Namespace;
use crate::os::has_mf_virtual_camera;
use crate::text::push_text;

verus! {

#[derive(Clone, Copy, PartialEq, Eq, Debug, Structural)]
pub enum Kind {
    MediaFoundation,
    DirectShow,
}

pub open spec fn kind_text(kind: Kind) -> Seq<char> {
    match kind {
        Kind::MediaFoundation => "Media Foundation virtual camera"@,
        Kind::DirectShow => "DirectShow capture filter"@,
    }
}

impl Kind {
    /// What the kind is called.
    pub fn text(&self) -> (s: String)
        ensures
            s@ == kind_text(*self),
    {
        let mut s = String::new();
        match self {
            Kind::MediaFoundation => push_text(&mut s, "Media Foundation virtual camera"),
            Kind::DirectShow => push_text(&mut s, "DirectShow capture filter"),
        }
        assert(s@ =~= kind_text(*self));
        s
    }
}

/// The kind that a selection means on a Windows build.
pub open spec fn resolved(sel: BackendSel, build: u32) -> Kind {
    match sel {
        BackendSel::MediaFoundation => Kind::MediaFoundation,
        BackendSel::DirectShow => Kind::DirectShow,
        BackendSel::Auto => if build >= crate::os::WIN11_BUILD {
            Kind::MediaFoundation
        } else {
            Kind::DirectShow
        },
    }
}

/// The kind that a selection means on a Windows build.
pub fn resolve(sel: BackendSel, build: u32) -> (kind: Kind)
    ensures
        kind == resolved(sel, build),
{
    match sel {
        BackendSel::MediaFoundation => Kind::MediaFoundation,
        BackendSel::DirectShow => Kind::DirectShow,
        BackendSel::Auto => if has_mf_virtual_camera(build) {
            Kind::MediaFoundation
        } else {
            Kind::DirectShow
        },
    }
}

/// A started camera.
#[derive(Clone, Copy, PartialEq, Eq, Debug, Structural)]
pub enum Backend {
    /// The virtual camera exists as long as the app.
    MediaFoundation,
    /// The section is held open for the app's lifetime so consumers can always find it.
    DirectShow,
}

/// What to note in the log about the registered DirectShow camera.
pub open spec fn registration_text(registered: Option<Seq<char>>, name: Seq<char>) -> Option<
    Seq<char>,
> {
    match registered {
        None => Some(
            "warning: the DirectShow camera is not registered; run scripts\\install.ps1 as administrator"@,
        ),
        Some(r) => if r != name {
            Some(
                "note: the camera is registered as '"@ + r + "'; re-run install.ps1 to apply name = "@
                    + name,
            )
        } else {
            None
        },
    }
}

/// What to note in the log about the registered DirectShow camera, if anything: that it is missing,
/// or that its name is not the configured one.
pub fn registration_note(registered: Option<&String>, name: &String) -> (note: Option<String>)
    ensures
        match (
            note,
            registration_text(
                match registered {
                    Some(r) => Some(r@),
                    None => None,
                },
                name@,
            ),
        ) {
            (Some(n), Some(t)) => n@ == t,
            (None, None) => true,
            _ => false,
        },
{
    match registered {
        None => {
            let mut n = String::new();
            push_text(
                &mut n,
                "warning: the DirectShow camera is not registered; run scripts\\install.ps1 as administrator",
            );
            assert(n@
                =~= "warning: the DirectShow camera is not registered; run scripts\\install.ps1 as administrator"@);
            Some(n)
        },
        Some(r) => {
            if *r == *name {
                None
            } else {
                let mut n = String::new();
                push_text(&mut n, "note: the camera is registered as '");
                push_text(&mut n, r.as_str());
                push_text(&mut n, "'; re-run install.ps1 to apply name = ");
                push_text(&mut n, name.as_str());
                assert(n@ =~= "note: the camera is registered as '"@ + r@
                    + "'; re-run install.ps1 to apply name = "@ + name@);
                Some(n)
            }
        },
    }
}

impl Backend {
    /// The camera, once what it needs was tried: the virtual camera (`camera`), or the `Local\`
    /// section (`section_created`).
    pub fn start(kind: Kind, camera: Result<(), String>, section_created: bool) -> (r: Result<
        Backend,
        String,
    >)
        ensures
            match kind {
                Kind::MediaFoundation => match (r, camera) {
                    (Ok(b), Ok(())) => b == Backend::MediaFoundation,
                    (Err(m), Err(e)) => m@ == e@,
                    _ => false,
                },
                Kind::DirectShow => match r {
                    Ok(b) => section_created && b == Backend::DirectShow,
                    Err(m) => !section_created && m@ == "cannot create the shared frame section"@,
                },
            },
    {
        match kind {
            Kind::MediaFoundation => match camera {
                Ok(()) => Ok(Backend::MediaFoundation),
                Err(e) => Err(e),
            },
            Kind::DirectShow => if section_created {
                Ok(Backend::DirectShow)
            } else {
                let mut m = String::new();
                push_text(&mut m, "cannot create the shared frame section");
                assert(m@ =~= "cannot create the shared frame section"@);
                Err(m)
            },
        }
    }

    pub fn kind(&self) -> (k: Kind)
        ensures
            k == (match *self {
                Backend::MediaFoundation => Kind::MediaFoundation,
                Backend::DirectShow => Kind::DirectShow,
            }),
    {
        match self {
            Backend::MediaFoundation => Kind::MediaFoundation,
            Backend::DirectShow => Kind::DirectShow,
        }
    }

    /// Where the frame section is opened for writing.
    pub fn open_section(&self) -> (ns: Namespace)
        ensures
            ns == (match *self {
                Backend::MediaFoundation => Namespace::Global,
                Backend::DirectShow => Namespace::Local,
            }),
    {
        match self {
            Backend::MediaFoundation => Namespace::Global,
            Backend::DirectShow => Namespace::Local,
        }
    }
}

/// A selection other than `auto` holds on every build, and `auto` prefers the virtual camera
/// wherever Windows has it.
pub proof fn law_resolve(build: u32)
    ensures
        resolved(BackendSel::MediaFoundation, build) == Kind::MediaFoundation,
        resolved(BackendSel::DirectShow, build) == Kind::DirectShow,
        resolved(BackendSel::Auto, build) == Kind::MediaFoundation <==> build
            >= crate::os::WIN11_BUILD,
{
}

/// There is something to note exactly when the camera is not registered under the configured name,
/// and the note about another name holds both.
pub proof fn law_note_names_both(registered: Seq<char>, name: Seq<char>)
    ensures
        registration_text(None, name) is Some,
        registration_text(Some(registered), name) is None <==> registered == name,
        registration_text(Some(registered), name) matches Some(t) ==> {
            &&& t.len() > registered.len() + name.len()
            &&& t.skip(t.len() - name.len()) == name
            &&& t.subrange(
                "note: the camera is registered as '"@.len() as int,
                "note: the camera is registered as '"@.len() + registered.len() as int,
            ) == registered
        },
{
    if registered != name {
        reveal_strlit("note: the camera is registered as '");
        let t = registration_text(Some(registered), name).unwrap();
        let n = "note: the camera is registered as '"@.len() as int;
        assert(t.skip(t.len() - name.len()) =~= name);
        assert(t.subrange(n, n + registered.len()) =~= registered);
    }
}

}
