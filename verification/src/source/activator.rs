//! The activation object returned by the class factory; hands out the single media source.

use vstd::prelude::*;
use crate::codes::{Code, Guid, CLSID, MF_E_SHUTDOWN};

verus! {

/// What the activation object says about itself.
#[derive(Clone, Copy, PartialEq, Eq, Debug, Structural)]
pub struct ActivatorAttributes {
    /// `MF_VIRTUALCAMERA_PROVIDE_ASSOCIATED_CAMERA_SOURCES`.
    pub provide_associated_sources: u32,
    /// `MFT_TRANSFORM_CLSID_Attribute`.
    pub transform_clsid: Guid,
}

/// What every activation object says about itself.
pub fn attributes() -> (a: ActivatorAttributes)
    ensures
        a == (ActivatorAttributes { provide_associated_sources: 1, transform_clsid: CLSID }),
{
    ActivatorAttributes { provide_associated_sources: 1, transform_clsid: CLSID }
}

/// An activation object: its attributes, and the number that stands for the media source until it
/// is given up.
#[derive(Clone, Copy, PartialEq, Eq, Debug, Structural)]
pub struct Activator {
    pub attrs: ActivatorAttributes,
    pub source: Option<u64>,
}

/// An activation object for a media source.
pub fn create(source: u64) -> (a: Activator)
    ensures
        a == (Activator {
            attrs: ActivatorAttributes { provide_associated_sources: 1, transform_clsid: CLSID },
            source: Some(source),
        }),
{
    Activator { attrs: attributes(), source: Some(source) }
}

impl Activator {
    /// The media source, as long as it is there.
    pub fn activate_object(&self) -> (r: Result<u64, Code>)
        ensures
            r == (match self.source {
                Some(s) => Ok::<u64, Code>(s),
                None => Err(MF_E_SHUTDOWN),
            }),
    {
        match self.source {
            Some(s) => Ok(s),
            None => Err(MF_E_SHUTDOWN),
        }
    }

    /// Gives the media source up.
    pub fn detach_object(&mut self)
        ensures
            *final(self) == (Activator { source: None, ..*old(self) }),
    {
        self.source = None;
    }
}

}
