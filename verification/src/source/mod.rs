//! The Media Foundation media source that is the camera on Windows 11.
//!
//! The Windows Camera Frame Server loads it and pulls NV12/RGB32 samples from it. Frames come from
//! the app via the shared section.

pub mod activator;
pub mod media_source;
pub mod media_stream;
pub mod sample;
