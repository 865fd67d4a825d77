//! The DirectShow capture filter that is the camera on Windows 10.
//!
//! Windows 10 has no API for adding a Media Foundation virtual camera, so the filter is registered
//! as a video capture device instead and loaded inside each consumer process. It owns one output
//! pin; a delivery thread pushes one sample per frame interval to the downstream pin while the
//! graph is paused or running.

pub mod enums;
pub mod filter;
pub mod format;
pub mod pin;
pub mod stream;
