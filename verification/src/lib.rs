//! DeskCam: the verified logic of a desktop-as-webcam application.

pub mod backend;
pub mod capture;
pub mod codes;
pub mod color;
pub mod com;
pub mod config;
pub mod convert;
pub mod dll;
pub mod dshow;
pub mod layout;
pub mod le;
pub mod monitor;
pub mod num;
pub mod os;
pub mod paths;
pub mod section;
pub mod seqlock;
pub mod source;
pub mod stream_info;
pub mod text;
pub mod tray;
pub mod utf16;
pub mod vcam;
pub mod worker;
