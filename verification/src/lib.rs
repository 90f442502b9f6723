//! Verified core of hl-capture: the state handling, parsing, buffer and audio
//! bookkeeping behind recording Half-Life videos.
pub mod utils;
pub mod manual_free;
pub mod command;
pub mod avcodec;
pub mod capture;
pub mod encode;
pub mod hooks;
pub mod fps_converter;
pub mod profiler;
