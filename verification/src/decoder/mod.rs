//! Serving decoded video frames by frame number.

pub mod codec;
pub mod ffmpeg;
pub mod frame;
pub mod laws;
pub mod peekable;
