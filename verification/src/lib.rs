//! The verified core of a screen recorder: the decisions, data structures and
//! pixel algorithms behind camera healing, cursor capture, the capture
//! pipelines and the frame decoder.

pub mod bitmap;
pub mod camera_heal;
pub mod capture_pipeline;
pub mod cursor;
pub mod cursor_image;
pub mod cursor_run;
pub mod decoder;
pub mod png;
pub mod tiff;
pub mod units;
