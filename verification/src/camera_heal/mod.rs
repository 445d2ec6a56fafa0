//! Repair of recordings whose camera track was stamped at the wrong rate.
//!
//! A camera that delivers frames faster than the pipeline's nominal rate (one
//! that runs freely at 60 frames per second while it is recorded at 30)
//! produces a camera track whose duration is a clean multiple of the real
//! recording span. The track plays in slow motion and stretches the editor
//! timeline. This module detects that signature and decides, step by step,
//! how the track's timestamps are rewritten without putting the original at
//! risk.

pub mod heal;
pub mod laws;
pub mod paths;
pub mod stretch;
