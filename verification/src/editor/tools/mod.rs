//! Editor tool operations: paint, transform, adjustments, guides and playback.

pub mod adjust;
pub mod fill;
pub mod guides;
pub mod paint;
pub mod playback;
pub mod transform;
