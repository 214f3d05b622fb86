//! Rectangles drawn with scanlines.
pub mod filled;
pub mod outline;
