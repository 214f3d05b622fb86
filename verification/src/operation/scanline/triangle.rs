//! Triangles drawn with scanlines.
pub mod filled;
