//! Views: wrappers that change how a stored image is seen.
pub mod cropped;
pub mod flipped;
pub mod mapped;
pub mod rotated;
pub mod shifted;
pub mod zipped;
