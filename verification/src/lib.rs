//! `ugly_graphics` is a library dedicated to performing drawing operations on CPU.
//! It provides a simple extendable API focusing on either pixel overwriting or
//! modification via an apply function.
//!
//! - [`Image`](crate::image::Image) - something to store pixels in some manner.
//! - [`Painter`](crate::painter::Painter) - an adapter to store an image and to
//!   use `Operation`s on.
//! - [`Strategy`](crate::strategy::Strategy) - an action to be performed on the
//!   pixel set: either an overwrite or a compute-and-overwrite action.
//! - [`Operation`](crate::operation::Operation) - something to be applied to the
//!   `Painter`.
pub mod image;
pub mod operation;
pub mod painter;
pub mod strategy;
pub mod utility;
pub mod view;
