//! [`Operation`] is an action applied to a [`Painter`](crate::painter::Painter).
use vstd::prelude::*;

pub mod compute;
pub mod pixel;
pub mod scanline;
pub mod stamp;

use crate::painter::{DrawRegion, Painter};

verus! {

/// An operation applied to a [`Painter`].
///
/// May return additional data upon completion.
pub trait Operation<T>: Sized {
    /// The additional data to be returned.
    type Output;

    /// Whether the operation can be drawn on `painter`.
    spec fn spec_can_draw(&self, painter: Painter<T>) -> bool;

    /// Whether drawing the operation takes the painter from `before` to
    /// `after`.
    spec fn spec_draws(&self, before: Painter<T>, after: Painter<T>) -> bool;

    /// Draw `self` on a provided region.
    fn draw_on(self, region: &mut DrawRegion<'_, T>) -> (output: Self::Output)
        requires
            self.spec_can_draw(old(region).spec_painter()),
        ensures
            *final(final(region).painter) == *final(old(region).painter),
            self.spec_draws(old(region).spec_painter(), final(region).spec_painter()),
    ;
}

} // verus!
