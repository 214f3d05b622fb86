//! [`Pixel`] applies a strategy to one pixel at the given position.
use vstd::prelude::*;

use crate::image::ImageMut;
use crate::operation::Operation;
use crate::painter::{painted, strategy_change, DrawRegion, Painter};
use crate::strategy::Strategy;

verus! {

/// Apply given pixel at the desired position.
pub struct Pixel<P> {
    position: (i32, i32),
    value: P,
}

impl<P> Pixel<P> {
    /// The drawing position.
    pub closed spec fn spec_position(&self) -> (i32, i32) {
        self.position
    }

    /// The strategy applied at the position.
    pub closed spec fn spec_value(&self) -> P {
        self.value
    }

    /// Create new instance to apply `value` at the `position`.
    pub fn new(position: (i32, i32), value: P) -> (pixel: Self)
        ensures
            pixel.spec_position() == position,
            pixel.spec_value() == value,
    {
        Self { position, value }
    }
}

/// What [`Pixel`] asks of a painter and what it draws, as its [`Operation`]
/// impl states: callers whose closure types keep the impl from being picked
/// at the call site learn both from here.
pub proof fn lemma_pixel_contract<T, P>(op: Pixel<P>)
    where
        T: ImageMut<P>,
        P: Strategy<T::Pixel>,
    ensures
        forall|before: Painter<T>| #[trigger] op.spec_can_draw(before) == {
            op.spec_value().ready()
        },
        forall|before: Painter<T>, after: Painter<T>| #[trigger] op.spec_draws(before, after) == {
            painted(
                before,
                after,
                |p: (int, int)| p == (op.spec_position().0 as int, op.spec_position().1 as int),
                strategy_change(op.spec_value()),
            )
        },
{
}

impl<T, P> Operation<T> for Pixel<P> where T: ImageMut<P>, P: Strategy<T::Pixel> {
    type Output = ();

    open spec fn spec_can_draw(&self, painter: Painter<T>) -> bool {
        self.spec_value().ready()
    }

    open spec fn spec_draws(&self, before: Painter<T>, after: Painter<T>) -> bool {
        painted(
            before,
            after,
            |p: (int, int)| p == (self.spec_position().0 as int, self.spec_position().1 as int),
            strategy_change(self.spec_value()),
        )
    }

    fn draw_on(self, region: &mut DrawRegion<'_, T>) -> (output: ()) {
        region.pixel(self.position, &self.value);
    }
}

} // verus!
