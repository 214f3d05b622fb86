//! [`Compute`] operation applied to the entire painter.
use vstd::prelude::*;

use crate::image::{Dimensions, Image, ImageMut};
use crate::operation::Operation;
use crate::painter::{
    lemma_painted_change, lemma_painted_nothing, lemma_painted_same, lemma_painted_union, painted,
    strategy_change, DrawRegion, Painter,
};
use crate::strategy::Strategy;

verus! {

/// An operation to be applied to every pixel of a painter: the new pixel is
/// computed from the drawing position and the previous pixel.
#[derive(Clone, Copy)]
pub struct Compute<'a, F> {
    action: &'a F,
}

/// The strategy that applies an action for one drawing position.
pub struct AtPosition<'a, F> {
    /// The action computing a pixel from its position and previous value.
    pub action: &'a F,
    /// The drawing position the action is applied for.
    pub position: (i32, i32),
}

impl<'a, P, F: Fn((i32, i32), P) -> P> Strategy<P> for AtPosition<'a, F> {
    open spec fn ready(&self) -> bool {
        forall|p: P| call_requires(*self.action, (self.position, p))
    }

    open spec fn spec_produces(&self, before: P, after: P) -> bool {
        call_ensures(*self.action, (self.position, before), after)
    }

    fn produce(&self, before: P) -> (after: P) {
        (self.action)(self.position, before)
    }
}

impl<'a, F> Compute<'a, F> {
    /// The action applied to every pixel.
    pub closed spec fn spec_action(&self) -> F {
        *self.action
    }

    /// Create a new instance using provided `action`.
    pub fn new<P>(action: &'a F) -> (compute: Self)
        where
            F: Fn((i32, i32), P) -> P,
        ensures
            compute.spec_action() == *action,
    {
        Self { action }
    }
}

/// The end (exclusive) of the drawing positions that a draw zone starting at
/// `origin` and `length` pixels long reaches: positions past `i32::MAX`
/// cannot be drawn at.
pub open spec fn drawable_end(origin: i32, length: u32) -> int {
    if origin + length <= i32::MAX + 1 {
        origin + length
    } else {
        i32::MAX + 1
    }
}

/// Whether `Compute` reaches the drawing position `p` in the draw zone that
/// starts at `origin` and spans `dimensions`: every drawing position of the
/// zone that an `i32` position can name.
pub open spec fn compute_covers(origin: (i32, i32), dimensions: (u32, u32), p: (int, int)) -> bool {
    &&& origin.0 <= p.0 < drawable_end(origin.0, dimensions.0)
    &&& origin.1 <= p.1 < drawable_end(origin.1, dimensions.1)
}

/// The exclusive end of the draw zone along one axis, as an `i64`.
fn drawable_end_of(origin: i32, length: u32) -> (end: i64)
    ensures
        end == drawable_end(origin, length),
{
    let end = origin as i64 + length as i64;
    if end <= i32::MAX as i64 + 1 {
        end
    } else {
        i32::MAX as i64 + 1
    }
}

/// The change that `action` makes at the drawing position `p`.
pub open spec fn action_change<P, F: Fn((i32, i32), P) -> P>(action: F) -> spec_fn((int, int), P, P) -> bool {
    |p: (int, int), b: P, a: P| call_ensures(action, ((p.0 as i32, p.1 as i32), b), a)
}

/// What [`Compute`] asks of a painter and what it draws, as its [`Operation`]
/// impl states: callers whose closure types keep the impl from being picked
/// at the call site learn both from here.
pub proof fn lemma_compute_contract<'a, T, F>(op: Compute<'a, F>)
    where
        T: ImageMut<AtPosition<'a, F>>,
        F: Fn((i32, i32), T::Pixel) -> T::Pixel,
    ensures
        forall|before: Painter<T>| #[trigger] op.spec_can_draw(before) == {
            &&& forall|position: (i32, i32), p: T::Pixel| call_requires(op.spec_action(), (position, p))
            &&& before.spec_offset().0 != i32::MIN
            &&& before.spec_offset().1 != i32::MIN
        },
        forall|before: Painter<T>, after: Painter<T>| #[trigger] op.spec_draws(before, after) == {
            painted(
                before,
                after,
                |p: (int, int)|
                    compute_covers(
                        ((-before.spec_offset().0) as i32, (-before.spec_offset().1) as i32),
                        before.spec_target().spec_dimensions(),
                        p,
                    ),
                action_change(op.spec_action()),
            )
        },
{
}

impl<'a, T, F> Operation<T> for Compute<'a, F> where
    T: ImageMut<AtPosition<'a, F>>,
    F: Fn((i32, i32), T::Pixel) -> T::Pixel,
 {
    type Output = ();

    open spec fn spec_can_draw(&self, painter: Painter<T>) -> bool {
        &&& forall|position: (i32, i32), p: T::Pixel| call_requires(self.spec_action(), (position, p))
        &&& painter.spec_offset().0 != i32::MIN
        &&& painter.spec_offset().1 != i32::MIN
    }

    open spec fn spec_draws(&self, before: Painter<T>, after: Painter<T>) -> bool {
        painted(
            before,
            after,
            |p: (int, int)|
                compute_covers(
                    ((-before.spec_offset().0) as i32, (-before.spec_offset().1) as i32),
                    before.spec_target().spec_dimensions(),
                    p,
                ),
            action_change(self.spec_action()),
        )
    }

    fn draw_on(self, region: &mut DrawRegion<'_, T>) -> (output: ()) {
        let ((start_x, start_y), (width, height)) = region.draw_zone();
        let ghost before = region.spec_painter();
        let ghost change = action_change::<T::Pixel, F>(*self.action);
        let ghost covers = |p: (int, int)| compute_covers((start_x, start_y), (width, height), p);
        let end_x = drawable_end_of(start_x, width);
        let end_y = drawable_end_of(start_y, height);
        let mut y = start_y as i64;
        proof {
            lemma_painted_nothing(before, |p: (int, int)| covers(p) && p.1 < y, change);
        }
        while y < end_y
            invariant
                start_y <= y,
                y <= end_y || y == start_y,
                end_x == drawable_end(start_x, width),
                end_y == drawable_end(start_y, height),
                start_x == -before.spec_offset().0,
                start_y == -before.spec_offset().1,
                (width, height) == before.spec_target().spec_dimensions(),
                forall|position: (i32, i32), p: T::Pixel| call_requires(self.spec_action(), (position, p)),
                change == action_change::<T::Pixel, F>(*self.action),
                covers == (|p: (int, int)| compute_covers((start_x, start_y), (width, height), p)),
                *final(region.painter) == *final(old(region).painter),
                before == old(region).spec_painter(),
                painted(before, region.spec_painter(), |p: (int, int)| covers(p) && p.1 < y, change),
            decreases end_y - y,
        {
            let mut x = start_x as i64;
            proof {
                lemma_painted_same(
                    before,
                    region.spec_painter(),
                    |p: (int, int)| covers(p) && p.1 < y,
                    |p: (int, int)| covers(p) && (p.1 < y || (p.1 == y && p.0 < x)),
                    change,
                );
            }
            while x < end_x
                invariant
                    start_x <= x,
                    x <= end_x || x == start_x,
                    start_y <= y < end_y,
                    end_x == drawable_end(start_x, width),
                    end_y == drawable_end(start_y, height),
                    start_x == -before.spec_offset().0,
                    start_y == -before.spec_offset().1,
                    (width, height) == before.spec_target().spec_dimensions(),
                    forall|position: (i32, i32), p: T::Pixel| call_requires(self.spec_action(), (position, p)),
                    change == action_change::<T::Pixel, F>(*self.action),
                    covers == (|p: (int, int)| compute_covers((start_x, start_y), (width, height), p)),
                    *final(region.painter) == *final(old(region).painter),
                    before == old(region).spec_painter(),
                    painted(
                        before,
                        region.spec_painter(),
                        |p: (int, int)| covers(p) && (p.1 < y || (p.1 == y && p.0 < x)),
                        change,
                    ),
                decreases end_x - x,
            {
                let ghost middle = region.spec_painter();
                let position = (x as i32, y as i32);
                let writer = AtPosition { action: self.action, position };
                assert(*writer.action == self.spec_action());
                assert(writer.ready());
                region.pixel(position, &writer);
                proof {
                    let here = |p: (int, int)| p == (x as int, y as int);
                    lemma_painted_change(middle, region.spec_painter(), here, strategy_change(writer), change);
                    lemma_painted_union(
                        before,
                        middle,
                        region.spec_painter(),
                        |p: (int, int)| covers(p) && (p.1 < y || (p.1 == y && p.0 < x)),
                        here,
                        |p: (int, int)| covers(p) && (p.1 < y || (p.1 == y && p.0 < x + 1)),
                        change,
                    );
                }
                x = x + 1;
            }
            proof {
                lemma_painted_same(
                    before,
                    region.spec_painter(),
                    |p: (int, int)| covers(p) && (p.1 < y || (p.1 == y && p.0 < x)),
                    |p: (int, int)| covers(p) && p.1 < y + 1,
                    change,
                );
            }
            y = y + 1;
        }
        proof {
            lemma_painted_same(before, region.spec_painter(), |p: (int, int)| covers(p) && p.1 < y, covers, change);
        }
    }
}

} // verus!
