//! A rectangle with its inside filled.
use vstd::prelude::*;

use crate::image::{Dimensions, Image, ImageMut};
use crate::operation::scanline::{max_int, min_int};
use crate::operation::Operation;
use crate::painter::{
    drawing_position, lemma_painted_nothing, lemma_painted_same, lemma_painted_union, line_reaches,
    painted, strategy_change, DrawRegion, Painter,
};
use crate::strategy::Strategy;
use crate::utility::swap_if;

verus! {

/// A filled rectangle primitive: every position between its two corners,
/// both included.
pub struct FilledRectangle<P> {
    from: (i32, i32),
    to: (i32, i32),
    value: P,
}

impl<P> FilledRectangle<P> {
    /// One corner.
    pub closed spec fn spec_from(&self) -> (i32, i32) {
        self.from
    }

    /// The opposite corner.
    pub closed spec fn spec_to(&self) -> (i32, i32) {
        self.to
    }

    /// The strategy applied to the rectangle's pixels.
    pub closed spec fn spec_value(&self) -> P {
        self.value
    }

    /// Create a new rectangle between two corners, drawn with `value`.
    pub fn new(from: (i32, i32), to: (i32, i32), value: P) -> (rectangle: Self)
        ensures
            rectangle.spec_from() == from,
            rectangle.spec_to() == to,
            rectangle.spec_value() == value,
    {
        Self { from, to, value }
    }
}

/// Whether `p` lies between the corners `from` and `to`, both included.
pub open spec fn rectangle_covers(from: (i32, i32), to: (i32, i32), p: (int, int)) -> bool {
    &&& min_int(from.0 as int, to.0 as int) <= p.0 <= max_int(from.0 as int, to.0 as int)
    &&& min_int(from.1 as int, to.1 as int) <= p.1 <= max_int(from.1 as int, to.1 as int)
}

/// A filled rectangle covers the same positions whichever corners it is given
/// in which order, and covers its corners.
pub proof fn law_rectangle_corners(from: (i32, i32), to: (i32, i32), p: (int, int))
    ensures
        rectangle_covers(from, to, p) == rectangle_covers(to, from, p),
        rectangle_covers(from, to, p) == rectangle_covers((from.0, to.1), (to.0, from.1), p),
        rectangle_covers(from, to, (from.0 as int, from.1 as int)),
        rectangle_covers(from, to, (to.0 as int, to.1 as int)),
        rectangle_covers(from, to, (from.0 as int, to.1 as int)),
        rectangle_covers(from, to, (to.0 as int, from.1 as int)),
{
}

/// A filled rectangle has no holes: whatever lies between two positions it
/// covers, across and down, it covers too. With its four corners covered,
/// it covers the whole box between them.
pub proof fn law_rectangle_convex(from: (i32, i32), to: (i32, i32), p: (int, int), q: (int, int), r: (int, int))
    requires
        rectangle_covers(from, to, p),
        rectangle_covers(from, to, q),
        min_int(p.0, q.0) <= r.0 <= max_int(p.0, q.0),
        min_int(p.1, q.1) <= r.1 <= max_int(p.1, q.1),
    ensures
        rectangle_covers(from, to, r),
{
}

/// What [`FilledRectangle`] asks of a painter and what it draws, as its [`Operation`]
/// impl states: callers whose closure types keep the impl from being picked
/// at the call site learn both from here.
pub proof fn lemma_filled_rectangle_contract<T, P>(op: FilledRectangle<P>)
    where
        T: ImageMut<P>,
        P: Strategy<T::Pixel>,
    ensures
        forall|before: Painter<T>| #[trigger] op.spec_can_draw(before) == {
            &&& op.spec_value().ready()
            &&& max_int(op.spec_from().0 as int, op.spec_to().0 as int) < i32::MAX
            &&& max_int(op.spec_from().1 as int, op.spec_to().1 as int) < i32::MAX
        },
        forall|before: Painter<T>, after: Painter<T>| #[trigger] op.spec_draws(before, after) == {
            painted(
                before,
                after,
                |p: (int, int)| rectangle_covers(op.spec_from(), op.spec_to(), p),
                strategy_change(op.spec_value()),
            )
        },
{
}

impl<T, P> Operation<T> for FilledRectangle<P> where T: ImageMut<P>, P: Strategy<T::Pixel> {
    type Output = ();

    open spec fn spec_can_draw(&self, painter: Painter<T>) -> bool {
        &&& self.spec_value().ready()
        &&& max_int(self.spec_from().0 as int, self.spec_to().0 as int) < i32::MAX
        &&& max_int(self.spec_from().1 as int, self.spec_to().1 as int) < i32::MAX
    }

    open spec fn spec_draws(&self, before: Painter<T>, after: Painter<T>) -> bool {
        painted(
            before,
            after,
            |p: (int, int)| rectangle_covers(self.spec_from(), self.spec_to(), p),
            strategy_change(self.spec_value()),
        )
    }

    fn draw_on(self, region: &mut DrawRegion<'_, T>) -> (output: ()) {
        let (left, right) = swap_if(self.from.0 > self.to.0, (self.from.0, self.to.0));
        let (top, bottom) = swap_if(self.from.1 > self.to.1, (self.from.1, self.to.1));
        let ghost before = region.spec_painter();
        let ghost offset = before.spec_offset();
        let ghost change = strategy_change(self.value);
        let ghost covers = |p: (int, int)| rectangle_covers(self.from, self.to, p);
        let mut y = top;
        proof {
            lemma_painted_nothing(before, |p: (int, int)| covers(p) && p.1 < y, change);
        }
        while y < bottom + 1
            invariant
                top <= y <= bottom + 1,
                bottom < i32::MAX,
                right < i32::MAX,
                left == min_int(self.from.0 as int, self.to.0 as int),
                right == max_int(self.from.0 as int, self.to.0 as int),
                top == min_int(self.from.1 as int, self.to.1 as int),
                bottom == max_int(self.from.1 as int, self.to.1 as int),
                self.value.ready(),
                change == strategy_change(self.value),
                covers == (|p: (int, int)| rectangle_covers(self.from, self.to, p)),
                offset == before.spec_offset(),
                *final(region.painter) == *final(old(region).painter),
                before == old(region).spec_painter(),
                painted(before, region.spec_painter(), |p: (int, int)| covers(p) && p.1 < y, change),
            decreases bottom + 1 - y,
        {
            let ghost middle = region.spec_painter();
            region.horizontal_line(left..right + 1, y, &self.value);
            proof {
                let row = |p: (int, int)| p.1 == y && line_reaches(left as int, right + 1, offset.0 as int, p.0);
                assert forall|q: (u32, u32)| {
                    let p = #[trigger] drawing_position(before.spec_offset(), q);
                    &&& !((covers(p) && p.1 < y) && row(p))
                    &&& (covers(p) && p.1 < y + 1) == ((covers(p) && p.1 < y) || row(p))
                } by {
                    let p = drawing_position(before.spec_offset(), q);
                }
                lemma_painted_union(
                    before,
                    middle,
                    region.spec_painter(),
                    |p: (int, int)| covers(p) && p.1 < y,
                    row,
                    |p: (int, int)| covers(p) && p.1 < y + 1,
                    change,
                );
            }
            y = y + 1;
        }
        proof {
            lemma_painted_same(before, region.spec_painter(), |p: (int, int)| covers(p) && p.1 < y, covers, change);
        }
    }
}

} // verus!
