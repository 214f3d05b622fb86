//! A rectangle drawn as its border only.
use vstd::prelude::*;

use crate::image::{Dimensions, Image, ImageMut};
use crate::operation::scanline::rectangle::filled::rectangle_covers;
use crate::operation::scanline::{max_int, min_int};
use crate::operation::Operation;
use crate::painter::{
    drawing_position, lemma_painted_same, lemma_painted_union, line_reaches,
    painted, strategy_change, DrawRegion, Painter,
};
use crate::strategy::Strategy;
use crate::utility::swap_if;

verus! {

/// An outline rectangle primitive: the positions on the border between its
/// two corners, each drawn once.
pub struct OutlineRectangle<P> {
    from: (i32, i32),
    to: (i32, i32),
    value: P,
}

impl<P> OutlineRectangle<P> {
    /// One corner.
    pub closed spec fn spec_from(&self) -> (i32, i32) {
        self.from
    }

    /// The opposite corner.
    pub closed spec fn spec_to(&self) -> (i32, i32) {
        self.to
    }

    /// The strategy applied to the border's pixels.
    pub closed spec fn spec_value(&self) -> P {
        self.value
    }

    /// Create a new rectangle outline between two corners, drawn with `value`.
    pub fn new(from: (i32, i32), to: (i32, i32), value: P) -> (rectangle: Self)
        ensures
            rectangle.spec_from() == from,
            rectangle.spec_to() == to,
            rectangle.spec_value() == value,
    {
        Self { from, to, value }
    }
}

/// Whether `p` lies on the border of the rectangle between the corners
/// `from` and `to`: between them, on its first or last column or row.
pub open spec fn outline_covers(from: (i32, i32), to: (i32, i32), p: (int, int)) -> bool {
    &&& rectangle_covers(from, to, p)
    &&& {
        ||| p.0 == min_int(from.0 as int, to.0 as int)
        ||| p.0 == max_int(from.0 as int, to.0 as int)
        ||| p.1 == min_int(from.1 as int, to.1 as int)
        ||| p.1 == max_int(from.1 as int, to.1 as int)
    }
}

/// The outline is the border of the filled rectangle between the same
/// corners: the positions of the filled rectangle with a neighbour, left,
/// right, above or below, that the filled rectangle leaves out.
pub proof fn law_outline_is_border(from: (i32, i32), to: (i32, i32), p: (int, int))
    ensures
        outline_covers(from, to, p) == {
            &&& rectangle_covers(from, to, p)
            &&& {
                ||| !rectangle_covers(from, to, (p.0 - 1, p.1))
                ||| !rectangle_covers(from, to, (p.0 + 1, p.1))
                ||| !rectangle_covers(from, to, (p.0, p.1 - 1))
                ||| !rectangle_covers(from, to, (p.0, p.1 + 1))
            }
        },
{
}

/// What [`OutlineRectangle`] asks of a painter and what it draws, as its [`Operation`]
/// impl states: callers whose closure types keep the impl from being picked
/// at the call site learn both from here.
pub proof fn lemma_outline_rectangle_contract<T, P>(op: OutlineRectangle<P>)
    where
        T: ImageMut<P>,
        P: Strategy<T::Pixel>,
    ensures
        forall|before: Painter<T>| #[trigger] op.spec_can_draw(before) == {
            &&& op.spec_value().ready()
            &&& max_int(op.spec_from().0 as int, op.spec_to().0 as int) < i32::MAX
            &&& max_int(op.spec_from().1 as int, op.spec_to().1 as int) < i32::MAX
        },
        forall|before: Painter<T>, after: Painter<T>| #[trigger] op.spec_draws(before, after) == {
            painted(
                before,
                after,
                |p: (int, int)| outline_covers(op.spec_from(), op.spec_to(), p),
                strategy_change(op.spec_value()),
            )
        },
{
}

impl<T, P> Operation<T> for OutlineRectangle<P> where T: ImageMut<P>, P: Strategy<T::Pixel> {
    type Output = ();

    open spec fn spec_can_draw(&self, painter: Painter<T>) -> bool {
        &&& self.spec_value().ready()
        &&& max_int(self.spec_from().0 as int, self.spec_to().0 as int) < i32::MAX
        &&& max_int(self.spec_from().1 as int, self.spec_to().1 as int) < i32::MAX
    }

    open spec fn spec_draws(&self, before: Painter<T>, after: Painter<T>) -> bool {
        painted(
            before,
            after,
            |p: (int, int)| outline_covers(self.spec_from(), self.spec_to(), p),
            strategy_change(self.spec_value()),
        )
    }

    fn draw_on(self, region: &mut DrawRegion<'_, T>) -> (output: ()) {
        let (left, right) = swap_if(self.from.0 > self.to.0, (self.from.0, self.to.0));
        let (top, bottom) = swap_if(self.from.1 > self.to.1, (self.from.1, self.to.1));
        let ghost before = region.spec_painter();
        let ghost offset = before.spec_offset();
        let ghost change = strategy_change(self.value);
        let ghost covers = |p: (int, int)| outline_covers(self.from, self.to, p);

        // The first row.
        region.horizontal_line(left..right + 1, top, &self.value);
        proof {
            let row = |p: (int, int)| p.1 == top && line_reaches(left as int, right + 1, offset.0 as int, p.0);
            assert forall|q: (u32, u32)| {
                let p = #[trigger] drawing_position(before.spec_offset(), q);
                row(p) == (covers(p) && p.1 == top)
            } by {
                let p = drawing_position(before.spec_offset(), q);
            }
            lemma_painted_same(before, region.spec_painter(), row, |p: (int, int)| covers(p) && p.1 == top, change);
        }

        // The last row, when it is another one.
        if top < bottom {
            let ghost middle = region.spec_painter();
            region.horizontal_line(left..right + 1, bottom, &self.value);
            proof {
                let row = |p: (int, int)| p.1 == bottom && line_reaches(left as int, right + 1, offset.0 as int, p.0);
                assert forall|q: (u32, u32)| {
                    let p = #[trigger] drawing_position(before.spec_offset(), q);
                    &&& !((covers(p) && p.1 == top) && row(p))
                    &&& (covers(p) && (p.1 == top || p.1 == bottom)) == ((covers(p) && p.1 == top) || row(p))
                } by {
                    let p = drawing_position(before.spec_offset(), q);
                }
                lemma_painted_union(
                    before,
                    middle,
                    region.spec_painter(),
                    |p: (int, int)| covers(p) && p.1 == top,
                    row,
                    |p: (int, int)| covers(p) && (p.1 == top || p.1 == bottom),
                    change,
                );
            }
        } else {
            proof {
                lemma_painted_same(
                    before,
                    region.spec_painter(),
                    |p: (int, int)| covers(p) && p.1 == top,
                    |p: (int, int)| covers(p) && (p.1 == top || p.1 == bottom),
                    change,
                );
            }
        }

        // The first and last columns of the rows in between.
        let mut y = top + 1;
        proof {
            lemma_painted_same(
                before,
                region.spec_painter(),
                |p: (int, int)| covers(p) && (p.1 == top || p.1 == bottom),
                |p: (int, int)| covers(p) && (p.1 == top || p.1 == bottom || p.1 < y),
                change,
            );
        }
        while y < bottom
            invariant
                top < y <= bottom || (y == top + 1 && top == bottom),
                bottom < i32::MAX,
                right < i32::MAX,
                left == min_int(self.from.0 as int, self.to.0 as int),
                right == max_int(self.from.0 as int, self.to.0 as int),
                top == min_int(self.from.1 as int, self.to.1 as int),
                bottom == max_int(self.from.1 as int, self.to.1 as int),
                self.value.ready(),
                change == strategy_change(self.value),
                covers == (|p: (int, int)| outline_covers(self.from, self.to, p)),
                offset == before.spec_offset(),
                *final(region.painter) == *final(old(region).painter),
                before == old(region).spec_painter(),
                painted(
                    before,
                    region.spec_painter(),
                    |p: (int, int)| covers(p) && (p.1 == top || p.1 == bottom || p.1 < y),
                    change,
                ),
            decreases bottom - y,
        {
            let ghost start = region.spec_painter();
            let ghost done = |p: (int, int)| covers(p) && (p.1 == top || p.1 == bottom || p.1 < y);
            let ghost first = |p: (int, int)| p == (left as int, y as int);
            region.pixel((left, y), &self.value);
            let ghost after_first = region.spec_painter();
            proof {
                lemma_painted_union(
                    before,
                    start,
                    after_first,
                    done,
                    first,
                    |p: (int, int)| done(p) || first(p),
                    change,
                );
            }
            if left < right {
                let ghost last = |p: (int, int)| p == (right as int, y as int);
                region.pixel((right, y), &self.value);
                proof {
                    lemma_painted_union(
                        before,
                        after_first,
                        region.spec_painter(),
                        |p: (int, int)| done(p) || first(p),
                        last,
                        |p: (int, int)| done(p) || first(p) || last(p),
                        change,
                    );
                    lemma_painted_same(
                        before,
                        region.spec_painter(),
                        |p: (int, int)| done(p) || first(p) || last(p),
                        |p: (int, int)| covers(p) && (p.1 == top || p.1 == bottom || p.1 < y + 1),
                        change,
                    );
                }
            } else {
                proof {
                    lemma_painted_same(
                        before,
                        region.spec_painter(),
                        |p: (int, int)| done(p) || first(p),
                        |p: (int, int)| covers(p) && (p.1 == top || p.1 == bottom || p.1 < y + 1),
                        change,
                    );
                }
            }
            y = y + 1;
        }
        proof {
            lemma_painted_same(
                before,
                region.spec_painter(),
                |p: (int, int)| covers(p) && (p.1 == top || p.1 == bottom || p.1 < y),
                covers,
                change,
            );
        }
    }
}

} // verus!
