//! [`Painter`] is a handle to the stored image.
//!
//! It provides basic API for pixel modification: drawing positions are
//! translated by the painter's offset before they reach the image.
use vstd::prelude::*;

use core::ops::Range;

use crate::image::{Dimensions, Image, ImageMut};
use crate::operation::Operation;
use crate::strategy::Strategy;

verus! {

/// An image wrapper that operations are drawn on.
pub struct Painter<T> {
    target: T,
    offset: (i32, i32),
}

/// Whether a pixel went from `before` to `after` by `change`: a missing pixel
/// stays missing, a present one `b` becomes some `a` with `change(b, a)`.
pub open spec fn changed_by<P>(before: Option<P>, after: Option<P>, change: spec_fn(P, P) -> bool) -> bool {
    match before {
        None => after is None,
        Some(b) => match after {
            Some(a) => change(b, a),
            None => false,
        },
    }
}

/// The drawing position that lands on the target position `q`.
pub open spec fn drawing_position(offset: (i32, i32), q: (u32, u32)) -> (int, int) {
    (q.0 - offset.0, q.1 - offset.1)
}

/// Whether drawing took the painter from `before` to `after` by changing the
/// pixel at each drawing position `p` with `drawn(p)` by `change(p, ..)`, and
/// leaving every other pixel, and all the image does not show, as it was.
pub open spec fn painted<T: Image>(
    before: Painter<T>,
    after: Painter<T>,
    drawn: spec_fn((int, int)) -> bool,
    change: spec_fn((int, int), T::Pixel, T::Pixel) -> bool,
) -> bool {
    &&& after.spec_offset() == before.spec_offset()
    &&& after.spec_target().spec_dimensions() == before.spec_target().spec_dimensions()
    &&& after.spec_target().keeps_hidden(before.spec_target())
    &&& forall|q: (u32, u32)| {
        let p = drawing_position(before.spec_offset(), q);
        if drawn(p) {
            changed_by(
                before.spec_target().spec_pixel(q),
                #[trigger] after.spec_target().spec_pixel(q),
                |b: T::Pixel, a: T::Pixel| change(p, b, a),
            )
        } else {
            after.spec_target().spec_pixel(q) == before.spec_target().spec_pixel(q)
        }
    }
}

/// The change that one application of `writer` makes.
pub open spec fn strategy_change<P, W: Strategy<P>>(writer: W) -> spec_fn((int, int), P, P) -> bool {
    |p: (int, int), b: P, a: P| writer.spec_produces(b, a)
}

/// Whether the horizontal line drawn over `x_start..x_end` with the painter's
/// horizontal offset `offset_x` reaches the drawing column `x`: the column
/// lies in the range and does not land left of the image. A range whose end
/// is before its start is empty.
pub open spec fn line_reaches(x_start: int, x_end: int, offset_x: int, x: int) -> bool {
    &&& x_start <= x < x_end
    &&& x + offset_x >= 0
}

/// Painting nothing leaves the painter as it is.
pub proof fn lemma_painted_nothing<T: Image>(
    painter: Painter<T>,
    drawn: spec_fn((int, int)) -> bool,
    change: spec_fn((int, int), T::Pixel, T::Pixel) -> bool,
)
    requires
        forall|q: (u32, u32)| !#[trigger] drawn(drawing_position(painter.spec_offset(), q)),
    ensures
        painted(painter, painter, drawn, change),
{
    T::lemma_keeps_hidden(painter.spec_target(), painter.spec_target(), painter.spec_target());
}

/// Two paintings of disjoint sets of positions, one after the other, paint
/// their union.
pub proof fn lemma_painted_union<T: Image>(
    first: Painter<T>,
    second: Painter<T>,
    third: Painter<T>,
    drawn_first: spec_fn((int, int)) -> bool,
    drawn_second: spec_fn((int, int)) -> bool,
    drawn: spec_fn((int, int)) -> bool,
    change: spec_fn((int, int), T::Pixel, T::Pixel) -> bool,
)
    requires
        painted(first, second, drawn_first, change),
        painted(second, third, drawn_second, change),
        forall|q: (u32, u32)| {
            let p = #[trigger] drawing_position(first.spec_offset(), q);
            &&& !(drawn_first(p) && drawn_second(p))
            &&& drawn(p) == (drawn_first(p) || drawn_second(p))
        },
    ensures
        painted(first, third, drawn, change),
{
    T::lemma_keeps_hidden(first.spec_target(), second.spec_target(), third.spec_target());
    assert forall|q: (u32, u32)| {
        let p = drawing_position(first.spec_offset(), q);
        if drawn(p) {
            changed_by(
                first.spec_target().spec_pixel(q),
                #[trigger] third.spec_target().spec_pixel(q),
                |b: T::Pixel, a: T::Pixel| change(p, b, a),
            )
        } else {
            third.spec_target().spec_pixel(q) == first.spec_target().spec_pixel(q)
        }
    } by {
        assert(second.spec_target().spec_pixel(q) == second.spec_target().spec_pixel(q));
        let p = drawing_position(first.spec_offset(), q);
    }
}

/// A painting is described as well by any set of positions that agrees with
/// its own on every position of the image.
pub proof fn lemma_painted_same<T: Image>(
    before: Painter<T>,
    after: Painter<T>,
    drawn: spec_fn((int, int)) -> bool,
    other: spec_fn((int, int)) -> bool,
    change: spec_fn((int, int), T::Pixel, T::Pixel) -> bool,
)
    requires
        painted(before, after, drawn, change),
        forall|q: (u32, u32)| #[trigger] drawn(drawing_position(before.spec_offset(), q)) == other(drawing_position(before.spec_offset(), q)),
    ensures
        painted(before, after, other, change),
{
    assert forall|q: (u32, u32)| {
        let p = drawing_position(before.spec_offset(), q);
        if other(p) {
            changed_by(
                before.spec_target().spec_pixel(q),
                #[trigger] after.spec_target().spec_pixel(q),
                |b: T::Pixel, a: T::Pixel| change(p, b, a),
            )
        } else {
            after.spec_target().spec_pixel(q) == before.spec_target().spec_pixel(q)
        }
    } by {
        assert(drawn(drawing_position(before.spec_offset(), q)) == other(drawing_position(before.spec_offset(), q)));
    }
}

/// A painting is described as well by any change that agrees with its own on
/// every position it draws.
pub proof fn lemma_painted_change<T: Image>(
    before: Painter<T>,
    after: Painter<T>,
    drawn: spec_fn((int, int)) -> bool,
    change: spec_fn((int, int), T::Pixel, T::Pixel) -> bool,
    other: spec_fn((int, int), T::Pixel, T::Pixel) -> bool,
)
    requires
        painted(before, after, drawn, change),
        forall|p: (int, int), b: T::Pixel, a: T::Pixel| drawn(p) ==> #[trigger] change(p, b, a) == other(p, b, a),
    ensures
        painted(before, after, drawn, other),
{
    assert forall|q: (u32, u32)| {
        let p = drawing_position(before.spec_offset(), q);
        if drawn(p) {
            changed_by(
                before.spec_target().spec_pixel(q),
                #[trigger] after.spec_target().spec_pixel(q),
                |b: T::Pixel, a: T::Pixel| other(p, b, a),
            )
        } else {
            after.spec_target().spec_pixel(q) == before.spec_target().spec_pixel(q)
        }
    } by {
        let p = drawing_position(before.spec_offset(), q);
        if drawn(p) {
            if let Some(b) = before.spec_target().spec_pixel(q) {
                if let Some(a) = after.spec_target().spec_pixel(q) {
                    assert(change(p, b, a) == other(p, b, a));
                }
            }
        }
    }
}

impl<T> Painter<T> {
    /// The stored image.
    pub closed spec fn spec_target(&self) -> T {
        self.target
    }

    /// The offset added to drawing positions.
    pub closed spec fn spec_offset(&self) -> (i32, i32) {
        self.offset
    }

    /// Create new [`Painter`] instance.
    pub fn new(target: T) -> (painter: Self)
        ensures
            painter.spec_target() == target,
            painter.spec_offset() == (0i32, 0i32),
    {
        let offset = (0, 0);
        Self { target, offset }
    }

    /// Build new [`Painter`] with provided `offset` value.
    pub fn with_offset(self, offset: (i32, i32)) -> (painter: Self)
        ensures
            painter.spec_target() == self.spec_target(),
            painter.spec_offset() == offset,
    {
        Self { offset, ..self }
    }

    /// Give back the stored image.
    pub fn into_target(self) -> (target: T)
        ensures
            target == self.spec_target(),
    {
        self.target
    }

    /// Draw the provided `operation` on this [`Painter`] instance.
    pub fn draw<O>(&mut self, operation: O) -> (output: O::Output)
        where
            O: Operation<T>,
        requires
            operation.spec_can_draw(*old(self)),
        ensures
            operation.spec_draws(*old(self), *final(self)),
    {
        let mut region = DrawRegion { painter: self };
        operation.draw_on(&mut region)
    }
}

/// A region to perform drawing operations on.
///
/// It borrows the painter for the time of one operation.
pub struct DrawRegion<'p, T> {
    /// The painter drawn on.
    pub painter: &'p mut Painter<T>,
}

impl<'p, T> DrawRegion<'p, T> {
    /// The painter as it is now.
    pub open spec fn spec_painter(&self) -> Painter<T> {
        *self.painter
    }

    /// Get the dimensions of the image drawn on.
    pub fn dimensions(&self) -> (dimensions: (u32, u32))
        where
            T: Dimensions,
        ensures
            dimensions == self.spec_painter().spec_target().spec_dimensions(),
    {
        self.painter.target.dimensions()
    }

    /// Get draw zone origin and dimensions.
    pub fn draw_zone(&self) -> (zone: ((i32, i32), (u32, u32)))
        where
            T: Dimensions,
        requires
            self.spec_painter().spec_offset().0 != i32::MIN,
            self.spec_painter().spec_offset().1 != i32::MIN,
        ensures
            zone.0 == ((-self.spec_painter().spec_offset().0) as i32, (-self.spec_painter().spec_offset().1) as i32),
            zone.1 == self.spec_painter().spec_target().spec_dimensions(),
    {
        let (offset_x, offset_y) = self.painter.offset;
        ((-offset_x, -offset_y), self.painter.target.dimensions())
    }

    /// Apply the provided `writer` on the `(x, y)` position.
    ///
    /// Fails silently where the position falls outside the image.
    pub fn pixel<W>(&mut self, position: (i32, i32), writer: &W)
        where
            T: ImageMut<W>,
            W: Strategy<T::Pixel>,
        requires
            writer.ready(),
        ensures
            *final(final(self).painter) == *final(old(self).painter),
            painted(
                old(self).spec_painter(),
                final(self).spec_painter(),
                |p: (int, int)| p == (position.0 as int, position.1 as int),
                strategy_change(*writer),
            ),
    {
        proof {
            T::lemma_keeps_hidden(self.painter.target, self.painter.target, self.painter.target);
        }
        let (offset_x, offset_y) = self.painter.offset;
        let x = position.0 as i64 + offset_x as i64;
        let y = position.1 as i64 + offset_y as i64;
        if 0 <= x && x <= u32::MAX as i64 && 0 <= y && y <= u32::MAX as i64 {
            self.painter.target.write_pixel((x as u32, y as u32), writer);
        }
    }

    /// Apply the provided `writer` on the range `x` at horizontal position
    /// `y`.
    ///
    /// Fails silently where the line leaves the image.
    pub fn horizontal_line<W>(&mut self, x: Range<i32>, y: i32, writer: &W)
        where
            T: ImageMut<W>,
            W: Strategy<T::Pixel>,
        requires
            writer.ready(),
        ensures
            *final(final(self).painter) == *final(old(self).painter),
            painted(
                old(self).spec_painter(),
                final(self).spec_painter(),
                |p: (int, int)|
                    p.1 == y && line_reaches(
                        x.start as int,
                        x.end as int,
                        old(self).spec_painter().spec_offset().0 as int,
                        p.0,
                    ),
                strategy_change(*writer),
            ),
    {
        proof {
            T::lemma_keeps_hidden(self.painter.target, self.painter.target, self.painter.target);
        }
        let (offset_x, offset_y) = self.painter.offset;
        let start = x.start as i64 + offset_x as i64;
        let end = x.end as i64 + offset_x as i64;
        let row = y as i64 + offset_y as i64;
        if row >= 0 {
            let first = if start < 0 { 0 } else { start };
            if end <= first {
                return;
            }
            let total = end - first;
            self.painter.target.write_horizontal_line((first as u32, row as u32), total as u32, writer);
        }
    }
}

} // verus!
