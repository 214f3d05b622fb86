//! Line drawing using scanlines.
use vstd::prelude::*;

use core::ops::Range;

use crate::image::ImageMut;
use crate::operation::scanline::{
    clamp_range, clamped, law_segment_columns_endpoints, law_segment_columns_moved, law_segment_columns_rows, law_segment_columns_symmetric, zone_end_of, lemma_segment_columns_bounds, line_scan, moved, max_int, merge_ranges, merged, min_int, point, range_of, segment_columns,
};
use crate::operation::Operation;
use crate::image::{Dimensions, Image};
use crate::painter::{
    drawing_position, lemma_painted_nothing, lemma_painted_same, lemma_painted_union, line_reaches,
    painted, strategy_change, DrawRegion, Painter,
};
use crate::strategy::Strategy;
use crate::utility::{swap, swapped};

verus! {

/// Line primitive.
pub struct Line<P> {
    from: (i32, i32),
    to: (i32, i32),
    value: P,
}

impl<P> Line<P> {
    /// The first endpoint.
    pub closed spec fn spec_from(&self) -> (i32, i32) {
        self.from
    }

    /// The second endpoint.
    pub closed spec fn spec_to(&self) -> (i32, i32) {
        self.to
    }

    /// The strategy applied to the line's pixels.
    pub closed spec fn spec_value(&self) -> P {
        self.value
    }

    /// Create a new straight line from given positions and provided `value`.
    pub fn new(from: (i32, i32), to: (i32, i32), value: P) -> (line: Self)
        ensures
            line.spec_from() == from,
            line.spec_to() == to,
            line.spec_value() == value,
    {
        Self { from, to, value }
    }
}

/// `range` grown to reach `value`: `value` becomes its start if it lies
/// before, its end if it lies after.
pub open spec fn extended(range: (int, int), value: int) -> (int, int) {
    if value < range.0 {
        (value, range.1)
    } else if value > range.1 {
        (range.0, value)
    } else {
        range
    }
}

pub fn extend_range_to(range: Range<i32>, value: i32) -> (extended_range: Range<i32>)
    ensures
        range_of(extended_range) == extended(range_of(range), value as int),
{
    if value < range.start {
        value..range.end
    } else if value > range.end {
        range.start..value
    } else {
        range
    }
}

/// A dimension as `as i32` reads it.
pub open spec fn as_i32(value: u32) -> int {
    if value <= i32::MAX {
        value as int
    } else {
        value - 0x1_0000_0000int
    }
}

pub(crate) fn to_i32(value: u32) -> (r: i32)
    ensures
        r == as_i32(value),
{
    let r = value as i32;
    assert(r == as_i32(value)) by (bit_vector)
        requires
            r == value as i32,
    ;
    r
}

/// The rows on which the line from `start` to `end` may have pixels within
/// `dimensions`, found from where it crosses the left (`x = 0`) and right
/// (`x = width`) edges.
pub open spec fn visible_rows(start: (int, int), end: (int, int), dimensions: (u32, u32)) -> Option<(int, int)> {
    let (start, end) = if start.1 > end.1 {
        (end, start)
    } else {
        (start, end)
    };
    let width = as_i32(dimensions.0);
    let height = as_i32(dimensions.1);
    if end.1 < 0 {
        None
    } else if start.1 >= height {
        None
    } else if start.0 == end.0 {
        if start.0 < 0 || start.0 >= width {
            None
        } else {
            Some(clamped((start.1, end.1 + 1), 0, height))
        }
    } else {
        let left = segment_columns(swapped(start), swapped(end), 0);
        let right = segment_columns(swapped(start), swapped(end), width);
        match (left, right) {
            (None, None) => {
                if min_int(start.0, end.0) < 0 || max_int(start.0, end.0) >= width {
                    None
                } else {
                    Some(clamped((start.1, end.1 + 1), 0, height))
                }
            },
            (None, Some(right)) => {
                if start.0 < end.0 {
                    Some(clamped(extended(right, start.1), 0, height))
                } else {
                    Some(clamped(extended(right, end.1 + 1), 0, height))
                }
            },
            (Some(left), None) => {
                if start.0 < end.0 {
                    Some(clamped(extended(left, end.1), 0, height))
                } else {
                    Some(clamped(extended(left, start.1), 0, height))
                }
            },
            (Some(left), Some(right)) => Some(clamped(merged(left, right), 0, height)),
        }
    }
}

/// Find the rows on which the line from `start` to `end` may have pixels
/// within `dimensions`.
pub fn vertical_range_in_dimensions(start: (i32, i32), end: (i32, i32), dimensions: (u32, u32)) -> (rows: Option<Range<i32>>)
    requires
        start.1 < i32::MAX,
        end.1 < i32::MAX,
    ensures
        match rows {
            Some(range) => visible_rows(point(start), point(end), dimensions) == Some(range_of(range)),
            None => visible_rows(point(start), point(end), dimensions) is None,
        },
{
    let (start, end) = if start.1 > end.1 { (end, start) } else { (start, end) };
    let width = to_i32(dimensions.0);
    let height = to_i32(dimensions.1);

    // Early return if the lower point is too high.
    if end.1 < 0 {
        return None;
    }
    // Early return if the higher point is too low.
    if start.1 >= height {
        return None;
    }

    // Early check if we have a vertical line.
    if start.0 == end.0 {
        // Too much to the left or to the right.
        if start.0 < 0 || start.0 >= width {
            return None;
        }
        // Clamp to dimensions.
        return Some(clamp_range(start.1..end.1 + 1, 0, height));
    }

    // Now we know that our line:
    // - is not vertical;
    // - is at least partly in vertical bounds.
    proof {
        lemma_segment_columns_bounds(point(swapped(start)), point(swapped(end)), 0);
        lemma_segment_columns_bounds(point(swapped(start)), point(swapped(end)), width as int);
    }
    let left = line_scan(swap(start), swap(end), 0);
    let right = line_scan(swap(start), swap(end), width);
    let range = match (left, right) {
        (None, None) => {
            // Early return if the segment is outside.
            let low = if start.0 <= end.0 { start.0 } else { end.0 };
            let high = if start.0 >= end.0 { start.0 } else { end.0 };
            if low < 0 || high >= width {
                return None;
            }
            // There are no intersections and the segment is inside.
            start.1..end.1 + 1
        },
        (None, Some(right)) => {
            if start.0 < end.0 {
                extend_range_to(right, start.1)
            } else {
                extend_range_to(right, end.1 + 1)
            }
        },
        (Some(left), None) => {
            if start.0 < end.0 {
                extend_range_to(left, end.1)
            } else {
                extend_range_to(left, start.1)
            }
        },
        (Some(left), Some(right)) => merge_ranges(left, right),
    };

    Some(clamp_range(range, 0, height))
}

/// The rows that [`visible_rows`] gives lie on the image and between the
/// endpoints' rows, and they do not depend on which endpoint comes first.
pub proof fn law_visible_rows(start: (int, int), end: (int, int), dimensions: (u32, u32))
    ensures
        visible_rows(start, end, dimensions) == visible_rows(end, start, dimensions),
        visible_rows(start, end, dimensions) matches Some(rows) ==> {
            &&& 0 <= rows.0
            &&& rows.1 <= as_i32(dimensions.1)
            &&& min_int(start.1, end.1) <= rows.0
            &&& rows.1 <= max_int(start.1, end.1) + 1
        },
{
    let (s, e) = if start.1 > end.1 {
        (end, start)
    } else {
        (start, end)
    };
    let width = as_i32(dimensions.0);
    lemma_segment_columns_bounds(swapped(s), swapped(e), 0);
    lemma_segment_columns_bounds(swapped(s), swapped(e), width);
    law_segment_columns_symmetric(swapped(start), swapped(end), 0);
    law_segment_columns_symmetric(swapped(start), swapped(end), width);
}

/// Whether the line from `start` to `end`, drawn in the draw zone whose rows
/// start at `origin_y` on an image `height` rows high, covers the drawing
/// position `p`: `p` lies on a row of the zone and among the columns the
/// segment covers on that row.
pub open spec fn line_covers(start: (int, int), end: (int, int), origin_y: int, height: u32, p: (int, int)) -> bool {
    &&& origin_y <= p.1 < origin_y + height
    &&& segment_columns(start, end, p.1) matches Some(columns) && columns.0 <= p.0 < columns.1
}

/// A line covers the same pixels whichever endpoint it is given first.
pub proof fn law_line_covers_symmetric(start: (int, int), end: (int, int), origin_y: int, height: u32, p: (int, int))
    ensures
        line_covers(start, end, origin_y, height, p) == line_covers(end, start, origin_y, height, p),
{
    law_segment_columns_symmetric(start, end, p.1);
}

/// A line covers both its endpoints where their rows lie in the draw zone.
pub proof fn law_line_covers_endpoints(start: (int, int), end: (int, int), origin_y: int, height: u32)
    ensures
        origin_y <= start.1 < origin_y + height ==> line_covers(start, end, origin_y, height, start),
        origin_y <= end.1 < origin_y + height ==> line_covers(start, end, origin_y, height, end),
{
    law_segment_columns_endpoints(start, end);
}

/// Moving a line together with its draw zone moves the pixels it covers by
/// the same amount. A painter's offset moves the draw zone, so a line drawn
/// through an offset lands where the moved line lands without one.
pub proof fn law_line_covers_moved(
    start: (int, int),
    end: (int, int),
    origin_y: int,
    height: u32,
    shift: (int, int),
    p: (int, int),
)
    ensures
        line_covers(moved(start, shift), moved(end, shift), origin_y + shift.1, height, moved(p, shift))
            == line_covers(start, end, origin_y, height, p),
{
    law_segment_columns_moved(start, end, shift, p.1);
}

/// What [`Line`] asks of a painter and what it draws, as its [`Operation`]
/// impl states: callers whose closure types keep the impl from being picked
/// at the call site learn both from here.
pub proof fn lemma_line_contract<T, P>(op: Line<P>)
    where
        T: ImageMut<P>,
        P: Strategy<T::Pixel>,
    ensures
        forall|before: Painter<T>| #[trigger] op.spec_can_draw(before) == {
            &&& op.spec_value().ready()
            &&& op.spec_from().0 < i32::MAX
            &&& op.spec_from().1 < i32::MAX
            &&& op.spec_to().0 < i32::MAX
            &&& op.spec_to().1 < i32::MAX
            &&& before.spec_offset().0 != i32::MIN
            &&& before.spec_offset().1 != i32::MIN
        },
        forall|before: Painter<T>, after: Painter<T>| #[trigger] op.spec_draws(before, after) == {
            painted(
                before,
                after,
                |p: (int, int)|
                    line_covers(
                        point(op.spec_from()),
                        point(op.spec_to()),
                        -before.spec_offset().1,
                        before.spec_target().spec_dimensions().1,
                        p,
                    ),
                strategy_change(op.spec_value()),
            )
        },
{
}

impl<T, P> Operation<T> for Line<P> where T: ImageMut<P>, P: Strategy<T::Pixel> {
    type Output = ();

    open spec fn spec_can_draw(&self, painter: Painter<T>) -> bool {
        &&& self.spec_value().ready()
        &&& self.spec_from().0 < i32::MAX
        &&& self.spec_from().1 < i32::MAX
        &&& self.spec_to().0 < i32::MAX
        &&& self.spec_to().1 < i32::MAX
        &&& painter.spec_offset().0 != i32::MIN
        &&& painter.spec_offset().1 != i32::MIN
    }

    open spec fn spec_draws(&self, before: Painter<T>, after: Painter<T>) -> bool {
        painted(
            before,
            after,
            |p: (int, int)|
                line_covers(
                    point(self.spec_from()),
                    point(self.spec_to()),
                    -before.spec_offset().1,
                    before.spec_target().spec_dimensions().1,
                    p,
                ),
            strategy_change(self.spec_value()),
        )
    }

    fn draw_on(self, region: &mut DrawRegion<'_, T>) -> (output: ()) {
        let ((_, origin_y), (_, height)) = region.draw_zone();
        let ghost before = region.spec_painter();
        let ghost offset = before.spec_offset();
        let ghost from = point(self.from);
        let ghost to = point(self.to);
        let ghost change = strategy_change(self.value);
        let ghost covers = |p: (int, int)| line_covers(from, to, origin_y as int, height, p);
        // The rows of the segment that lie in the draw zone.
        let low = if self.from.1 <= self.to.1 { self.from.1 } else { self.to.1 };
        let high = if self.from.1 >= self.to.1 { self.from.1 } else { self.to.1 };
        let scan = clamp_range(low..high + 1, origin_y, zone_end_of(origin_y, height));
        let mut scanline = scan.start;
        proof {
            assert forall|q: (u32, u32)| {
                let p = #[trigger] drawing_position(before.spec_offset(), q);
                !(covers(p) && p.1 < scanline)
            } by {
                let p = drawing_position(before.spec_offset(), q);
                law_segment_columns_rows(from, to, p.1);
            }
            lemma_painted_nothing(before, |p: (int, int)| covers(p) && p.1 < scanline, change);
        }
        while scanline < scan.end
            invariant
                scan.start <= scanline,
                scanline <= scan.end || scanline == scan.start,
                scan.end <= high + 1,
                origin_y <= scan.start,
                scan.end <= origin_y + height,
                origin_y == -offset.1,
                high == max_int(from.1, to.1),
                self.value.ready(),
                self.from.0 < i32::MAX,
                self.to.0 < i32::MAX,
                self.from.1 < i32::MAX,
                self.to.1 < i32::MAX,
                from == point(self.from),
                to == point(self.to),
                change == strategy_change(self.value),
                covers == (|p: (int, int)| line_covers(from, to, origin_y as int, height, p)),
                offset == before.spec_offset(),
                *final(region.painter) == *final(old(region).painter),
                before == old(region).spec_painter(),
                painted(before, region.spec_painter(), |p: (int, int)| covers(p) && p.1 < scanline, change),
            decreases scan.end - scanline,
        {
            let ghost middle = region.spec_painter();
            proof {
                lemma_segment_columns_bounds(from, to, scanline as int);
            }
            if let Some(range) = line_scan(self.from, self.to, scanline) {
                let ghost columns = range_of(range);
                region.horizontal_line(range, scanline, &self.value);
                proof {
                    let in_row = |p: (int, int)| p.1 == scanline && line_reaches(columns.0, columns.1, offset.0 as int, p.0);
                    assert forall|q: (u32, u32)| {
                        let p = #[trigger] drawing_position(before.spec_offset(), q);
                        &&& !((covers(p) && p.1 < scanline) && in_row(p))
                        &&& (covers(p) && p.1 < scanline + 1) == ((covers(p) && p.1 < scanline) || in_row(p))
                    } by {
                        let p = drawing_position(before.spec_offset(), q);
                    }
                    lemma_painted_union(
                        before,
                        middle,
                        region.spec_painter(),
                        |p: (int, int)| covers(p) && p.1 < scanline,
                        in_row,
                        |p: (int, int)| covers(p) && p.1 < scanline + 1,
                        change,
                    );
                }
            } else {
                proof {
                    lemma_painted_same(
                        before,
                        region.spec_painter(),
                        |p: (int, int)| covers(p) && p.1 < scanline,
                        |p: (int, int)| covers(p) && p.1 < scanline + 1,
                        change,
                    );
                }
            }
            scanline = scanline + 1;
        }
        proof {
            assert forall|q: (u32, u32)| {
                let p = #[trigger] drawing_position(before.spec_offset(), q);
                (covers(p) && p.1 < scanline) == covers(p)
            } by {
                let p = drawing_position(before.spec_offset(), q);
                law_segment_columns_rows(from, to, p.1);
            }
            lemma_painted_same(before, region.spec_painter(), |p: (int, int)| covers(p) && p.1 < scanline, covers, change);
        }
    }
}

} // verus!
