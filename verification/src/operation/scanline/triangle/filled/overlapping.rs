//! The overlapping triangle includes all three points.
//!
//! The [`Line`s](`crate::operation::scanline::line::Line`) drawn between its
//! vertices would overlap the triangle.
use vstd::prelude::*;

use core::ops::Range;

use crate::image::{Dimensions, Image, ImageMut};
use crate::operation::scanline::triangle::filled::{
    band_covers, edges_hull, fill_flat, fill_rows, in_bounding_box, in_span, lemma_edges_hull_sorted, lemma_spans_in_box, max3, min3, sorted_vertices, vertical_bounds, vertical_bounds_of,
};
use crate::operation::scanline::line::{as_i32, to_i32};
use crate::operation::scanline::{
    clamp_range, clamped, law_segment_columns_endpoints, law_segment_columns_rows, lemma_segment_columns_bounds, line_scan,
    merge_ranges, merged, point, range_of, segment_columns,
};
use crate::operation::Operation;
use crate::painter::{
    drawing_position, lemma_painted_nothing, lemma_painted_same, lemma_painted_union, line_reaches, painted,
    strategy_change, DrawRegion, Painter,
};
use crate::strategy::Strategy;
use crate::utility::swap_if;

verus! {

/// An overlapping triangle.
#[derive(Clone, Copy)]
pub struct OverlappingTriangle<P> {
    vertices: [(i32, i32); 3],
    value: P,
}

impl<P> OverlappingTriangle<P> {
    /// The three vertices.
    pub closed spec fn spec_vertices(&self) -> [(i32, i32); 3] {
        self.vertices
    }

    /// The strategy applied to the triangle's pixels.
    pub closed spec fn spec_value(&self) -> P {
        self.value
    }

    /// Create a new instance to draw using the provided `value`.
    pub fn new(vertices: [(i32, i32); 3], value: P) -> (triangle: Self)
        ensures
            triangle.spec_vertices() == vertices,
            triangle.spec_value() == value,
    {
        Self { vertices, value }
    }
}

/// The columns filled on the middle vertex's row `y`: from the leftmost to
/// the rightmost column that the three edges cover on it.
pub open spec fn middle_span(a: (i32, i32), b: (i32, i32), c: (i32, i32), y: int) -> Option<(int, int)> {
    match (segment_columns(point(a), point(b), y), segment_columns(point(a), point(c), y)) {
        (Some(first), Some(second)) => Some(
            match segment_columns(point(b), point(c), y) {
                Some(third) => merged(merged(first, second), third),
                None => merged(first, second),
            },
        ),
        _ => None,
    }
}

/// Whether `p` lies on the middle vertex `b`'s row and within the columns
/// filled there.
pub open spec fn middle_covers(a: (i32, i32), b: (i32, i32), c: (i32, i32), p: (int, int)) -> bool {
    &&& p.1 == b.1
    &&& middle_span(a, b, c, p.1) matches Some(span) && span.0 <= p.0 < span.1
}

/// Whether the overlapping triangle with `vertices`, drawn where the draw
/// zone starts at row `origin_y` on an image `height` rows high, covers the
/// drawing position `p`.
///
/// A triangle whose vertices share one row covers that row from the leftmost
/// to the rightmost vertex, both included. Otherwise the rows above the
/// middle vertex and the rows below it are each filled between the edges that
/// cross them, and the middle vertex's row between all three edges; the rows
/// above and below are limited to the vertices' rows and to
/// `origin_y .. height`, the image's height read as an `i32`.
pub open spec fn overlapping_covers(vertices: [(i32, i32); 3], origin_y: int, height: u32, p: (int, int)) -> bool {
    let (a, b, c) = sorted_vertices(vertices);
    let bounds = clamped(vertical_bounds(vertices), origin_y, as_i32(height));
    if a.1 == c.1 {
        p.1 == a.1 && min3(a.0 as int, b.0 as int, c.0 as int) <= p.0 <= max3(a.0 as int, b.0 as int, c.0 as int)
    } else {
        ||| band_covers(clamped((a.1 as int, b.1 as int), bounds.0, bounds.1), (a, b), (a, c), false, p)
        ||| middle_covers(a, b, c, p)
        ||| band_covers(clamped((b.1 + 1, c.1 + 1), bounds.0, bounds.1 + 1), (b, c), (a, c), false, p)
    }
}

/// Whether all the coordinates of `vertices` are less than `i32::MAX`.
pub open spec fn below_max(vertices: [(i32, i32); 3]) -> bool {
    forall|i: int| 0 <= i < 3 ==> #[trigger] vertices[i].0 < i32::MAX && vertices[i].1 < i32::MAX
}

/// A triangle whose vertices are not all on one row is covered by its three
/// bands of rows, which do not share a row.
proof fn lemma_overlapping_bands(vertices: [(i32, i32); 3], origin_y: int, height: u32, p: (int, int))
    ensures
        ({
            let (a, b, c) = sorted_vertices(vertices);
            let bounds = clamped(vertical_bounds(vertices), origin_y, as_i32(height));
            let top = band_covers(clamped((a.1 as int, b.1 as int), bounds.0, bounds.1), (a, b), (a, c), false, p);
            let middle = middle_covers(a, b, c, p);
            let bottom = band_covers(clamped((b.1 + 1, c.1 + 1), bounds.0, bounds.1 + 1), (b, c), (a, c), false, p);
            a.1 != c.1 ==> {
                &&& overlapping_covers(vertices, origin_y, height, p) == (top || middle || bottom)
                &&& !(top && middle)
                &&& !((top || middle) && bottom)
            }
        }),
{
}

/// Sorting reorders the vertices from top to bottom.
pub(crate) proof fn lemma_sorted_vertices(vertices: [(i32, i32); 3])
    ensures
        ({
            let (a, b, c) = sorted_vertices(vertices);
            &&& a.1 <= b.1 <= c.1
            &&& forall|i: int| 0 <= i < 3 ==> #[trigger] vertices[i] == a || vertices[i] == b || vertices[i] == c
            &&& min3(vertices[0].1 as int, vertices[1].1 as int, vertices[2].1 as int) == a.1
            &&& max3(vertices[0].1 as int, vertices[1].1 as int, vertices[2].1 as int) == c.1
        }),
{
    let (a, b, c) = sorted_vertices(vertices);
    assert forall|i: int| 0 <= i < 3 implies #[trigger] vertices[i] == a || vertices[i] == b || vertices[i] == c by {
        assert(i == 0 || i == 1 || i == 2);
    }
}

/// The overlapping triangle includes all three points: it covers each vertex
/// whose row lies in the rows it is limited to, `origin_y .. height`.
pub proof fn law_overlapping_covers_vertices(vertices: [(i32, i32); 3], origin_y: int, height: u32, i: int)
    requires
        0 <= i < 3,
        origin_y <= vertices[i].1 < as_i32(height),
    ensures
        overlapping_covers(vertices, origin_y, height, point(vertices[i])),
{
    lemma_sorted_vertices(vertices);
    let (a, b, c) = sorted_vertices(vertices);
    let v = vertices[i];
    assert(v == a || v == b || v == c);
    law_segment_columns_endpoints(point(a), point(b));
    law_segment_columns_endpoints(point(a), point(c));
    law_segment_columns_endpoints(point(b), point(c));
    law_segment_columns_rows(point(a), point(c), v.1 as int);
    law_segment_columns_rows(point(a), point(b), v.1 as int);
    law_segment_columns_rows(point(b), point(c), v.1 as int);
}

/// Whether `p` is one of the pixels that the segment from `start` to `end`
/// covers on the row of `p`.
pub open spec fn on_segment(start: (i32, i32), end: (i32, i32), p: (int, int)) -> bool {
    segment_columns(point(start), point(end), p.1) matches Some(columns) && columns.0 <= p.0 < columns.1
}

/// The lines drawn between the vertices overlap the triangle: in a triangle
/// whose vertices are not all on one row, every pixel of its three edges is
/// covered where its row lies in the rows the fill is limited to,
/// `origin_y .. height`.
pub proof fn law_overlapping_covers_edges(vertices: [(i32, i32); 3], origin_y: int, height: u32, p: (int, int))
    requires
        ({
            let (a, b, c) = sorted_vertices(vertices);
            &&& a.1 != c.1
            &&& origin_y <= p.1 < as_i32(height)
            &&& on_segment(a, b, p) || on_segment(a, c, p) || on_segment(b, c, p)
        }),
    ensures
        overlapping_covers(vertices, origin_y, height, p),
{
    lemma_sorted_vertices(vertices);
    let (a, b, c) = sorted_vertices(vertices);
    law_segment_columns_rows(point(a), point(b), p.1);
    law_segment_columns_rows(point(a), point(c), p.1);
    law_segment_columns_rows(point(b), point(c), p.1);
    lemma_overlapping_bands(vertices, origin_y, height, p);
}

/// On every row, the overlapping triangle covers exactly the columns from
/// the leftmost to the rightmost one that its edges, drawn as lines between
/// its vertices, cover on that row: nothing outside them, and all of them
/// where the row lies in the rows the fill is limited to, `origin_y ..
/// height`.
pub proof fn law_overlapping_rows(vertices: [(i32, i32); 3], origin_y: int, height: u32, p: (int, int))
    ensures
        overlapping_covers(vertices, origin_y, height, p) ==> in_span(edges_hull(vertices, p.1), p.0),
        origin_y <= p.1 < as_i32(height) && in_span(edges_hull(vertices, p.1), p.0) ==> overlapping_covers(
            vertices,
            origin_y,
            height,
            p,
        ),
{
    lemma_sorted_vertices(vertices);
    lemma_edges_hull_sorted(vertices, p.1);
    let (a, b, c) = sorted_vertices(vertices);
    law_segment_columns_rows(point(a), point(b), p.1);
    law_segment_columns_rows(point(a), point(c), p.1);
    law_segment_columns_rows(point(b), point(c), p.1);
    lemma_overlapping_bands(vertices, origin_y, height, p);
}

/// The overlapping triangle leaves everything outside its bounding box
/// alone.
pub proof fn law_overlapping_in_bounding_box(vertices: [(i32, i32); 3], origin_y: int, height: u32, p: (int, int))
    requires
        overlapping_covers(vertices, origin_y, height, p),
    ensures
        in_bounding_box(vertices, p),
{
    lemma_sorted_vertices(vertices);
    lemma_spans_in_box(vertices, p);
}

/// What [`OverlappingTriangle`] asks of a painter and what it draws, as its [`Operation`]
/// impl states: callers whose closure types keep the impl from being picked
/// at the call site learn both from here.
pub proof fn lemma_overlapping_triangle_contract<T, P>(op: OverlappingTriangle<P>)
    where
        T: ImageMut<P>,
        P: Strategy<T::Pixel>,
    ensures
        forall|before: Painter<T>| #[trigger] op.spec_can_draw(before) == {
            &&& op.spec_value().ready()
            &&& below_max(op.spec_vertices())
            &&& before.spec_offset().0 != i32::MIN
            &&& before.spec_offset().1 != i32::MIN
        },
        forall|before: Painter<T>, after: Painter<T>| #[trigger] op.spec_draws(before, after) == {
            painted(
                before,
                after,
                |p: (int, int)|
                    overlapping_covers(
                        op.spec_vertices(),
                        -before.spec_offset().1,
                        before.spec_target().spec_dimensions().1,
                        p,
                    ),
                strategy_change(op.spec_value()),
            )
        },
{
}

impl<T, P> Operation<T> for OverlappingTriangle<P> where T: ImageMut<P>, P: Strategy<T::Pixel> {
    type Output = ();

    open spec fn spec_can_draw(&self, painter: Painter<T>) -> bool {
        &&& self.spec_value().ready()
        &&& below_max(self.spec_vertices())
        &&& painter.spec_offset().0 != i32::MIN
        &&& painter.spec_offset().1 != i32::MIN
    }

    open spec fn spec_draws(&self, before: Painter<T>, after: Painter<T>) -> bool {
        painted(
            before,
            after,
            |p: (int, int)|
                overlapping_covers(
                    self.spec_vertices(),
                    -before.spec_offset().1,
                    before.spec_target().spec_dimensions().1,
                    p,
                ),
            strategy_change(self.spec_value()),
        )
    }

    fn draw_on(self, region: &mut DrawRegion<'_, T>) -> (output: ()) {
        let ((_, origin_y), (_, height)) = region.draw_zone();
        let ghost before = region.spec_painter();
        let ghost change = strategy_change(self.value);
        let ghost covers = |p: (int, int)| overlapping_covers(self.vertices, origin_y as int, height, p);

        let bounding_y = vertical_bounds_of(&self.vertices);
        let bounding_y = clamp_range(bounding_y, origin_y, to_i32(height));
        assert(self.vertices[0].0 < i32::MAX && self.vertices[0].1 < i32::MAX);
        assert(self.vertices[1].0 < i32::MAX && self.vertices[1].1 < i32::MAX);
        assert(self.vertices[2].0 < i32::MAX && self.vertices[2].1 < i32::MAX);

        // Sort vertices by the y value.
        let (vertex_a, vertex_b) = swap_if(self.vertices[0].1 > self.vertices[1].1, (self.vertices[0], self.vertices[1]));
        let (vertex_b, vertex_c) = swap_if(vertex_b.1 > self.vertices[2].1, (vertex_b, self.vertices[2]));
        let (vertex_a, vertex_b) = swap_if(vertex_a.1 > vertex_b.1, (vertex_a, vertex_b));
        assert((vertex_a, vertex_b, vertex_c) == sorted_vertices(self.vertices));

        if vertex_a.1 == vertex_c.1 {
            // We are on a horizontal line.
            fill_flat(region, (vertex_a, vertex_b, vertex_c), true, &self.value);
        } else {
            fill_bands(region, (vertex_a, vertex_b, vertex_c), bounding_y, &self.value);
        }
        proof {
            let (a, b, c) = (vertex_a, vertex_b, vertex_c);
            let bounds = range_of(bounding_y);
            assert forall|q: (u32, u32)| {
                let p = #[trigger] drawing_position(before.spec_offset(), q);
                (if a.1 == c.1 {
                    p.1 == a.1 && min3(a.0 as int, b.0 as int, c.0 as int) <= p.0 <= max3(a.0 as int, b.0 as int, c.0 as int)
                } else {
                    ||| band_covers(clamped((a.1 as int, b.1 as int), bounds.0, bounds.1), (a, b), (a, c), false, p)
                    ||| middle_covers(a, b, c, p)
                    ||| band_covers(clamped((b.1 + 1, c.1 + 1), bounds.0, bounds.1 + 1), (b, c), (a, c), false, p)
                }) == covers(p)
            } by {
                lemma_overlapping_bands(self.vertices, origin_y as int, height, drawing_position(before.spec_offset(), q));
            }
            lemma_painted_same(
                before,
                region.spec_painter(),
                |p: (int, int)| if a.1 == c.1 {
                    p.1 == a.1 && min3(a.0 as int, b.0 as int, c.0 as int) <= p.0 <= max3(a.0 as int, b.0 as int, c.0 as int)
                } else {
                    ||| band_covers(clamped((a.1 as int, b.1 as int), bounds.0, bounds.1), (a, b), (a, c), false, p)
                    ||| middle_covers(a, b, c, p)
                    ||| band_covers(clamped((b.1 + 1, c.1 + 1), bounds.0, bounds.1 + 1), (b, c), (a, c), false, p)
                },
                covers,
                change,
            );
        }
    }
}

/// Fill the rows above the middle vertex, the middle vertex's row and the
/// rows below it, each between the edges that cross them; the rows above and
/// below are limited to `bounds`.
fn fill_bands<T, P>(
    region: &mut DrawRegion<'_, T>,
    vertices: ((i32, i32), (i32, i32), (i32, i32)),
    bounds: Range<i32>,
    value: &P,
)
    where
        T: ImageMut<P>,
        P: Strategy<T::Pixel>,
    requires
        value.ready(),
        vertices.0.0 < i32::MAX,
        vertices.1.0 < i32::MAX,
        vertices.2.0 < i32::MAX,
        vertices.1.1 < i32::MAX,
        vertices.2.1 < i32::MAX,
        bounds.end < i32::MAX,
    ensures
        *final(final(region).painter) == *final(old(region).painter),
        ({
            let (a, b, c) = vertices;
            let bounds = range_of(bounds);
            painted(
                old(region).spec_painter(),
                final(region).spec_painter(),
                |p: (int, int)| {
                    ||| band_covers(clamped((a.1 as int, b.1 as int), bounds.0, bounds.1), (a, b), (a, c), false, p)
                    ||| middle_covers(a, b, c, p)
                    ||| band_covers(clamped((b.1 + 1, c.1 + 1), bounds.0, bounds.1 + 1), (b, c), (a, c), false, p)
                },
                strategy_change(*value),
            )
        }),
{
    let ghost before = region.spec_painter();
    let ghost change = strategy_change(*value);
    let (vertex_a, vertex_b, vertex_c) = vertices;

    // Iterate from the top point to the middle point.
    let ghost top = clamped((vertex_a.1 as int, vertex_b.1 as int), bounds.start as int, bounds.end as int);
    let scan = clamp_range(vertex_a.1..vertex_b.1, bounds.start, bounds.end);
    let ghost top_covers = |p: (int, int)| band_covers(top, (vertex_a, vertex_b), (vertex_a, vertex_c), false, p);
    fill_rows(region, scan, (vertex_a, vertex_b), (vertex_a, vertex_c), false, value);
    let ghost after_top = region.spec_painter();

    // The middle point's row.
    let ghost middle_row = |p: (int, int)| middle_covers(vertex_a, vertex_b, vertex_c, p);
    fill_middle(region, vertices, value);
    let ghost after_middle = region.spec_painter();
    proof {
        lemma_painted_union(
            before,
            after_top,
            after_middle,
            top_covers,
            middle_row,
            |p: (int, int)| top_covers(p) || middle_row(p),
            change,
        );
    }

    // Iterate from the middle point to the end.
    let ghost bottom = clamped((vertex_b.1 + 1, vertex_c.1 + 1), bounds.start as int, bounds.end + 1);
    let ghost bottom_covers = |p: (int, int)| band_covers(bottom, (vertex_b, vertex_c), (vertex_a, vertex_c), false, p);
    let scan = clamp_range(vertex_b.1 + 1..vertex_c.1 + 1, bounds.start, bounds.end + 1);
    fill_rows(region, scan, (vertex_b, vertex_c), (vertex_a, vertex_c), false, value);
    proof {
        lemma_painted_union(
            before,
            after_middle,
            region.spec_painter(),
            |p: (int, int)| top_covers(p) || middle_row(p),
            bottom_covers,
            |p: (int, int)| top_covers(p) || middle_row(p) || bottom_covers(p),
            change,
        );
    }
}

/// Fill the middle vertex's row between the leftmost and the rightmost column
/// that the three edges cover on it.
fn fill_middle<T, P>(region: &mut DrawRegion<'_, T>, vertices: ((i32, i32), (i32, i32), (i32, i32)), value: &P)
    where
        T: ImageMut<P>,
        P: Strategy<T::Pixel>,
    requires
        value.ready(),
        vertices.0.0 < i32::MAX,
        vertices.1.0 < i32::MAX,
        vertices.2.0 < i32::MAX,
    ensures
        *final(final(region).painter) == *final(old(region).painter),
        ({
            let (a, b, c) = vertices;
            painted(
                old(region).spec_painter(),
                final(region).spec_painter(),
                |p: (int, int)| middle_covers(a, b, c, p),
                strategy_change(*value),
            )
        }),
{
    let ghost before = region.spec_painter();
    let ghost offset = before.spec_offset();
    let (a, b, c) = vertices;
    let y = b.1;
    proof {
        lemma_segment_columns_bounds(point(a), point(b), y as int);
        lemma_segment_columns_bounds(point(a), point(c), y as int);
        lemma_segment_columns_bounds(point(b), point(c), y as int);
    }
    let first = line_scan(a, b, y);
    let second = line_scan(a, c, y);
    let third = line_scan(b, c, y);
    match (first, second) {
        (Some(first), Some(second)) => {
            let span = merge_ranges(first, second);
            let span = match third {
                Some(third) => merge_ranges(span, third),
                None => span,
            };
            let ghost columns = range_of(span);
            assert(middle_span(a, b, c, y as int) == Some(columns));
            region.horizontal_line(span, y, value);
            proof {
                lemma_painted_same(
                    before,
                    region.spec_painter(),
                    |p: (int, int)| p.1 == y && line_reaches(columns.0, columns.1, offset.0 as int, p.0),
                    |p: (int, int)| middle_covers(a, b, c, p),
                    strategy_change(*value),
                );
            }
        },
        _ => {
            proof {
                lemma_painted_nothing(before, |p: (int, int)| middle_covers(a, b, c, p), strategy_change(*value));
            }
        },
    }
}

} // verus!
