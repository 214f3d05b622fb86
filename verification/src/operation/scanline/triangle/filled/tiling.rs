//! The tiling triangle leaves out, on each row, the pixels of the edge that
//! starts further left, which a neighbour to the left may draw.
use vstd::prelude::*;


use crate::image::{Dimensions, Image, ImageMut};
use crate::operation::scanline::triangle::filled::{
    band_covers, between_runs, edge_run, edges_hull, fill_flat, fill_rows, in_bounding_box, in_span, lemma_edge_run_sorted, lemma_edges_hull_sorted, lemma_row_span_cut_covers, right_run_past, lemma_spans_in_box, max3, min3, sorted_vertices, vertical_bounds, vertical_bounds_of,
};
use crate::operation::scanline::line::{as_i32, to_i32};
use crate::operation::scanline::triangle::filled::overlapping::{
    below_max, law_overlapping_rows, lemma_sorted_vertices, overlapping_covers,
};
use crate::operation::scanline::{
    clamp_range, clamped, law_segment_columns_rows, lemma_segment_columns_bounds, point, range_of,
    segment_columns,
};
use crate::operation::Operation;
use crate::painter::{drawing_position, lemma_painted_same, lemma_painted_union, painted, strategy_change, DrawRegion, Painter};
use crate::strategy::Strategy;
use crate::utility::swap_if;

verus! {

/// A tiling triangle.
pub struct TilingTriangle<P> {
    vertices: [(i32, i32); 3],
    value: P,
}

impl<P> TilingTriangle<P> {
    /// The three vertices.
    pub closed spec fn spec_vertices(&self) -> [(i32, i32); 3] {
        self.vertices
    }

    /// The strategy applied to the triangle's pixels.
    pub closed spec fn spec_value(&self) -> P {
        self.value
    }

    /// Create a new instance to draw using the provided `value`.
    pub fn new(vertices: [(i32, i32); 3], value: P) -> (triangle: Self)
        ensures
            triangle.spec_vertices() == vertices,
            triangle.spec_value() == value,
    {
        Self { vertices, value }
    }
}

/// Whether the tiling triangle with `vertices`, drawn on an image `height`
/// rows high, covers the drawing position `p`.
///
/// A triangle whose vertices share one row covers that row from the leftmost
/// vertex up to, but not including, the rightmost one. Otherwise the rows
/// down to the middle vertex's row and the rows below it are each filled
/// between the edges that cross them, leaving out the columns of the edge
/// that starts further left; rows are limited to the vertices' rows and to
/// `0 .. height`, the image's height read as an `i32`.
pub open spec fn tiling_covers(vertices: [(i32, i32); 3], height: u32, p: (int, int)) -> bool {
    let (a, b, c) = sorted_vertices(vertices);
    let bounds = clamped(vertical_bounds(vertices), 0, as_i32(height));
    if a.1 == c.1 {
        p.1 == a.1 && min3(a.0 as int, b.0 as int, c.0 as int) <= p.0 < max3(a.0 as int, b.0 as int, c.0 as int)
    } else {
        ||| band_covers(clamped((a.1 as int, b.1 + 1), bounds.0, bounds.1), (a, b), (a, c), true, p)
        ||| band_covers(clamped((b.1 + 1, c.1 + 1), bounds.0, bounds.1 + 1), (b, c), (a, c), true, p)
    }
}

/// On every row, the tiling triangle covers only columns from the leftmost
/// to the rightmost one that its edges, drawn as lines between its vertices,
/// cover on that row.
pub proof fn law_tiling_rows(vertices: [(i32, i32); 3], height: u32, p: (int, int))
    ensures
        tiling_covers(vertices, height, p) ==> in_span(edges_hull(vertices, p.1), p.0),
{
    lemma_sorted_vertices(vertices);
    lemma_edges_hull_sorted(vertices, p.1);
    let (a, b, c) = sorted_vertices(vertices);
    law_segment_columns_rows(point(a), point(b), p.1);
    law_segment_columns_rows(point(a), point(c), p.1);
    law_segment_columns_rows(point(b), point(c), p.1);
    lemma_segment_columns_bounds(point(a), point(b), p.1);
    lemma_segment_columns_bounds(point(a), point(c), p.1);
    lemma_segment_columns_bounds(point(b), point(c), p.1);
}

/// On each row from the top vertex's row down to the bottom vertex's row,
/// other than the middle vertex's row, and inside the image, the tiling
/// triangle covers what lies between two of its edges that cross the row,
/// and the part of the edge that starts further right past the other edge's
/// end: everything but the edge that starts further left.
pub proof fn law_tiling_fills_between(vertices: [(i32, i32); 3], height: u32, i: int, j: int, p: (int, int))
    requires
        0 <= i < 3,
        0 <= j < 3,
        ({
            let (a, b, c) = sorted_vertices(vertices);
            &&& a.1 <= p.1 <= c.1
            &&& p.1 != b.1
        }),
        0 <= p.1 < as_i32(height),
        between_runs(edge_run(vertices, i, p.1), edge_run(vertices, j, p.1), p.0) || right_run_past(
            edge_run(vertices, i, p.1),
            edge_run(vertices, j, p.1),
            p.0,
        ),
    ensures
        tiling_covers(vertices, height, p),
{
    lemma_sorted_vertices(vertices);
    let (a, b, c) = sorted_vertices(vertices);
    lemma_edge_run_sorted(vertices, i, p.1);
    lemma_edge_run_sorted(vertices, j, p.1);
    law_segment_columns_rows(point(a), point(b), p.1);
    law_segment_columns_rows(point(a), point(c), p.1);
    law_segment_columns_rows(point(b), point(c), p.1);
    if p.1 < b.1 {
        lemma_row_span_cut_covers((a, b), (a, c), p.1, p.0);
    } else {
        lemma_row_span_cut_covers((b, c), (a, c), p.1, p.0);
    }
}

/// On each row from the top vertex's row down to the bottom vertex's row,
/// other than the middle vertex's row, the tiling triangle leaves out the
/// columns of the edge that starts further left: of two edges crossing the
/// row, starting at different columns, it covers nothing before the end of
/// the one that starts first.
pub proof fn law_tiling_leaves_left_edge(vertices: [(i32, i32); 3], height: u32, i: int, j: int, p: (int, int))
    requires
        0 <= i < 3,
        0 <= j < 3,
        ({
            let (a, b, c) = sorted_vertices(vertices);
            &&& a.1 <= p.1 <= c.1
            &&& p.1 != b.1
        }),
        edge_run(vertices, i, p.1) matches Some(left) && edge_run(vertices, j, p.1) matches Some(right) && left.0
            < right.0,
        tiling_covers(vertices, height, p),
    ensures
        edge_run(vertices, i, p.1).unwrap().1 <= p.0,
{
    lemma_sorted_vertices(vertices);
    let (a, b, c) = sorted_vertices(vertices);
    lemma_edge_run_sorted(vertices, i, p.1);
    lemma_edge_run_sorted(vertices, j, p.1);
    law_segment_columns_rows(point(a), point(b), p.1);
    law_segment_columns_rows(point(a), point(c), p.1);
    law_segment_columns_rows(point(b), point(c), p.1);
}

/// On the middle vertex's row, when it lies above the bottom vertex's row
/// and inside the image, the tiling triangle covers what lies between the
/// edges from the top vertex to the middle and to the bottom one, and the
/// part of the one that starts further right past the other's end.
pub proof fn law_tiling_fills_middle_row(vertices: [(i32, i32); 3], height: u32, p: (int, int))
    requires
        ({
            let (a, b, c) = sorted_vertices(vertices);
            let top_middle = segment_columns(point(a), point(b), p.1);
            let top_bottom = segment_columns(point(a), point(c), p.1);
            &&& p.1 == b.1 < c.1
            &&& {
                ||| between_runs(top_middle, top_bottom, p.0)
                ||| between_runs(top_bottom, top_middle, p.0)
                ||| right_run_past(top_middle, top_bottom, p.0)
                ||| right_run_past(top_bottom, top_middle, p.0)
            }
        }),
        0 <= p.1 < as_i32(height),
    ensures
        tiling_covers(vertices, height, p),
{
    lemma_sorted_vertices(vertices);
    let (a, b, c) = sorted_vertices(vertices);
    lemma_row_span_cut_covers((a, b), (a, c), p.1, p.0);
}

/// A tiling triangle whose vertices all lie on one row covers, on that row,
/// the columns its edges cover but the last one, which a neighbour to the
/// right may draw; it covers nothing on other rows.
pub proof fn law_tiling_flat(vertices: [(i32, i32); 3], height: u32, p: (int, int))
    requires
        vertices[0].1 == vertices[1].1,
        vertices[1].1 == vertices[2].1,
    ensures
        tiling_covers(vertices, height, p) == (edges_hull(vertices, p.1) matches Some(hull) && hull.0 <= p.0 < hull.1
            - 1),
{
    lemma_sorted_vertices(vertices);
    let (u, v, w) = (point(vertices[0]), point(vertices[1]), point(vertices[2]));
    law_segment_columns_rows(u, v, p.1);
    law_segment_columns_rows(v, w, p.1);
    law_segment_columns_rows(u, w, p.1);
}

/// The tiling triangle covers no more than the overlapping triangle with the
/// same vertices: every position it covers on a row of the overlapping
/// triangle's zone, the overlapping triangle covers too.
pub proof fn law_tiling_within_overlapping(vertices: [(i32, i32); 3], origin_y: int, height: u32, p: (int, int))
    requires
        tiling_covers(vertices, height, p),
        origin_y <= p.1 < as_i32(height),
    ensures
        overlapping_covers(vertices, origin_y, height, p),
{
    law_tiling_rows(vertices, height, p);
    law_overlapping_rows(vertices, origin_y, height, p);
}

/// The tiling triangle leaves everything outside its bounding box alone.
pub proof fn law_tiling_in_bounding_box(vertices: [(i32, i32); 3], height: u32, p: (int, int))
    requires
        tiling_covers(vertices, height, p),
    ensures
        in_bounding_box(vertices, p),
{
    lemma_sorted_vertices(vertices);
    lemma_spans_in_box(vertices, p);
}

/// What [`TilingTriangle`] asks of a painter and what it draws, as its [`Operation`]
/// impl states: callers whose closure types keep the impl from being picked
/// at the call site learn both from here.
pub proof fn lemma_tiling_triangle_contract<T, P>(op: TilingTriangle<P>)
    where
        T: ImageMut<P>,
        P: Strategy<T::Pixel>,
    ensures
        forall|before: Painter<T>| #[trigger] op.spec_can_draw(before) == {
            &&& op.spec_value().ready()
            &&& below_max(op.spec_vertices())
        },
        forall|before: Painter<T>, after: Painter<T>| #[trigger] op.spec_draws(before, after) == {
            painted(
                before,
                after,
                |p: (int, int)| tiling_covers(op.spec_vertices(), before.spec_target().spec_dimensions().1, p),
                strategy_change(op.spec_value()),
            )
        },
{
}

impl<T, P> Operation<T> for TilingTriangle<P> where T: ImageMut<P>, P: Strategy<T::Pixel> {
    type Output = ();

    open spec fn spec_can_draw(&self, painter: Painter<T>) -> bool {
        &&& self.spec_value().ready()
        &&& below_max(self.spec_vertices())
    }

    open spec fn spec_draws(&self, before: Painter<T>, after: Painter<T>) -> bool {
        painted(
            before,
            after,
            |p: (int, int)| tiling_covers(self.spec_vertices(), before.spec_target().spec_dimensions().1, p),
            strategy_change(self.spec_value()),
        )
    }

    fn draw_on(self, region: &mut DrawRegion<'_, T>) -> (output: ()) {
        let (_, height) = region.dimensions();
        let ghost before = region.spec_painter();
        let ghost change = strategy_change(self.value);
        let ghost covers = |p: (int, int)| tiling_covers(self.vertices, height, p);

        let bounding_y = vertical_bounds_of(&self.vertices);
        let bounding_y = clamp_range(bounding_y, 0, to_i32(height));
        assert(self.vertices[0].0 < i32::MAX && self.vertices[0].1 < i32::MAX);
        assert(self.vertices[1].0 < i32::MAX && self.vertices[1].1 < i32::MAX);
        assert(self.vertices[2].0 < i32::MAX && self.vertices[2].1 < i32::MAX);

        // Sort vertices by the y value.
        let (vertex_a, vertex_b) = swap_if(self.vertices[0].1 > self.vertices[1].1, (self.vertices[0], self.vertices[1]));
        let (vertex_b, vertex_c) = swap_if(vertex_b.1 > self.vertices[2].1, (vertex_b, self.vertices[2]));
        let (vertex_a, vertex_b) = swap_if(vertex_a.1 > vertex_b.1, (vertex_a, vertex_b));
        assert((vertex_a, vertex_b, vertex_c) == sorted_vertices(self.vertices));

        if vertex_a.1 == vertex_c.1 {
            // We are on a horizontal line.
            fill_flat(region, (vertex_a, vertex_b, vertex_c), false, &self.value);
        } else {
            let ghost mid = region.spec_painter();
            // Iterate from the top point to the middle point.
            let ghost top = clamped((vertex_a.1 as int, vertex_b.1 + 1), bounding_y.start as int, bounding_y.end as int);
            let ghost top_covers = |p: (int, int)| band_covers(top, (vertex_a, vertex_b), (vertex_a, vertex_c), true, p);
            let scan = clamp_range(vertex_a.1..vertex_b.1 + 1, bounding_y.start, bounding_y.end);
            fill_rows(region, scan, (vertex_a, vertex_b), (vertex_a, vertex_c), true, &self.value);
            let ghost after_top = region.spec_painter();

            // Iterate from the middle point to the end.
            let ghost bottom = clamped((vertex_b.1 + 1, vertex_c.1 + 1), bounding_y.start as int, bounding_y.end + 1);
            let ghost bottom_covers = |p: (int, int)| band_covers(bottom, (vertex_b, vertex_c), (vertex_a, vertex_c), true, p);
            let scan = clamp_range(vertex_b.1 + 1..vertex_c.1 + 1, bounding_y.start, bounding_y.end + 1);
            fill_rows(region, scan, (vertex_b, vertex_c), (vertex_a, vertex_c), true, &self.value);
            proof {
                lemma_painted_union(
                    mid,
                    after_top,
                    region.spec_painter(),
                    top_covers,
                    bottom_covers,
                    |p: (int, int)| top_covers(p) || bottom_covers(p),
                    change,
                );
            }
        }
        proof {
            let (a, b, c) = (vertex_a, vertex_b, vertex_c);
            let bounds = range_of(bounding_y);
            let split = |p: (int, int)| if a.1 == c.1 {
                p.1 == a.1 && min3(a.0 as int, b.0 as int, c.0 as int) <= p.0 < max3(a.0 as int, b.0 as int, c.0 as int)
            } else {
                ||| band_covers(clamped((a.1 as int, b.1 + 1), bounds.0, bounds.1), (a, b), (a, c), true, p)
                ||| band_covers(clamped((b.1 + 1, c.1 + 1), bounds.0, bounds.1 + 1), (b, c), (a, c), true, p)
            };
            assert forall|q: (u32, u32)| #[trigger] split(drawing_position(before.spec_offset(), q)) == covers(drawing_position(before.spec_offset(), q)) by {
            }
            lemma_painted_same(before, region.spec_painter(), split, covers, change);
        }
    }
}

} // verus!
