//! Filled triangles.
//!
//! A triangle is filled row by row: its vertices are sorted from top to
//! bottom, and each row is filled between the edges that cross it.
use vstd::prelude::*;

use core::ops::Range;

use crate::image::{Dimensions, Image, ImageMut};
use crate::operation::scanline::{
    coordinates, lemma_segment_columns_bounds, line_scan, max_int, merge_ranges, merged, min_int, point,
    range_of, segment_columns,
};
use crate::painter::{
    drawing_position, lemma_painted_nothing, lemma_painted_same, lemma_painted_union, line_reaches,
    painted, strategy_change, DrawRegion,
};
use crate::strategy::Strategy;

pub mod overlapping;
pub mod tiling;

verus! {

/// The vertices ordered from top to bottom by three conditional swaps.
pub open spec fn sorted_vertices(vertices: [(i32, i32); 3]) -> ((i32, i32), (i32, i32), (i32, i32)) {
    let (a, b) = if vertices[0].1 > vertices[1].1 {
        (vertices[1], vertices[0])
    } else {
        (vertices[0], vertices[1])
    };
    let (b, c) = if b.1 > vertices[2].1 {
        (vertices[2], b)
    } else {
        (b, vertices[2])
    };
    let (a, b) = if a.1 > b.1 {
        (b, a)
    } else {
        (a, b)
    };
    (a, b, c)
}

/// The least of three integers.
pub open spec fn min3(a: int, b: int, c: int) -> int {
    min_int(min_int(a, b), c)
}

/// The greatest of three integers.
pub open spec fn max3(a: int, b: int, c: int) -> int {
    max_int(max_int(a, b), c)
}

/// The columns filled on row `y` between the edge from `edge.0` to `edge.1`
/// and the edge from `long.0` to `long.1`: from the leftmost to the rightmost
/// column they cover. With `cut`, the columns of the edge that starts
/// further left are left out.
pub open spec fn row_span(
    edge: ((i32, i32), (i32, i32)),
    long: ((i32, i32), (i32, i32)),
    y: int,
    cut: bool,
) -> Option<(int, int)> {
    match (segment_columns(point(edge.0), point(edge.1), y), segment_columns(point(long.0), point(long.1), y)) {
        (Some(first), Some(second)) => {
            let span = merged(first, second);
            if cut {
                let left = if first.0 < second.0 {
                    first.1
                } else {
                    second.1
                };
                Some((max_int(span.0, left), span.1))
            } else {
                Some(span)
            }
        },
        _ => None,
    }
}

/// Whether the drawing position `p` lies on one of `rows` and within the
/// span filled on its row.
pub open spec fn band_covers(
    rows: (int, int),
    edge: ((i32, i32), (i32, i32)),
    long: ((i32, i32), (i32, i32)),
    cut: bool,
    p: (int, int),
) -> bool {
    &&& rows.0 <= p.1 < rows.1
    &&& row_span(edge, long, p.1, cut) matches Some(span) && span.0 <= p.0 < span.1
}

/// The smallest span holding both spans, where there are any.
pub open spec fn merge_option(first: Option<(int, int)>, second: Option<(int, int)>) -> Option<(int, int)> {
    match (first, second) {
        (Some(first), Some(second)) => Some(merged(first, second)),
        (Some(first), None) => Some(first),
        (None, Some(second)) => Some(second),
        (None, None) => None,
    }
}

/// The columns from the leftmost to the rightmost one that the triangle's
/// three edges, drawn as lines between its vertices, cover on row `y`;
/// `None` when no edge crosses the row.
pub open spec fn edges_hull(vertices: [(i32, i32); 3], y: int) -> Option<(int, int)> {
    let (u, v, w) = (point(vertices[0]), point(vertices[1]), point(vertices[2]));
    merge_option(merge_option(segment_columns(u, v, y), segment_columns(v, w, y)), segment_columns(u, w, y))
}

/// The hull of the edges on a row, written with the vertices sorted from top
/// to bottom: the edges from the top vertex to the middle one, from the top
/// vertex to the bottom one, and from the middle vertex to the bottom one.
pub proof fn lemma_edges_hull_sorted(vertices: [(i32, i32); 3], y: int)
    ensures
        ({
            let (a, b, c) = sorted_vertices(vertices);
            edges_hull(vertices, y) == merge_option(
                merge_option(
                    segment_columns(point(a), point(b), y),
                    segment_columns(point(a), point(c), y),
                ),
                segment_columns(point(b), point(c), y),
            )
        }),
{
    let (u, v, w) = (point(vertices[0]), point(vertices[1]), point(vertices[2]));
    crate::operation::scanline::law_segment_columns_symmetric(u, v, y);
    crate::operation::scanline::law_segment_columns_symmetric(v, w, y);
    crate::operation::scanline::law_segment_columns_symmetric(u, w, y);
}

/// The columns that edge `i` of the triangle covers on row `y`: edge 0 joins
/// the first and second vertex, edge 1 the second and third, edge 2 the
/// first and third.
pub open spec fn edge_run(vertices: [(i32, i32); 3], i: int, y: int) -> Option<(int, int)> {
    let (u, v, w) = (point(vertices[0]), point(vertices[1]), point(vertices[2]));
    if i == 0 {
        segment_columns(u, v, y)
    } else if i == 1 {
        segment_columns(v, w, y)
    } else {
        segment_columns(u, w, y)
    }
}

/// Whether column `x` lies strictly between two runs of columns on a row:
/// at or after the end of the first and before the start of the second.
pub open spec fn between_runs(first: Option<(int, int)>, second: Option<(int, int)>, x: int) -> bool {
    &&& first matches Some(left) && second matches Some(right) && left.1 <= x < right.0
}

/// Whether column `x` lies in the second run, which starts strictly further
/// right than the first, and at or after the first run's end.
pub open spec fn right_run_past(first: Option<(int, int)>, second: Option<(int, int)>, x: int) -> bool {
    &&& first matches Some(left) && second matches Some(right) && left.0 < right.0 && left.1 <= x && right.0 <= x
        < right.1
}

/// Whether `x` lies in `span`, if there is one.
pub open spec fn in_span(span: Option<(int, int)>, x: int) -> bool {
    span matches Some(columns) && columns.0 <= x < columns.1
}

/// Each edge of the triangle, on any row, covers the columns of one of the
/// edges between the sorted vertices.
pub proof fn lemma_edge_run_sorted(vertices: [(i32, i32); 3], i: int, y: int)
    requires
        0 <= i < 3,
    ensures
        ({
            let (a, b, c) = sorted_vertices(vertices);
            let run = edge_run(vertices, i, y);
            ||| run == segment_columns(point(a), point(b), y)
            ||| run == segment_columns(point(a), point(c), y)
            ||| run == segment_columns(point(b), point(c), y)
        }),
{
    let (u, v, w) = (point(vertices[0]), point(vertices[1]), point(vertices[2]));
    crate::operation::scanline::law_segment_columns_symmetric(u, v, y);
    crate::operation::scanline::law_segment_columns_symmetric(v, w, y);
    crate::operation::scanline::law_segment_columns_symmetric(u, w, y);
}

/// A row cut at the end of the edge that starts further left still holds
/// every column between the two edges, and every column of the edge that
/// starts further right past the other edge's end.
pub proof fn lemma_row_span_cut_covers(
    edge: ((i32, i32), (i32, i32)),
    long: ((i32, i32), (i32, i32)),
    y: int,
    x: int,
)
    ensures
        ({
            let first = segment_columns(point(edge.0), point(edge.1), y);
            let second = segment_columns(point(long.0), point(long.1), y);
            ||| between_runs(first, second, x)
            ||| between_runs(second, first, x)
            ||| right_run_past(first, second, x)
            ||| right_run_past(second, first, x)
        }) ==> in_span(row_span(edge, long, y, true), x),
{
    lemma_segment_columns_bounds(point(edge.0), point(edge.1), y);
    lemma_segment_columns_bounds(point(long.0), point(long.1), y);
}

/// Whether `p` lies in the smallest box, edges included, that holds the
/// three vertices.
pub open spec fn in_bounding_box(vertices: [(i32, i32); 3], p: (int, int)) -> bool {
    &&& min3(vertices[0].0 as int, vertices[1].0 as int, vertices[2].0 as int) <= p.0
    &&& p.0 <= max3(vertices[0].0 as int, vertices[1].0 as int, vertices[2].0 as int)
    &&& min3(vertices[0].1 as int, vertices[1].1 as int, vertices[2].1 as int) <= p.1
    &&& p.1 <= max3(vertices[0].1 as int, vertices[1].1 as int, vertices[2].1 as int)
}

/// The columns that the edges of a triangle cover on a row lie in the
/// triangle's bounding box.
pub proof fn lemma_spans_in_box(vertices: [(i32, i32); 3], p: (int, int))
    ensures
        ({
            let (a, b, c) = sorted_vertices(vertices);
            &&& in_span(row_span((a, b), (a, c), p.1, false), p.0) ==> in_bounding_box(vertices, p)
            &&& in_span(row_span((b, c), (a, c), p.1, false), p.0) ==> in_bounding_box(vertices, p)
            &&& in_span(row_span((a, b), (a, c), p.1, true), p.0) ==> in_bounding_box(vertices, p)
            &&& in_span(row_span((b, c), (a, c), p.1, true), p.0) ==> in_bounding_box(vertices, p)
            &&& in_span(segment_columns(point(b), point(c), p.1), p.0) ==> in_bounding_box(vertices, p)
        }),
{
    let (a, b, c) = sorted_vertices(vertices);
    lemma_segment_columns_bounds(point(a), point(b), p.1);
    lemma_segment_columns_bounds(point(a), point(c), p.1);
    lemma_segment_columns_bounds(point(b), point(c), p.1);
    crate::operation::scanline::law_segment_columns_rows(point(a), point(b), p.1);
    crate::operation::scanline::law_segment_columns_rows(point(a), point(c), p.1);
    crate::operation::scanline::law_segment_columns_rows(point(b), point(c), p.1);
}

/// The rows from the topmost to the bottommost vertex (exclusive).
pub open spec fn vertical_bounds(vertices: [(i32, i32); 3]) -> (int, int) {
    (
        min3(vertices[0].1 as int, vertices[1].1 as int, vertices[2].1 as int),
        max3(vertices[0].1 as int, vertices[1].1 as int, vertices[2].1 as int),
    )
}

/// The rows from the topmost to the bottommost vertex (exclusive).
pub(crate) fn vertical_bounds_of(vertices: &[(i32, i32); 3]) -> (bounds: Range<i32>)
    ensures
        range_of(bounds) == vertical_bounds(*vertices),
{
    let bounding_box = crate::operation::scanline::estimate_bounding_box(vertices);
    match bounding_box {
        Some((_, bounds)) => {
            proof {
                let ys = coordinates(vertices@, true);
                assert(ys[0] == vertices[0].1 && ys[1] == vertices[1].1 && ys[2] == vertices[2].1);
                assert(ys.len() == 3);
            }
            bounds
        },
        None => 0..0,
    }
}

/// Fill `rows` between the edges `edge` and `long`.
pub(crate) fn fill_rows<T, P>(
    region: &mut DrawRegion<'_, T>,
    rows: Range<i32>,
    edge: ((i32, i32), (i32, i32)),
    long: ((i32, i32), (i32, i32)),
    cut: bool,
    value: &P,
)
    where
        T: ImageMut<P>,
        P: Strategy<T::Pixel>,
    requires
        value.ready(),
        edge.0.0 < i32::MAX,
        edge.1.0 < i32::MAX,
        long.0.0 < i32::MAX,
        long.1.0 < i32::MAX,
    ensures
        *final(final(region).painter) == *final(old(region).painter),
        painted(
            old(region).spec_painter(),
            final(region).spec_painter(),
            |p: (int, int)| band_covers(range_of(rows), edge, long, cut, p),
            strategy_change(*value),
        ),
{
    let ghost before = region.spec_painter();
    let ghost offset = before.spec_offset();
    let ghost change = strategy_change(*value);
    let ghost covers = |p: (int, int)| band_covers(range_of(rows), edge, long, cut, p);
    let mut y = rows.start;
    proof {
        lemma_painted_nothing(before, |p: (int, int)| covers(p) && p.1 < y, change);
    }
    while y < rows.end
        invariant
            rows.start <= y,
            y <= rows.end || y == rows.start,
            value.ready(),
            edge.0.0 < i32::MAX,
            edge.1.0 < i32::MAX,
            long.0.0 < i32::MAX,
            long.1.0 < i32::MAX,
            change == strategy_change(*value),
            covers == (|p: (int, int)| band_covers(range_of(rows), edge, long, cut, p)),
            offset == before.spec_offset(),
            *final(region.painter) == *final(old(region).painter),
            before == old(region).spec_painter(),
            painted(before, region.spec_painter(), |p: (int, int)| covers(p) && p.1 < y, change),
        decreases rows.end - y,
    {
        let ghost middle = region.spec_painter();
        proof {
            lemma_segment_columns_bounds(point(edge.0), point(edge.1), y as int);
            lemma_segment_columns_bounds(point(long.0), point(long.1), y as int);
        }
        let first = line_scan(edge.0, edge.1, y);
        let second = line_scan(long.0, long.1, y);
        match (first, second) {
            (Some(first), Some(second)) => {
                let left = if first.start < second.start { first.end } else { second.end };
                let span = merge_ranges(first, second);
                let span = if cut {
                    crate::operation::scanline::cut_from_left(span, left)
                } else {
                    span
                };
                let ghost columns = range_of(span);
                region.horizontal_line(span, y, value);
                proof {
                    let row = |p: (int, int)| p.1 == y && line_reaches(columns.0, columns.1, offset.0 as int, p.0);
                    assert forall|q: (u32, u32)| {
                        let p = #[trigger] drawing_position(before.spec_offset(), q);
                        &&& !((covers(p) && p.1 < y) && row(p))
                        &&& (covers(p) && p.1 < y + 1) == ((covers(p) && p.1 < y) || row(p))
                    } by {
                        let p = drawing_position(before.spec_offset(), q);
                    }
                    lemma_painted_union(
                        before,
                        middle,
                        region.spec_painter(),
                        |p: (int, int)| covers(p) && p.1 < y,
                        row,
                        |p: (int, int)| covers(p) && p.1 < y + 1,
                        change,
                    );
                }
            },
            _ => {
                proof {
                    lemma_painted_same(
                        before,
                        region.spec_painter(),
                        |p: (int, int)| covers(p) && p.1 < y,
                        |p: (int, int)| covers(p) && p.1 < y + 1,
                        change,
                    );
                }
            },
        }
        y = y + 1;
    }
    proof {
        lemma_painted_same(before, region.spec_painter(), |p: (int, int)| covers(p) && p.1 < y, covers, change);
    }
}

/// The end (exclusive) of the row a flat triangle fills: the rightmost
/// vertex's column, moved one further when that column is `included`.
pub open spec fn flat_end(vertices: ((i32, i32), (i32, i32), (i32, i32)), included: bool) -> int {
    let (a, b, c) = vertices;
    max3(a.0 as int, b.0 as int, c.0 as int) + if included { 1int } else { 0int }
}

/// Fill the row of a triangle whose vertices share one row, from the
/// leftmost vertex up to the rightmost one, which is `included` or not.
pub(crate) fn fill_flat<T, P>(
    region: &mut DrawRegion<'_, T>,
    vertices: ((i32, i32), (i32, i32), (i32, i32)),
    included: bool,
    value: &P,
)
    where
        T: ImageMut<P>,
        P: Strategy<T::Pixel>,
    requires
        value.ready(),
        vertices.0.0 < i32::MAX,
        vertices.1.0 < i32::MAX,
        vertices.2.0 < i32::MAX,
    ensures
        *final(final(region).painter) == *final(old(region).painter),
        ({
            let (a, b, c) = vertices;
            painted(
                old(region).spec_painter(),
                final(region).spec_painter(),
                |p: (int, int)| p.1 == a.1 && min3(a.0 as int, b.0 as int, c.0 as int) <= p.0 < flat_end(vertices, included),
                strategy_change(*value),
            )
        }),
{
    let ghost before = region.spec_painter();
    let ghost offset = before.spec_offset();
    let (vertex_a, vertex_b, vertex_c) = vertices;
    let start = min_i32(min_i32(vertex_a.0, vertex_b.0), vertex_c.0);
    let end = max_i32(max_i32(vertex_a.0, vertex_b.0), vertex_c.0);
    let end = if included { end + 1 } else { end };
    region.horizontal_line(start..end, vertex_a.1, value);
    proof {
        assert forall|q: (u32, u32)| {
            let p = #[trigger] drawing_position(before.spec_offset(), q);
            (p.1 == vertex_a.1 && line_reaches(start as int, end as int, offset.0 as int, p.0)) == (p.1 == vertex_a.1
                && min3(vertex_a.0 as int, vertex_b.0 as int, vertex_c.0 as int) <= p.0 < flat_end(vertices, included))
        } by {
            let p = drawing_position(before.spec_offset(), q);
        }
        lemma_painted_same(
            before,
            region.spec_painter(),
            |p: (int, int)| p.1 == vertex_a.1 && line_reaches(start as int, end as int, offset.0 as int, p.0),
            |p: (int, int)|
                p.1 == vertex_a.1 && min3(vertex_a.0 as int, vertex_b.0 as int, vertex_c.0 as int) <= p.0 < flat_end(
                    vertices,
                    included,
                ),
            strategy_change(*value),
        );
    }
}

pub(crate) fn min_i32(a: i32, b: i32) -> (r: i32)
    ensures
        r == if a <= b { a } else { b },
{
    if a <= b { a } else { b }
}

pub(crate) fn max_i32(a: i32, b: i32) -> (r: i32)
    ensures
        r == if a >= b { a } else { b },
{
    if a >= b { a } else { b }
}

} // verus!
