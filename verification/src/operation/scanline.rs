//! Scanline helpers: the pixels a straight line covers on one row, and range
//! arithmetic.
use vstd::prelude::*;

use core::ops::Range;

pub mod line;
pub mod rectangle;
pub mod triangle;

verus! {

/// The start and the (exclusive) end of `range` as a pair of integers.
pub open spec fn range_of(range: Range<i32>) -> (int, int) {
    (range.start as int, range.end as int)
}

/// The smaller of two integers.
pub open spec fn min_int(a: int, b: int) -> int {
    if a <= b {
        a
    } else {
        b
    }
}

/// The larger of two integers.
pub open spec fn max_int(a: int, b: int) -> int {
    if a >= b {
        a
    } else {
        b
    }
}

/// The range from the smaller start to the larger end of two ranges.
pub open spec fn merged(first: (int, int), second: (int, int)) -> (int, int) {
    (min_int(first.0, second.0), max_int(first.1, second.1))
}

/// `range` cut to start no earlier than `start` and end no later than `end`.
pub open spec fn clamped(range: (int, int), start: int, end: int) -> (int, int) {
    (max_int(range.0, start), min_int(range.1, end))
}

/// Merge two ranges into the range from the smaller start to the larger end.
pub fn merge_ranges(first: Range<i32>, second: Range<i32>) -> (merged_range: Range<i32>)
    ensures
        range_of(merged_range) == merged(range_of(first), range_of(second)),
{
    let start = if first.start <= second.start { first.start } else { second.start };
    let end = if first.end >= second.end { first.end } else { second.end };
    start..end
}

/// Cut `range` to start no earlier than `start` and end no later than `end`.
pub fn clamp_range(range: Range<i32>, start: i32, end: i32) -> (clamped_range: Range<i32>)
    ensures
        range_of(clamped_range) == clamped(range_of(range), start as int, end as int),
{
    let start = if range.start >= start { range.start } else { start };
    let end = if range.end <= end { range.end } else { end };
    start..end
}

/// The end (exclusive) of the rows or columns of a draw zone that starts at
/// `origin` and spans `length`, kept no greater than `i32::MAX`.
pub open spec fn zone_end(origin: int, length: int) -> int {
    min_int(origin + length, i32::MAX as int)
}

/// The end of a draw zone, as [`zone_end`] describes it.
pub fn zone_end_of(origin: i32, length: u32) -> (end: i32)
    ensures
        end == zone_end(origin as int, length as int),
{
    let end = origin as i64 + length as i64;
    if end < i32::MAX as i64 {
        end as i32
    } else {
        i32::MAX
    }
}

/// Cut `range` to start no earlier than `start`.
pub fn cut_from_left(range: Range<i32>, start: i32) -> (cut: Range<i32>)
    ensures
        range_of(cut) == (max_int(range.start as int, start as int), range.end as int),
{
    let start = if range.start >= start { range.start } else { start };
    start..range.end
}

/// Whether `(low, high)` are the least and the greatest of `values`.
pub open spec fn extremes(values: Seq<int>, low: int, high: int) -> bool {
    &&& exists|i: int| 0 <= i < values.len() && values[i] == low
    &&& exists|i: int| 0 <= i < values.len() && values[i] == high
    &&& forall|i: int| 0 <= i < values.len() ==> low <= #[trigger] values[i] <= high
}

/// The horizontal and vertical coordinates of `vertices`.
pub open spec fn coordinates(vertices: Seq<(i32, i32)>, vertical: bool) -> Seq<int> {
    vertices.map_values(|v: (i32, i32)| if vertical { v.1 as int } else { v.0 as int })
}

/// The ranges from the least to the greatest horizontal and vertical
/// coordinate of `vertices`, each range ending at the greatest coordinate
/// itself; `None` when there are no vertices.
pub fn estimate_bounding_box(vertices: &[(i32, i32)]) -> (bounding_box: Option<(Range<i32>, Range<i32>)>)
    ensures
        bounding_box is None <==> vertices@.len() == 0,
        bounding_box matches Some((x, y)) ==> {
            &&& extremes(coordinates(vertices@, false), x.start as int, x.end as int)
            &&& extremes(coordinates(vertices@, true), y.start as int, y.end as int)
        },
{
    if vertices.len() == 0 {
        return None;
    }
    let ghost xs = coordinates(vertices@, false);
    let ghost ys = coordinates(vertices@, true);
    let (mut min_x, mut min_y) = vertices[0];
    let (mut max_x, mut max_y) = vertices[0];
    let ghost mut at_min_x: int = 0;
    let ghost mut at_max_x: int = 0;
    let ghost mut at_min_y: int = 0;
    let ghost mut at_max_y: int = 0;
    let mut i: usize = 1;
    while i < vertices.len()
        invariant
            1 <= i <= vertices@.len(),
            xs == coordinates(vertices@, false),
            ys == coordinates(vertices@, true),
            0 <= at_min_x < i && xs[at_min_x] == min_x,
            0 <= at_max_x < i && xs[at_max_x] == max_x,
            0 <= at_min_y < i && ys[at_min_y] == min_y,
            0 <= at_max_y < i && ys[at_max_y] == max_y,
            forall|j: int| 0 <= j < i ==> min_x <= #[trigger] xs[j] <= max_x,
            forall|j: int| 0 <= j < i ==> min_y <= #[trigger] ys[j] <= max_y,
        decreases vertices@.len() - i,
    {
        let (x, y) = vertices[i];
        if x < min_x {
            min_x = x;
            proof { at_min_x = i as int; }
        }
        if x > max_x {
            max_x = x;
            proof { at_max_x = i as int; }
        }
        if y < min_y {
            min_y = y;
            proof { at_min_y = i as int; }
        }
        if y > max_y {
            max_y = y;
            proof { at_max_y = i as int; }
        }
        i = i + 1;
    }
    Some((min_x..max_x, min_y..max_y))
}

/// The sign of `value`: -1, 0 or 1.
pub open spec fn sign(value: int) -> int {
    if value > 0 {
        1
    } else if value < 0 {
        -1
    } else {
        0
    }
}

/// The absolute value of `value`.
pub open spec fn abs(value: int) -> int {
    if value < 0 {
        -value
    } else {
        value
    }
}

/// The quotient of `a` by a positive `b`, rounded toward zero.
pub open spec fn div_trunc(a: int, b: int) -> int {
    if a >= 0 {
        a / b
    } else {
        -((-a) / b)
    }
}

/// The endpoints of a segment ordered from top to bottom.
pub open spec fn top_down(start: (int, int), end: (int, int)) -> ((int, int), (int, int)) {
    if start.1 > end.1 {
        (end, start)
    } else {
        (start, end)
    }
}

/// The columns that the segment from `start` to `end` covers on row `scan`,
/// as a half-open range; `None` when the row is above or below the segment.
///
/// A horizontal segment covers every column between its endpoints. A steep
/// segment covers one column per row. A flat segment covers, on each row, the
/// columns between the points where it enters and leaves the row.
pub open spec fn segment_columns(start: (int, int), end: (int, int), scan: int) -> Option<(int, int)> {
    let (start, end) = top_down(start, end);
    if scan < start.1 || scan > end.1 {
        None
    } else {
        let delta_x = end.0 - start.0;
        let delta_y = end.1 - start.1;
        if delta_y == 0 {
            Some((min_int(start.0, end.0), max_int(start.0, end.0) + 1))
        } else {
            let x_points = delta_x + sign(delta_x);
            let y_points = delta_y + 1;
            if abs(delta_x) <= delta_y {
                let x = start.0 + div_trunc(x_points * (scan - start.1), y_points);
                Some((x, x + 1))
            } else {
                let first = start.0 + div_trunc((scan - start.1) * x_points, y_points);
                let second = start.0 + div_trunc((scan - start.1 + 1) * x_points, y_points) - sign(delta_x);
                Some((min_int(first, second), max_int(first, second) + 1))
            }
        }
    }
}

/// The pair of `i32` coordinates as integers.
pub open spec fn point(p: (i32, i32)) -> (int, int) {
    (p.0 as int, p.1 as int)
}

/// Whether the columns that `line_scan` finds on row `scan` can be told as
/// an `i32` range.
pub open spec fn scan_fits(start: (i32, i32), end: (i32, i32), scan: i32) -> bool {
    segment_columns(point(start), point(end), scan as int) matches Some(columns) ==> columns.1 <= i32::MAX
}

/// A quotient rounded toward zero is no larger in size than `m` when the
/// dividend is smaller in size than `(m + 1)` divisors, and it has the sign of
/// the dividend.
proof fn lemma_div_trunc_bound(n: int, d: int, m: int)
    requires
        d > 0,
        m >= 0,
        abs(n) < (m + 1) * d,
    ensures
        abs(div_trunc(n, d)) <= m,
        n >= 0 ==> div_trunc(n, d) >= 0,
        n <= 0 ==> div_trunc(n, d) <= 0,
        abs(n) >= d ==> abs(div_trunc(n, d)) >= 1,
{
    let a = abs(n);
    assert(a / d <= m) by (nonlinear_arith)
        requires
            d > 0,
            m >= 0,
            0 <= a < (m + 1) * d,
    ;
    assert(a / d >= 0) by (nonlinear_arith)
        requires
            d > 0,
            0 <= a,
    ;
    assert(a >= d ==> a / d >= 1) by (nonlinear_arith)
        requires
            d > 0,
            0 <= a,
    ;
}

/// Where `line_scan` finds columns, they lie between the endpoints' columns,
/// and the range is not empty.
pub proof fn lemma_segment_columns_bounds(start: (int, int), end: (int, int), scan: int)
    ensures
        segment_columns(start, end, scan) matches Some(columns) ==> {
            &&& min_int(start.0, end.0) <= columns.0 < columns.1
            &&& columns.1 <= max_int(start.0, end.0) + 1
        },
{
    let (s, e) = top_down(start, end);
    if scan < s.1 || scan > e.1 {
        return;
    }
    let delta_x = e.0 - s.0;
    let delta_y = e.1 - s.1;
    if delta_y == 0 {
        return;
    }
    let x_points = delta_x + sign(delta_x);
    let y_points = delta_y + 1;
    let k = scan - s.1;
    assert(0 <= k <= delta_y);
    if abs(delta_x) <= delta_y {
        let n = x_points * k;
        assert(abs(n) == abs(x_points) * k) by (nonlinear_arith)
            requires
                n == x_points * k,
                k >= 0,
        ;
        let ax = abs(x_points);
        let an = abs(n);
        let adx = abs(delta_x);
        assert(an <= (adx + 1) * k) by (nonlinear_arith)
            requires
                0 <= ax <= adx + 1,
                an == ax * k,
                0 <= k,
        ;
        assert((adx + 1) * k < (adx + 1) * y_points) by (nonlinear_arith)
            requires
                0 <= adx,
                0 <= k < y_points,
        ;
        lemma_div_trunc_bound(n, y_points, abs(delta_x));
        assert(delta_x >= 0 ==> n >= 0) by (nonlinear_arith)
            requires
                n == x_points * k,
                k >= 0,
                delta_x >= 0 ==> x_points >= 0,
        ;
        assert(delta_x <= 0 ==> n <= 0) by (nonlinear_arith)
            requires
                n == x_points * k,
                k >= 0,
                delta_x <= 0 ==> x_points <= 0,
        ;
    } else {
        let n1 = k * x_points;
        let n2 = (k + 1) * x_points;
        assert(abs(n1) == k * abs(x_points)) by (nonlinear_arith)
            requires
                n1 == k * x_points,
                k >= 0,
        ;
        assert(abs(n2) == (k + 1) * abs(x_points)) by (nonlinear_arith)
            requires
                n2 == (k + 1) * x_points,
                k >= 0,
        ;
        assert(k * abs(x_points) < abs(x_points) * y_points) by (nonlinear_arith)
            requires
                0 <= k < y_points,
                abs(x_points) > 0,
        ;
        assert((k + 1) * abs(x_points) <= abs(x_points) * y_points) by (nonlinear_arith)
            requires
                0 <= k + 1 <= y_points,
                abs(x_points) > 0,
        ;
        assert((k + 1) * abs(x_points) >= y_points) by (nonlinear_arith)
            requires
                k + 1 >= 1,
                abs(x_points) > y_points,
        ;
        assert(abs(x_points) * y_points < (abs(x_points) + 1) * y_points) by (nonlinear_arith)
            requires
                y_points > 0,
        ;
        lemma_div_trunc_bound(n1, y_points, abs(delta_x));
        lemma_div_trunc_bound(n2, y_points, abs(x_points));
        assert(delta_x > 0 ==> n1 >= 0 && n2 >= 0) by (nonlinear_arith)
            requires
                n1 == k * x_points,
                n2 == (k + 1) * x_points,
                k >= 0,
                delta_x > 0 ==> x_points > 0,
        ;
        assert(delta_x < 0 ==> n1 <= 0 && n2 <= 0) by (nonlinear_arith)
            requires
                n1 == k * x_points,
                n2 == (k + 1) * x_points,
                k >= 0,
                delta_x < 0 ==> x_points < 0,
        ;
    }
}

/// Find the columns that the segment from `start` to `end` covers on row
/// `scan`.
pub fn line_scan(start: (i32, i32), end: (i32, i32), scan: i32) -> (columns: Option<Range<i32>>)
    requires
        scan_fits(start, end, scan),
    ensures
        match columns {
            Some(range) => segment_columns(point(start), point(end), scan as int) == Some(range_of(range)),
            None => segment_columns(point(start), point(end), scan as int) is None,
        },
{
    proof {
        lemma_segment_columns_bounds(point(start), point(end), scan as int);
    }
    let ghost expected = segment_columns(point(start), point(end), scan as int);
    // Sort to make the line go from "top" to "bottom".
    let (top, bottom) = if start.1 > end.1 { (end, start) } else { (start, end) };

    // Early return if scan is outside of line bounds.
    if scan < top.1 || scan > bottom.1 {
        return None;
    }
    let delta_x = bottom.0 as i128 - top.0 as i128;
    let delta_y = bottom.1 as i128 - top.1 as i128;

    // Early return if line is horizontal.
    if delta_y == 0 {
        let (low, high) = if top.0 > bottom.0 { (bottom.0, top.0) } else { (top.0, bottom.0) };
        return Some(low..high + 1);
    }

    let sign_x: i128 = if delta_x > 0 { 1 } else if delta_x < 0 { -1 } else { 0 };
    let abs_x: i128 = if delta_x < 0 { -delta_x } else { delta_x };
    let x_points = delta_x + sign_x;
    let y_points = delta_y + 1;
    let k = scan as i128 - top.1 as i128;
    assert(0 <= k <= delta_y);
    assert(-0x1_0000_0001 <= x_points <= 0x1_0000_0001);
    assert(k * x_points <= 0x1_0000_0001 * 0x1_0000_0001 && k * x_points >= -(0x1_0000_0001 * 0x1_0000_0001)) by (nonlinear_arith)
        requires
            0 <= k <= 0x1_0000_0000,
            -0x1_0000_0001 <= x_points <= 0x1_0000_0001,
    ;
    assert((k + 1) * x_points <= 0x1_0000_0002 * 0x1_0000_0001 && (k + 1) * x_points >= -(0x1_0000_0002 * 0x1_0000_0001)) by (nonlinear_arith)
        requires
            0 <= k <= 0x1_0000_0000,
            -0x1_0000_0001 <= x_points <= 0x1_0000_0001,
    ;
    assert(x_points * k == k * x_points) by (nonlinear_arith);
    // Check if the line is steep (there are no cases of pixels touching horizontally).
    if abs_x <= delta_y {
        let x = top.0 as i128 + x_points * k / y_points;
        assert(expected == Some((x as int, x + 1)));
        let x = x as i32;
        Some(x..x + 1)
    } else {
        let first = top.0 as i128 + k * x_points / y_points;
        let second = top.0 as i128 + (k + 1) * x_points / y_points - sign_x;
        let (first, second) = if first > second { (second, first) } else { (first, second) };
        assert(expected == Some((first as int, second + 1)));
        let first = first as i32;
        let second = second as i32;
        Some(first..second + 1)
    }
}

/// Swapping the endpoints of a segment does not change the columns it covers
/// on any row.
pub proof fn law_segment_columns_symmetric(start: (int, int), end: (int, int), scan: int)
    ensures
        segment_columns(start, end, scan) == segment_columns(end, start, scan),
{
}

/// A segment covers columns exactly on the rows between its endpoints.
pub proof fn law_segment_columns_rows(start: (int, int), end: (int, int), scan: int)
    ensures
        segment_columns(start, end, scan) is Some <==> min_int(start.1, end.1) <= scan <= max_int(start.1, end.1),
{
}

/// `(a * d + r) / d == a` for `0 <= r < d`.
proof fn lemma_div_exact(a: int, d: int, r: int)
    requires
        d > 0,
        0 <= r < d,
    ensures
        (a * d + r) / d == a,
{
    vstd::arithmetic::div_mod::lemma_fundamental_div_mod_converse(a * d + r, d, a, r);
}

/// On the row of each endpoint, a segment covers the endpoint's column.
pub proof fn law_segment_columns_endpoints(start: (int, int), end: (int, int))
    ensures
        segment_columns(start, end, start.1) matches Some(columns) && columns.0 <= start.0 < columns.1,
        segment_columns(start, end, end.1) matches Some(columns) && columns.0 <= end.0 < columns.1,
{
    lemma_top_endpoint(start, end);
    lemma_bottom_endpoint(start, end);
    law_segment_columns_symmetric(start, end, start.1);
    law_segment_columns_symmetric(start, end, end.1);
    if start.1 > end.1 {
        // `end` is the top point
    } else if start.1 < end.1 {
        // `start` is the top point
    } else {
        lemma_top_endpoint(end, start);
    }
}

/// Rounded toward zero, the quotients of `n` and `n + 1` multiples of `a` by
/// `b` differ by at least one when `a` is larger than `b`.
proof fn lemma_div_trunc_step(n: int, x: int, b: int)
    requires
        n >= 0,
        b > 0,
        abs(x) > b,
    ensures
        x > 0 ==> div_trunc((n + 1) * x, b) >= div_trunc(n * x, b) + 1,
        x < 0 ==> div_trunc((n + 1) * x, b) <= div_trunc(n * x, b) - 1,
{
    let a = abs(x);
    let q = (n * a) / b;
    assert(q * b <= n * a) by (nonlinear_arith)
        requires
            b > 0,
            n * a >= 0,
            q == (n * a) / b,
    ;
    assert((n + 1) * a >= (q + 1) * b) by (nonlinear_arith)
        requires
            q * b <= n * a,
            a > b,
    ;
    assert(((n + 1) * a) / b >= q + 1) by (nonlinear_arith)
        requires
            b > 0,
            (n + 1) * a >= (q + 1) * b,
    ;
    assert(n * a >= 0 && (n + 1) * a >= 0) by (nonlinear_arith)
        requires
            n >= 0,
            a > 0,
    ;
    if x > 0 {
        assert(n * x == n * a && (n + 1) * x == (n + 1) * a);
    } else {
        assert(n * x == -(n * a) && (n + 1) * x == -((n + 1) * a)) by (nonlinear_arith)
            requires
                x == -a,
        ;
    }
}

/// A flat segment, one that goes further across than down, covers on each
/// row the columns right next to those of the row above: from one row to the
/// next, its column ranges follow each other without gap or overlap, toward
/// the bottom endpoint.
pub proof fn law_flat_segment_rows_adjacent(start: (int, int), end: (int, int), scan: int)
    requires
        abs(end.0 - start.0) > abs(end.1 - start.1),
        min_int(start.1, end.1) <= scan < max_int(start.1, end.1),
    ensures
        ({
            let (top, bottom) = top_down(start, end);
            match (segment_columns(start, end, scan), segment_columns(start, end, scan + 1)) {
                (Some(upper), Some(lower)) => if top.0 < bottom.0 {
                    upper.1 == lower.0
                } else {
                    lower.1 == upper.0
                },
                _ => false,
            }
        }),
{
    let (s, e) = top_down(start, end);
    let delta_x = e.0 - s.0;
    let delta_y = e.1 - s.1;
    let x_points = delta_x + sign(delta_x);
    let y_points = delta_y + 1;
    let k = scan - s.1;
    assert(abs(x_points) > y_points);
    lemma_div_trunc_step(k, x_points, y_points);
    lemma_div_trunc_step(k + 1, x_points, y_points);
    assert((k + 1 + 1) * x_points == (k + 2) * x_points);
}

/// Rounded toward zero, the quotients of `n` and `n + 1` multiples of `x` by
/// `b` differ by at most one, in the direction of `x`, when `x` is no larger
/// in size than `b`.
proof fn lemma_div_trunc_small_step(n: int, x: int, b: int)
    requires
        n >= 0,
        b > 0,
        abs(x) <= b,
    ensures
        x >= 0 ==> div_trunc(n * x, b) <= div_trunc((n + 1) * x, b) <= div_trunc(n * x, b) + 1,
        x < 0 ==> div_trunc(n * x, b) - 1 <= div_trunc((n + 1) * x, b) <= div_trunc(n * x, b),
{
    let a = abs(x);
    assert(n * a >= 0 && (n + 1) * a == n * a + a) by (nonlinear_arith)
        requires
            n >= 0,
            a >= 0,
    ;
    let q = (n * a) / b;
    assert(q * b <= n * a < (q + 1) * b) by (nonlinear_arith)
        requires
            b > 0,
            n * a >= 0,
            q == (n * a) / b,
    ;
    assert(q * b <= (n + 1) * a < (q + 2) * b) by (nonlinear_arith)
        requires
            q * b <= n * a < (q + 1) * b,
            (n + 1) * a == n * a + a,
            0 <= a <= b,
    ;
    assert(q <= ((n + 1) * a) / b <= q + 1) by (nonlinear_arith)
        requires
            b > 0,
            q * b <= (n + 1) * a < (q + 2) * b,
    ;
    if x >= 0 {
        assert(n * x == n * a && (n + 1) * x == (n + 1) * a);
    } else {
        assert(n * x == -(n * a) && (n + 1) * x == -((n + 1) * a)) by (nonlinear_arith)
            requires
                x == -a,
        ;
    }
}

/// A steep segment, one that goes at least as far down as across, covers a
/// single column on each of its rows, and from one row to the next that
/// column stays where it is or moves one step toward the bottom endpoint:
/// the line has no gaps.
pub proof fn law_steep_segment_rows_adjacent(start: (int, int), end: (int, int), scan: int)
    requires
        abs(end.0 - start.0) <= abs(end.1 - start.1),
        min_int(start.1, end.1) <= scan < max_int(start.1, end.1),
    ensures
        ({
            let (top, bottom) = top_down(start, end);
            match (segment_columns(start, end, scan), segment_columns(start, end, scan + 1)) {
                (Some(upper), Some(lower)) => {
                    &&& upper.1 == upper.0 + 1
                    &&& lower.1 == lower.0 + 1
                    &&& (lower.0 == upper.0 || lower.0 == upper.0 + sign(bottom.0 - top.0))
                },
                _ => false,
            }
        }),
{
    let (s, e) = top_down(start, end);
    let delta_x = e.0 - s.0;
    let delta_y = e.1 - s.1;
    let x_points = delta_x + sign(delta_x);
    let y_points = delta_y + 1;
    let k = scan - s.1;
    assert(abs(x_points) <= y_points);
    lemma_div_trunc_small_step(k, x_points, y_points);
    assert(x_points * k == k * x_points && x_points * (k + 1) == (k + 1) * x_points) by (nonlinear_arith);
    assert(x_points * (scan + 1 - s.1) == x_points * (k + 1));
}

/// Whether the segment from `start` to `end` covers column `x` on row `y`.
pub open spec fn covers_column(start: (int, int), end: (int, int), y: int, x: int) -> bool {
    segment_columns(start, end, y) matches Some(columns) && columns.0 <= x < columns.1
}

/// Whether one of the rows of the segment from its top row `start.1` down to
/// row `y` covers column `x`.
pub open spec fn rows_cover(start: (int, int), end: (int, int), y: int, x: int) -> bool {
    exists|k: int| start.1 <= k <= y && #[trigger] covers_column(start, end, k, x)
}

/// The first row of a flat segment starts, in the direction it runs, at its
/// top endpoint's column.
proof fn lemma_flat_first_row(start: (int, int), end: (int, int))
    requires
        abs(end.0 - start.0) > abs(end.1 - start.1),
        start.1 <= end.1,
    ensures
        segment_columns(start, end, start.1) matches Some(columns) && if start.0 < end.0 {
            columns.0 == start.0
        } else {
            columns.1 == start.0 + 1
        },
{
    let delta_x = end.0 - start.0;
    let delta_y = end.1 - start.1;
    if delta_y > 0 {
        let x_points = delta_x + sign(delta_x);
        lemma_div_trunc_step(0, x_points, delta_y + 1);
        assert(0 * x_points == 0 && (0 + 1) * x_points == x_points);
    }
}

/// The rows of a flat segment from its top row down to row `y` together
/// cover a run of columns that starts at the top endpoint's column and ends
/// where row `y` ends, in the direction the segment runs.
proof fn lemma_flat_prefix(start: (int, int), end: (int, int), y: int)
    requires
        abs(end.0 - start.0) > abs(end.1 - start.1),
        start.1 <= y <= end.1,
    ensures
        segment_columns(start, end, y) matches Some(last) && forall|x: int|
            #[trigger] rows_cover(start, end, y, x) <==> if start.0 < end.0 {
                start.0 <= x < last.1
            } else {
                last.0 <= x <= start.0
            },
    decreases y - start.1,
{
    law_segment_columns_rows(start, end, y);
    lemma_segment_columns_bounds(start, end, y);
    let last = segment_columns(start, end, y)->0;
    if y == start.1 {
        lemma_flat_first_row(start, end);
        assert forall|x: int|
            #[trigger] rows_cover(start, end, y, x) <==> if start.0 < end.0 {
                start.0 <= x < last.1
            } else {
                last.0 <= x <= start.0
            } by {
            if start.0 < end.0 && start.0 <= x < last.1 || !(start.0 < end.0) && last.0 <= x <= start.0 {
                assert(covers_column(start, end, y, x));
            }
        }
    } else {
        lemma_flat_prefix(start, end, y - 1);
        law_flat_segment_rows_adjacent(start, end, y - 1);
        law_segment_columns_rows(start, end, y - 1);
        lemma_segment_columns_bounds(start, end, y - 1);
        let before = segment_columns(start, end, y - 1)->0;
        assert forall|x: int|
            #[trigger] rows_cover(start, end, y, x) <==> if start.0 < end.0 {
                start.0 <= x < last.1
            } else {
                last.0 <= x <= start.0
            } by {
            if rows_cover(start, end, y, x) {
                let k = choose|k: int| start.1 <= k <= y && #[trigger] covers_column(start, end, k, x);
                if k < y {
                    assert(rows_cover(start, end, y - 1, x));
                }
            }
            if start.0 < end.0 && start.0 <= x < last.1 || !(start.0 < end.0) && last.0 <= x <= start.0 {
                if start.0 < end.0 && x < before.1 || !(start.0 < end.0) && before.0 <= x {
                    assert(rows_cover(start, end, y - 1, x));
                    let k = choose|k: int| start.1 <= k <= y - 1 && #[trigger] covers_column(start, end, k, x);
                    assert(start.1 <= k <= y && covers_column(start, end, k, x));
                } else {
                    assert(covers_column(start, end, y, x));
                }
            }
        }
    }
}

/// Whether some row between the endpoints' rows of the segment from `start`
/// to `end` covers column `x`.
pub open spec fn some_row_covers(start: (int, int), end: (int, int), x: int) -> bool {
    exists|y: int| min_int(start.1, end.1) <= y <= max_int(start.1, end.1) && #[trigger] covers_column(start, end, y, x)
}

/// The rows of a flat segment cover its columns exactly once: every column
/// between its endpoints' columns lies on one of its rows, and on no more
/// than one.
pub proof fn law_flat_segment_covers_span(start: (int, int), end: (int, int))
    requires
        abs(end.0 - start.0) > abs(end.1 - start.1),
    ensures
        forall|x: int|
            min_int(start.0, end.0) <= x <= max_int(start.0, end.0) ==> #[trigger] some_row_covers(start, end, x),
        forall|x: int, y1: int, y2: int|
            #[trigger] covers_column(start, end, y1, x) && #[trigger] covers_column(start, end, y2, x) ==> y1 == y2,
{
    let (s, e) = top_down(start, end);
    assert forall|y: int, x: int| covers_column(start, end, y, x) == covers_column(s, e, y, x) by {
        law_segment_columns_symmetric(start, end, y);
    }
    lemma_flat_prefix(s, e, e.1);
    law_segment_columns_endpoints(s, e);
    lemma_segment_columns_bounds(s, e, e.1);
    assert forall|x: int|
        min_int(start.0, end.0) <= x <= max_int(start.0, end.0) implies #[trigger] some_row_covers(start, end, x) by {
        assert(rows_cover(s, e, e.1, x));
        let k = choose|k: int| s.1 <= k <= e.1 && #[trigger] covers_column(s, e, k, x);
        assert(covers_column(start, end, k, x));
    }
    assert forall|x: int, y1: int, y2: int|
        #[trigger] covers_column(start, end, y1, x) && #[trigger] covers_column(start, end, y2, x) implies y1 == y2 by {
        if y1 != y2 {
            let (low, high) = if y1 < y2 {
                (y1, y2)
            } else {
                (y2, y1)
            };
            law_segment_columns_rows(s, e, low);
            law_segment_columns_rows(s, e, high);
            lemma_flat_prefix(s, e, high - 1);
            law_flat_segment_rows_adjacent(s, e, high - 1);
            assert(s.1 <= low <= high - 1 && covers_column(s, e, low, x));
            assert(rows_cover(s, e, high - 1, x));
        }
    }
}

/// `p` moved by `shift`.
pub open spec fn moved(p: (int, int), shift: (int, int)) -> (int, int) {
    (p.0 + shift.0, p.1 + shift.1)
}

/// Moving a segment moves the columns it covers: the moved segment covers,
/// on the moved row, the same columns moved sideways.
pub proof fn law_segment_columns_moved(start: (int, int), end: (int, int), shift: (int, int), scan: int)
    ensures
        segment_columns(moved(start, shift), moved(end, shift), scan + shift.1) == match segment_columns(
            start,
            end,
            scan,
        ) {
            Some(columns) => Some((columns.0 + shift.0, columns.1 + shift.0)),
            None => None,
        },
{
}

/// On the row of its top point, a segment covers the top point's column.
proof fn lemma_top_endpoint(start: (int, int), end: (int, int))
    ensures
        ({
            let (top, bottom) = top_down(start, end);
            segment_columns(start, end, top.1) matches Some(columns) && columns.0 <= top.0 < columns.1
        }),
{
    let (top, bottom) = top_down(start, end);
    let delta_x = bottom.0 - top.0;
    let delta_y = bottom.1 - top.1;
    if delta_y != 0 {
        let x_points = delta_x + sign(delta_x);
        assert(x_points * 0 == 0 && 0 * x_points == 0);
    }
}

/// On the row of its bottom point, a segment covers the bottom point's column.
proof fn lemma_bottom_endpoint(start: (int, int), end: (int, int))
    ensures
        ({
            let (top, bottom) = top_down(start, end);
            segment_columns(start, end, bottom.1) matches Some(columns) && columns.0 <= bottom.0 < columns.1
        }),
{
    let (top, bottom) = top_down(start, end);
    let delta_x = bottom.0 - top.0;
    let delta_y = bottom.1 - top.1;
    if delta_y != 0 {
        let x_points = delta_x + sign(delta_x);
        let y_points = delta_y + 1;
        if abs(delta_x) <= delta_y {
            if delta_x > 0 {
                assert(x_points * delta_y == delta_x * y_points + (delta_y - delta_x)) by (nonlinear_arith)
                    requires
                        x_points == delta_x + 1,
                        y_points == delta_y + 1,
                ;
                lemma_div_exact(delta_x, y_points, delta_y - delta_x);
            } else if delta_x < 0 {
                assert(-(x_points * delta_y) == (-delta_x) * y_points + (delta_y + delta_x)) by (nonlinear_arith)
                    requires
                        x_points == delta_x - 1,
                        y_points == delta_y + 1,
                ;
                lemma_div_exact(-delta_x, y_points, delta_y + delta_x);
                assert(x_points * delta_y < 0) by (nonlinear_arith)
                    requires
                        x_points < 0,
                        delta_y > 0,
                ;
            } else {
                assert(x_points == 0);
                assert(x_points * delta_y == 0) by (nonlinear_arith)
                    requires
                        x_points == 0,
                ;
            }
        } else {
            let n = (delta_y + 1) * x_points;
            assert(n == x_points * y_points) by (nonlinear_arith)
                requires
                    n == (delta_y + 1) * x_points,
                    y_points == delta_y + 1,
            ;
            if x_points >= 0 {
                lemma_div_exact(x_points, y_points, 0);
            } else {
                lemma_div_exact(-x_points, y_points, 0);
                assert(-n == (-x_points) * y_points) by (nonlinear_arith)
                    requires
                        n == x_points * y_points,
                ;
            }
        }
    }
}

} // verus!
