use ugly_graphics::operation::scanline::line::{extend_range_to, vertical_range_in_dimensions};
use ugly_graphics::operation::scanline::{clamp_range, cut_from_left, estimate_bounding_box, line_scan, merge_ranges};
use ugly_graphics::utility::{swap, swap_if};

#[test]
fn line_scan_works() {
    let (start, end) = ((0, 0), (5, 2));
    assert_eq!(line_scan(start, end, -1), None);
    assert_eq!(line_scan(start, end, 0), Some(0..2));
    assert_eq!(line_scan(start, end, 1), Some(2..4));
    assert_eq!(line_scan(start, end, 2), Some(4..6));
    assert_eq!(line_scan(start, end, 3), None);

    let (start, end) = ((1, 2), (3, 0));
    assert_eq!(line_scan(start, end, 0), Some(3..4));
    assert_eq!(line_scan(start, end, 1), Some(2..3));
    assert_eq!(line_scan(start, end, 2), Some(1..2));
    assert_eq!(line_scan(start, end, 3), None);

    let (start, end) = ((-1, 4), (3, 4));
    assert_eq!(line_scan(start, end, 3), None);
    assert_eq!(line_scan(start, end, 4), Some(-1..4));
    assert_eq!(line_scan(start, end, 5), None);
}

#[test]
fn bounds_computation_is_proper() {
    assert_eq!(vertical_range_in_dimensions((6, 1), (8, 3), (4, 4)), None);
    assert_eq!(vertical_range_in_dimensions((1, 1), (3, 3), (8, 8)), Some(1..4));
    assert_eq!(vertical_range_in_dimensions((1, 3), (3, 1), (8, 8)), Some(1..4));
    assert_eq!(vertical_range_in_dimensions((-2, 1), (3, 6), (16, 16)), Some(3..6));
    assert_eq!(vertical_range_in_dimensions((0, 0), (4, 16), (8, 8)), Some(0..8));
    assert_eq!(vertical_range_in_dimensions((0, -4), (0, 16), (8, 8)), Some(0..8));
    assert_eq!(vertical_range_in_dimensions((0, -4), (8, 16), (8, 8)), Some(0..8));
    assert_eq!(vertical_range_in_dimensions((0, 4), (4, 4), (8, 8)), Some(4..5));
    assert_eq!(vertical_range_in_dimensions((0, 4), (4, 4), (2, 2)), None);
    assert_eq!(vertical_range_in_dimensions((0, 8), (4, 8), (4, 4)), None);
    assert_eq!(vertical_range_in_dimensions((0, 8), (4, 16), (4, 4)), None);
}

#[test]
fn line_scan_of_single_point_and_vertical_line() {
    assert_eq!(line_scan((3, 3), (3, 3), 3), Some(3..4));
    assert_eq!(line_scan((3, 3), (3, 3), 2), None);
    assert_eq!(line_scan((2, 0), (2, 4), 3), Some(2..3));
}

#[test]
fn line_scan_is_symmetric() {
    for scan in -2..8 {
        assert_eq!(line_scan((0, 0), (7, 3), scan), line_scan((7, 3), (0, 0), scan));
        assert_eq!(line_scan((5, 1), (-3, 6), scan), line_scan((-3, 6), (5, 1), scan));
    }
}

#[test]
fn line_scan_covers_both_endpoints() {
    let (start, end) = ((-4, 1), (9, 5));
    let first = line_scan(start, end, 1).unwrap();
    let last = line_scan(start, end, 5).unwrap();
    assert!(first.contains(&-4));
    assert!(last.contains(&9));
}

#[test]
fn ranges_merge_and_clamp() {
    assert_eq!(merge_ranges(2..5, -1..3), -1..5);
    assert_eq!(merge_ranges(0..1, 4..9), 0..9);
    assert_eq!(clamp_range(-3..12, 0, 8), 0..8);
    assert_eq!(clamp_range(2..5, 0, 8), 2..5);
    assert_eq!(cut_from_left(-3..12, 0), 0..12);
    assert_eq!(cut_from_left(4..12, 0), 4..12);
    assert_eq!(extend_range_to(2..5, 0), 0..5);
    assert_eq!(extend_range_to(2..5, 9), 2..9);
    assert_eq!(extend_range_to(2..5, 3), 2..5);
}

#[test]
fn bounding_box_of_vertices() {
    assert_eq!(estimate_bounding_box(&[]), None);
    assert_eq!(estimate_bounding_box(&[(3, -2)]), Some((3..3, -2..-2)));
    assert_eq!(estimate_bounding_box(&[(3, -2), (-1, 7), (5, 0)]), Some((-1..5, -2..7)));
}

#[test]
fn swaps_pairs() {
    assert_eq!(swap((1, 'a')), ('a', 1));
    assert_eq!(swap_if(true, (1, 2)), (2, 1));
    assert_eq!(swap_if(false, (1, 2)), (1, 2));
    assert_eq!(swap(swap((3u8, -4i64))), (3u8, -4i64));
}

#[test]
fn flat_segment_rows_follow_each_other() {
    let (start, end) = ((0, 0), (9, 3));
    let mut columns = Vec::new();
    for row in 0..=3 {
        columns.extend(line_scan(start, end, row).unwrap());
    }
    assert_eq!(columns, (0..=9).collect::<Vec<i32>>());
    let (start, end) = ((7, 2), (-4, 0));
    assert_eq!(line_scan(start, end, 0).unwrap().end, line_scan(start, end, 1).unwrap().start);
    assert_eq!(line_scan(start, end, 1).unwrap().end, line_scan(start, end, 2).unwrap().start);
    let (start, end) = ((7, 0), (-4, 2));
    assert_eq!(line_scan(start, end, 1).unwrap().end, line_scan(start, end, 0).unwrap().start);
    assert_eq!(line_scan(start, end, 2).unwrap().end, line_scan(start, end, 1).unwrap().start);
}

#[test]
fn visible_rows_ignore_endpoint_order() {
    for (start, end) in [((-2, 1), (3, 6)), ((0, 5), (6, 5)), ((7, -3), (2, 9))] {
        assert_eq!(
            vertical_range_in_dimensions(start, end, (5, 8)),
            vertical_range_in_dimensions(end, start, (5, 8))
        );
    }
}
