use std::cell::RefCell;

use ugly_graphics::image::slice_based::SliceBased;
use ugly_graphics::image::sprite::Sprite;
use ugly_graphics::image::{Dimensions, Image};
use ugly_graphics::operation::compute::Compute;
use ugly_graphics::operation::pixel::Pixel;
use ugly_graphics::operation::scanline::line::Line;
use ugly_graphics::operation::scanline::rectangle::filled::FilledRectangle;
use ugly_graphics::operation::scanline::rectangle::outline::OutlineRectangle;
use ugly_graphics::operation::scanline::triangle::filled::overlapping::OverlappingTriangle;
use ugly_graphics::operation::scanline::triangle::filled::tiling::TilingTriangle;
use ugly_graphics::operation::stamp::Stamp;
use ugly_graphics::painter::{DrawRegion, Painter};
use ugly_graphics::strategy::{apply, overwrite};
use ugly_graphics::view::cropped::Cropped;
use ugly_graphics::view::flipped::Flipped;
use ugly_graphics::view::rotated::Rotated;
use ugly_graphics::view::shifted::Shifted;

struct ReadAwareImage {
    buffer: RefCell<Vec<(bool, u8)>>,
    width: u32,
    height: u32,
}

impl ReadAwareImage {
    fn new(value: u8, (width, height): (u32, u32)) -> Self {
        let buffer = RefCell::new(vec![(false, value); (width * height) as usize]);
        Self { buffer, width, height }
    }

    fn pixel_was_read(&self, (x, y): (u32, u32)) -> Option<bool> {
        if x >= self.width || y >= self.height {
            return None;
        }
        let index = (x + y * self.width) as usize;
        let data = self.buffer.borrow();
        let (marker, _) = data.get(index)?;
        Some(*marker)
    }
}

impl Dimensions for ReadAwareImage {
    fn spec_dimensions(&self) -> (u32, u32) {
        (self.width, self.height)
    }

    fn dimensions(&self) -> (u32, u32) {
        (self.width, self.height)
    }
}

impl Image for ReadAwareImage {
    type Pixel = u8;

    fn spec_pixel(&self, (x, y): (u32, u32)) -> Option<u8> {
        if x >= self.width || y >= self.height {
            return None;
        }
        let index = (x + y * self.width) as usize;
        self.buffer.borrow().get(index).map(|(_, pixel)| *pixel)
    }

    fn lemma_pixel_within(&self, _position: (u32, u32)) {}

    fn keeps_hidden(&self, earlier: Self) -> bool {
        self.width == earlier.width && self.height == earlier.height
    }

    fn lemma_keeps_hidden(_first: Self, _second: Self, _third: Self) {}

    fn pixel(&self, (x, y): (u32, u32)) -> Option<u8> {
        if x >= self.width || y >= self.height {
            return None;
        }
        let index = (x + y * self.width) as usize;
        let mut data = self.buffer.borrow_mut();
        let (marker, pixel) = data.get_mut(index)?;
        *marker = true;
        Some(*pixel)
    }
}

fn print_reads(image: &ReadAwareImage, width: u32) {
    for (index, chunk) in image.buffer.borrow().chunks(width as usize).enumerate() {
        let line = chunk.iter().map(|(read, _)| if *read { '+' } else { '.' }).collect::<String>();
        println!("{:02}: {}", index, line);
    }
}

fn print_surface(surface: &SliceBased<u8>, width: u32) {
    for (index, chunk) in surface.data().chunks(width as usize).enumerate() {
        let line = chunk.iter().map(|value| if *value != 0 { '+' } else { '.' }).collect::<String>();
        println!("{:02}: {}", index, line);
    }
}

#[test]
fn no_unnecessary_read_in_negative_space() {
    const STAMP_WIDTH: u32 = 32;
    const STAMP_HEIGHT: u32 = 16;
    const X: i32 = -8;
    const Y: i32 = -6;
    const SURFACE_WIDTH: u32 = 64;
    const SURFACE_HEIGHT: u32 = 32;
    const OFFSET_X: i32 = 2;
    const OFFSET_Y: i32 = 3;

    let image = ReadAwareImage::new(1, (STAMP_WIDTH, STAMP_HEIGHT));
    let stamp = Stamp::new((X, Y), &image, &|original: u8, stamp: u8| original + stamp);

    let surface_data = vec![0; (SURFACE_WIDTH * SURFACE_HEIGHT) as usize];

    let mut surface = SliceBased::new(surface_data, SURFACE_WIDTH).unwrap();
    let mut painter = Painter::new(&mut surface).with_offset((OFFSET_X, OFFSET_Y));

    painter.draw(stamp);

    print_reads(&image, STAMP_WIDTH);

    for y in 0..STAMP_HEIGHT {
        for x in 0..STAMP_WIDTH {
            let pixel_was_read = image.pixel_was_read((x, y)).unwrap();
            let expected = x >= (-X - OFFSET_X) as u32 && y >= (-Y - OFFSET_Y) as u32;

            println!(
                "At {}:{} pixel was {}READ, expecting it to {}been READ",
                x,
                y,
                if pixel_was_read { "" } else { "NOT " },
                if expected { "" } else { "NOT " }
            );

            assert_eq!(expected, pixel_was_read);
        }
    }

    print_surface(&surface, SURFACE_WIDTH);

    for y in 0..SURFACE_HEIGHT {
        for x in 0..SURFACE_WIDTH {
            let pixel_value = surface.pixel((x, y)).unwrap();
            let expected = if (x as i32) >= X + OFFSET_X
                && (y as i32) >= Y + OFFSET_Y
                && (x as i32) < X + OFFSET_X + STAMP_WIDTH as i32
                && (y as i32) < Y + OFFSET_Y + STAMP_HEIGHT as i32
            {
                1
            } else {
                0
            };

            assert_eq!(pixel_value, expected)
        }
    }
}

#[test]
fn no_unnecessary_read_in_positive_space() {
    const STAMP_WIDTH: u32 = 32;
    const STAMP_HEIGHT: u32 = 16;
    const X: i32 = 60;
    const Y: i32 = 25;
    const SURFACE_WIDTH: u32 = 64;
    const SURFACE_HEIGHT: u32 = 32;
    const OFFSET_X: i32 = 2;
    const OFFSET_Y: i32 = 3;

    let image = ReadAwareImage::new(1, (STAMP_WIDTH, STAMP_HEIGHT));
    let stamp = Stamp::new((X, Y), &image, &|original: u8, stamp: u8| original + stamp);

    let surface_data = vec![0; (SURFACE_WIDTH * SURFACE_HEIGHT) as usize];

    let mut surface = SliceBased::new(surface_data, SURFACE_WIDTH).unwrap();
    let mut painter = Painter::new(&mut surface).with_offset((OFFSET_X, OFFSET_Y));

    painter.draw(stamp);

    print_reads(&image, STAMP_WIDTH);

    for y in 0..STAMP_HEIGHT {
        for x in 0..STAMP_WIDTH {
            let pixel_was_read = image.pixel_was_read((x, y)).unwrap();
            let expected =
                x < (SURFACE_WIDTH - X as u32 - OFFSET_X as u32) && y < (SURFACE_HEIGHT - Y as u32 - OFFSET_Y as u32);

            println!(
                "At {}:{} pixel was {}READ, expecting it to {}been READ",
                x,
                y,
                if pixel_was_read { "" } else { "NOT " },
                if expected { "" } else { "NOT " }
            );

            assert_eq!(expected, pixel_was_read);
        }
    }

    print_surface(&surface, SURFACE_WIDTH);

    for y in 0..SURFACE_HEIGHT {
        for x in 0..SURFACE_WIDTH {
            let pixel_value = surface.pixel((x, y)).unwrap();
            let expected = if (x as i32) >= X + OFFSET_X
                && (y as i32) >= Y + OFFSET_Y
                && (x as i32) < X + OFFSET_X + STAMP_WIDTH as i32
                && (y as i32) < Y + OFFSET_Y + STAMP_HEIGHT as i32
            {
                1
            } else {
                0
            };

            assert_eq!(pixel_value, expected)
        }
    }
}

#[test]
fn pixels_are_manipulated() {
    let mut sprite = Sprite::<u8, 4, 4>::from_copies(0x08);
    let mut flipped = Flipped::horizontal(&mut sprite);
    let mut painter = Painter::new(&mut flipped);

    painter.draw(Pixel::new((1, 2), overwrite(0x80)));
    painter.draw(Pixel::new((2, 3), apply(&|v| v * 2)));

    let expected = Sprite::from_raw([
        [0x08, 0x08, 0x08, 0x08],
        [0x08, 0x08, 0x08, 0x08],
        [0x08, 0x08, 0x80, 0x08],
        [0x08, 0x10, 0x08, 0x08],
    ]);

    assert_eq!(sprite, expected);
}

#[test]
fn stamp_is_applied() {
    let mut sprite = Sprite::<u8, 6, 6>::from_copies(0x10);
    let mut painter = Painter::new(&mut sprite);

    let stamp = Sprite::from_raw([[true, true, false, false], [false, false, true, false], [false, true, false, false]]);
    let rotated = Rotated::clockwise(&stamp);

    painter.draw(Stamp::new((2, 2), &rotated, &|pixel: u8, stamp: bool| {
        if stamp {
            pixel + 0x08
        } else {
            pixel - 0x08
        }
    }));

    let expected = Sprite::from_raw([
        [0x10, 0x10, 0x10, 0x10, 0x10, 0x10],
        [0x10, 0x10, 0x10, 0x10, 0x10, 0x10],
        [0x10, 0x10, 0x08, 0x08, 0x18, 0x10],
        [0x10, 0x10, 0x18, 0x08, 0x18, 0x10],
        [0x10, 0x10, 0x08, 0x18, 0x08, 0x10],
        [0x10, 0x10, 0x08, 0x08, 0x08, 0x10],
    ]);

    assert_eq!(sprite, expected);
}

#[test]
fn line_is_applied() {
    let mut sprite = Sprite::<u8, 8, 8>::from_copies(0x00);
    let mut painter = Painter::new(&mut sprite);

    painter.draw(Line::new((-1, -1), (8, 8), apply(&|v| v + 0x02)));
    painter.draw(Line::new((8, -1), (-1, 8), overwrite(0xff)));
    painter.draw(Line::new((2, 1), (5, 1), overwrite(0x80)));
    painter.draw(Line::new((1, 2), (1, 5), overwrite(0x80)));

    let expected = Sprite::from_raw([
        [0x02, 0x00, 0x00, 0x00, 0x00, 0x00, 0x00, 0xff],
        [0x00, 0x02, 0x80, 0x80, 0x80, 0x80, 0xff, 0x00],
        [0x00, 0x80, 0x02, 0x00, 0x00, 0xff, 0x00, 0x00],
        [0x00, 0x80, 0x00, 0x02, 0xff, 0x00, 0x00, 0x00],
        [0x00, 0x80, 0x00, 0xff, 0x02, 0x00, 0x00, 0x00],
        [0x00, 0x80, 0xff, 0x00, 0x00, 0x02, 0x00, 0x00],
        [0x00, 0xff, 0x00, 0x00, 0x00, 0x00, 0x02, 0x00],
        [0xff, 0x00, 0x00, 0x00, 0x00, 0x00, 0x00, 0x02],
    ]);
    assert_eq!(sprite, expected);
}

#[test]
fn gradient() {
    let mut sprite = Sprite::<u8, 8, 8>::from_copies(0x00);
    let mut shifted = Shifted::new(&mut sprite, (1, 1));
    let mut cropped = Cropped::new(&mut shifted, (6, 6));
    let mut painter = Painter::new(&mut cropped);

    let gradient = Compute::new(&|(x, y): (i32, i32), _: u8| x as u8 + y as u8);
    painter.draw(gradient);

    let expected = Sprite::from_raw([
        [0x00, 0x00, 0x00, 0x00, 0x00, 0x00, 0x00, 0x00],
        [0x00, 0x00, 0x01, 0x02, 0x03, 0x04, 0x05, 0x00],
        [0x00, 0x01, 0x02, 0x03, 0x04, 0x05, 0x06, 0x00],
        [0x00, 0x02, 0x03, 0x04, 0x05, 0x06, 0x07, 0x00],
        [0x00, 0x03, 0x04, 0x05, 0x06, 0x07, 0x08, 0x00],
        [0x00, 0x04, 0x05, 0x06, 0x07, 0x08, 0x09, 0x00],
        [0x00, 0x05, 0x06, 0x07, 0x08, 0x09, 0x0a, 0x00],
        [0x00, 0x00, 0x00, 0x00, 0x00, 0x00, 0x00, 0x00],
    ]);
    assert_eq!(sprite, expected);
}

#[test]
fn filled_rectangle_is_clipped_and_order_free() {
    let mut first = Sprite::<u8, 6, 4>::from_copies(b'.');
    let mut painter = Painter::new(&mut first);
    painter.draw(FilledRectangle::new((4, -3), (-2, 1), overwrite(b'#')));
    painter.draw(FilledRectangle::new((5, 3), (5, 3), apply(&|v: u8| v + 1)));

    let mut second = Sprite::<u8, 6, 4>::from_copies(b'.');
    let mut painter = Painter::new(&mut second);
    painter.draw(FilledRectangle::new((-2, 1), (4, -3), overwrite(b'#')));
    painter.draw(FilledRectangle::new((5, 3), (5, 3), apply(&|v: u8| v + 1)));

    let expected = Sprite::from_raw([*b"#####.", *b"#####.", *b"......", *b"...../"]);
    assert_eq!(first, expected);
    assert_eq!(second, expected);
}

#[test]
fn painter_offset_moves_drawing() {
    let sprite = Sprite::<u8, 4, 4>::from_copies(0);
    let mut painter = Painter::new(sprite).with_offset((2, 1));
    painter.draw(Pixel::new((0, 0), overwrite(9)));
    painter.draw(Pixel::new((-3, 0), overwrite(5)));
    painter.draw(Pixel::new((2, 2), overwrite(7)));
    let sprite = painter.into_target();
    assert_eq!(sprite.into_owned(), [[0, 0, 0, 0], [0, 0, 9, 0], [0, 0, 0, 0], [0, 0, 0, 0]]);
}

#[test]
fn compute_receives_drawing_positions() {
    let sprite = Sprite::<(i32, i32), 2, 2>::from_copies((0, 0));
    let mut painter = Painter::new(sprite);
    painter.draw(Compute::new(&|position: (i32, i32), _: (i32, i32)| position));
    let sprite = painter.into_target();
    assert_eq!(sprite.into_owned(), [[(0, 0), (1, 0)], [(0, 1), (1, 1)]]);
}

fn count<const W: usize, const H: usize>(sprite: &Sprite<u8, W, H>, value: u8) -> usize {
    sprite.data().iter().flatten().filter(|v| **v == value).count()
}

#[test]
fn overlapping_triangle_covers_its_vertices() {
    let vertices = [(1, 1), (10, 3), (4, 9)];
    let mut sprite = Sprite::<u8, 12, 12>::from_copies(0);
    let mut painter = Painter::new(&mut sprite);
    painter.draw(OverlappingTriangle::new(vertices, apply(&|v: u8| v + 1)));
    for (x, y) in vertices {
        assert_eq!(sprite.pixel((x as u32, y as u32)), Some(1));
    }
    assert_eq!(sprite.pixel((0, 0)), Some(0));
    assert_eq!(sprite.pixel((11, 11)), Some(0));
    assert!(sprite.data().iter().flatten().all(|v| *v <= 1));
}

#[test]
fn overlapping_triangle_ignores_vertex_order() {
    let mut first = Sprite::<u8, 12, 12>::from_copies(0);
    let mut second = Sprite::<u8, 12, 12>::from_copies(0);
    Painter::new(&mut first).draw(OverlappingTriangle::new([(1, 1), (10, 3), (4, 9)], overwrite(1)));
    Painter::new(&mut second).draw(OverlappingTriangle::new([(4, 9), (1, 1), (10, 3)], overwrite(1)));
    assert_eq!(first, second);
}

#[test]
fn flat_overlapping_triangle_is_a_line() {
    let mut sprite = Sprite::<u8, 8, 3>::from_copies(0);
    Painter::new(&mut sprite).draw(OverlappingTriangle::new([(1, 1), (6, 1), (3, 1)], overwrite(1)));
    assert_eq!(sprite.into_owned(), [[0; 8], [0, 1, 1, 1, 1, 1, 1, 0], [0; 8]]);
}

#[test]
fn tiling_triangles_sharing_an_edge_do_not_overlap() {
    let mut sprite = Sprite::<u8, 16, 16>::from_copies(0);
    let mut painter = Painter::new(&mut sprite);
    let increment = |v: u8| v + 1;
    painter.draw(TilingTriangle::new([(1, 1), (14, 2), (5, 14)], apply(&increment)));
    painter.draw(TilingTriangle::new([(14, 2), (5, 14), (15, 15)], apply(&increment)));
    assert!(sprite.data().iter().flatten().all(|v| *v <= 1));
    assert!(count(&sprite, 1) > 0);
    assert_eq!(sprite.pixel((0, 0)), Some(0));
}

fn draw_both<O1, O2>(shifted: O1, moved: O2, offset: (i32, i32)) -> (Sprite<u8, 10, 10>, Sprite<u8, 10, 10>)
where
    O1: ugly_graphics::operation::Operation<Sprite<u8, 10, 10>>,
    O2: ugly_graphics::operation::Operation<Sprite<u8, 10, 10>>,
{
    let mut with_offset = Painter::new(Sprite::<u8, 10, 10>::from_copies(0)).with_offset(offset);
    with_offset.draw(shifted);
    let mut without = Painter::new(Sprite::<u8, 10, 10>::from_copies(0));
    without.draw(moved);
    (with_offset.into_target(), without.into_target())
}

#[test]
fn line_follows_painter_offset() {
    let (first, second) = draw_both(
        Line::new((-3, -2), (4, 9), overwrite(1)),
        Line::new((0, 3), (7, 14), overwrite(1)),
        (3, 5),
    );
    assert_eq!(first, second);
    assert_eq!(first.pixel((0, 3)), Some(1));
    let (first, second) = draw_both(
        Line::new((12, 13), (2, 8), overwrite(1)),
        Line::new((7, 10), (-3, 5), overwrite(1)),
        (-5, -3),
    );
    assert_eq!(first, second);
}

#[test]
fn overlapping_triangle_follows_painter_offset() {
    let (first, second) = draw_both(
        OverlappingTriangle::new([(-2, -4), (9, 1), (3, 6)], overwrite(1)),
        OverlappingTriangle::new([(0, 0), (11, 5), (5, 10)], overwrite(1)),
        (2, 4),
    );
    assert_eq!(first, second);
    assert_eq!(first.pixel((5, 9)), Some(1));
}

#[test]
fn flat_overlapping_triangle_includes_all_vertices() {
    let mut sprite = Sprite::<u8, 6, 3>::from_copies(0);
    let mut painter = Painter::new(&mut sprite);
    painter.draw(OverlappingTriangle::new([(0, 1), (4, 1), (2, 1)], overwrite(1u8)));
    assert_eq!(sprite, Sprite::from_raw([[0; 6], [1, 1, 1, 1, 1, 0], [0; 6]]));
}

#[test]
fn overlapping_triangle_middle_row_takes_all_edges() {
    let mut sprite = Sprite::<u8, 21, 2>::from_copies(0);
    let mut painter = Painter::new(&mut sprite);
    painter.draw(OverlappingTriangle::new([(0, 0), (10, 0), (20, 1)], overwrite(1u8)));
    for x in 0..21u32 {
        assert_eq!(sprite.pixel((x, 0)), Some(if x <= 14 { 1 } else { 0 }));
        assert_eq!(sprite.pixel((x, 1)), Some(if x >= 10 { 1 } else { 0 }));
    }
}

#[test]
fn reversed_range_draws_nothing() {
    let mut painter = Painter::new(Sprite::<u8, 8, 1>::from_copies(0));
    {
        let mut region = DrawRegion { painter: &mut painter };
        region.horizontal_line(5..3, 0, &overwrite(1));
        region.horizontal_line(3..3, 0, &overwrite(1));
    }
    assert_eq!(painter.into_target().into_owned(), [[0; 8]]);
}

#[test]
fn compute_reaches_every_pixel_with_offset() {
    let sprite = Sprite::<(i32, i32), 3, 2>::from_copies((0, 0));
    let mut painter = Painter::new(sprite).with_offset((-4, 7));
    painter.draw(Compute::new(&|position: (i32, i32), _: (i32, i32)| position));
    let sprite = painter.into_target();
    assert_eq!(sprite.into_owned(), [[(4, -7), (5, -7), (6, -7)], [(4, -6), (5, -6), (6, -6)]]);
}

#[test]
fn rectangles() {
    let mut sprite = Sprite::<u8, 16, 8>::from_copies(b' ');
    let mut painter = Painter::new(&mut sprite);

    let delta = b'#' - b' ';
    let add = |v| v + delta;
    let rectangle = OutlineRectangle::new((14, 1), (1, 6), apply(&add));
    painter.draw(rectangle);

    let rectangle = FilledRectangle::new((3, 3), (12, 4), overwrite(b'+'));
    painter.draw(rectangle);

    let raw = [
        b"                ",
        b" ############## ",
        b" #            # ",
        b" # ++++++++++ # ",
        b" # ++++++++++ # ",
        b" #            # ",
        b" ############## ",
        b"                ",
    ];
    let expected = Sprite::from_raw(raw.map(Clone::clone));
    assert_eq!(sprite, expected);
}

#[test]
fn outline_draws_border_once_usage_example() {
    let mut sprite = Sprite::<u8, 16, 11>::from_copies(b' ');
    let mut painter = Painter::new(&mut sprite);

    {
        let delta = b'#' - b' ';
        let add = |v| v + delta;
        painter.draw(OutlineRectangle::new((14, 1), (1, 9), apply(&add)));
    }
    painter.draw(FilledRectangle::new((3, 3), (12, 7), overwrite(b'+')));
    painter.draw(Line::new((3, 3), (12, 7), overwrite(b'o')));

    let raw = [
        b"                ",
        b" ############## ",
        b" #            # ",
        b" # oo++++++++ # ",
        b" # ++oo++++++ # ",
        b" # ++++oo++++ # ",
        b" # ++++++oo++ # ",
        b" # ++++++++oo # ",
        b" #            # ",
        b" ############## ",
        b"                ",
    ];
    let expected = Sprite::from_raw(raw.map(Clone::clone));
    assert_eq!(sprite, expected);
}

#[test]
fn outline_of_thin_rectangles() {
    let mut sprite = Sprite::<u8, 5, 4>::from_copies(0);
    let mut painter = Painter::new(&mut sprite);
    painter.draw(OutlineRectangle::new((1, 0), (1, 3), apply(&|v: u8| v + 1)));
    painter.draw(OutlineRectangle::new((0, 2), (4, 2), apply(&|v: u8| v + 1)));
    assert_eq!(sprite.into_owned(), [[0, 1, 0, 0, 0], [0, 1, 0, 0, 0], [1, 2, 1, 1, 1], [0, 1, 0, 0, 0]]);
}

#[test]
fn line_inside_image_covers_its_endpoints() {
    let mut sprite = Sprite::<u8, 8, 8>::from_copies(0);
    let mut painter = Painter::new(&mut sprite);
    painter.draw(Line::new((1, 1), (6, 4), overwrite(1)));
    painter.draw(Line::new((7, 2), (2, 7), overwrite(2)));
    assert_eq!(sprite.pixel((1, 1)), Some(1));
    assert_eq!(sprite.pixel((6, 4)), Some(1));
    assert_eq!(sprite.pixel((7, 2)), Some(2));
    assert_eq!(sprite.pixel((2, 7)), Some(2));
}

#[test]
fn line_entering_from_first_column_reaches_its_end() {
    let mut sprite = Sprite::<u8, 16, 16>::from_copies(0);
    let mut painter = Painter::new(&mut sprite);
    painter.draw(Line::new((0, 0), (5, 5), overwrite(1)));
    assert_eq!(sprite.pixel((0, 0)), Some(1));
    assert_eq!(sprite.pixel((4, 4)), Some(1));
    assert_eq!(sprite.pixel((5, 5)), Some(1));
    let mut reversed = Sprite::<u8, 16, 16>::from_copies(0);
    Painter::new(&mut reversed).draw(Line::new((5, 5), (0, 0), overwrite(1)));
    assert_eq!(sprite, reversed);
}

#[test]
fn tiling_triangles_sharing_a_steep_edge_can_meet_on_a_pixel() {
    let mut sprite = Sprite::<u8, 8, 24>::from_copies(0);
    let mut painter = Painter::new(&mut sprite);
    let increment = |v: u8| v + 1;
    painter.draw(TilingTriangle::new([(4, 2), (3, 13), (5, 13)], apply(&increment)));
    painter.draw(TilingTriangle::new([(4, 2), (3, 13), (2, 22)], apply(&increment)));
    assert_eq!(sprite.pixel((4, 8)), Some(2));
}

#[test]
fn drawing_through_views_leaves_the_rest_alone() {
    let sprite = Sprite::<u8, 8, 8>::from_copies(0);
    let cropped = Cropped::new(Shifted::new(sprite, (1, 1)), (6, 6));
    let mut painter = Painter::new(cropped);
    painter.draw(Compute::new(&|(x, y): (i32, i32), _: u8| x as u8 + y as u8));
    let sprite = painter.into_target().into_owned().into_owned();
    for y in 0..8u32 {
        for x in 0..8u32 {
            let expected = if (1..=6).contains(&x) && (1..=6).contains(&y) { (x - 1 + y - 1) as u8 } else { 0 };
            assert_eq!(sprite.pixel((x, y)), Some(expected));
        }
    }
}
