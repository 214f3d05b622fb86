use ugly_graphics::image::sprite::Sprite;
use ugly_graphics::image::{Dimensions, Image, ImageMut};
use ugly_graphics::operation::scanline::rectangle::filled::FilledRectangle;
use ugly_graphics::painter::Painter;
use ugly_graphics::strategy;
use ugly_graphics::view::cropped::Cropped;
use ugly_graphics::view::flipped::{Flip, Flipped};
use ugly_graphics::view::mapped::Mapped;
use ugly_graphics::view::rotated::{Rotated, Rotation};
use ugly_graphics::view::shifted::Shifted;
use ugly_graphics::view::zipped::Zipped;

#[test]
fn cropped_works() {
    let mut sprite = Sprite::<u8, 5, 4>::from_copies(0x01);
    let mut cropped = Cropped::new(&mut sprite, (4, 4));
    cropped.write(&strategy::apply(&|v| v + 0x01));

    assert!(cropped.pixel((3, 3)).is_some());
    assert!(cropped.pixel((4, 4)).is_none());

    cropped.write_pixel((3, 3), &strategy::overwrite(0xff));
    cropped.write_pixel((4, 4), &strategy::overwrite(0xff));
    cropped.write_horizontal_line((1, 1), 8, &strategy::overwrite(0x80));
    cropped.write_horizontal_line((0, 0), 2, &strategy::overwrite(0x40));

    let expected = Sprite::from_raw([
        [0x40, 0x40, 0x02, 0x02, 0x01],
        [0x02, 0x80, 0x80, 0x80, 0x01],
        [0x02, 0x02, 0x02, 0x02, 0x01],
        [0x02, 0x02, 0x02, 0xff, 0x01],
    ]);
    assert_eq!(sprite, expected);
}

#[test]
fn wide_set_in_cropped_works() {
    let mut sprite = Sprite::<u8, 5, 4>::from_copies(0x00);
    let mut cropped = Cropped::new(&mut sprite, (4, 4));
    cropped.write_horizontal_line((0, 1), 16, &strategy::overwrite(0x40));

    let expected = Sprite::from_raw([[0x00; 5], [0x40, 0x40, 0x40, 0x40, 0x00], [0x00; 5], [0x00; 5]]);
    assert_eq!(sprite, expected);
}

#[test]
fn cropped_to_larger_keeps_target_dimensions() {
    let sprite = Sprite::<u8, 3, 2>::from_copies(7);
    let cropped = Cropped::new(&sprite, (10, 1));
    assert_eq!(cropped.dimensions(), (3, 1));
    assert_eq!(cropped.pixel((2, 0)), Some(7));
    assert_eq!(cropped.pixel((2, 1)), None);
}

#[test]
fn flip_stores_sprite_ref_properly() {
    let sprite = Sprite::<u8, _, _>::from_raw([
        [0x00, 0x01, 0x02], //
        [0x10, 0x11, 0x12], //
    ]);
    let flipped = Flipped::horizontal(&sprite);

    assert_eq!(flipped.pixel((0, 0)), Some(0x02));
    assert_eq!(flipped.pixel((1, 1)), Some(0x11));
    assert_eq!(flipped.pixel((2, 2)), None);
}

#[test]
fn flip_stores_sprite_mut_properly() {
    let mut sprite = Sprite::<u8, _, _>::from_raw([
        [0x00, 0x01, 0x02], //
        [0x10, 0x11, 0x12], //
    ]);
    let flipped = Flipped::horizontal(&mut sprite);

    assert_eq!(flipped.pixel((0, 0)), Some(0x02));
    assert_eq!(flipped.pixel((1, 1)), Some(0x11));
    assert_eq!(flipped.pixel((2, 2)), None);
}

#[test]
fn flip_set_line_works_properly() {
    let mut sprite = Sprite::<u8, 4, 4>::from_copies(0x00);
    let flipped = Flipped::horizontal(&mut sprite);

    // A line starting left of the image is drawn through a painter, which
    // takes signed positions and clips them to the image.
    let mut painter = Painter::new(flipped);
    painter.draw(FilledRectangle::new((-2, 1), (1, 1), strategy::overwrite(0x20)));
    let mut flipped = painter.into_target();
    flipped.write_horizontal_line((2, 2), 4, &strategy::overwrite(0x30));
    flipped.write_horizontal_line((1, 3), 2, &strategy::overwrite(0x40));

    let expected = Sprite::from_raw([
        [0x00; 4],
        [0x00, 0x00, 0x20, 0x20],
        [0x30, 0x30, 0x00, 0x00],
        [0x00, 0x40, 0x40, 0x00],
    ]);

    assert_eq!(sprite, expected);
}

#[test]
fn vertical_flip_mirrors_rows() {
    let sprite = Sprite::<u8, 2, 3>::from_raw([[1, 2], [3, 4], [5, 6]]);
    let flipped = Flipped::vertical(&sprite);
    assert_eq!(flipped.dimensions(), (2, 3));
    assert_eq!(flipped.pixel((0, 0)), Some(5));
    assert_eq!(flipped.pixel((1, 2)), Some(2));
    let twice = Flipped::new(Flipped::new(&sprite, Flip::Vertical), Flip::Vertical);
    assert_eq!(twice.pixel((1, 0)), Some(2));
    assert_eq!(*twice.extract().extract(), sprite);
}

#[test]
fn rotated_stores_sprite_ref_properly() {
    let sprite = Sprite::<u8, _, _>::from_raw([
        [0x00, 0x01, 0x02], //
        [0x10, 0x11, 0x12], //
    ]);
    let rotated = Rotated::clockwise(&sprite);

    // A position left of the image cannot be written as a `u32`; the
    // farthest right column stands in for it.
    assert_eq!(rotated.pixel((u32::MAX, 2)), None);
    assert_eq!(rotated.pixel((0, 0)), Some(0x10));
    assert_eq!(rotated.pixel((1, 1)), Some(0x01));
    assert_eq!(rotated.pixel((2, 2)), None);
}

#[test]
fn rotated_stores_sprite_mut_properly() {
    let mut sprite = Sprite::<u8, _, _>::from_raw([
        [0x00, 0x01, 0x02], //
        [0x10, 0x11, 0x12], //
    ]);
    let rotated = Rotated::clockwise(&mut sprite);

    assert_eq!(rotated.pixel((u32::MAX, 2)), None);
    assert_eq!(rotated.pixel((0, 0)), Some(0x10));
    assert_eq!(rotated.pixel((1, 1)), Some(0x01));
    assert_eq!(rotated.pixel((2, 2)), None);
}

#[test]
fn rotation_back_and_forth_is_identity() {
    let sprite = Sprite::<u8, 3, 2>::from_raw([[0, 1, 2], [3, 4, 5]]);
    let counter = Rotated::counter_clockwise(&sprite);
    assert_eq!(counter.dimensions(), (2, 3));
    assert_eq!(counter.pixel((0, 0)), Some(2));
    let back = Rotated::new(Rotated::new(&sprite, Rotation::Clockwise), Rotation::CounterClockwise);
    assert_eq!(back.dimensions(), (3, 2));
    for y in 0..2 {
        for x in 0..3 {
            assert_eq!(back.pixel((x, y)), sprite.pixel((x, y)));
        }
    }
}

#[test]
fn modify_pixel_works_properly() {
    let mut sprite = Sprite::<u8, 4, 4>::from_copies(0x01);
    let mut shifted = Shifted::new(&mut sprite, (1, 2));
    let function = &|v| v + 1;
    shifted.write_pixel((2, 0), &strategy::apply(function));
    shifted.write_pixel((0, 1), &strategy::apply(function));

    let expected = Sprite::from_raw([
        [0x01; 4],
        [0x01; 4],
        [0x01, 0x01, 0x01, 0x02],
        [0x01, 0x02, 0x01, 0x01],
    ]);
    assert_eq!(sprite, expected);
}

#[test]
fn shifted_modify_works_properly() {
    let mut sprite = Sprite::<u8, 5, 6>::from_copies(0x01);
    let mut shifted = Shifted::new(&mut sprite, (2, 3));

    shifted.write(&strategy::apply(&|v| v + 1));

    let expected = Sprite::from_raw([
        [0x01; 5],
        [0x01; 5],
        [0x01; 5],
        [0x01, 0x01, 0x02, 0x02, 0x02],
        [0x01, 0x01, 0x02, 0x02, 0x02],
        [0x01, 0x01, 0x02, 0x02, 0x02],
    ]);

    assert_eq!(sprite, expected);
}

#[test]
fn shifted_view_is_smaller_and_clips() {
    let sprite = Sprite::<u8, 4, 3>::from_raw([[0, 1, 2, 3], [4, 5, 6, 7], [8, 9, 10, 11]]);
    let shifted = Shifted::new(&sprite, (1, 2));
    assert_eq!(shifted.dimensions(), (3, 1));
    assert_eq!(shifted.pixel((0, 0)), Some(9));
    assert_eq!(shifted.pixel((2, 0)), Some(11));
    assert_eq!(shifted.pixel((3, 0)), None);
    let far = Shifted::new(&sprite, (u32::MAX, 0));
    assert_eq!(far.dimensions(), (0, 3));
    assert_eq!(far.pixel((1, 0)), None);
    let none = Shifted::new(&sprite, (0, 0));
    assert_eq!(none.pixel((3, 2)), Some(11));
    assert_eq!(*none.into_owned(), sprite);
}

#[test]
fn zipped_zips_images() {
    let sprite = Sprite::from_raw([
        [0x00, 0x01, 0x02, 0x03],
        [0x10, 0x11, 0x12, 0x13],
        [0x20, 0x21, 0x22, 0x23],
        [0x30, 0x31, 0x32, 0x33],
    ]);
    let mask = Sprite::from_raw([[true, false, true], [false, true, false], [true, false, true]]);
    let zipped = Zipped::new(&sprite, &mask);

    assert_eq!(zipped.pixel((0, 0)), Some((0x00, true)));
    assert_eq!(zipped.pixel((1, 2)), Some((0x21, false)));
    assert_eq!(zipped.pixel((3, 1)), None);
    assert_eq!(zipped.dimensions(), (3, 3));
}

#[test]
fn mapped_applies_mapper_on_read() {
    let sprite = Sprite::<u8, 2, 2>::from_raw([[1, 2], [3, 4]]);
    let mapped = Mapped::new(&sprite, |v: u8| u16::from(v) * 100);
    assert_eq!(mapped.dimensions(), (2, 2));
    assert_eq!(mapped.pixel((1, 1)), Some(400));
    assert_eq!(mapped.pixel((2, 0)), None);
    assert_eq!(*mapped.into_owned(), sprite);
}
