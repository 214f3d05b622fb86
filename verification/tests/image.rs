use ugly_graphics::image::slice_based::SliceBased;
use ugly_graphics::image::sprite::Sprite;
use ugly_graphics::image::{Dimensions, Image, ImageMut};
use ugly_graphics::strategy;

#[test]
fn raw_access() {
    let data = vec![0x00u8; 256];
    let mut slice_based = SliceBased::new(data, 16).unwrap();

    slice_based.write(&strategy::overwrite(0x80));

    assert!(slice_based.data().iter().all(|v| *v == 0x80));
}

#[test]
fn horizontal_line_is_being_set_even_out_of_bounds() {
    let mut sprite = Sprite::<u8, 4, 3>::from_copies(0x00);
    sprite.write_horizontal_line((2, 1), 5, &strategy::overwrite(0xff));

    let expected = Sprite::from_raw([[0x00; 4], [0x00, 0x00, 0xff, 0xff], [0x00; 4]]);

    assert_eq!(sprite, expected);
}

#[test]
fn horizontal_line_is_being_set_properly() {
    let mut sprite = Sprite::<u8, 6, 3>::from_copies(0x00);
    sprite.write_horizontal_line((1, 1), 3, &strategy::overwrite(0x80));

    let expected = Sprite::from_raw([[0x00; 6], [0x00, 0x80, 0x80, 0x80, 0x00, 0x00], [0x00; 6]]);

    assert_eq!(sprite, expected);
}

#[test]
fn horizontal_line_is_being_modified_even_out_of_bounds() {
    let mut sprite = Sprite::<u8, 4, 3>::from_copies(0x00);
    sprite.write_horizontal_line((2, 1), 5, &strategy::apply(&|_| 0xff));

    let expected = Sprite::from_raw([[0x00; 4], [0x00, 0x00, 0xff, 0xff], [0x00; 4]]);

    assert_eq!(sprite, expected);
}

#[test]
fn horizontal_line_is_being_modified_properly() {
    let mut sprite = Sprite::<u8, 6, 3>::from_copies(0x00);
    sprite.write_horizontal_line((1, 1), 3, &strategy::apply(&|_| 0x80));

    let expected = Sprite::from_raw([[0x00; 6], [0x00, 0x80, 0x80, 0x80, 0x00, 0x00], [0x00; 6]]);

    assert_eq!(sprite, expected);
}

#[test]
fn slice_based_rejects_bad_shapes() {
    assert!(SliceBased::new(vec![0u8; 10], 0).is_none());
    assert!(SliceBased::new(vec![0u8; 10], 3).is_none());
    assert!(SliceBased::new(Vec::<u8>::new(), 4).is_some());
    let empty = SliceBased::new(Vec::<u8>::new(), 0).unwrap();
    assert_eq!(empty.dimensions(), (0, 0));
    assert_eq!(empty.pixel((0, 0)), None);
    let image = SliceBased::new(vec![0u8; 12], 4).unwrap();
    assert_eq!(image.dimensions(), (4, 3));
}

#[test]
fn slice_based_reads_row_major() {
    let image = SliceBased::new(vec![0u8, 1, 2, 3, 4, 5], 3).unwrap();
    assert_eq!(image.pixel((0, 0)), Some(0));
    assert_eq!(image.pixel((2, 0)), Some(2));
    assert_eq!(image.pixel((1, 1)), Some(4));
    assert_eq!(image.pixel((3, 0)), None);
    assert_eq!(image.pixel((0, 2)), None);
}

#[test]
fn slice_based_line_is_clipped_to_row() {
    let mut image = SliceBased::new(vec![0u8; 8], 4).unwrap();
    image.write_horizontal_line((2, 0), 10, &strategy::overwrite(7));
    image.write_pixel((9, 9), &strategy::overwrite(9));
    image.write_pixel((0, 1), &strategy::apply(&|v: u8| v + 3));
    assert_eq!(image.to_owned(), vec![0, 0, 7, 7, 3, 0, 0, 0]);
}

#[test]
fn sprite_pixel_reads_and_writes() {
    let mut sprite = Sprite::<u8, 3, 2>::from_raw([[1, 2, 3], [4, 5, 6]]);
    assert_eq!(sprite.dimensions(), (3, 2));
    assert_eq!(sprite.pixel((2, 1)), Some(6));
    assert_eq!(sprite.pixel((3, 1)), None);
    sprite.write_pixel((0, 1), &strategy::apply(&|v: u8| v * 10));
    sprite.write(&strategy::apply(&|v: u8| v + 1));
    assert_eq!(sprite.into_owned(), [[2, 3, 4], [41, 6, 7]]);
}
