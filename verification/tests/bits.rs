use ugly_graphics::image::bitvec_adapter::{Adapter, Bits};
use ugly_graphics::image::{Dimensions, Image, ImageMut};
use ugly_graphics::operation::scanline::rectangle::filled::FilledRectangle;
use ugly_graphics::painter::Painter;
use ugly_graphics::strategy::{apply, overwrite};

#[test]
fn bits_round_trip() {
    let values = [true, false, false, true, true];
    let bits = Bits::from_bools(&values);
    assert_eq!(bits.len(), 5);
    assert_eq!(bits.to_bools(), values.to_vec());
    let ones = Bits::repeat(true, 3);
    assert_eq!(ones.to_bools(), vec![true, true, true]);
    assert_eq!(Bits::repeat(false, 0).len(), 0);
}

#[test]
fn adapter_checks_width() {
    let bits = Bits::repeat(false, 12);
    assert!(Adapter::new(&bits, 5).is_none());
    assert!(Adapter::new(&bits, 0).is_none());
    let adapter = Adapter::new(&bits, 4).unwrap();
    assert_eq!(adapter.dimensions(), (4, 3));
    let empty = Bits::repeat(false, 0);
    assert_eq!(Adapter::new(&empty, 3).unwrap().dimensions(), (3, 0));
    assert_eq!(Adapter::new(&empty, 0).unwrap().dimensions(), (0, 0));
}

#[test]
fn adapter_reads_rows_of_bits() {
    let bits = Bits::from_bools(&[true, false, false, false, true, true]);
    let adapter = Adapter::new(&bits, 3).unwrap();
    assert_eq!(adapter.pixel((0, 0)), Some(true));
    assert_eq!(adapter.pixel((1, 1)), Some(true));
    assert_eq!(adapter.pixel((0, 1)), Some(false));
    assert_eq!(adapter.pixel((3, 0)), None);
    assert_eq!(adapter.pixel((0, 2)), None);
}

#[test]
fn adapter_writes_bits() {
    let mut bits = Bits::repeat(false, 8);
    {
        let mut adapter = Adapter::new_mut(&mut bits, 4).unwrap();
        adapter.write_pixel((1, 0), &overwrite(true));
        adapter.write_pixel((7, 0), &overwrite(true));
        adapter.write_horizontal_line((2, 1), 10, &apply(&|v: bool| !v));
    }
    assert_eq!(bits.to_bools(), vec![false, true, false, false, false, false, true, true]);
    {
        let mut adapter = Adapter::new_mut(&mut bits, 4).unwrap();
        adapter.write(&apply(&|v: bool| !v));
    }
    assert_eq!(bits.to_bools(), vec![true, false, true, true, true, true, false, false]);
}

#[test]
fn painter_draws_on_bits() {
    let mut bits = Bits::repeat(false, 16);
    {
        let adapter = Adapter::new_mut(&mut bits, 4).unwrap();
        let mut painter = Painter::new(adapter).with_offset((2, 2));
        painter.draw(FilledRectangle::new((-1, -1), (0, 0), apply(&|v: bool| !v)));
    }
    let expected = [
        false, false, false, false, //
        false, true, true, false, //
        false, true, true, false, //
        false, false, false, false,
    ];
    assert_eq!(bits.to_bools(), expected.to_vec());
}
