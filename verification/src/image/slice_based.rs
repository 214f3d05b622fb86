//! A slice-based pixel storage.
//!
//! Uses a vector of pixels laid out row after row as pixel storage.
use vstd::prelude::*;

use crate::image::{on_line, rewritten, truncate_to_u32, within, Dimensions, Image, ImageMut};
use crate::strategy::Strategy;

verus! {

/// Slice-based storage for pixels.
///
/// The pixel at `(x, y)` is stored at index `x + y * width`.
#[derive(Clone, Debug, PartialEq, Eq, PartialOrd, Ord, Hash)]
pub struct SliceBased<P> {
    data: Vec<P>,
    width: u32,
    height: u32,
}

/// The length of `data` as a `u32`, that is, truncated to 32 bits.
pub open spec fn length_u32<P>(data: Seq<P>) -> int {
    (data.len() as int) % 0x1_0000_0000int
}

/// Whether `length` is a multiple of `width`; zero is the only multiple of
/// zero.
pub open spec fn multiple_of(length: int, width: int) -> bool {
    if width == 0 {
        length == 0
    } else {
        length % width == 0
    }
}

/// The number of rows of `width` that `length` pixels fill: none when the
/// width is zero.
pub open spec fn rows_of(length: int, width: int) -> int {
    if width == 0 {
        0
    } else {
        length / width
    }
}

/// The index at which the pixel at `(x, y)` is stored.
pub open spec fn index_of(x: int, y: int, width: int) -> int {
    x + y * width
}

/// The positions of a row map to consecutive indices, and rows follow each
/// other.
pub(crate) proof fn lemma_index_bounds(x: int, y: int, width: int, height: int)
    requires
        0 <= x < width,
        0 <= y < height,
    ensures
        y * width <= index_of(x, y, width) < (y + 1) * width,
        (y + 1) * width <= height * width,
        0 <= index_of(x, y, width) < width * height,
{
    assert((y + 1) * width <= height * width) by (nonlinear_arith)
        requires
            y + 1 <= height,
            0 < width,
    ;
    assert((y + 1) * width == y * width + width) by (nonlinear_arith);
    assert(height * width == width * height) by (nonlinear_arith);
    assert(0 <= y * width) by (nonlinear_arith)
        requires
            0 <= y,
            0 < width,
    ;
}

/// Two positions within a row width share an index only if they are equal.
pub(crate) proof fn lemma_index_injective(x1: int, y1: int, x2: int, y2: int, width: int)
    requires
        0 <= x1 < width,
        0 <= x2 < width,
        0 <= y1,
        0 <= y2,
    ensures
        index_of(x1, y1, width) == index_of(x2, y2, width) ==> x1 == x2 && y1 == y2,
{
    if y1 < y2 {
        assert((y1 + 1) * width <= y2 * width) by (nonlinear_arith)
            requires
                y1 + 1 <= y2,
                0 < width,
        ;
        assert((y1 + 1) * width == y1 * width + width) by (nonlinear_arith);
    } else if y2 < y1 {
        assert((y2 + 1) * width <= y1 * width) by (nonlinear_arith)
            requires
                y2 + 1 <= y1,
                0 < width,
        ;
        assert((y2 + 1) * width == y2 * width + width) by (nonlinear_arith);
    }
}

/// The index at which the pixel at `(x, y)` is stored, computed without
/// overflow.
pub(crate) fn flat_index(x: u32, y: u32, width: u32) -> (index: u64)
    ensures
        index == index_of(x as int, y as int, width as int),
{
    assert(y as u64 * width as u64 <= 0xffff_fffe_0000_0001u64) by (nonlinear_arith)
        requires
            y <= 0xffff_ffffu32,
            width <= 0xffff_ffffu32,
    ;
    x as u64 + y as u64 * width as u64
}

impl<P> SliceBased<P> {
    /// The stored pixels.
    pub closed spec fn spec_data(&self) -> Seq<P> {
        self.data@
    }

    /// Width and height.
    pub closed spec fn spec_size(&self) -> (u32, u32) {
        (self.width, self.height)
    }

    /// Try constructing new instance using provided `data` and `width`.
    ///
    /// Returns `None` if `data`'s length (as a `u32`) is not a multiple of
    /// `width`; zero is the only multiple of zero, so empty data with width
    /// zero gives an empty image.
    pub fn new(data: Vec<P>, width: u32) -> (result: Option<Self>)
        ensures
            result is None <==> !multiple_of(length_u32(data@), width as int),
            result matches Some(image) ==> {
                &&& image.spec_data() == data@
                &&& image.spec_size() == (width, rows_of(length_u32(data@), width as int) as u32)
                &&& width * image.spec_size().1 == length_u32(data@)
            },
    {
        let len = truncate_to_u32(data.len());
        if width == 0 {
            if len == 0 {
                return Some(Self { data, width: 0, height: 0 });
            }
            return None;
        }
        if len % width != 0 {
            return None;
        }
        let height = len / width;
        assert(width * height == len) by (nonlinear_arith)
            requires
                width > 0,
                len % width == 0,
                height == len / width,
        ;
        Some(Self { data, width, height })
    }

    /// Extract stored `data`.
    pub fn to_owned(self) -> (data: Vec<P>)
        ensures
            data@ == self.spec_data(),
    {
        self.data
    }

    /// Get internal `data` as a reference.
    pub fn data(&self) -> (data: &[P])
        ensures
            data@ == self.spec_data(),
    {
        self.data.as_slice()
    }

    /// Get internal `data` as a mutable reference.
    pub fn data_mut(&mut self) -> (data: &mut [P])
        ensures
            data@ == old(self).spec_data(),
            final(self).spec_data() == final(data)@,
            final(self).spec_size() == old(self).spec_size(),
    {
        self.data.as_mut_slice()
    }
}

impl<P> Dimensions for SliceBased<P> {
    open spec fn spec_dimensions(&self) -> (u32, u32) {
        self.spec_size()
    }

    fn dimensions(&self) -> (dimensions: (u32, u32)) {
        (self.width, self.height)
    }
}

/// Whether index `j` is one of those a horizontal line of `total` pixels
/// from `position` writes in rows `width` pixels wide: from the position's
/// index up to the row's end or the line's end, whichever comes first.
pub open spec fn line_indices(position: (u32, u32), total: u32, width: u32, j: int) -> bool {
    let end_x = if position.0 + total < width {
        position.0 + total
    } else {
        width as int
    };
    index_of(position.0 as int, position.1 as int, width as int) <= j < index_of(end_x, position.1 as int, width as int)
}

impl<P: Copy> Image for SliceBased<P> {
    type Pixel = P;

    open spec fn keeps_hidden(&self, earlier: Self) -> bool {
        &&& self.spec_size() == earlier.spec_size()
        &&& self.spec_data().len() == earlier.spec_data().len()
    }

    proof fn lemma_keeps_hidden(first: Self, second: Self, third: Self) {

    }

    open spec fn spec_pixel(&self, position: (u32, u32)) -> Option<P> {
        let index = index_of(position.0 as int, position.1 as int, self.spec_size().0 as int);
        if within(position, self.spec_size()) && index < self.spec_data().len() {
            Some(self.spec_data()[index])
        } else {
            None
        }
    }

    fn pixel(&self, position: (u32, u32)) -> (pixel: Option<P>) {
        let (x, y) = position;
        if x >= self.width || y >= self.height {
            return None;
        }
        let index = flat_index(x, y, self.width);
        if index < self.data.len() as u64 {
            Some(self.data[index as usize])
        } else {
            None
        }
    }

    proof fn lemma_pixel_within(&self, position: (u32, u32)) {
    }
}

impl<P: Copy, S: Strategy<P>> ImageMut<S> for SliceBased<P> {
    fn write_pixel(&mut self, position: (u32, u32), writer: &S)
        ensures
            (*final(self)).spec_size() == (*old(self)).spec_size(),
            (*final(self)).spec_data().len() == (*old(self)).spec_data().len(),
            forall|j: int|
                0 <= j < (*old(self)).spec_data().len() ==> if within(position, (*old(self)).spec_size()) && j
                    == index_of(position.0 as int, position.1 as int, (*old(self)).spec_size().0 as int) {
                    writer.spec_produces((*old(self)).spec_data()[j], #[trigger] (*final(self)).spec_data()[j])
                } else {
                    (*final(self)).spec_data()[j] == (*old(self)).spec_data()[j]
                },
    {
        let (x, y) = position;
        if x < self.width && y < self.height {
            let index = flat_index(x, y, self.width);
            if index < self.data.len() as u64 {
                let value = writer.produce(self.data[index as usize]);
                self.data[index as usize] = value;
                assert forall|q: (u32, u32)|
                    if q == position {
                        rewritten(*writer, (*old(self)).spec_pixel(q), #[trigger] (*self).spec_pixel(q))
                    } else {
                        (*self).spec_pixel(q) == (*old(self)).spec_pixel(q)
                    } by {
                    if within(q, self.spec_size()) {
                        lemma_index_injective(q.0 as int, q.1 as int, x as int, y as int, self.width as int);
                    }
                }
            }
        }
    }

    fn write_horizontal_line(&mut self, position: (u32, u32), total: u32, writer: &S)
        ensures
            (*final(self)).spec_size() == (*old(self)).spec_size(),
            (*final(self)).spec_data().len() == (*old(self)).spec_data().len(),
            forall|j: int|
                0 <= j < (*old(self)).spec_data().len() ==> if within(position, (*old(self)).spec_size())
                    && line_indices(position, total, (*old(self)).spec_size().0, j) {
                    writer.spec_produces((*old(self)).spec_data()[j], #[trigger] (*final(self)).spec_data()[j])
                } else {
                    (*final(self)).spec_data()[j] == (*old(self)).spec_data()[j]
                },
    {
        let (x, y) = position;
        if x >= self.width || y >= self.height {
            return;
        }
        let start = flat_index(x, y, self.width);
        let sum = x as u64 + total as u64;
        let end_x: u32 = if sum < self.width as u64 { sum as u32 } else { self.width };
        let end = flat_index(end_x, y, self.width);
        let ghost before = self.data@;
        let ghost width = self.width as int;
        let mut i = start;
        while i < end
            invariant
                start <= i <= end,
                self.width == width,
                self.height == old(self).height,
                start == index_of(x as int, y as int, width),
                end == index_of(end_x as int, y as int, width),
                self.data@.len() == before.len(),
                writer.ready(),
                forall|j: int| 0 <= j < before.len() ==>
                    if start <= j < i {
                        writer.spec_produces(before[j], #[trigger] self.data@[j])
                    } else {
                        self.data@[j] == before[j]
                    },
            decreases end - i,
        {
            if i < self.data.len() as u64 {
                let value = writer.produce(self.data[i as usize]);
                self.data[i as usize] = value;
            }
            i = i + 1;
        }
        assert forall|q: (u32, u32)|
            if on_line(q, position, total) {
                rewritten(*writer, (*old(self)).spec_pixel(q), #[trigger] (*self).spec_pixel(q))
            } else {
                (*self).spec_pixel(q) == (*old(self)).spec_pixel(q)
            } by {
            if within(q, self.spec_size()) {
                lemma_index_bounds(q.0 as int, q.1 as int, width, self.height as int);
                lemma_index_bounds(x as int, y as int, width, self.height as int);
                if q.1 < y {
                    assert((q.1 + 1) * width <= y * width) by (nonlinear_arith)
                        requires
                            q.1 + 1 <= y,
                            0 < width,
                    ;
                } else if q.1 > y {
                    assert((y + 1) * width <= q.1 * width) by (nonlinear_arith)
                        requires
                            y + 1 <= q.1,
                            0 < width,
                    ;
                }
                assert((y + 1) * width == y * width + width) by (nonlinear_arith);
            }
        }
    }

    fn write(&mut self, writer: &S)
        ensures
            (*final(self)).spec_size() == (*old(self)).spec_size(),
            (*final(self)).spec_data().len() == (*old(self)).spec_data().len(),
            forall|j: int|
                0 <= j < (*old(self)).spec_data().len() ==> writer.spec_produces(
                    (*old(self)).spec_data()[j],
                    #[trigger] (*final(self)).spec_data()[j],
                ),
    {
        let ghost before = self.data@;
        let mut i: usize = 0;
        while i < self.data.len()
            invariant
                0 <= i <= self.data@.len(),
                self.data@.len() == before.len(),
                self.width == old(self).width,
                self.height == old(self).height,
                writer.ready(),
                forall|j: int| 0 <= j < before.len() ==>
                    if j < i {
                        writer.spec_produces(before[j], #[trigger] self.data@[j])
                    } else {
                        self.data@[j] == before[j]
                    },
            decreases before.len() - i,
        {
            let value = writer.produce(self.data[i]);
            self.data[i] = value;
            i = i + 1;
        }
    }
}

} // verus!
