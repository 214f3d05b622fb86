//! Pixel storage abstractions.
//!
//! An image is modelled by its dimensions and by the pixel that a read at each
//! position gives back (`None` where there is no pixel). A readable pixel
//! always lies within the dimensions.
use vstd::prelude::*;

use crate::strategy::{Apply, Overwrite, Strategy};

pub mod bitvec_adapter;
pub mod slice_based;
pub mod sprite;

verus! {

/// Whether `position` lies within `dimensions`.
pub open spec fn within(position: (u32, u32), dimensions: (u32, u32)) -> bool {
    position.0 < dimensions.0 && position.1 < dimensions.1
}

/// Whether `position` lies on the horizontal line of `total` pixels that starts
/// at `start`.
pub open spec fn on_line(position: (u32, u32), start: (u32, u32), total: u32) -> bool {
    position.1 == start.1 && start.0 <= position.0 && position.0 < start.0 + total
}

/// Whether a pixel went from `before` to `after` by one application of
/// `writer`: a missing pixel stays missing, a present one is rewritten.
pub open spec fn rewritten<P, W: Strategy<P>>(writer: W, before: Option<P>, after: Option<P>) -> bool {
    match before {
        None => after is None,
        Some(b) => match after {
            Some(a) => writer.spec_produces(b, a),
            None => false,
        },
    }
}

/// `n` truncated to its low 32 bits, as `n as u32` does.
pub fn truncate_to_u32(n: usize) -> (r: u32)
    ensures
        r == n as u32,
        r == (n as int) % 0x1_0000_0000int,
        r <= n,
        n <= u32::MAX ==> r == n,
{
    proof {
        lemma_truncate(n);
    }
    n as u32
}

/// A length truncated to 32 bits is the length modulo 2^32, and never exceeds
/// it.
pub proof fn lemma_truncate(n: usize)
    ensures
        (n as u32) <= n,
        (n as u32) == (n as int) % 0x1_0000_0000int,
        n <= u32::MAX ==> (n as u32) == n,
{
    assert((n as u32) <= n) by (bit_vector);
    assert((n as u32) as u64 == (n as u64) % 0x1_0000_0000u64) by (bit_vector);
    assert(n <= u32::MAX ==> (n as u32) == n) by (bit_vector);
}

/// Something that has width and height.
pub trait Dimensions {
    /// The width and height.
    spec fn spec_dimensions(&self) -> (u32, u32);

    /// Get width and height.
    fn dimensions(&self) -> (dimensions: (u32, u32))
        ensures
            dimensions == self.spec_dimensions(),
    ;
}

impl<T: Dimensions> Dimensions for &T {
    open spec fn spec_dimensions(&self) -> (u32, u32) {
        (**self).spec_dimensions()
    }

    fn dimensions(&self) -> (dimensions: (u32, u32)) {
        (**self).dimensions()
    }
}

impl<T: Dimensions> Dimensions for &mut T {
    open spec fn spec_dimensions(&self) -> (u32, u32) {
        (**self).spec_dimensions()
    }

    fn dimensions(&self) -> (dimensions: (u32, u32)) {
        (**self).dimensions()
    }
}

/// A pixel container that may return pixel at given coordinates.
///
/// It is considered a good practice to return `Some` pixel for every position
/// inside dimensions; a pixel outside the dimensions is never returned.
pub trait Image: Dimensions + Sized {
    /// Stored pixel data.
    type Pixel;

    /// The pixel that a read at `position` gives.
    spec fn spec_pixel(&self, position: (u32, u32)) -> Option<Self::Pixel>;

    /// Try reading a pixel given its coordinates.
    fn pixel(&self, position: (u32, u32)) -> (pixel: Option<Self::Pixel>)
        ensures
            pixel == self.spec_pixel(position),
    ;

    /// A readable pixel lies within the dimensions.
    proof fn lemma_pixel_within(&self, position: (u32, u32))
        ensures
            self.spec_pixel(position) is Some ==> within(position, self.spec_dimensions()),
    ;

    /// Whether this image, as a later state of `earlier`, still holds what
    /// `earlier` holds beyond the pixels a read of it shows: for a view, the
    /// part of its target that it does not show.
    spec fn keeps_hidden(&self, earlier: Self) -> bool;

    /// Keeping what is hidden is reflexive and transitive.
    proof fn lemma_keeps_hidden(first: Self, second: Self, third: Self)
        ensures
            first.keeps_hidden(first),
            third.keeps_hidden(second) && second.keeps_hidden(first) ==> third.keeps_hidden(first),
    ;
}

impl<T: Image> Image for &T {
    type Pixel = T::Pixel;

    open spec fn keeps_hidden(&self, earlier: Self) -> bool {
        (**self).keeps_hidden(*earlier)
    }

    proof fn lemma_keeps_hidden(first: Self, second: Self, third: Self) {
        T::lemma_keeps_hidden(*first, *second, *third);
    }

    open spec fn spec_pixel(&self, position: (u32, u32)) -> Option<T::Pixel> {
        (**self).spec_pixel(position)
    }

    fn pixel(&self, position: (u32, u32)) -> (pixel: Option<T::Pixel>) {
        (**self).pixel(position)
    }

    proof fn lemma_pixel_within(&self, position: (u32, u32)) {
        (**self).lemma_pixel_within(position);
    }
}

impl<T: Image> Image for &mut T {
    type Pixel = T::Pixel;

    open spec fn keeps_hidden(&self, earlier: Self) -> bool {
        (**self).keeps_hidden(*earlier)
    }

    proof fn lemma_keeps_hidden(first: Self, second: Self, third: Self) {
        T::lemma_keeps_hidden(*first, *second, *third);
    }

    open spec fn spec_pixel(&self, position: (u32, u32)) -> Option<T::Pixel> {
        (**self).spec_pixel(position)
    }

    fn pixel(&self, position: (u32, u32)) -> (pixel: Option<T::Pixel>) {
        (**self).pixel(position)
    }

    proof fn lemma_pixel_within(&self, position: (u32, u32)) {
        (**self).lemma_pixel_within(position);
    }
}

/// A pixel container providing pixel modification operations.
///
/// A write changes exactly the readable pixels at the positions it names, each
/// by one application of the writer; a position without a pixel is skipped
/// silently; nothing that a read does not show changes.
pub trait ImageMut<W>: Image where W: Strategy<<Self as Image>::Pixel> {
    /// Write pixel at the given `position`.
    fn write_pixel(&mut self, position: (u32, u32), writer: &W)
        requires
            writer.ready(),
        ensures
            (*final(self)).spec_dimensions() == (*old(self)).spec_dimensions(),
            (*final(self)).keeps_hidden(*old(self)),
            forall|q: (u32, u32)|
                if q == position {
                    rewritten(*writer, (*old(self)).spec_pixel(q), #[trigger] (*final(self)).spec_pixel(q))
                } else {
                    (*final(self)).spec_pixel(q) == (*old(self)).spec_pixel(q)
                },
    ;

    /// Write a `total` amount of pixels starting at the given `position`.
    fn write_horizontal_line(&mut self, position: (u32, u32), total: u32, writer: &W)
        requires
            writer.ready(),
        ensures
            (*final(self)).spec_dimensions() == (*old(self)).spec_dimensions(),
            (*final(self)).keeps_hidden(*old(self)),
            forall|q: (u32, u32)|
                if on_line(q, position, total) {
                    rewritten(*writer, (*old(self)).spec_pixel(q), #[trigger] (*final(self)).spec_pixel(q))
                } else {
                    (*final(self)).spec_pixel(q) == (*old(self)).spec_pixel(q)
                },
    ;

    /// Write to every pixel.
    fn write(&mut self, writer: &W)
        requires
            writer.ready(),
        ensures
            (*final(self)).spec_dimensions() == (*old(self)).spec_dimensions(),
            (*final(self)).keeps_hidden(*old(self)),
            forall|q: (u32, u32)|
                rewritten(*writer, (*old(self)).spec_pixel(q), #[trigger] (*final(self)).spec_pixel(q)),
    ;
}

impl<T, W> ImageMut<W> for &mut T where T: ImageMut<W>, W: Strategy<T::Pixel> {
    fn write_pixel(&mut self, position: (u32, u32), writer: &W) {
        (**self).write_pixel(position, writer);
    }

    fn write_horizontal_line(&mut self, position: (u32, u32), total: u32, writer: &W) {
        (**self).write_horizontal_line(position, total, writer);
    }

    fn write(&mut self, writer: &W) {
        (**self).write(writer);
    }
}

/// An [`ImageMut`] that supports both [`Overwrite`] and [`Apply`] operations.
pub trait ImageMutFull<'a, P, F>: Image<Pixel = P> + ImageMut<Overwrite<P>> + ImageMut<Apply<'a, P, F>> where
    P: Copy,
    F: Fn(P) -> P + 'a,
 {

}

impl<'a, T, P, F> ImageMutFull<'a, P, F> for T where
    T: Image<Pixel = P> + ImageMut<Overwrite<P>> + ImageMut<Apply<'a, P, F>>,
    P: Copy,
    F: Fn(P) -> P + 'a,
 {

}

} // verus!
