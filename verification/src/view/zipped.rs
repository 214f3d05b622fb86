//! The [`Zipped`] view allows to zip two [`Image`s](`Image`) together for
//! read operations.
use vstd::prelude::*;

use crate::image::{Dimensions, Image};
use crate::view::cropped::min_u32;

verus! {

/// The view that zips two [`Image`s](`Image`).
pub struct Zipped<A, B> {
    first: A,
    second: B,
}

impl<A, B> Zipped<A, B> {
    /// The first image.
    pub closed spec fn spec_first(&self) -> A {
        self.first
    }

    /// The second image.
    pub closed spec fn spec_second(&self) -> B {
        self.second
    }

    /// Create new instance provided two [`Image`s](`Image`).
    pub fn new(first: A, second: B) -> (zipped: Self)
        ensures
            zipped.spec_first() == first,
            zipped.spec_second() == second,
    {
        Self { first, second }
    }

    /// Extract stored values.
    pub fn into_owned(self) -> (images: (A, B))
        ensures
            images == (self.spec_first(), self.spec_second()),
    {
        (self.first, self.second)
    }
}

impl<A: Dimensions, B: Dimensions> Dimensions for Zipped<A, B> {
    open spec fn spec_dimensions(&self) -> (u32, u32) {
        let first = self.spec_first().spec_dimensions();
        let second = self.spec_second().spec_dimensions();
        (min_u32(first.0, second.0), min_u32(first.1, second.1))
    }

    fn dimensions(&self) -> (dimensions: (u32, u32)) {
        let (first_width, first_height) = self.first.dimensions();
        let (second_width, second_height) = self.second.dimensions();
        (
            if first_width <= second_width { first_width } else { second_width },
            if first_height <= second_height { first_height } else { second_height },
        )
    }
}

impl<A: Image, B: Image> Image for Zipped<A, B> {
    type Pixel = (A::Pixel, B::Pixel);

    open spec fn keeps_hidden(&self, earlier: Self) -> bool {
        &&& self.spec_first().keeps_hidden(earlier.spec_first())
        &&& self.spec_second().keeps_hidden(earlier.spec_second())
    }

    proof fn lemma_keeps_hidden(first: Self, second: Self, third: Self) {
        A::lemma_keeps_hidden(first.spec_first(), second.spec_first(), third.spec_first());
        B::lemma_keeps_hidden(first.spec_second(), second.spec_second(), third.spec_second());
    }

    open spec fn spec_pixel(&self, position: (u32, u32)) -> Option<(A::Pixel, B::Pixel)> {
        match (self.spec_first().spec_pixel(position), self.spec_second().spec_pixel(position)) {
            (Some(a), Some(b)) => Some((a, b)),
            _ => None,
        }
    }

    fn pixel(&self, position: (u32, u32)) -> (pixel: Option<(A::Pixel, B::Pixel)>) {
        match (self.first.pixel(position), self.second.pixel(position)) {
            (Some(a), Some(b)) => Some((a, b)),
            _ => None,
        }
    }

    proof fn lemma_pixel_within(&self, position: (u32, u32)) {
        self.spec_first().lemma_pixel_within(position);
        self.spec_second().lemma_pixel_within(position);
    }
}

} // verus!
