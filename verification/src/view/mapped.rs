//! The [`Mapped`] view provides `mapper` application to the pixels being read.
use vstd::prelude::*;

use core::marker::PhantomData;

use crate::image::{Dimensions, Image};

verus! {

/// Whether `mapper` can be applied to every input and gives one output per
/// input.
pub open spec fn is_mapping<I, O, F: Fn(I) -> O>(mapper: F) -> bool {
    &&& forall|i: I| call_requires(mapper, (i,))
    &&& forall|i: I, a: O, b: O| call_ensures(mapper, (i,), a) && call_ensures(mapper, (i,), b) ==> a == b
}

/// The output of `mapper` on `input`.
pub open spec fn mapped<I, O, F: Fn(I) -> O>(mapper: F, input: I) -> O {
    choose|output: O| call_ensures(mapper, (input,), output)
}

/// The view that applies the `mapper` function to the pixels being read.
///
/// `O` is the type of the pixels that the view gives.
#[verifier::reject_recursive_types(O)]
#[verifier::reject_recursive_types(T)]
#[verifier::reject_recursive_types(F)]
pub struct Mapped<T: Image, F: Fn(T::Pixel) -> O, O> {
    mapper: F,
    target: T,
    output: PhantomData<O>,
}

impl<T: Image, F: Fn(T::Pixel) -> O, O> Mapped<T, F, O> {
    #[verifier::type_invariant]
    closed spec fn inv(self) -> bool {
        is_mapping::<T::Pixel, O, F>(self.mapper)
    }

    /// The function applied to the pixels.
    pub closed spec fn spec_mapper(&self) -> F {
        self.mapper
    }

    /// The stored target.
    pub closed spec fn spec_target(&self) -> T {
        self.target
    }

    /// Create new instance using the provided `mapper`, which must give one
    /// output for each input.
    pub fn new(target: T, mapper: F) -> (view: Self)
        requires
            is_mapping(mapper),
        ensures
            view.spec_target() == target,
            view.spec_mapper() == mapper,
    {
        Self { mapper, target, output: PhantomData }
    }

    /// Extract stored `target` value.
    pub fn into_owned(self) -> (target: T)
        ensures
            target == self.spec_target(),
    {
        self.target
    }
}

impl<T: Image, F: Fn(T::Pixel) -> O, O> Dimensions for Mapped<T, F, O> {
    open spec fn spec_dimensions(&self) -> (u32, u32) {
        self.spec_target().spec_dimensions()
    }

    fn dimensions(&self) -> (dimensions: (u32, u32)) {
        self.target.dimensions()
    }
}

impl<T: Image, F: Fn(T::Pixel) -> O, O> Image for Mapped<T, F, O> {
    type Pixel = O;

    open spec fn keeps_hidden(&self, earlier: Self) -> bool {
        &&& self.spec_mapper() == earlier.spec_mapper()
        &&& self.spec_target().keeps_hidden(earlier.spec_target())
    }

    proof fn lemma_keeps_hidden(first: Self, second: Self, third: Self) {
        T::lemma_keeps_hidden(first.spec_target(), second.spec_target(), third.spec_target());
    }

    open spec fn spec_pixel(&self, position: (u32, u32)) -> Option<O> {
        match self.spec_target().spec_pixel(position) {
            Some(pixel) => Some(mapped(self.spec_mapper(), pixel)),
            None => None,
        }
    }

    fn pixel(&self, position: (u32, u32)) -> (pixel: Option<O>) {
        proof {
            use_type_invariant(self);
        }
        match self.target.pixel(position) {
            Some(pixel) => {
                let output = (self.mapper)(pixel);
                Some(output)
            },
            None => None,
        }
    }

    proof fn lemma_pixel_within(&self, position: (u32, u32)) {
        self.spec_target().lemma_pixel_within(position);
    }
}

} // verus!
