//! The [`Cropped`] view reduces the available dimensions of the [`Dimensions`]
//! target stored in it.
use vstd::prelude::*;

use crate::image::{rewritten, within, Dimensions, Image, ImageMut};
use crate::strategy::Strategy;

verus! {

/// The view to reduce dimensions.
///
/// Provides both mutable and immutable operations.
pub struct Cropped<T> {
    dimensions: (u32, u32),
    target: T,
}

impl<T> Cropped<T> {
    /// The dimensions the view is cropped to.
    pub closed spec fn spec_crop(&self) -> (u32, u32) {
        self.dimensions
    }

    /// The stored target.
    pub closed spec fn spec_target(&self) -> T {
        self.target
    }

    /// Create a new instance with dimensions to be less or equal to provided.
    pub fn new(target: T, dimensions: (u32, u32)) -> (cropped: Self)
        ensures
            cropped.spec_target() == target,
            cropped.spec_crop() == dimensions,
    {
        Self { dimensions, target }
    }

    /// Extract stored `target` value.
    pub fn into_owned(self) -> (target: T)
        ensures
            target == self.spec_target(),
    {
        self.target
    }
}

/// The position itself if it lies within the cropped dimensions.
fn crop_position(dimensions: (u32, u32), position: (u32, u32)) -> (cropped: Option<(u32, u32)>)
    ensures
        cropped == if within(position, dimensions) {
            Some(position)
        } else {
            None
        },
{
    let (cropped_width, cropped_height) = dimensions;
    let (x, y) = position;
    if x >= cropped_width || y >= cropped_height {
        return None;
    }
    Some((x, y))
}

/// The smaller of two values.
pub open spec fn min_u32(a: u32, b: u32) -> u32 {
    if a <= b {
        a
    } else {
        b
    }
}

impl<T: Dimensions> Dimensions for Cropped<T> {
    open spec fn spec_dimensions(&self) -> (u32, u32) {
        let target = self.spec_target().spec_dimensions();
        let crop = self.spec_crop();
        (min_u32(target.0, crop.0), min_u32(target.1, crop.1))
    }

    fn dimensions(&self) -> (dimensions: (u32, u32)) {
        let (target_width, target_height) = self.target.dimensions();
        let (cropped_width, cropped_height) = self.dimensions;
        (
            if target_width <= cropped_width { target_width } else { cropped_width },
            if target_height <= cropped_height { target_height } else { cropped_height },
        )
    }
}

impl<T: Image> Image for Cropped<T> {
    type Pixel = T::Pixel;

    open spec fn keeps_hidden(&self, earlier: Self) -> bool {
        &&& self.spec_crop() == earlier.spec_crop()
        &&& self.spec_target().keeps_hidden(earlier.spec_target())
        &&& forall|q: (u32, u32)|
            !within(q, self.spec_crop()) ==> #[trigger] self.spec_target().spec_pixel(q) == earlier.spec_target().spec_pixel(q)
    }

    proof fn lemma_keeps_hidden(first: Self, second: Self, third: Self) {
        T::lemma_keeps_hidden(first.spec_target(), second.spec_target(), third.spec_target());
    }

    open spec fn spec_pixel(&self, position: (u32, u32)) -> Option<T::Pixel> {
        if within(position, self.spec_crop()) {
            self.spec_target().spec_pixel(position)
        } else {
            None
        }
    }

    fn pixel(&self, position: (u32, u32)) -> (pixel: Option<T::Pixel>) {
        match crop_position(self.dimensions, position) {
            Some(position) => self.target.pixel(position),
            None => None,
        }
    }

    proof fn lemma_pixel_within(&self, position: (u32, u32)) {
        self.spec_target().lemma_pixel_within(position);
    }
}

impl<T, W> ImageMut<W> for Cropped<T> where T: ImageMut<W>, W: Strategy<T::Pixel> {
    fn write_pixel(&mut self, position: (u32, u32), writer: &W)
        ensures
            (*final(self)).spec_crop() == (*old(self)).spec_crop(),
            (*final(self)).spec_target().spec_dimensions() == (*old(self)).spec_target().spec_dimensions(),
            forall|q: (u32, u32)|
                !within(q, (*old(self)).spec_crop()) ==> #[trigger] (*final(self)).spec_target().spec_pixel(q)
                    == (*old(self)).spec_target().spec_pixel(q),
    {
        proof {
            T::lemma_keeps_hidden(self.target, self.target, self.target);
        }
        if let Some(position) = crop_position(self.dimensions, position) {
            self.target.write_pixel(position, writer);
        }
    }

    fn write_horizontal_line(&mut self, position: (u32, u32), plus: u32, writer: &W)
        ensures
            (*final(self)).spec_crop() == (*old(self)).spec_crop(),
            (*final(self)).spec_target().spec_dimensions() == (*old(self)).spec_target().spec_dimensions(),
            forall|q: (u32, u32)|
                !within(q, (*old(self)).spec_crop()) ==> #[trigger] (*final(self)).spec_target().spec_pixel(q)
                    == (*old(self)).spec_target().spec_pixel(q),
    {
        proof {
            T::lemma_keeps_hidden(self.target, self.target, self.target);
        }
        let cropped_width = self.dimensions.0;
        if let Some((x, y)) = crop_position(self.dimensions, position) {
            let plus = if x as u64 + plus as u64 >= cropped_width as u64 {
                cropped_width - x
            } else {
                plus
            };
            self.target.write_horizontal_line((x, y), plus, writer);
        }
    }

    fn write(&mut self, writer: &W)
        ensures
            (*final(self)).spec_crop() == (*old(self)).spec_crop(),
            (*final(self)).spec_target().spec_dimensions() == (*old(self)).spec_target().spec_dimensions(),
            forall|q: (u32, u32)|
                !within(q, (*old(self)).spec_crop()) ==> #[trigger] (*final(self)).spec_target().spec_pixel(q)
                    == (*old(self)).spec_target().spec_pixel(q),
    {
        proof {
            T::lemma_keeps_hidden(self.target, self.target, self.target);
        }
        let (cropped_width, cropped_height) = self.dimensions;
        let ghost before = self.target;
        let mut y: u32 = 0;
        while y < cropped_height
            invariant
                y <= cropped_height,
                self.dimensions == (cropped_width, cropped_height),
                writer.ready(),
                self.target.keeps_hidden(before),
                self.target.spec_dimensions() == before.spec_dimensions(),
                forall|q: (u32, u32)|
                    if q.0 < cropped_width && q.1 < y {
                        rewritten(*writer, before.spec_pixel(q), #[trigger] self.target.spec_pixel(q))
                    } else {
                        self.target.spec_pixel(q) == before.spec_pixel(q)
                    },
            decreases cropped_height - y,
        {
            let ghost middle = self.target;
            self.target.write_horizontal_line((0, y), cropped_width, writer);
            proof {
                T::lemma_keeps_hidden(before, middle, self.target);
            }
            y = y + 1;
        }
    }
}

/// Cropping to dimensions no smaller than the target's changes nothing.
pub proof fn law_crop_to_larger<T: Image>(view: Cropped<T>, position: (u32, u32))
    requires
        view.spec_crop().0 >= view.spec_target().spec_dimensions().0,
        view.spec_crop().1 >= view.spec_target().spec_dimensions().1,
    ensures
        view.spec_pixel(position) == view.spec_target().spec_pixel(position),
        view.spec_dimensions() == view.spec_target().spec_dimensions(),
{
    view.spec_target().lemma_pixel_within(position);
}

/// Cropping a cropped target reads as cropping the target once to the
/// smaller of both crops.
pub proof fn law_crop_twice<T: Image>(outer: Cropped<Cropped<T>>, once: Cropped<T>, position: (u32, u32))
    requires
        outer.spec_target().spec_target() == once.spec_target(),
        once.spec_crop() == (
            min_u32(outer.spec_crop().0, outer.spec_target().spec_crop().0),
            min_u32(outer.spec_crop().1, outer.spec_target().spec_crop().1),
        ),
    ensures
        outer.spec_pixel(position) == once.spec_pixel(position),
        outer.spec_dimensions() == once.spec_dimensions(),
{
}

} // verus!
