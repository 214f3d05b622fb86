//! The [`Flipped`] view mirrors the stored target horizontally or vertically.
use vstd::prelude::*;

use crate::image::{on_line, rewritten, within, Dimensions, Image, ImageMut};
use crate::strategy::Strategy;

verus! {

/// The axis of a flip.
#[derive(Clone, Copy, Debug, PartialEq, Eq, Structural)]
pub enum Flip {
    /// Mirror left and right.
    Horizontal,
    /// Mirror top and bottom.
    Vertical,
}

/// The view that mirrors its target.
pub struct Flipped<T> {
    direction: Flip,
    target: T,
}

/// The target position seen at `position` through a flip over `dimensions`.
pub open spec fn flipped_position(direction: Flip, dimensions: (u32, u32), position: (u32, u32)) -> Option<(u32, u32)> {
    if within(position, dimensions) {
        match direction {
            Flip::Horizontal => Some(((dimensions.0 - 1 - position.0) as u32, position.1)),
            Flip::Vertical => Some((position.0, (dimensions.1 - 1 - position.1) as u32)),
        }
    } else {
        None
    }
}

fn transform(direction: Flip, dimensions: (u32, u32), position: (u32, u32)) -> (target: Option<(u32, u32)>)
    ensures
        target == flipped_position(direction, dimensions, position),
{
    let (width, height) = dimensions;
    let (x, y) = position;
    if x >= width || y >= height {
        return None;
    }
    match direction {
        Flip::Horizontal => Some((width - 1 - x, y)),
        Flip::Vertical => Some((x, height - 1 - y)),
    }
}

impl<T> Flipped<T> {
    /// The axis of the flip.
    pub closed spec fn spec_direction(&self) -> Flip {
        self.direction
    }

    /// The stored target.
    pub closed spec fn spec_target(&self) -> T {
        self.target
    }

    /// Create a new instance flipping `target` in the given `direction`.
    pub fn new(target: T, direction: Flip) -> (flipped: Self)
        ensures
            flipped.spec_target() == target,
            flipped.spec_direction() == direction,
    {
        Self { direction, target }
    }

    /// Create a new instance flipping `target` horizontally.
    pub fn horizontal(target: T) -> (flipped: Self)
        ensures
            flipped.spec_target() == target,
            flipped.spec_direction() == Flip::Horizontal,
    {
        let direction = Flip::Horizontal;
        Self { direction, target }
    }

    /// Create a new instance flipping `target` vertically.
    pub fn vertical(target: T) -> (flipped: Self)
        ensures
            flipped.spec_target() == target,
            flipped.spec_direction() == Flip::Vertical,
    {
        let direction = Flip::Vertical;
        Self { direction, target }
    }

    /// Extract stored `target` value.
    pub fn extract(self) -> (target: T)
        ensures
            target == self.spec_target(),
    {
        self.target
    }
}

impl<T: Dimensions> Dimensions for Flipped<T> {
    open spec fn spec_dimensions(&self) -> (u32, u32) {
        self.spec_target().spec_dimensions()
    }

    fn dimensions(&self) -> (dimensions: (u32, u32)) {
        self.target.dimensions()
    }
}

impl<T: Image> Image for Flipped<T> {
    type Pixel = T::Pixel;

    open spec fn keeps_hidden(&self, earlier: Self) -> bool {
        &&& self.spec_direction() == earlier.spec_direction()
        &&& self.spec_target().keeps_hidden(earlier.spec_target())
        &&& self.spec_target().spec_dimensions() == earlier.spec_target().spec_dimensions()
    }

    proof fn lemma_keeps_hidden(first: Self, second: Self, third: Self) {
        T::lemma_keeps_hidden(first.spec_target(), second.spec_target(), third.spec_target());
    }

    open spec fn spec_pixel(&self, position: (u32, u32)) -> Option<T::Pixel> {
        match flipped_position(self.spec_direction(), self.spec_target().spec_dimensions(), position) {
            Some(target_position) => self.spec_target().spec_pixel(target_position),
            None => None,
        }
    }

    fn pixel(&self, position: (u32, u32)) -> (pixel: Option<T::Pixel>) {
        match transform(self.direction, self.target.dimensions(), position) {
            Some(position) => self.target.pixel(position),
            None => None,
        }
    }

    proof fn lemma_pixel_within(&self, position: (u32, u32)) {
    }
}

impl<T, W> ImageMut<W> for Flipped<T> where T: ImageMut<W>, W: Strategy<T::Pixel> {
    fn write_pixel(&mut self, position: (u32, u32), writer: &W)
        ensures
            (*final(self)).spec_direction() == (*old(self)).spec_direction(),
            (*final(self)).spec_target().spec_dimensions() == (*old(self)).spec_target().spec_dimensions(),
            forall|q: (u32, u32)|
                !within(q, (*old(self)).spec_target().spec_dimensions()) ==> #[trigger] (*final(self)).spec_target().spec_pixel(q)
                    == (*old(self)).spec_target().spec_pixel(q),
    {
        proof {
            T::lemma_keeps_hidden(self.target, self.target, self.target);
        }
        let dimensions = self.target.dimensions();
        if let Some(target_position) = transform(self.direction, dimensions, position) {
            self.target.write_pixel(target_position, writer);
            assert forall|q: (u32, u32)|
                if q == position {
                    rewritten(*writer, (*old(self)).spec_pixel(q), #[trigger] (*self).spec_pixel(q))
                } else {
                    (*self).spec_pixel(q) == (*old(self)).spec_pixel(q)
                } by {
            }
        }
    }

    fn write_horizontal_line(&mut self, position: (u32, u32), total: u32, writer: &W)
        ensures
            (*final(self)).spec_direction() == (*old(self)).spec_direction(),
            (*final(self)).spec_target().spec_dimensions() == (*old(self)).spec_target().spec_dimensions(),
            forall|q: (u32, u32)|
                !within(q, (*old(self)).spec_target().spec_dimensions()) ==> #[trigger] (*final(self)).spec_target().spec_pixel(q)
                    == (*old(self)).spec_target().spec_pixel(q),
    {
        proof {
            T::lemma_keeps_hidden(self.target, self.target, self.target);
        }
        let (width, height) = self.target.dimensions();
        let (x, y) = position;
        if x >= width || y >= height {
            return;
        }
        let sum = x as u64 + total as u64;
        let end: u32 = if sum < width as u64 { sum as u32 } else { width };
        match self.direction {
            Flip::Horizontal => {
                self.target.write_horizontal_line((width - end, y), end - x, writer);
            },
            Flip::Vertical => {
                self.target.write_horizontal_line((x, height - 1 - y), total, writer);
            },
        }
        assert forall|q: (u32, u32)|
            !within(q, (*old(self)).spec_target().spec_dimensions()) implies #[trigger] self.target.spec_pixel(q)
                == (*old(self)).spec_target().spec_pixel(q) by {
            (*old(self)).spec_target().lemma_pixel_within(q);
            self.target.lemma_pixel_within(q);
        }
        assert forall|q: (u32, u32)|
            if on_line(q, position, total) {
                rewritten(*writer, (*old(self)).spec_pixel(q), #[trigger] (*self).spec_pixel(q))
            } else {
                (*self).spec_pixel(q) == (*old(self)).spec_pixel(q)
            } by {
        }
    }

    fn write(&mut self, writer: &W)
        ensures
            (*final(self)).spec_direction() == (*old(self)).spec_direction(),
            (*final(self)).spec_target().spec_dimensions() == (*old(self)).spec_target().spec_dimensions(),
            forall|q: (u32, u32)|
                !within(q, (*old(self)).spec_target().spec_dimensions()) ==> #[trigger] (*final(self)).spec_target().spec_pixel(q)
                    == (*old(self)).spec_target().spec_pixel(q),
    {
        proof {
            T::lemma_keeps_hidden(self.target, self.target, self.target);
        }
        let ghost before = self.target;
        self.target.write(writer);
        assert forall|q: (u32, u32)|
            !within(q, before.spec_dimensions()) implies #[trigger] self.target.spec_pixel(q) == before.spec_pixel(q) by {
            before.lemma_pixel_within(q);
            self.target.lemma_pixel_within(q);
        }
    }
}

/// Flipping twice in the same direction gives back what the target reads.
pub proof fn law_flip_twice<T: Image>(view: Flipped<Flipped<T>>, position: (u32, u32))
    requires
        view.spec_direction() == view.spec_target().spec_direction(),
    ensures
        view.spec_pixel(position) == view.spec_target().spec_target().spec_pixel(position),
{
    view.spec_target().spec_target().lemma_pixel_within(position);
}

} // verus!
