//! The [`Rotated`] view turns the stored target by a quarter turn.
use vstd::prelude::*;

use crate::image::{within, Dimensions, Image};
use crate::view::flipped::{Flip, Flipped};

verus! {

/// The direction of a quarter turn.
#[derive(Clone, Copy, Debug, PartialEq, Eq, Structural)]
pub enum Rotation {
    /// A quarter turn clockwise.
    Clockwise,
    /// A quarter turn counter-clockwise.
    CounterClockwise,
}

/// The view that rotates its target.
pub struct Rotated<T> {
    rotation: Rotation,
    target: T,
}

/// The target position seen at `position` through a rotation of a target of
/// `dimensions`.
pub open spec fn rotated_position(rotation: Rotation, dimensions: (u32, u32), position: (u32, u32)) -> Option<(u32, u32)> {
    let (width, height) = dimensions;
    if within(position, (height, width)) {
        match rotation {
            Rotation::Clockwise => Some((position.1, (height - 1 - position.0) as u32)),
            Rotation::CounterClockwise => Some(((width - 1 - position.1) as u32, position.0)),
        }
    } else {
        None
    }
}

fn transform(rotation: Rotation, dimensions: (u32, u32), position: (u32, u32)) -> (target: Option<(u32, u32)>)
    ensures
        target == rotated_position(rotation, dimensions, position),
{
    let (width, height) = dimensions;
    let (x, y) = position;
    if x >= height || y >= width {
        return None;
    }
    match rotation {
        Rotation::Clockwise => Some((y, height - 1 - x)),
        Rotation::CounterClockwise => Some((width - 1 - y, x)),
    }
}

impl<T> Rotated<T> {
    /// The direction of the rotation.
    pub closed spec fn spec_rotation(&self) -> Rotation {
        self.rotation
    }

    /// The stored target.
    pub closed spec fn spec_target(&self) -> T {
        self.target
    }

    /// Create a new instance rotating `target` in the given direction.
    pub fn new(target: T, rotation: Rotation) -> (rotated: Self)
        ensures
            rotated.spec_target() == target,
            rotated.spec_rotation() == rotation,
    {
        Self { rotation, target }
    }

    /// Create a new instance rotating `target` clockwise.
    pub fn clockwise(target: T) -> (rotated: Self)
        ensures
            rotated.spec_target() == target,
            rotated.spec_rotation() == Rotation::Clockwise,
    {
        let rotation = Rotation::Clockwise;
        Self { rotation, target }
    }

    /// Create a new instance rotating `target` counter-clockwise.
    pub fn counter_clockwise(target: T) -> (rotated: Self)
        ensures
            rotated.spec_target() == target,
            rotated.spec_rotation() == Rotation::CounterClockwise,
    {
        let rotation = Rotation::CounterClockwise;
        Self { rotation, target }
    }

    /// Extract stored `target` value.
    pub fn extract(self) -> (target: T)
        ensures
            target == self.spec_target(),
    {
        self.target
    }
}

impl<T: Dimensions> Dimensions for Rotated<T> {
    open spec fn spec_dimensions(&self) -> (u32, u32) {
        let (width, height) = self.spec_target().spec_dimensions();
        (height, width)
    }

    fn dimensions(&self) -> (dimensions: (u32, u32)) {
        let (width, height) = self.target.dimensions();
        (height, width)
    }
}

impl<T: Image> Image for Rotated<T> {
    type Pixel = T::Pixel;

    open spec fn keeps_hidden(&self, earlier: Self) -> bool {
        &&& self.spec_rotation() == earlier.spec_rotation()
        &&& self.spec_target().keeps_hidden(earlier.spec_target())
    }

    proof fn lemma_keeps_hidden(first: Self, second: Self, third: Self) {
        T::lemma_keeps_hidden(first.spec_target(), second.spec_target(), third.spec_target());
    }

    open spec fn spec_pixel(&self, position: (u32, u32)) -> Option<T::Pixel> {
        match rotated_position(self.spec_rotation(), self.spec_target().spec_dimensions(), position) {
            Some(target_position) => self.spec_target().spec_pixel(target_position),
            None => None,
        }
    }

    fn pixel(&self, position: (u32, u32)) -> (pixel: Option<T::Pixel>) {
        match transform(self.rotation, self.target.dimensions(), position) {
            Some(position) => self.target.pixel(position),
            None => None,
        }
    }

    proof fn lemma_pixel_within(&self, position: (u32, u32)) {
    }
}

/// A clockwise turn undone by a counter-clockwise one, in either order,
/// gives back what the target reads.
pub proof fn law_rotate_back<T: Image>(view: Rotated<Rotated<T>>, position: (u32, u32))
    requires
        view.spec_rotation() != view.spec_target().spec_rotation(),
    ensures
        view.spec_pixel(position) == view.spec_target().spec_target().spec_pixel(position),
{
    view.spec_target().spec_target().lemma_pixel_within(position);
}

/// Flipping a clockwise quarter turn horizontally, or a counter-clockwise
/// one vertically, reads the target transposed: each column of the view is
/// the target's row of the same number.
pub proof fn law_turn_and_flip_transpose<T: Image>(view: Flipped<Rotated<T>>, position: (u32, u32))
    requires
        (view.spec_direction() == Flip::Horizontal && view.spec_target().spec_rotation() == Rotation::Clockwise) || (
        view.spec_direction() == Flip::Vertical && view.spec_target().spec_rotation() == Rotation::CounterClockwise),
    ensures
        view.spec_dimensions() == (
            view.spec_target().spec_target().spec_dimensions().1,
            view.spec_target().spec_target().spec_dimensions().0,
        ),
        view.spec_pixel(position) == view.spec_target().spec_target().spec_pixel((position.1, position.0)),
{
    view.spec_target().spec_target().lemma_pixel_within((position.1, position.0));
}

/// Two quarter turns the same way read as flipping the target both
/// horizontally and vertically: either way the target is seen upside down.
pub proof fn law_half_turn<T: Image>(turned: Rotated<Rotated<T>>, flipped: Flipped<Flipped<T>>, position: (u32, u32))
    requires
        turned.spec_rotation() == turned.spec_target().spec_rotation(),
        flipped.spec_direction() != flipped.spec_target().spec_direction(),
        turned.spec_target().spec_target() == flipped.spec_target().spec_target(),
    ensures
        turned.spec_dimensions() == flipped.spec_dimensions(),
        turned.spec_pixel(position) == flipped.spec_pixel(position),
{
}

} // verus!
