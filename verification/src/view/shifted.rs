//! The [`Shifted`] view shifts (translates) the stored [`Image`] or
//! [`ImageMut`] by a positive amount, effectively reducing its size.
use vstd::prelude::*;

use crate::image::{rewritten, Dimensions, Image, ImageMut};
use crate::strategy::Strategy;

verus! {

/// The view to shift the coordinates.
pub struct Shifted<T> {
    shift: (u32, u32),
    target: T,
}

impl<T> Shifted<T> {
    /// The amount by which positions are shifted.
    pub closed spec fn spec_shift(&self) -> (u32, u32) {
        self.shift
    }

    /// The stored target.
    pub closed spec fn spec_target(&self) -> T {
        self.target
    }

    /// Create new instance given the `shift` value.
    pub fn new(target: T, shift: (u32, u32)) -> (shifted: Self)
        ensures
            shifted.spec_target() == target,
            shifted.spec_shift() == shift,
    {
        Self { shift, target }
    }

    /// Extract stored `target` value.
    pub fn into_owned(self) -> (target: T)
        ensures
            target == self.spec_target(),
    {
        self.target
    }
}

/// `a - b`, or zero when `b` exceeds `a`.
pub open spec fn saturating_sub(a: u32, b: u32) -> u32 {
    if a >= b {
        (a - b) as u32
    } else {
        0
    }
}

/// The target position that `position` is shifted to, if it can be named.
pub open spec fn shifted_position(shift: (u32, u32), position: (u32, u32)) -> Option<(u32, u32)> {
    if position.0 + shift.0 <= u32::MAX && position.1 + shift.1 <= u32::MAX {
        Some(((position.0 + shift.0) as u32, (position.1 + shift.1) as u32))
    } else {
        None
    }
}

/// Translate `position` by `shift`; `None` where the sum exceeds `u32`.
fn shift(amount: (u32, u32), position: (u32, u32)) -> (shifted: Option<(u32, u32)>)
    ensures
        shifted == shifted_position(amount, position),
{
    let (shift_x, shift_y) = amount;
    let (x, y) = position;
    match (shift_x.checked_add(x), shift_y.checked_add(y)) {
        (Some(x), Some(y)) => Some((x, y)),
        _ => None,
    }
}

impl<T: Dimensions> Dimensions for Shifted<T> {
    open spec fn spec_dimensions(&self) -> (u32, u32) {
        let (width, height) = self.spec_target().spec_dimensions();
        (saturating_sub(width, self.spec_shift().0), saturating_sub(height, self.spec_shift().1))
    }

    fn dimensions(&self) -> (dimensions: (u32, u32)) {
        let (width, height) = self.target.dimensions();
        let (shift_x, shift_y) = self.shift;
        (width.saturating_sub(shift_x), height.saturating_sub(shift_y))
    }
}

impl<T: Image> Image for Shifted<T> {
    type Pixel = T::Pixel;

    open spec fn keeps_hidden(&self, earlier: Self) -> bool {
        &&& self.spec_shift() == earlier.spec_shift()
        &&& self.spec_target().keeps_hidden(earlier.spec_target())
        &&& forall|q: (u32, u32)|
            q.0 < self.spec_shift().0 || q.1 < self.spec_shift().1 ==> #[trigger] self.spec_target().spec_pixel(q)
                == earlier.spec_target().spec_pixel(q)
    }

    proof fn lemma_keeps_hidden(first: Self, second: Self, third: Self) {
        T::lemma_keeps_hidden(first.spec_target(), second.spec_target(), third.spec_target());
    }

    open spec fn spec_pixel(&self, position: (u32, u32)) -> Option<T::Pixel> {
        match shifted_position(self.spec_shift(), position) {
            Some(target_position) => self.spec_target().spec_pixel(target_position),
            None => None,
        }
    }

    fn pixel(&self, position: (u32, u32)) -> (pixel: Option<T::Pixel>) {
        match shift(self.shift, position) {
            Some(position) => self.target.pixel(position),
            None => None,
        }
    }

    proof fn lemma_pixel_within(&self, position: (u32, u32)) {
        if let Some(target_position) = shifted_position(self.spec_shift(), position) {
            self.spec_target().lemma_pixel_within(target_position);
        }
    }
}

impl<T, W> ImageMut<W> for Shifted<T> where T: ImageMut<W>, W: Strategy<T::Pixel> {
    fn write_pixel(&mut self, position: (u32, u32), writer: &W)
        ensures
            (*final(self)).spec_shift() == (*old(self)).spec_shift(),
            (*final(self)).spec_target().spec_dimensions() == (*old(self)).spec_target().spec_dimensions(),
            forall|q: (u32, u32)|
                q.0 < (*old(self)).spec_shift().0 || q.1 < (*old(self)).spec_shift().1
                    ==> #[trigger] (*final(self)).spec_target().spec_pixel(q) == (*old(self)).spec_target().spec_pixel(q),
    {
        proof {
            T::lemma_keeps_hidden(self.target, self.target, self.target);
        }
        if let Some(target_position) = shift(self.shift, position) {
            self.target.write_pixel(target_position, writer);
        }
    }

    fn write_horizontal_line(&mut self, position: (u32, u32), total: u32, writer: &W)
        ensures
            (*final(self)).spec_shift() == (*old(self)).spec_shift(),
            (*final(self)).spec_target().spec_dimensions() == (*old(self)).spec_target().spec_dimensions(),
            forall|q: (u32, u32)|
                q.0 < (*old(self)).spec_shift().0 || q.1 < (*old(self)).spec_shift().1
                    ==> #[trigger] (*final(self)).spec_target().spec_pixel(q) == (*old(self)).spec_target().spec_pixel(q),
    {
        proof {
            T::lemma_keeps_hidden(self.target, self.target, self.target);
        }
        if let Some(target_position) = shift(self.shift, position) {
            self.target.write_horizontal_line(target_position, total, writer);
        }
    }

    fn write(&mut self, writer: &W)
        ensures
            (*final(self)).spec_shift() == (*old(self)).spec_shift(),
            (*final(self)).spec_target().spec_dimensions() == (*old(self)).spec_target().spec_dimensions(),
            forall|q: (u32, u32)|
                q.0 < (*old(self)).spec_shift().0 || q.1 < (*old(self)).spec_shift().1
                    ==> #[trigger] (*final(self)).spec_target().spec_pixel(q) == (*old(self)).spec_target().spec_pixel(q),
    {
        proof {
            T::lemma_keeps_hidden(self.target, self.target, self.target);
        }
        let (width, height) = self.target.dimensions();
        let (shift_x, shift_y) = self.shift;
        let total = width.saturating_sub(shift_x);
        let ghost before = self.target;
        let mut y: u32 = shift_y;
        while y < height
            invariant
                shift_y <= y,
                y <= height || y == shift_y,
                self.shift == (shift_x, shift_y),
                writer.ready(),
                self.target.keeps_hidden(before),
                (width, height) == before.spec_dimensions(),
                total == saturating_sub(width, shift_x),
                self.target.spec_dimensions() == before.spec_dimensions(),
                forall|q: (u32, u32)|
                    if shift_x <= q.0 < width && shift_y <= q.1 < y {
                        rewritten(*writer, before.spec_pixel(q), #[trigger] self.target.spec_pixel(q))
                    } else {
                        self.target.spec_pixel(q) == before.spec_pixel(q)
                    },
            decreases height - y,
        {
            let ghost middle = self.target;
            self.target.write_horizontal_line((shift_x, y), total, writer);
            proof {
                T::lemma_keeps_hidden(before, middle, self.target);
            }
            y = y + 1;
        }
        assert forall|q: (u32, u32)|
            rewritten(*writer, (*old(self)).spec_pixel(q), #[trigger] (*self).spec_pixel(q)) by {
            if let Some(target_position) = shifted_position(self.shift, q) {
                before.lemma_pixel_within(target_position);
                self.target.lemma_pixel_within(target_position);
            }
        }
    }
}

/// A shift by nothing reads as its target.
pub proof fn law_shift_by_zero<T: Image>(view: Shifted<T>, position: (u32, u32))
    requires
        view.spec_shift() == (0u32, 0u32),
    ensures
        view.spec_pixel(position) == view.spec_target().spec_pixel(position),
        view.spec_dimensions() == view.spec_target().spec_dimensions(),
{
}

/// Shifting a shifted target reads as shifting the target once by the sum
/// of both shifts.
pub proof fn law_shift_twice<T: Image>(outer: Shifted<Shifted<T>>, once: Shifted<T>, position: (u32, u32))
    requires
        outer.spec_target().spec_target() == once.spec_target(),
        outer.spec_shift().0 + outer.spec_target().spec_shift().0 == once.spec_shift().0,
        outer.spec_shift().1 + outer.spec_target().spec_shift().1 == once.spec_shift().1,
    ensures
        outer.spec_pixel(position) == once.spec_pixel(position),
        outer.spec_dimensions() == once.spec_dimensions(),
{
}

} // verus!
