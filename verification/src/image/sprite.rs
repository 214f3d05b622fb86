//! A compile-time sized array-based pixel storage.
use vstd::prelude::*;

use crate::image::{lemma_truncate, on_line, rewritten, truncate_to_u32, within, Dimensions, Image, ImageMut};
use crate::strategy::Strategy;

verus! {

/// A compile-time sized array-based pixel storage.
///
/// Current implementation is backed by a two-dimensional array of `H` rows of
/// `W` pixels.
#[derive(Clone, Copy, Debug, PartialEq, Eq, PartialOrd, Ord, Hash)]
pub struct Sprite<P, const W: usize, const H: usize> {
    data: [[P; W]; H],
}

impl<P, const W: usize, const H: usize> Sprite<P, W, H> {
    /// The rows of pixels.
    pub closed spec fn spec_data(&self) -> [[P; W]; H] {
        self.data
    }

    /// The pixel at column `x` of row `y`.
    pub open spec fn cell(&self, x: int, y: int) -> P {
        self.spec_data()[y][x]
    }

    /// Create a new [`Sprite`] instance using [`Copy`] trait.
    pub fn from_copies(value: P) -> (sprite: Self)
        where
            P: Copy,
        ensures
            sprite.spec_data() == [[value; W]; H],
            forall|x: int, y: int| 0 <= x < W && 0 <= y < H ==> #[trigger] sprite.cell(x, y) == value,
    {
        let row: [P; W] = [value; W];
        let data: [[P; W]; H] = [row; H];
        assert forall|x: int, y: int| 0 <= x < W && 0 <= y < H implies data[y][x] == value by {
            assert(data[y] == row);
        }
        Self { data }
    }

    /// Create a new [`Sprite`] instance using raw `data`.
    pub fn from_raw(data: [[P; W]; H]) -> (sprite: Self)
        ensures
            sprite.spec_data() == data,
    {
        Self { data }
    }

    /// Extract stored `data`.
    pub fn into_owned(self) -> (data: [[P; W]; H])
        ensures
            data == self.spec_data(),
    {
        self.data
    }

    /// Get stored `data` as a reference.
    pub fn data(&self) -> (data: &[[P; W]; H])
        ensures
            *data == self.spec_data(),
    {
        &self.data
    }

    /// Get stored `data` as a mutable reference.
    pub fn data_mut(&mut self) -> (data: &mut [[P; W]; H])
        ensures
            *data == old(self).spec_data(),
            final(self).spec_data() == *final(data),
    {
        &mut self.data
    }
}

/// Two sprites are equal exactly when their rows are, and exactly when every
/// pixel of one equals the pixel of the other at the same place.
pub proof fn law_sprite_equality<P, const W: usize, const H: usize>(a: Sprite<P, W, H>, b: Sprite<P, W, H>)
    ensures
        (a == b) <==> (a.spec_data() == b.spec_data()),
        (a == b) <==> (forall|x: int, y: int| 0 <= x < W && 0 <= y < H ==> #[trigger] a.cell(x, y) == b.cell(x, y)),
{
    if forall|x: int, y: int| 0 <= x < W && 0 <= y < H ==> #[trigger] a.cell(x, y) == b.cell(x, y) {
        assert forall|y: int| 0 <= y < H implies a.data[y] == b.data[y] by {
            assert forall|x: int| 0 <= x < W implies a.data[y][x] == b.data[y][x] by {
                assert(a.cell(x, y) == b.cell(x, y));
            }
            assert(a.data[y] =~= b.data[y]);
        }
        assert(a.data =~= b.data);
    }
}

impl<P, const W: usize, const H: usize> Dimensions for Sprite<P, W, H> {
    open spec fn spec_dimensions(&self) -> (u32, u32) {
        (W as u32, H as u32)
    }

    fn dimensions(&self) -> (dimensions: (u32, u32)) {
        (truncate_to_u32(W), truncate_to_u32(H))
    }
}

impl<P: Copy, const W: usize, const H: usize> Image for Sprite<P, W, H> {
    type Pixel = P;

    open spec fn keeps_hidden(&self, earlier: Self) -> bool {
        true
    }

    proof fn lemma_keeps_hidden(first: Self, second: Self, third: Self) {

    }

    open spec fn spec_pixel(&self, position: (u32, u32)) -> Option<P> {
        if within(position, self.spec_dimensions()) {
            Some(self.cell(position.0 as int, position.1 as int))
        } else {
            None
        }
    }

    fn pixel(&self, position: (u32, u32)) -> (pixel: Option<P>) {
        let (x, y) = position;
        let (width, height) = self.dimensions();
        if x < width && y < height {
            proof {
                lemma_truncate(W);
                lemma_truncate(H);
            }
            Some(self.data[y as usize][x as usize])
        } else {
            None
        }
    }

    proof fn lemma_pixel_within(&self, position: (u32, u32)) {
    }
}

impl<P: Copy, S: Strategy<P>, const W: usize, const H: usize> ImageMut<S> for Sprite<P, W, H> {
    fn write_pixel(&mut self, position: (u32, u32), writer: &S) {
        let (x, y) = position;
        let (width, height) = self.dimensions();
        if x < width && y < height {
            proof {
                lemma_truncate(W);
                lemma_truncate(H);
            }
            let mut row = self.data[y as usize];
            let value = writer.produce(row[x as usize]);
            row[x as usize] = value;
            self.data[y as usize] = row;
            assert forall|q: (u32, u32)|
                if q == position {
                    rewritten(*writer, (*old(self)).spec_pixel(q), #[trigger] (*self).spec_pixel(q))
                } else {
                    (*self).spec_pixel(q) == (*old(self)).spec_pixel(q)
                } by {
                if within(q, self.spec_dimensions()) && q.1 == y {
                    assert(self.data[q.1 as int] == row);
                }
            }
        }
    }

    fn write_horizontal_line(&mut self, position: (u32, u32), total: u32, writer: &S) {
        let (x, y) = position;
        let (width, height) = self.dimensions();
        if y < height {
            proof {
                lemma_truncate(W);
                lemma_truncate(H);
            }
            let sum = x as u64 + total as u64;
            let end: u32 = if sum < width as u64 { sum as u32 } else { width };
            let old_row = self.data[y as usize];
            let mut row = old_row;
            let mut i = x;
            while i < end
                invariant
                    end <= width,
                    width <= W,
                    x <= i,
                    i <= end || i == x,
                    row@.len() == W,
                    old_row@.len() == W,
                    writer.ready(),
                    forall|j: int| 0 <= j < W ==>
                        if x <= j < i {
                            writer.spec_produces(old_row@[j], #[trigger] row@[j])
                        } else {
                            row@[j] == old_row@[j]
                        },
                decreases end - i,
            {
                let value = writer.produce(row[i as usize]);
                row[i as usize] = value;
                i = i + 1;
            }
            self.data[y as usize] = row;
            assert forall|q: (u32, u32)|
                if on_line(q, position, total) {
                    rewritten(*writer, (*old(self)).spec_pixel(q), #[trigger] (*self).spec_pixel(q))
                } else {
                    (*self).spec_pixel(q) == (*old(self)).spec_pixel(q)
                } by {
                if within(q, self.spec_dimensions()) && q.1 == y {
                    assert(self.data[q.1 as int] == row);
                    assert(old(self).data[q.1 as int] == old_row);
                }
            }
        }
    }

    fn write(&mut self, writer: &S) {
        let (width, height) = self.dimensions();
        proof {
            lemma_truncate(W);
            lemma_truncate(H);
        }
        let ghost before = self.data;
        let mut y: usize = 0;
        while y < H
            invariant
                y <= H,
                writer.ready(),
                forall|r: int, c: int| 0 <= r < H && 0 <= c < W ==>
                    if r < y {
                        writer.spec_produces(before[r][c], #[trigger] self.data[r][c])
                    } else {
                        self.data[r][c] == before[r][c]
                    },
            decreases H - y,
        {
            let old_row = self.data[y];
            let mut row = old_row;
            let mut i: usize = 0;
            while i < W
                invariant
                    i <= W,
                    row@.len() == W,
                    old_row@.len() == W,
                    writer.ready(),
                    forall|j: int| 0 <= j < W ==>
                        if j < i {
                            writer.spec_produces(old_row@[j], #[trigger] row@[j])
                        } else {
                            row@[j] == old_row@[j]
                        },
                decreases W - i,
            {
                let value = writer.produce(row[i]);
                row[i] = value;
                i = i + 1;
            }
            self.data[y] = row;
            y = y + 1;
        }
        assert forall|q: (u32, u32)|
            rewritten(*writer, (*old(self)).spec_pixel(q), #[trigger] (*self).spec_pixel(q)) by {
            if within(q, self.spec_dimensions()) {
                assert(self.data[q.1 as int][q.0 as int] == self.cell(q.0 as int, q.1 as int));
            }
        }
    }
}

} // verus!
