//! An adapter to store bits of the [`bitvec`] crate and use them as a `1BPP`
//! pixel storage.
use vstd::prelude::*;

use bitvec::vec::BitVec;

use crate::image::slice_based::{flat_index, multiple_of, rows_of, index_of, lemma_index_bounds, lemma_index_injective, length_u32};
use crate::image::{on_line, rewritten, truncate_to_u32, within, Dimensions, Image, ImageMut};
use crate::strategy::Strategy;

verus! {

/// A sequence of bits held by a [`BitVec`] of the `bitvec` crate.
#[verifier::external_body]
pub struct Bits {
    bits: BitVec,
}

/// The bits that `bits` holds, in order.
pub uninterp spec fn bits_of(bits: Bits) -> Seq<bool>;

/// The most bits a `BitVec` can hold: `BitSlice::MAX_BITS`, `usize::MAX >> 3`.
pub open spec fn max_bits() -> int {
    usize::MAX as int / 8
}

/// `BitVec::repeat`: `len` copies of `bit`. It panics above
/// `BitSlice::MAX_BITS` bits.
#[verifier::external_body]
fn bitvec_repeat(bit: bool, len: usize) -> (bits: Bits)
    requires
        len <= max_bits(),
    ensures
        bits_of(bits) == Seq::new(len as nat, |i: int| bit),
{
    Bits { bits: BitVec::repeat(bit, len) }
}

/// `BitVec::len`: the number of bits held.
#[verifier::external_body]
fn bitvec_len(bits: &Bits) -> (len: usize)
    ensures
        len == bits_of(*bits).len(),
{
    bits.bits.len()
}

/// `BitSlice` indexing: the bit at `index`. It panics out of bounds.
#[verifier::external_body]
fn bitvec_get(bits: &Bits, index: usize) -> (bit: bool)
    requires
        index < bits_of(*bits).len(),
    ensures
        bit == bits_of(*bits)[index as int],
{
    bits.bits[index]
}

/// `BitSlice::set`: write `value` at `index`, leaving the other bits. It
/// panics out of bounds.
#[verifier::external_body]
fn bitvec_set(bits: &mut Bits, index: usize, value: bool)
    requires
        index < bits_of(*old(bits)).len(),
    ensures
        bits_of(*final(bits)) == bits_of(*old(bits)).update(index as int, value),
{
    bits.bits.set(index, value);
}

/// `BitVec::push`: append `value`. It panics above `BitSlice::MAX_BITS` bits.
#[verifier::external_body]
fn bitvec_push(bits: &mut Bits, value: bool)
    requires
        bits_of(*old(bits)).len() + 1 <= max_bits(),
    ensures
        bits_of(*final(bits)) == bits_of(*old(bits)).push(value),
{
    bits.bits.push(value);
}

impl Bits {
    /// `len` copies of `bit`.
    pub fn repeat(bit: bool, len: usize) -> (bits: Self)
        requires
            len <= max_bits(),
        ensures
            bits_of(bits) == Seq::new(len as nat, |i: int| bit),
    {
        bitvec_repeat(bit, len)
    }

    /// The bits of `values`, in order.
    pub fn from_bools(values: &[bool]) -> (bits: Self)
        requires
            values@.len() <= max_bits(),
        ensures
            bits_of(bits) == values@,
    {
        let mut bits = bitvec_repeat(false, 0);
        let mut i: usize = 0;
        while i < values.len()
            invariant
                i <= values@.len() <= max_bits(),
                bits_of(bits) == values@.subrange(0, i as int),
            decreases values@.len() - i,
        {
            bitvec_push(&mut bits, values[i]);
            i = i + 1;
            assert(bits_of(bits) =~= values@.subrange(0, i as int));
        }
        assert(values@.subrange(0, i as int) =~= values@);
        bits
    }

    /// The bits held, in order.
    pub fn to_bools(&self) -> (values: Vec<bool>)
        ensures
            values@ == bits_of(*self),
    {
        let mut values: Vec<bool> = Vec::new();
        let len = bitvec_len(self);
        let mut i: usize = 0;
        while i < len
            invariant
                i <= len == bits_of(*self).len(),
                values@ == bits_of(*self).subrange(0, i as int),
            decreases len - i,
        {
            values.push(bitvec_get(self, i));
            i = i + 1;
            assert(values@ =~= bits_of(*self).subrange(0, i as int));
        }
        assert(bits_of(*self).subrange(0, i as int) =~= bits_of(*self));
        values
    }

    /// The number of bits held.
    pub fn len(&self) -> (len: usize)
        ensures
            len == bits_of(*self).len(),
    {
        bitvec_len(self)
    }
}

/// An adapter over `T`.
///
/// Implementations are for the following `T`:
///
/// - `&Bits` - immutable [`Image`]-only operations;
/// - `&mut Bits` - mutable [`Image`] and [`ImageMut`] operations; the bits
///   are given back as the adapter leaves them.
///
/// The pixel at `(x, y)` is the bit at index `x + y * width`.
pub struct Adapter<T> {
    data: T,
    width: u32,
    height: u32,
}

impl<T> Adapter<T> {
    /// The stored bits.
    pub closed spec fn spec_data(&self) -> T {
        self.data
    }

    /// Width and height.
    pub closed spec fn spec_size(&self) -> (u32, u32) {
        (self.width, self.height)
    }
}

impl<'a> Adapter<&'a Bits> {
    /// Create new [`Adapter`] instance with immutable access.
    ///
    /// Returns `None` if `data`'s length (as a `u32`) is not a multiple of
    /// `width`; zero is the only multiple of zero.
    pub fn new(data: &'a Bits, width: u32) -> (result: Option<Self>)
        ensures
            result is None <==> !multiple_of(length_u32(bits_of(*data)), width as int),
            result matches Some(adapter) ==> {
                &&& adapter.spec_data() == data
                &&& adapter.spec_size() == (width, rows_of(length_u32(bits_of(*data)), width as int) as u32)
            },
    {
        let len = truncate_to_u32(bitvec_len(data));
        if width == 0 {
            if len == 0 {
                return Some(Self { data, width: 0, height: 0 });
            }
            return None;
        }
        if len % width != 0 {
            return None;
        }
        let height = len / width;
        Some(Self { data, width, height })
    }
}

impl<'a> Adapter<&'a mut Bits> {
    /// Create new [`Adapter`] instance with mutable access.
    ///
    /// Returns `None` if `data`'s length (as a `u32`) is not a multiple of
    /// `width`; zero is the only multiple of zero.
    pub fn new_mut(data: &'a mut Bits, width: u32) -> (result: Option<Self>)
        ensures
            result is None <==> !multiple_of(length_u32(bits_of(*old(data))), width as int),
            result matches Some(adapter) ==> {
                &&& bits_of(*adapter.spec_data()) == bits_of(*old(data))
                &&& *final(adapter.spec_data()) == *final(data)
                &&& adapter.spec_size() == (width, rows_of(length_u32(bits_of(*old(data))), width as int) as u32)
            },
    {
        let len = truncate_to_u32(bitvec_len(data));
        if width == 0 {
            if len == 0 {
                return Some(Self { data, width: 0, height: 0 });
            }
            return None;
        }
        if len % width != 0 {
            return None;
        }
        let height = len / width;
        Some(Self { data, width, height })
    }
}

impl<T> Dimensions for Adapter<T> {
    open spec fn spec_dimensions(&self) -> (u32, u32) {
        self.spec_size()
    }

    fn dimensions(&self) -> (dimensions: (u32, u32)) {
        (self.width, self.height)
    }
}

/// The bit read at `position` of `bits` laid out `size.0` bits per row.
pub open spec fn bit_at(bits: Seq<bool>, size: (u32, u32), position: (u32, u32)) -> Option<bool> {
    let index = index_of(position.0 as int, position.1 as int, size.0 as int);
    if within(position, size) && index < bits.len() {
        Some(bits[index])
    } else {
        None
    }
}

/// Read the bit at `position`.
fn read_bit(bits: &Bits, size: (u32, u32), position: (u32, u32)) -> (bit: Option<bool>)
    ensures
        bit == bit_at(bits_of(*bits), size, position),
{
    let (x, y) = position;
    if x >= size.0 || y >= size.1 {
        return None;
    }
    let index = flat_index(x, y, size.0);
    if index < bitvec_len(bits) as u64 {
        Some(bitvec_get(bits, index as usize))
    } else {
        None
    }
}

impl<'a> Image for Adapter<&'a Bits> {
    type Pixel = bool;

    open spec fn keeps_hidden(&self, earlier: Self) -> bool {
        &&& self.spec_size() == earlier.spec_size()
        &&& bits_of(*self.spec_data()).len() == bits_of(*earlier.spec_data()).len()
    }

    proof fn lemma_keeps_hidden(first: Self, second: Self, third: Self) {

    }

    open spec fn spec_pixel(&self, position: (u32, u32)) -> Option<bool> {
        bit_at(bits_of(*self.spec_data()), self.spec_size(), position)
    }

    fn pixel(&self, position: (u32, u32)) -> (pixel: Option<bool>) {
        read_bit(self.data, (self.width, self.height), position)
    }

    proof fn lemma_pixel_within(&self, position: (u32, u32)) {
    }
}

impl<'a> Image for Adapter<&'a mut Bits> {
    type Pixel = bool;

    open spec fn keeps_hidden(&self, earlier: Self) -> bool {
        &&& self.spec_size() == earlier.spec_size()
        &&& bits_of(*self.spec_data()).len() == bits_of(*earlier.spec_data()).len()
    }

    proof fn lemma_keeps_hidden(first: Self, second: Self, third: Self) {

    }

    open spec fn spec_pixel(&self, position: (u32, u32)) -> Option<bool> {
        bit_at(bits_of(*self.spec_data()), self.spec_size(), position)
    }

    fn pixel(&self, position: (u32, u32)) -> (pixel: Option<bool>) {
        read_bit(self.data, (self.width, self.height), position)
    }

    proof fn lemma_pixel_within(&self, position: (u32, u32)) {
    }
}

impl<'a, S: Strategy<bool>> ImageMut<S> for Adapter<&'a mut Bits> {
    fn write_pixel(&mut self, position: (u32, u32), writer: &S)
        ensures
            *final(final(self).spec_data()) == *final(old(self).spec_data()),
    {
        let (x, y) = position;
        if x < self.width && y < self.height {
            let index = flat_index(x, y, self.width);
            if index < bitvec_len(self.data) as u64 {
                let value = writer.produce(bitvec_get(self.data, index as usize));
                bitvec_set(self.data, index as usize, value);
                assert forall|q: (u32, u32)|
                    if q == position {
                        rewritten(*writer, (*old(self)).spec_pixel(q), #[trigger] (*self).spec_pixel(q))
                    } else {
                        (*self).spec_pixel(q) == (*old(self)).spec_pixel(q)
                    } by {
                    if within(q, self.spec_size()) {
                        lemma_index_injective(q.0 as int, q.1 as int, x as int, y as int, self.width as int);
                    }
                }
            }
        }
    }

    fn write_horizontal_line(&mut self, position: (u32, u32), total: u32, writer: &S)
        ensures
            *final(final(self).spec_data()) == *final(old(self).spec_data()),
    {
        let (x, y) = position;
        if x >= self.width || y >= self.height {
            return;
        }
        let start = flat_index(x, y, self.width);
        let sum = x as u64 + total as u64;
        let end_x: u32 = if sum < self.width as u64 { sum as u32 } else { self.width };
        let end = flat_index(end_x, y, self.width);
        let ghost before = bits_of(*self.data);
        let ghost width = self.width as int;
        let len = bitvec_len(self.data);
        let mut i = start;
        while i < end
            invariant
                start <= i <= end,
                self.width == width,
                self.height == old(self).height,
                *final(self.data) == *final(old(self).data),
                start == index_of(x as int, y as int, width),
                end == index_of(end_x as int, y as int, width),
                len == before.len(),
                bits_of(*self.data).len() == before.len(),
                writer.ready(),
                forall|j: int| 0 <= j < before.len() ==>
                    if start <= j < i {
                        writer.spec_produces(before[j], #[trigger] bits_of(*self.data)[j])
                    } else {
                        bits_of(*self.data)[j] == before[j]
                    },
            decreases end - i,
        {
            if i < len as u64 {
                let value = writer.produce(bitvec_get(self.data, i as usize));
                bitvec_set(self.data, i as usize, value);
            }
            i = i + 1;
        }
        assert forall|q: (u32, u32)|
            if on_line(q, position, total) {
                rewritten(*writer, (*old(self)).spec_pixel(q), #[trigger] (*self).spec_pixel(q))
            } else {
                (*self).spec_pixel(q) == (*old(self)).spec_pixel(q)
            } by {
            if within(q, self.spec_size()) {
                lemma_index_bounds(q.0 as int, q.1 as int, width, self.height as int);
                lemma_index_bounds(x as int, y as int, width, self.height as int);
                if q.1 < y {
                    assert((q.1 + 1) * width <= y * width) by (nonlinear_arith)
                        requires
                            q.1 + 1 <= y,
                            0 < width,
                    ;
                } else if q.1 > y {
                    assert((y + 1) * width <= q.1 * width) by (nonlinear_arith)
                        requires
                            y + 1 <= q.1,
                            0 < width,
                    ;
                }
                assert((y + 1) * width == y * width + width) by (nonlinear_arith);
            }
        }
    }

    fn write(&mut self, writer: &S)
        ensures
            *final(final(self).spec_data()) == *final(old(self).spec_data()),
    {
        let ghost before = bits_of(*self.data);
        let len = bitvec_len(self.data);
        let mut i: usize = 0;
        while i < len
            invariant
                0 <= i <= len,
                len == before.len(),
                bits_of(*self.data).len() == before.len(),
                self.width == old(self).width,
                self.height == old(self).height,
                *final(self.data) == *final(old(self).data),
                writer.ready(),
                forall|j: int| 0 <= j < before.len() ==>
                    if j < i {
                        writer.spec_produces(before[j], #[trigger] bits_of(*self.data)[j])
                    } else {
                        bits_of(*self.data)[j] == before[j]
                    },
            decreases len - i,
        {
            let value = writer.produce(bitvec_get(self.data, i));
            bitvec_set(self.data, i, value);
            i = i + 1;
        }
    }
}

} // verus!
