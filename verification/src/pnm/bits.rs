//! Pixel storage of bitmaps: a bit vector of the `bitvec` crate, most
//! significant bit first.

use vstd::prelude::*;
use bitvec::order::Msb0;
use bitvec::vec::BitVec;
use super::error::{index_out_of_bounds_error, is_invalid_pixel, msg_index_out_of_bounds, PnmResult};
use super::maxval::MaxValue;
use super::data::PnmPixelData;

verus! {

/// The largest number of bits that a `BitVec` can hold (`BitSlice::MAX_BITS`).
pub open spec fn max_bits() -> nat {
    (usize::MAX / 8) as nat
}

/// The pixels of a bitmap (`true` is the digit 1), held in a
/// `bitvec::vec::BitVec<u8, Msb0>`.
#[verifier::external_body]
#[derive(Debug, PartialEq)]
pub struct BitData {
    inner: BitVec<u8, Msb0>,
}

/// The bits that a `BitData` holds, in order.
pub uninterp spec fn bit_seq(data: BitData) -> Seq<bool>;

impl BitData {
    /// `BitVec::new`: an empty bit vector.
    #[verifier::external_body]
    fn raw_new() -> (r: BitData)
        ensures
            bit_seq(r) == Seq::<bool>::empty(),
    {
        BitData { inner: BitVec::new() }
    }

    /// `BitVec::len`: the number of bits.
    #[verifier::external_body]
    fn raw_len(&self) -> (r: usize)
        ensures
            r == bit_seq(*self).len(),
    {
        self.inner.len()
    }

    /// `BitVec::push`: appends one bit; it panics past `BitSlice::MAX_BITS`.
    #[verifier::external_body]
    fn raw_push(&mut self, bit: bool)
        requires
            bit_seq(*old(self)).len() + 1 <= max_bits(),
        ensures
            bit_seq(*final(self)) == bit_seq(*old(self)).push(bit),
    {
        self.inner.push(bit)
    }

    /// `BitSlice::get` on one index: the bit there, or `None` past the end.
    #[verifier::external_body]
    fn raw_get(&self, index: usize) -> (r: Option<bool>)
        ensures
            r == (if index < bit_seq(*self).len() {
                Some(bit_seq(*self)[index as int])
            } else {
                None
            }),
    {
        self.inner.as_bitslice().get(index).map(|bit| *bit)
    }

    /// `BitSlice::set`: replaces the bit at `index`; it panics past the end.
    #[verifier::external_body]
    fn raw_set(&mut self, index: usize, bit: bool)
        requires
            index < bit_seq(*old(self)).len(),
        ensures
            bit_seq(*final(self)) == bit_seq(*old(self)).update(index as int, bit),
    {
        self.inner.set(index, bit)
    }

    /// An empty bitmap storage.
    pub fn new() -> (r: BitData)
        ensures
            r@ == Seq::<bool>::empty(),
    {
        BitData::raw_new()
    }

    /// A storage that holds `bits`.
    pub fn from_bits(bits: &[bool]) -> (r: BitData)
        requires
            bits@.len() < max_bits(),
        ensures
            r@ == bits@,
    {
        let mut data = BitData::raw_new();
        for i in 0..bits.len()
            invariant
                bits@.len() < max_bits(),
                data@ == bits@.take(i as int),
        {
            data.raw_push(bits[i]);
            assert(data@ =~= bits@.take(i + 1));
        }
        assert(bits@.take(bits@.len() as int) =~= bits@);
        data
    }

    /// Appends one bit.
    pub fn push(&mut self, bit: bool)
        requires
            old(self)@.len() + 1 <= max_bits(),
        ensures
            final(self)@ == old(self)@.push(bit),
    {
        self.raw_push(bit)
    }

    /// The number of bits.
    pub fn len(&self) -> (r: usize)
        ensures
            r == self@.len(),
    {
        self.raw_len()
    }

    /// Whether no bit is stored.
    pub fn is_empty(&self) -> (r: bool)
        ensures
            r == (self@.len() == 0),
    {
        self.raw_len() == 0
    }

    /// The bit at `index`, or `None` past the end.
    pub fn get(&self, index: usize) -> (r: Option<bool>)
        ensures
            r == (if index < self@.len() { Some(self@[index as int]) } else { None }),
    {
        self.raw_get(index)
    }
}

impl View for BitData {
    type V = Seq<bool>;

    open spec fn view(&self) -> Seq<bool> {
        bit_seq(*self)
    }
}

impl PnmPixelData for BitData {
    type Pixel = bool;

    open spec fn pixel_seq(&self) -> Seq<bool> {
        bit_seq(*self)
    }

    open spec fn holds(&self, pixel: bool) -> bool {
        true
    }

    open spec fn refusal(&self, index: nat, pixel: bool) -> Seq<char> {
        msg_index_out_of_bounds(index)
    }

    open spec fn within(pixel: bool, max_val: Option<MaxValue>) -> bool {
        true
    }

    open spec fn excess(pixel: bool, max_val: Option<MaxValue>) -> Seq<char> {
        Seq::empty()
    }

    fn len(&self) -> (r: usize) {
        self.raw_len()
    }

    fn pixel_at(&self, index: usize) -> (r: Option<bool>) {
        self.raw_get(index)
    }

    fn set_pixel_at(&mut self, index: usize, pixel: bool) -> (r: PnmResult<()>) {
        if index >= self.raw_len() {
            return Err(index_out_of_bounds_error(index));
        }
        self.raw_set(index, pixel);
        Ok(())
    }

    fn validate_pixel(pixel: bool, max_val: Option<MaxValue>) -> (r: PnmResult<()>) {
        Ok(())
    }
}

} // verus!
