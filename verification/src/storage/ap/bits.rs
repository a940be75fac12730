//! Bit vectors of the `bitvec` crate, behind opaque types.

use bitvec::order::Lsb0;
use bitvec::vec::BitVec;
use vstd::prelude::*;

verus! {

/// A vector of bits in 64-bit words, low bit first.
#[verifier::external_body]
#[derive(Debug)]
pub struct WordBits {
    inner: BitVec<u64, Lsb0>,
}

/// The bits that a vector of 64-bit words holds.
pub uninterp spec fn word_bits(bits: WordBits) -> Seq<bool>;

/// `BitVec::repeat`, over 64-bit words: a vector of equal bits. The length stays below the limit
/// that the crate sets on the narrowest machine.
#[verifier::external_body]
fn word_repeat(bit: bool, len: usize) -> (bits: WordBits)
    requires
        len <= 0x1fff_ffff,
    ensures
        word_bits(bits) == Seq::new(len as nat, |i: int| bit),
{
    WordBits { inner: BitVec::repeat(bit, len) }
}

/// `BitSlice::set`, over 64-bit words: the bit at `index` is replaced.
#[verifier::external_body]
fn word_set(bits: &mut WordBits, index: usize, value: bool)
    requires
        index < word_bits(*old(bits)).len(),
    ensures
        word_bits(*final(bits)) == word_bits(*old(bits)).update(index as int, value),
{
    bits.inner.set(index, value);
}

/// `BitSlice::index`, over 64-bit words: the bit at `index`.
#[verifier::external_body]
fn word_index(bits: &WordBits, index: usize) -> (value: bool)
    requires
        index < word_bits(*bits).len(),
    ensures
        value == word_bits(*bits)[index as int],
{
    bits.inner[index]
}

impl View for WordBits {
    type V = Seq<bool>;

    open spec fn view(&self) -> Seq<bool> {
        word_bits(*self)
    }
}

impl WordBits {
    /// A vector of zeros.
    pub fn zeros(len: usize) -> (bits: Self)
        requires
            len <= 0x1fff_ffff,
        ensures
            bits@ == Seq::new(len as nat, |i: int| false),
    {
        word_repeat(false, len)
    }

    /// Replaces a bit.
    pub fn set(&mut self, index: usize, value: bool)
        requires
            index < old(self)@.len(),
        ensures
            final(self)@ == old(self)@.update(index as int, value),
    {
        word_set(self, index, value)
    }

    /// The bit at a position.
    pub fn get(&self, index: usize) -> (value: bool)
        requires
            index < self@.len(),
        ensures
            value == self@[index as int],
    {
        word_index(self, index)
    }
}

/// A vector of bits in 16-bit words, low bit first.
#[verifier::external_body]
#[derive(Debug)]
pub struct ShortBits {
    inner: BitVec<u16, Lsb0>,
}

/// The bits that a vector of 16-bit words holds.
pub uninterp spec fn short_bits(bits: ShortBits) -> Seq<bool>;

/// `BitVec::repeat`, over 16-bit words: a vector of equal bits. The length stays below the limit
/// that the crate sets on the narrowest machine.
#[verifier::external_body]
fn short_repeat(bit: bool, len: usize) -> (bits: ShortBits)
    requires
        len <= 0x1fff_ffff,
    ensures
        short_bits(bits) == Seq::new(len as nat, |i: int| bit),
{
    ShortBits { inner: BitVec::repeat(bit, len) }
}

/// `BitSlice::set`, over 16-bit words: the bit at `index` is replaced.
#[verifier::external_body]
fn short_set(bits: &mut ShortBits, index: usize, value: bool)
    requires
        index < short_bits(*old(bits)).len(),
    ensures
        short_bits(*final(bits)) == short_bits(*old(bits)).update(index as int, value),
{
    bits.inner.set(index, value);
}

/// `BitSlice::index`, over 16-bit words: the bit at `index`.
#[verifier::external_body]
fn short_index(bits: &ShortBits, index: usize) -> (value: bool)
    requires
        index < short_bits(*bits).len(),
    ensures
        value == short_bits(*bits)[index as int],
{
    bits.inner[index]
}

impl View for ShortBits {
    type V = Seq<bool>;

    open spec fn view(&self) -> Seq<bool> {
        short_bits(*self)
    }
}

impl ShortBits {
    /// A vector of zeros.
    pub fn zeros(len: usize) -> (bits: Self)
        requires
            len <= 0x1fff_ffff,
        ensures
            bits@ == Seq::new(len as nat, |i: int| false),
    {
        short_repeat(false, len)
    }

    /// Replaces a bit.
    pub fn set(&mut self, index: usize, value: bool)
        requires
            index < old(self)@.len(),
        ensures
            final(self)@ == old(self)@.update(index as int, value),
    {
        short_set(self, index, value)
    }

    /// The bit at a position.
    pub fn get(&self, index: usize) -> (value: bool)
        requires
            index < self@.len(),
        ensures
            value == self@[index as int],
    {
        short_index(self, index)
    }
}

} // verus!
