//! Domain-separation delimiters and the pad-then-zero-fill scheme.
//!
//! A delimiter is an ordered sequence of context bits packed MSB-first into
//! one byte over a fixed `10*` suffix. It is absorbed (followed by zeros up
//! to the block width) as the last block of every finalize, and is the sole
//! mechanism by which the higher protocols bind call context into the
//! history.

use vstd::prelude::*;

use crate::farfalle::zeros;

verus! {

/// Prefixing one context bit onto a packed delimiter byte: the new bit
/// becomes the most significant bit and the rest moves down one place.
pub open spec fn spec_prefix(b: u8, bit: bool) -> u8 {
    (((if bit {
        128u8
    } else {
        0u8
    }) + b / 2) as u8)
}

/// A packed delimiter byte.
#[derive(Clone, Copy)]
pub struct D {
    packed: u8,
}

impl View for D {
    type V = u8;

    closed spec fn view(&self) -> u8 {
        self.packed
    }
}

impl D {
    /// The empty delimiter: no context bits and no suffix.
    pub fn empty() -> (r: D)
        ensures
            r@ == 0u8,
    {
        D { packed: 0 }
    }

    /// Prefix one context bit.
    pub fn prefix(self, bit: bool) -> (r: D)
        ensures
            r@ == spec_prefix(self@, bit),
    {
        D { packed: (if bit { 128 } else { 0 }) + self.packed / 2 }
    }

    /// The packed byte.
    pub fn byte(&self) -> (r: u8)
        ensures
            r == self@,
    {
        self.packed
    }
}

/// The padding scheme that writes a delimiter byte after the input tail and
/// fills the rest of the block with zeros.
#[derive(Clone, Copy)]
pub struct WithTrailingZeros {
    delim: D,
}

impl View for WithTrailingZeros {
    type V = u8;

    closed spec fn view(&self) -> u8 {
        self.delim@
    }
}

impl WithTrailingZeros {
    /// Padding with the empty delimiter: a bare zero fill.
    pub fn only_zeros() -> (r: Self)
        ensures
            r@ == 0u8,
    {
        WithTrailingZeros { delim: D::empty() }
    }

    /// The `pad10*` scheme of the Farfalle construction: a single one bit
    /// followed by zeros.
    pub fn pad1x() -> (r: Self)
        ensures
            r@ == 0x80u8,
    {
        WithTrailingZeros { delim: D::empty().prefix(true) }
    }

    /// Prefix one context bit onto the delimiter.
    pub fn prefix(self, bit: bool) -> (r: Self)
        ensures
            r@ == spec_prefix(self@, bit),
    {
        WithTrailingZeros { delim: self.delim.prefix(bit) }
    }

    /// The packed delimiter byte this scheme appends.
    pub fn byte(&self) -> (r: u8)
        ensures
            r == self@,
    {
        self.delim.byte()
    }

    /// Build the final padded block from a partial tail: the tail, the
    /// delimiter byte, then zeros to the block width.
    pub fn apply(&self, tail: &[u8], width: usize) -> (r: Vec<u8>)
        requires
            tail@.len() < width,
        ensures
            r@ == tail@ + seq![self@] + zeros((width - tail@.len() - 1) as nat),
            r@.len() == width,
    {
        let mut r = crate::copy_bytes(tail);
        r.push(self.delim.byte());
        while r.len() < width
            invariant
                r@.len() >= tail@.len() + 1,
                r@.len() <= width,
                r@ =~= tail@ + seq![self@] + zeros((r@.len() - tail@.len() - 1) as nat),
            decreases width - r.len(),
        {
            r.push(0);
        }
        r
    }
}

} // verus!
