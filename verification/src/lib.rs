//! Permutation-based symmetric cryptographic constructions: a keyed
//! extendable-output Deck function in the Farfalle mode, two session-aware
//! authenticated-encryption protocols built on it (the duplex Deck-SANE mode
//! and the misuse-resistant Deck-SANSE mode), and a full-width encipherment
//! scheme composed from two Deck instances.
//!
//! All constructions are generic over an abstract permutation suite supplied
//! by the integrator; one concrete suite built on the Xoodoo permutation is
//! provided.

use vstd::prelude::*;

pub mod deck;
pub mod farfalle;
pub mod sane;
pub mod sanse;
pub mod wbc;
pub mod xoofff;

verus! {

/// Key rejected at construction: a Deck key must be strictly shorter than the
/// permutation width.
#[derive(Clone, Copy, PartialEq, Eq, Structural, Debug)]
pub struct ConfigError;

/// Authentication failure: the supplied tag does not match the data.
#[derive(Clone, Copy, PartialEq, Eq, Structural, Debug)]
pub struct AuthError;

/// An abstract fixed-width, deterministic, forward-only state transform.
///
/// Implementations transform a block in place; a block whose length is not
/// the width the implementation is built for is left unchanged, so that the
/// transform is total.
pub trait Permutation {
    /// The transform as a mathematical function on byte sequences.
    spec fn spec_permute(s: Seq<u8>) -> Seq<u8>;

    /// A permutation maps a block to a block of the same length.
    proof fn lemma_permute_len(s: Seq<u8>)
        ensures
            Self::spec_permute(s).len() == s.len(),
    ;

    /// Transform `block` in place.
    fn permute(block: &mut Vec<u8>)
        ensures
            final(block)@ == Self::spec_permute(old(block)@),
    ;
}

/// XOR of two byte sequences, pointwise over the length of `a`.
///
/// Callers are expected to supply a `b` at least as long as `a`; this is the
/// keystream application primitive of every construction in the crate.
pub open spec fn xor_seq(a: Seq<u8>, b: Seq<u8>) -> Seq<u8> {
    Seq::new(a.len(), |i: int| a[i] ^ b[i])
}

/// XOR a keystream prefix over the first `ks.len()` bytes of `buf` in place;
/// bytes of `buf` past the keystream length are unchanged.
pub open spec fn xor_prefix(buf: Seq<u8>, ks: Seq<u8>) -> Seq<u8> {
    Seq::new(buf.len(), |i: int| if i < ks.len() { buf[i] ^ ks[i] } else { buf[i] })
}

/// XORing the same sequence in twice restores the original bytes.
pub proof fn lemma_xor_seq_involutive(a: Seq<u8>, b: Seq<u8>)
    ensures
        xor_seq(xor_seq(a, b), b) =~= a,
{
    assert forall|i: int| 0 <= i < a.len() implies xor_seq(xor_seq(a, b), b)[i] == a[i] by {
        let x = a[i];
        let y = b[i];
        assert((x ^ y) ^ y == x) by (bit_vector);
    }
}

/// XORing the same keystream prefix in twice restores the original bytes.
pub proof fn lemma_xor_prefix_involutive(buf: Seq<u8>, ks: Seq<u8>)
    ensures
        xor_prefix(xor_prefix(buf, ks), ks) =~= buf,
{
    assert forall|i: int| 0 <= i < buf.len() implies xor_prefix(xor_prefix(buf, ks), ks)[i]
        == buf[i] by {
        if i < ks.len() {
            let x = buf[i];
            let y = ks[i];
            assert((x ^ y) ^ y == x) by (bit_vector);
        }
    }
}

/// XOR `ks` over the first `ks.len()` bytes of `buf` in place.
///
/// If `ks` is at least as long as `buf`, the whole buffer is masked and the
/// result is `xor_seq(old(buf)@, ks@)`.
pub fn xor_into(buf: &mut Vec<u8>, ks: &[u8])
    ensures
        final(buf)@ =~= xor_prefix(old(buf)@, ks@),
        ks@.len() >= old(buf)@.len() ==> final(buf)@ =~= xor_seq(old(buf)@, ks@),
{
    let n = if ks.len() < buf.len() {
        ks.len()
    } else {
        buf.len()
    };
    let mut i: usize = 0;
    while i < n
        invariant
            n <= buf.len(),
            n <= ks.len(),
            i <= n,
            buf.len() == old(buf).len(),
            forall|j: int| 0 <= j < i ==> buf[j] == (old(buf)[j] ^ ks@[j]),
            forall|j: int| i <= j < buf.len() ==> buf[j] == old(buf)[j],
        decreases n - i,
    {
        let v = buf[i] ^ ks[i];
        buf.set(i, v);
        i += 1;
    }
}

/// Constant-time inequality of two byte strings.
///
/// Relies on subtle's `ConstantTimeEq` for `[u8]`: `ct_eq` short-circuits
/// only on the lengths, compares every byte without an early exit, and holds
/// exactly when the slices have equal length and equal contents; `ct_ne` is
/// its negation.
#[verifier::external_body]
pub(crate) fn ct_ne_bytes(a: &[u8], b: &[u8]) -> (r: bool)
    ensures
        r == (a@ != b@),
{
    bool::from(subtle::ConstantTimeEq::ct_ne(a, b))
}

/// Copy a byte vector; the verified substitute for `Clone` on buffers.
pub fn copy_bytes(v: &[u8]) -> (r: Vec<u8>)
    ensures
        r@ =~= v@,
{
    let mut r: Vec<u8> = Vec::new();
    let mut i: usize = 0;
    while i < v.len()
        invariant
            i <= v.len(),
            r@ =~= v@.take(i as int),
        decreases v.len() - i,
    {
        r.push(v[i]);
        i += 1;
    }
    r
}

} // verus!

