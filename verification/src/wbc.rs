//! The wide block cipher: full-width encipherment from two Deck instances
//! `G` (tweak-keyed) and `H` in a four-pass unbalanced network over one
//! message split into a left and a right part, plus an embedded-tag
//! authenticated wrapper.

use vstd::prelude::*;

use crate::deck::WithTrailingZeros;
use crate::farfalle::{spec_read, zeros, DeckState, Farfalle, FarfalleCore};
use crate::sane::{apply_padded, spec_apply_padded};
use crate::{xor_prefix, xor_seq, AuthError, ConfigError};

verus! {

/// Two to the power `n`.
pub open spec fn pow2(n: nat) -> nat
    decreases n,
{
    if n == 0 {
        1
    } else {
        2 * pow2((n - 1) as nat)
    }
}

/// The floor of the base-two logarithm.
pub open spec fn log2_floor(n: nat) -> nat
    decreases n,
{
    if n < 2 {
        0
    } else {
        1 + log2_floor(n / 2)
    }
}

/// The smaller of two lengths.
pub open spec fn min2(a: nat, b: nat) -> nat {
    if a < b {
        a
    } else {
        b
    }
}

/// `pow2(log2_floor(n))` brackets `n` from below.
pub proof fn lemma_log2_bounds(n: nat)
    requires
        n >= 1,
    ensures
        pow2(log2_floor(n)) <= n,
        n < pow2(log2_floor(n) + 1),
    decreases n,
{
    if n < 2 {
    } else {
        lemma_log2_bounds(n / 2);
        assert(pow2(log2_floor(n)) == 2 * pow2(log2_floor(n / 2)));
        assert(pow2(log2_floor(n) + 1) == 2 * pow2(log2_floor(n / 2) + 1));
    }
}

/// A power of two bracketing `n` from below identifies the logarithm.
pub proof fn lemma_log2_unique(n: nat, j: nat)
    requires
        pow2(j) <= n,
        n < 2 * pow2(j),
    ensures
        j == log2_floor(n),
    decreases j,
{
    if j == 0 {
    } else {
        assert(pow2(j) == 2 * pow2((j - 1) as nat));
        assert(pow2(j) >= 2) by {
            lemma_pow2_pos((j - 1) as nat);
        }
        lemma_log2_unique(n / 2, (j - 1) as nat);
    }
}

/// Powers of two are positive.
pub proof fn lemma_pow2_pos(n: nat)
    ensures
        pow2(n) >= 1,
    decreases n,
{
    if n > 0 {
        lemma_pow2_pos((n - 1) as nat);
    }
}

/// The split point: the length of the left part of a message of `n` bytes,
/// for alignment parameter `l` and block width `b`.
///
/// A short message is split near the middle, rounded to the alignment. A
/// long one takes `q - 1` = `floor((n + l) / b)` as the whole number of
/// blocks past the first and puts `(q - 1) - 2^floor(log2(q - 1))` blocks
/// (less the alignment) on the left; when `q - 1` is itself a power of two,
/// which would leave nothing, the whole `q - 1` is used instead.
pub open spec fn spec_split(n: nat, l: nat, b: nat) -> nat
    recommends
        l >= 2,
        b % l == 0,
        b >= l,
{
    if n + l + 2 <= 2 * b {
        ((n + l) / (2 * l)) * l
    } else {
        let qm1 = (n + l) / b;
        let p = pow2(log2_floor(qm1));
        let m = if qm1 == p {
            qm1
        } else {
            (qm1 - p) as nat
        };
        (m * b - l) as nat
    }
}

/// The split point never exceeds the message length.
pub proof fn lemma_split_le(n: nat, l: nat, b: nat)
    requires
        l >= 2,
        b % l == 0,
        b >= l,
    ensures
        spec_split(n, l, b) <= n,
{
    if n + l + 2 <= 2 * b {
        let t = (n + l) / (2 * l);
        vstd::arithmetic::div_mod::lemma_fundamental_div_mod((n + l) as int, (2 * l) as int);
        if n < l {
            assert(t == 0 && t * l == 0) by (nonlinear_arith)
                requires
                    l >= 2,
                    n < l,
                    t == (n + l) as int / (2 * l) as int,
            ;
        } else {
            assert(t * l <= n) by (nonlinear_arith)
                requires
                    l >= 2,
                    n >= l,
                    (n + l) as int == (2 * l) * t + (n + l) as int % (2 * l) as int,
                    (n + l) as int % (2 * l) as int >= 0,
            ;
        }
    } else {
        let qm1 = (n + l) / b;
        let p = pow2(log2_floor(qm1));
        let m = if qm1 == p {
            qm1
        } else {
            (qm1 - p) as nat
        };
        lemma_pow2_pos(log2_floor(qm1));
        vstd::arithmetic::div_mod::lemma_fundamental_div_mod((n + l) as int, b as int);
        assert(qm1 >= 1) by (nonlinear_arith)
            requires
                b >= 1,
                n + l >= b,
                (n + l) as int == b * qm1 + (n + l) as int % b as int,
                ((n + l) as int % b as int) < b,
        ;
        lemma_log2_bounds(qm1);
        assert(m >= 1 && m <= qm1);
        assert(m * b <= n + l && m * b >= b) by (nonlinear_arith)
            requires
                b >= 1,
                m >= 1,
                m <= qm1,
                (n + l) as int == b * qm1 + (n + l) as int % b as int,
                (n + l) as int % b as int >= 0,
        ;
        assert(spec_split(n, l, b) == (m * b - l) as nat);
        assert(m * b - l <= n);
    }
}

/// Compute the split point.
fn split_point<C: FarfalleCore>(n: usize, l: usize) -> (s: usize)
    requires
        l >= 2,
        C::spec_width() % l as nat == 0,
        C::spec_width() >= l as nat,
        n + l + 2 <= usize::MAX,
        2 * C::spec_width() <= usize::MAX,
    ensures
        s as nat == spec_split(n as nat, l as nat, C::spec_width()),
        s <= n,
{
    let b = C::width();
    proof {
        lemma_split_le(n as nat, l as nat, b as nat);
    }
    if n + l + 2 <= 2 * b {
        let t = (n + l) / (2 * l);
        proof {
            vstd::arithmetic::div_mod::lemma_fundamental_div_mod((n + l) as int, (2 * l) as int);
            assert(t * l <= n + l) by (nonlinear_arith)
                requires
                    l >= 2,
                    (n + l) as int == (2 * l) * t + (n + l) as int % (2 * l) as int,
                    (n + l) as int % (2 * l) as int >= 0,
                    t >= 0,
            ;
        }
        t * l
    } else {
        let qm1 = (n + l) / b;
        proof {
            assert(qm1 >= 1) by (nonlinear_arith)
                requires
                    b >= 1,
                    n + l + 2 > 2 * b,
                    qm1 == (n + l) as int / b as int,
                    l >= 2,
            ;
        }
        let mut p: usize = 1;
        let mut x: usize = 0;
        while p <= qm1 / 2
            invariant
                p as nat == pow2(x as nat),
                p <= qm1,
                qm1 <= usize::MAX,
                x <= p,
            decreases qm1 - x,
        {
            proof {
                lemma_pow2_pos(x as nat);
            }
            p = p * 2;
            x = x + 1;
        }
        proof {
            assert(2 * p > qm1);
            lemma_log2_unique(qm1 as nat, x as nat);
            vstd::arithmetic::div_mod::lemma_fundamental_div_mod((n + l) as int, b as int);
            assert(qm1 * b <= n + l) by (nonlinear_arith)
                requires
                    b >= 1,
                    (n + l) as int == b * qm1 + (n + l) as int % b as int,
                    (n + l) as int % b as int >= 0,
            ;
            assert((qm1 - p) * b <= qm1 * b) by (nonlinear_arith)
                requires
                    b >= 1,
                    p >= 1,
                    p <= qm1,
            ;
        }
        let m = if qm1 == p {
            qm1
        } else {
            qm1 - p
        };
        proof {
            assert(m * b >= b) by (nonlinear_arith)
                requires
                    m >= 1,
                    b >= 1,
            ;
        }
        m * b - l
    }
}

/// The keystream of `cnt` bytes a Deck state `d` yields after absorbing `m`
/// under `delim`.
pub open spec fn spec_ks<C: FarfalleCore>(d: DeckState, m: Seq<u8>, delim: u8, cnt: nat) -> Seq<
    u8,
> {
    spec_read::<C>(spec_apply_padded::<C>(d, m, delim).1, cnt).0
}

/// The tweak-keyed `G` state: `G` absorbs the tweak once and is finalized
/// (the reader is discarded), which keys the whole call.
pub open spec fn spec_wbc_tweak<C: FarfalleCore>(g0: DeckState, tweak: Seq<u8>) -> DeckState {
    spec_apply_padded::<C>(g0, tweak, 0x80).0
}

/// The four encryption passes over the two message parts. Passes over a
/// whole part use `G`; passes over only the leading `min(b, ..)` bytes of a
/// part use `H`.
pub open spec fn spec_wbc_encrypt_parts<C: FarfalleCore>(
    g1: DeckState,
    h0: DeckState,
    left: Seq<u8>,
    right: Seq<u8>,
    b: nat,
) -> (Seq<u8>, Seq<u8>) {
    let r1 = xor_prefix(right, spec_ks::<C>(h0, left, 0x00, min2(b, right.len())));
    let l2 = xor_seq(left, spec_ks::<C>(g1, r1, 0x80, left.len()));
    let r3 = xor_seq(r1, spec_ks::<C>(g1, l2, 0x00, r1.len()));
    let l4 = xor_prefix(l2, spec_ks::<C>(h0, r3, 0x80, min2(b, l2.len())));
    (l4, r3)
}

/// The four decryption passes: the same keystream derivations in reverse
/// order, each XOR self-inverting.
pub open spec fn spec_wbc_decrypt_parts<C: FarfalleCore>(
    g1: DeckState,
    h0: DeckState,
    left: Seq<u8>,
    right: Seq<u8>,
    b: nat,
) -> (Seq<u8>, Seq<u8>) {
    let l1 = xor_prefix(left, spec_ks::<C>(h0, right, 0x80, min2(b, left.len())));
    let r2 = xor_seq(right, spec_ks::<C>(g1, l1, 0x00, right.len()));
    let l3 = xor_seq(l1, spec_ks::<C>(g1, r2, 0x80, l1.len()));
    let r4 = xor_prefix(r2, spec_ks::<C>(h0, l3, 0x00, min2(b, r2.len())));
    (l3, r4)
}

/// The whole abstract state of a wide block cipher instance.
#[verifier::ext_equal]
pub ghost struct WbcState {
    pub g: DeckState,
    pub h: DeckState,
    pub l: nat,
}

/// Well-formed wide-block parameters: the alignment is at least two and
/// divides the block width.
pub open spec fn wbc_params_wf<C: FarfalleCore>(l: nat) -> bool {
    &&& l >= 2
    &&& C::spec_width() % l == 0
    &&& C::spec_width() >= l
}

/// The buffer and parameters fit the address space, so the split arithmetic
/// cannot overflow.
pub open spec fn wbc_fits<C: FarfalleCore>(n: nat, l: nat) -> bool {
    &&& n + l + 2 <= usize::MAX
    &&& 2 * C::spec_width() <= usize::MAX
}

/// One whole encryption: key `G` with the tweak, split, run the four
/// passes, and concatenate the transformed parts.
pub open spec fn spec_wbc_encrypt<C: FarfalleCore>(
    w: WbcState,
    tweak: Seq<u8>,
    data: Seq<u8>,
) -> Seq<u8> {
    let g1 = spec_wbc_tweak::<C>(w.g, tweak);
    let s = spec_split(data.len(), w.l, C::spec_width()) as int;
    let parts = spec_wbc_encrypt_parts::<C>(g1, w.h, data.take(s), data.skip(s), C::spec_width());
    parts.0 + parts.1
}

/// One whole decryption.
pub open spec fn spec_wbc_decrypt<C: FarfalleCore>(
    w: WbcState,
    tweak: Seq<u8>,
    data: Seq<u8>,
) -> Seq<u8> {
    let g1 = spec_wbc_tweak::<C>(w.g, tweak);
    let s = spec_split(data.len(), w.l, C::spec_width()) as int;
    let parts = spec_wbc_decrypt_parts::<C>(g1, w.h, data.take(s), data.skip(s), C::spec_width());
    parts.0 + parts.1
}

/// The four decryption passes undo the four encryption passes.
pub proof fn lemma_wbc_parts_round_trip<C: FarfalleCore>(
    g1: DeckState,
    h0: DeckState,
    left: Seq<u8>,
    right: Seq<u8>,
    b: nat,
)
    ensures
        spec_wbc_decrypt_parts::<C>(
            g1,
            h0,
            spec_wbc_encrypt_parts::<C>(g1, h0, left, right, b).0,
            spec_wbc_encrypt_parts::<C>(g1, h0, left, right, b).1,
            b,
        ).0 == left,
        spec_wbc_decrypt_parts::<C>(
            g1,
            h0,
            spec_wbc_encrypt_parts::<C>(g1, h0, left, right, b).0,
            spec_wbc_encrypt_parts::<C>(g1, h0, left, right, b).1,
            b,
        ).1 == right,
{
    let k1 = spec_ks::<C>(h0, left, 0x00, min2(b, right.len()));
    let r1 = xor_prefix(right, k1);
    let k2 = spec_ks::<C>(g1, r1, 0x80, left.len());
    let l2 = xor_seq(left, k2);
    let k3 = spec_ks::<C>(g1, l2, 0x00, r1.len());
    let r3 = xor_seq(r1, k3);
    let k4 = spec_ks::<C>(h0, r3, 0x80, min2(b, l2.len()));
    let l4 = xor_prefix(l2, k4);
    crate::lemma_xor_prefix_involutive(l2, k4);
    assert(xor_prefix(l4, k4) =~= l2);
    crate::lemma_xor_seq_involutive(r1, k3);
    assert(xor_seq(r3, k3) =~= r1);
    crate::lemma_xor_seq_involutive(left, k2);
    assert(xor_seq(l2, k2) =~= left);
    crate::lemma_xor_prefix_involutive(right, k1);
    assert(xor_prefix(r1, k1) =~= right);
}

/// The four encryption passes undo the four decryption passes, so
/// re-encrypting a decrypted buffer restores it exactly.
pub proof fn lemma_wbc_parts_inverse<C: FarfalleCore>(
    g1: DeckState,
    h0: DeckState,
    left: Seq<u8>,
    right: Seq<u8>,
    b: nat,
)
    ensures
        spec_wbc_encrypt_parts::<C>(
            g1,
            h0,
            spec_wbc_decrypt_parts::<C>(g1, h0, left, right, b).0,
            spec_wbc_decrypt_parts::<C>(g1, h0, left, right, b).1,
            b,
        ).0 == left,
        spec_wbc_encrypt_parts::<C>(
            g1,
            h0,
            spec_wbc_decrypt_parts::<C>(g1, h0, left, right, b).0,
            spec_wbc_decrypt_parts::<C>(g1, h0, left, right, b).1,
            b,
        ).1 == right,
{
    let k1 = spec_ks::<C>(h0, right, 0x80, min2(b, left.len()));
    let l1 = xor_prefix(left, k1);
    let k2 = spec_ks::<C>(g1, l1, 0x00, right.len());
    let r2 = xor_seq(right, k2);
    let k3 = spec_ks::<C>(g1, r2, 0x80, l1.len());
    let l3 = xor_seq(l1, k3);
    let k4 = spec_ks::<C>(h0, l3, 0x00, min2(b, r2.len()));
    let r4 = xor_prefix(r2, k4);
    crate::lemma_xor_prefix_involutive(r2, k4);
    assert(xor_prefix(r4, k4) =~= r2);
    crate::lemma_xor_seq_involutive(l1, k3);
    assert(xor_seq(l3, k3) =~= l1);
    crate::lemma_xor_seq_involutive(right, k2);
    assert(xor_seq(r2, k2) =~= right);
    crate::lemma_xor_prefix_involutive(left, k1);
    assert(xor_prefix(l1, k1) =~= left);
}

/// Round trip: decrypting an encrypted buffer under the same tweak recovers
/// it exactly.
pub proof fn lemma_wbc_round_trip<C: FarfalleCore>(w: WbcState, tweak: Seq<u8>, data: Seq<u8>)
    requires
        wbc_params_wf::<C>(w.l),
    ensures
        spec_wbc_decrypt::<C>(w, tweak, spec_wbc_encrypt::<C>(w, tweak, data)) == data,
{
    let g1 = spec_wbc_tweak::<C>(w.g, tweak);
    let b = C::spec_width();
    lemma_split_le(data.len(), w.l, b);
    let s = spec_split(data.len(), w.l, b) as int;
    let left = data.take(s);
    let right = data.skip(s);
    let e = spec_wbc_encrypt_parts::<C>(g1, w.h, left, right, b);
    let enc = spec_wbc_encrypt::<C>(w, tweak, data);
    assert(e.0.len() == left.len() && e.1.len() == right.len());
    assert(enc.len() == data.len());
    assert(enc.take(s) =~= e.0);
    assert(enc.skip(s) =~= e.1);
    lemma_wbc_parts_round_trip::<C>(g1, w.h, left, right, b);
    assert(spec_wbc_decrypt::<C>(w, tweak, enc) =~= data);
}

/// Inverse round trip: re-encrypting a decrypted buffer under the same
/// tweak restores the ciphertext exactly.
pub proof fn lemma_wbc_inverse_round_trip<C: FarfalleCore>(
    w: WbcState,
    tweak: Seq<u8>,
    data: Seq<u8>,
)
    requires
        wbc_params_wf::<C>(w.l),
    ensures
        spec_wbc_encrypt::<C>(w, tweak, spec_wbc_decrypt::<C>(w, tweak, data)) == data,
{
    let g1 = spec_wbc_tweak::<C>(w.g, tweak);
    let b = C::spec_width();
    lemma_split_le(data.len(), w.l, b);
    let s = spec_split(data.len(), w.l, b) as int;
    let left = data.take(s);
    let right = data.skip(s);
    let d = spec_wbc_decrypt_parts::<C>(g1, w.h, left, right, b);
    let dec = spec_wbc_decrypt::<C>(w, tweak, data);
    assert(d.0.len() == left.len() && d.1.len() == right.len());
    assert(dec.len() == data.len());
    assert(dec.take(s) =~= d.0);
    assert(dec.skip(s) =~= d.1);
    lemma_wbc_parts_inverse::<C>(g1, w.h, left, right, b);
    assert(spec_wbc_encrypt::<C>(w, tweak, dec) =~= data);
}

/// A wide block cipher instance: two independent Deck instances over the
/// same key, and the alignment parameter.
pub struct WideBlockCipher<C: FarfalleCore> {
    g: Farfalle<C>,
    h: Farfalle<C>,
    l: usize,
}

impl<C: FarfalleCore> View for WideBlockCipher<C> {
    type V = WbcState;

    closed spec fn view(&self) -> WbcState {
        WbcState { g: self.g@, h: self.h@, l: self.l as nat }
    }
}

impl<C: FarfalleCore> Clone for WideBlockCipher<C> {
    /// Snapshot both Deck instances.
    fn clone(&self) -> (r: Self)
        ensures
            r@ == self@,
            r.wf() <==> self.wf(),
    {
        let r = WideBlockCipher { g: self.g.clone(), h: self.h.clone(), l: self.l };
        proof {
            assert(r@ =~= self@);
        }
        r
    }
}

/// One pass of the network: derive a keystream from `d` absorbing `m` under
/// `delim` and XOR it over the first `cnt` bytes of `target`.
fn wbc_pass<C: FarfalleCore>(
    d: &mut Farfalle<C>,
    m: &[u8],
    delim: u8,
    target: &mut Vec<u8>,
    cnt: usize,
)
    requires
        old(d).wf(),
    ensures
        final(d).wf(),
        final(d)@ == spec_apply_padded::<C>(old(d)@, m@, delim).0,
        final(target)@ == xor_prefix(old(target)@, spec_ks::<C>(old(d)@, m@, delim, cnt as nat)),
{
    let mut k = apply_padded(d, m, delim);
    k.xor_read(target, cnt);
}

impl<C: FarfalleCore> WideBlockCipher<C> {
    /// The instance is well formed.
    pub closed spec fn wf(&self) -> bool {
        &&& self.g.wf()
        &&& self.h.wf()
        &&& wbc_params_wf::<C>(self.l as nat)
    }

    /// Initialise from a key, which keys both Deck instances, and the
    /// alignment parameter `l`, which must be at least two and divide the
    /// block width.
    pub fn init(key: &[u8], l: usize) -> (r: Result<Self, ConfigError>)
        requires
            l >= 2,
            C::spec_width() % l as nat == 0,
        ensures
            r is Ok <==> key@.len() < C::spec_width(),
            r matches Ok(w) ==> w.wf() && w@ == (WbcState {
                g: crate::farfalle::spec_init::<C>(key@),
                h: crate::farfalle::spec_init::<C>(key@),
                l: l as nat,
            }),
    {
        let g = match Farfalle::<C>::init(key) {
            Ok(g) => g,
            Err(e) => {
                return Err(e);
            },
        };
        let h = match Farfalle::<C>::init(key) {
            Ok(h) => h,
            Err(e) => {
                return Err(e);
            },
        };
        proof {
            C::lemma_width();
            if C::spec_width() < l as nat {
                vstd::arithmetic::div_mod::lemma_small_mod(C::spec_width(), l as nat);
            }
        }
        Ok(WideBlockCipher { g, h, l })
    }

    /// Encipher the buffer in place under the tweak.
    pub fn encrypt_inout(self, tweak: &[u8], buffer: &mut Vec<u8>)
        requires
            self.wf(),
            wbc_fits::<C>(old(buffer)@.len(), self@.l),
        ensures
            final(buffer)@ == spec_wbc_encrypt::<C>(self@, tweak@, old(buffer)@),
            final(buffer)@.len() == old(buffer)@.len(),
    {
        let ghost w = self@;
        let WideBlockCipher { mut g, mut h, l } = self;
        let _ = apply_padded(&mut g, tweak, WithTrailingZeros::pad1x().byte());
        let ghost g1 = g@;
        let b = C::width();
        let n = buffer.len();
        let s = split_point::<C>(n, l);
        let mut right = buffer.split_off(s);
        proof {
            assert(buffer@ =~= old(buffer)@.take(s as int));
            assert(right@ =~= old(buffer)@.skip(s as int));
        }
        let ghost left0 = buffer@;
        let ghost right0 = right@;
        let c1 = if b < right.len() {
            b
        } else {
            right.len()
        };
        let mut hh = h.clone();
        wbc_pass(&mut hh, buffer.as_slice(), WithTrailingZeros::only_zeros().byte(), &mut right, c1);
        proof {
            assert(right@ == xor_prefix(
                right0,
                spec_ks::<C>(w.h, left0, 0x00, min2(C::spec_width(), right0.len())),
            ));
        }
        let ghost r1 = right@;
        let mut gg = g.clone();
        let nl = buffer.len();
        wbc_pass(&mut gg, right.as_slice(), WithTrailingZeros::pad1x().byte(), buffer, nl);
        proof {
            crate::farfalle::lemma_read_len::<C>(
                spec_apply_padded::<C>(g1, r1, 0x80).1,
                left0.len(),
            );
            assert(buffer@ =~= xor_seq(left0, spec_ks::<C>(g1, r1, 0x80, left0.len())));
        }
        let ghost l2 = buffer@;
        let nr = right.len();
        wbc_pass(&mut g, buffer.as_slice(), WithTrailingZeros::only_zeros().byte(), &mut right, nr);
        proof {
            crate::farfalle::lemma_read_len::<C>(spec_apply_padded::<C>(g1, l2, 0x00).1, r1.len());
            assert(right@ =~= xor_seq(r1, spec_ks::<C>(g1, l2, 0x00, r1.len())));
        }
        let ghost r3 = right@;
        let c4 = if b < buffer.len() {
            b
        } else {
            buffer.len()
        };
        wbc_pass(&mut h, right.as_slice(), WithTrailingZeros::pad1x().byte(), buffer, c4);
        proof {
            assert(buffer@ == xor_prefix(
                l2,
                spec_ks::<C>(w.h, r3, 0x80, min2(C::spec_width(), l2.len())),
            ));
        }
        buffer.append(&mut right);
        proof {
            let parts = spec_wbc_encrypt_parts::<C>(
                g1,
                w.h,
                old(buffer)@.take(s as int),
                old(buffer)@.skip(s as int),
                C::spec_width(),
            );
            assert(buffer@ == parts.0 + parts.1);
        }
    }

    /// Decipher the buffer in place under the tweak.
    pub fn decrypt_inout(self, tweak: &[u8], buffer: &mut Vec<u8>)
        requires
            self.wf(),
            wbc_fits::<C>(old(buffer)@.len(), self@.l),
        ensures
            final(buffer)@ == spec_wbc_decrypt::<C>(self@, tweak@, old(buffer)@),
            final(buffer)@.len() == old(buffer)@.len(),
    {
        let ghost w = self@;
        let WideBlockCipher { mut g, mut h, l } = self;
        let _ = apply_padded(&mut g, tweak, WithTrailingZeros::pad1x().byte());
        let ghost g1 = g@;
        let b = C::width();
        let n = buffer.len();
        let s = split_point::<C>(n, l);
        let mut right = buffer.split_off(s);
        proof {
            assert(buffer@ =~= old(buffer)@.take(s as int));
            assert(right@ =~= old(buffer)@.skip(s as int));
        }
        let ghost left0 = buffer@;
        let ghost right0 = right@;
        let c1 = if b < buffer.len() {
            b
        } else {
            buffer.len()
        };
        let mut hh = h.clone();
        wbc_pass(&mut hh, right.as_slice(), WithTrailingZeros::pad1x().byte(), buffer, c1);
        proof {
            assert(buffer@ == xor_prefix(
                left0,
                spec_ks::<C>(w.h, right0, 0x80, min2(C::spec_width(), left0.len())),
            ));
        }
        let ghost l1 = buffer@;
        let mut gg = g.clone();
        let nr = right.len();
        wbc_pass(&mut gg, buffer.as_slice(), WithTrailingZeros::only_zeros().byte(), &mut right, nr);
        proof {
            crate::farfalle::lemma_read_len::<C>(
                spec_apply_padded::<C>(g1, l1, 0x00).1,
                right0.len(),
            );
            assert(right@ =~= xor_seq(right0, spec_ks::<C>(g1, l1, 0x00, right0.len())));
        }
        let ghost r2 = right@;
        let nl = buffer.len();
        wbc_pass(&mut g, right.as_slice(), WithTrailingZeros::pad1x().byte(), buffer, nl);
        proof {
            crate::farfalle::lemma_read_len::<C>(spec_apply_padded::<C>(g1, r2, 0x80).1, l1.len());
            assert(buffer@ =~= xor_seq(l1, spec_ks::<C>(g1, r2, 0x80, l1.len())));
        }
        let ghost l3 = buffer@;
        let c4 = if b < right.len() {
            b
        } else {
            right.len()
        };
        wbc_pass(&mut h, buffer.as_slice(), WithTrailingZeros::only_zeros().byte(), &mut right, c4);
        proof {
            assert(right@ == xor_prefix(
                r2,
                spec_ks::<C>(w.h, l3, 0x00, min2(C::spec_width(), r2.len())),
            ));
        }
        buffer.append(&mut right);
        proof {
            let parts = spec_wbc_decrypt_parts::<C>(
                g1,
                w.h,
                old(buffer)@.take(s as int),
                old(buffer)@.skip(s as int),
                C::spec_width(),
            );
            assert(buffer@ == parts.0 + parts.1);
        }
    }
}

/// The authenticated wide block cipher: `tag_size` zero bytes travel with
/// the plaintext through the full-diffusion network and are checked after
/// deciphering.
pub struct WideBlockCipherAuthenticated<C: FarfalleCore> {
    inner: WideBlockCipher<C>,
    tag_size: usize,
}

impl<C: FarfalleCore> View for WideBlockCipherAuthenticated<C> {
    type V = WbcState;

    closed spec fn view(&self) -> WbcState {
        self.inner@
    }
}

impl<C: FarfalleCore> Clone for WideBlockCipherAuthenticated<C> {
    /// Snapshot the inner cipher and the tag length.
    fn clone(&self) -> (r: Self)
        ensures
            r@ == self@,
            r.spec_tag_size() == self.spec_tag_size(),
            r.wf() <==> self.wf(),
    {
        WideBlockCipherAuthenticated { inner: self.inner.clone(), tag_size: self.tag_size }
    }
}

impl<C: FarfalleCore> WideBlockCipherAuthenticated<C> {
    /// The instance is well formed.
    pub closed spec fn wf(&self) -> bool {
        self.inner.wf()
    }

    /// The embedded tag length in bytes.
    pub closed spec fn spec_tag_size(&self) -> nat {
        self.tag_size as nat
    }

    /// Initialise from a key, the alignment parameter and the embedded tag
    /// length.
    pub fn init(key: &[u8], l: usize, tag_size: usize) -> (r: Result<Self, ConfigError>)
        requires
            l >= 2,
            C::spec_width() % l as nat == 0,
        ensures
            r is Ok <==> key@.len() < C::spec_width(),
            r matches Ok(w) ==> w.wf() && w@ == (WbcState {
                g: crate::farfalle::spec_init::<C>(key@),
                h: crate::farfalle::spec_init::<C>(key@),
                l: l as nat,
            }) && w.spec_tag_size() == tag_size as nat,
    {
        let inner = match WideBlockCipher::<C>::init(key, l) {
            Ok(w) => w,
            Err(e) => {
                return Err(e);
            },
        };
        Ok(WideBlockCipherAuthenticated { inner, tag_size })
    }

    /// Encrypt in place: append the zero tag and encipher the whole buffer.
    pub fn encrypt_in_place(self, tweak: &[u8], buffer: &mut Vec<u8>)
        requires
            self.wf(),
            wbc_fits::<C>(old(buffer)@.len() + self.spec_tag_size(), self@.l),
        ensures
            final(buffer)@ == spec_wbc_encrypt::<C>(
                self@,
                tweak@,
                old(buffer)@ + zeros(self.spec_tag_size()),
            ),
    {
        let mut i: usize = 0;
        while i < self.tag_size
            invariant
                i <= self.tag_size,
                buffer@ =~= old(buffer)@ + zeros(i as nat),
            decreases self.tag_size - i,
        {
            buffer.push(0);
            i += 1;
        }
        self.inner.encrypt_inout(tweak, buffer);
    }

    /// Decrypt in place: decipher, check in constant time that the trailing
    /// tag bytes are zero, and truncate them away.
    ///
    /// Succeeds exactly when the buffer is at least as long as the tag and
    /// the deciphered trailing bytes are all zero. On failure the buffer is
    /// re-enciphered, restoring the original ciphertext byte for byte.
    pub fn decrypt_in_place(self, tweak: &[u8], buffer: &mut Vec<u8>) -> (r: Result<(), AuthError>)
        requires
            self.wf(),
            wbc_fits::<C>(old(buffer)@.len(), self@.l),
        ensures
            ({
                let dec = spec_wbc_decrypt::<C>(self@, tweak@, old(buffer)@);
                let n = old(buffer)@.len() - self.spec_tag_size();
                &&& (r is Ok <==> old(buffer)@.len() >= self.spec_tag_size() && dec.skip(n)
                    =~= zeros(self.spec_tag_size()))
                &&& (r is Ok ==> final(buffer)@ == dec.take(n))
                &&& (r is Err ==> final(buffer)@ == old(buffer)@)
            }),
    {
        if buffer.len() < self.tag_size {
            return Err(AuthError);
        }
        let n = buffer.len() - self.tag_size;
        self.inner.clone().decrypt_inout(tweak, buffer);
        let z = crate::farfalle::zero_vec(self.tag_size);
        let t = tail_bytes(buffer.as_slice(), n);
        if crate::ct_ne_bytes(t.as_slice(), z.as_slice()) {
            proof {
                lemma_wbc_inverse_round_trip::<C>(self@, tweak@, old(buffer)@);
            }
            self.inner.encrypt_inout(tweak, buffer);
            return Err(AuthError);
        }
        buffer.truncate(n);
        proof {
            let dec = spec_wbc_decrypt::<C>(self@, tweak@, old(buffer)@);
            assert(buffer@ =~= dec.take(n as int));
        }
        Ok(())
    }
}

/// Copy the bytes of `v` from position `from` on.
fn tail_bytes(v: &[u8], from: usize) -> (r: Vec<u8>)
    requires
        from <= v@.len(),
    ensures
        r@ =~= v@.skip(from as int),
{
    let mut r: Vec<u8> = Vec::new();
    let mut i: usize = from;
    while i < v.len()
        invariant
            from <= i <= v@.len(),
            r@ =~= v@.subrange(from as int, i as int),
        decreases v.len() - i,
    {
        r.push(v[i]);
        i += 1;
    }
    r
}

} // verus!
