//! The Deck-SANE construction: a stateful session duplex with one running
//! history object and one running keystream reader.
//!
//! Every call absorbs the associated data and ciphertext into the history,
//! flips the direction bit, and replaces the session keystream with a fresh
//! reader derived from the new history. The tag of a call is the head of
//! that fresh reader; the keystream for the *next* call starts after a fixed
//! aligned offset.

use vstd::prelude::*;

use crate::deck::{spec_prefix, WithTrailingZeros};
use crate::farfalle::{
    spec_finalize, spec_read, spec_update, DeckState, Farfalle, FarfalleCore, FarfalleXofCore,
    ReaderState,
};
use crate::{xor_seq, AuthError, ConfigError};

verus! {

/// Absorb `m` and finalize under `delim`: the shared absorb-then-finalize
/// step of every construction in this crate.
pub open spec fn spec_apply_padded<C: FarfalleCore>(d: DeckState, m: Seq<u8>, delim: u8) -> (
    DeckState,
    ReaderState,
) {
    spec_finalize::<C>(spec_update::<C>(d, m), delim)
}

/// Absorb `m` into `d`, finalize under `delim`, and hand back the fresh
/// keystream reader.
pub(crate) fn apply_padded<C: FarfalleCore>(d: &mut Farfalle<C>, m: &[u8], delim: u8) -> (r:
    FarfalleXofCore<C>)
    requires
        old(d).wf(),
    ensures
        final(d).wf(),
        r.wf(),
        final(d)@ == spec_apply_padded::<C>(old(d)@, m@, delim).0,
        r@ == spec_apply_padded::<C>(old(d)@, m@, delim).1,
{
    d.update(m);
    d.finalize_deck(delim)
}

/// The SANE delimiter for one absorption: the direction bit `e` and one bit
/// telling associated data (`false`) from ciphertext (`true`), over the
/// `pad10*` suffix.
pub open spec fn spec_sane_delim(e: bool, ct: bool) -> u8 {
    spec_prefix(spec_prefix(0x80, e), ct)
}

/// Build the SANE delimiter byte.
fn sane_delim(e: bool, ct: bool) -> (b: u8)
    ensures
        b == spec_sane_delim(e, ct),
{
    WithTrailingZeros::pad1x().prefix(e).prefix(ct).byte()
}

/// One SANE absorption phase: with an empty ciphertext only the associated
/// data is absorbed; otherwise a non-empty associated data is absorbed
/// first, and the ciphertext always after it. The reader of the last
/// finalize is the one that carries tag and next keystream.
pub open spec fn spec_sane_absorb<C: FarfalleCore>(
    d: DeckState,
    e: bool,
    ad: Seq<u8>,
    ct: Seq<u8>,
) -> (DeckState, ReaderState) {
    if ct.len() == 0 {
        spec_apply_padded::<C>(d, ad, spec_sane_delim(e, false))
    } else if ad.len() > 0 {
        spec_apply_padded::<C>(
            spec_apply_padded::<C>(d, ad, spec_sane_delim(e, false)).0,
            ct,
            spec_sane_delim(e, true),
        )
    } else {
        spec_apply_padded::<C>(d, ct, spec_sane_delim(e, true))
    }
}

/// Absorb associated data and ciphertext into the history per the SANE rule.
fn apply_ad_ct<C: FarfalleCore>(d: &mut Farfalle<C>, e: bool, ad: &[u8], ct: &[u8]) -> (r:
    FarfalleXofCore<C>)
    requires
        old(d).wf(),
    ensures
        final(d).wf(),
        r.wf(),
        final(d)@ == spec_sane_absorb::<C>(old(d)@, e, ad@, ct@).0,
        r@ == spec_sane_absorb::<C>(old(d)@, e, ad@, ct@).1,
{
    if ct.len() == 0 {
        apply_padded(d, ad, sane_delim(e, false))
    } else {
        if ad.len() > 0 {
            let _ = apply_padded(d, ad, sane_delim(e, false));
        }
        apply_padded(d, ct, sane_delim(e, true))
    }
}

/// The total number of keystream bytes one call consumes for tag and
/// alignment: the alignment parameter rounded up to a whole number of tags.
pub open spec fn spec_total_consume(tag_size: nat, align: nat) -> nat
    recommends
        tag_size >= 1,
{
    ((align + tag_size - 1) as nat / tag_size) * tag_size
}

/// Draw the tag and then discard keystream up to the aligned offset; the
/// advanced reader becomes the next session keystream.
pub open spec fn spec_consume<C: FarfalleCore>(r: ReaderState, tag_size: nat, align: nat) -> (
    Seq<u8>,
    ReaderState,
) {
    let t = spec_read::<C>(r, tag_size);
    let rest = spec_read::<C>(t.1, (spec_total_consume(tag_size, align) - tag_size) as nat);
    (t.0, rest.1)
}

/// The whole abstract state of a SANE session.
#[verifier::ext_equal]
pub ghost struct SaneState {
    pub d: DeckState,
    pub r: ReaderState,
    pub e: bool,
    pub tag_size: nat,
    pub align: nat,
}

/// The state of a fresh session: the key-derived history absorbs the IV and
/// is finalized under the bare `pad10*` delimiter; the initial keystream is
/// that reader past the tag-and-alignment offset (the leading bytes are
/// discarded).
pub open spec fn spec_sane_init<C: FarfalleCore>(
    key: Seq<u8>,
    iv: Seq<u8>,
    tag_size: nat,
    align: nat,
) -> SaneState
    recommends
        key.len() < C::spec_width(),
{
    let fin = spec_apply_padded::<C>(crate::farfalle::spec_init::<C>(key), iv, 0x80);
    SaneState {
        d: fin.0,
        r: spec_consume::<C>(fin.1, tag_size, align).1,
        e: false,
        tag_size,
        align,
    }
}

/// One SANE encryption: XOR the current session keystream over the
/// plaintext, absorb associated data and ciphertext, flip the direction bit,
/// then draw the tag from the fresh reader and install it (past the aligned
/// offset) as the next session keystream. Yields (new state, ciphertext,
/// tag).
pub open spec fn spec_sane_encrypt<C: FarfalleCore>(s: SaneState, ad: Seq<u8>, pt: Seq<u8>) -> (
    SaneState,
    Seq<u8>,
    Seq<u8>,
) {
    let ct = xor_seq(pt, spec_read::<C>(s.r, pt.len()).0);
    let ab = spec_sane_absorb::<C>(s.d, s.e, ad, ct);
    let co = spec_consume::<C>(ab.1, s.tag_size, s.align);
    (SaneState { d: ab.0, r: co.1, e: !s.e, tag_size: s.tag_size, align: s.align }, ct, co.0)
}

/// The tag a SANE decryption expects for a given ciphertext.
pub open spec fn spec_sane_expected_tag<C: FarfalleCore>(
    s: SaneState,
    ad: Seq<u8>,
    ct: Seq<u8>,
) -> Seq<u8> {
    spec_consume::<C>(spec_sane_absorb::<C>(s.d, s.e, ad, ct).1, s.tag_size, s.align).0
}

/// One SANE decryption: absorbing and the direction-bit flip happen
/// unconditionally, exactly as in encryption. On a tag match the prior
/// session keystream decrypts the buffer and the fresh reader is installed;
/// on a mismatch the prior keystream is kept and the buffer is untouched.
/// Yields (new state, whether the tag matched).
pub open spec fn spec_sane_decrypt<C: FarfalleCore>(
    s: SaneState,
    ad: Seq<u8>,
    ct: Seq<u8>,
    tag: Seq<u8>,
) -> (SaneState, bool) {
    let ab = spec_sane_absorb::<C>(s.d, s.e, ad, ct);
    let co = spec_consume::<C>(ab.1, s.tag_size, s.align);
    if tag == co.0 {
        (SaneState { d: ab.0, r: co.1, e: !s.e, tag_size: s.tag_size, align: s.align }, true)
    } else {
        (SaneState { d: ab.0, r: s.r, e: !s.e, tag_size: s.tag_size, align: s.align }, false)
    }
}

/// Deck-SANE: a session-aware authenticated encryption scheme built on a
/// Deck function.
pub struct DeckSane<C: FarfalleCore> {
    d: Farfalle<C>,
    k: FarfalleXofCore<C>,
    e: bool,
    tag_size: usize,
    align: usize,
}

impl<C: FarfalleCore> View for DeckSane<C> {
    type V = SaneState;

    closed spec fn view(&self) -> SaneState {
        SaneState {
            d: self.d@,
            r: self.k@,
            e: self.e,
            tag_size: self.tag_size as nat,
            align: self.align as nat,
        }
    }
}

/// Round `align` up to a whole number of tags.
fn total_consume(tag_size: usize, align: usize) -> (r: usize)
    requires
        tag_size >= 1,
        align >= 1,
        align + tag_size <= usize::MAX,
    ensures
        r as nat == spec_total_consume(tag_size as nat, align as nat),
        r >= tag_size,
{
    let q = (align + tag_size - 1) / tag_size;
    proof {
        vstd::arithmetic::div_mod::lemma_fundamental_div_mod((align + tag_size - 1) as int, tag_size as int);
        assert(q >= 1) by (nonlinear_arith)
            requires
                tag_size >= 1,
                align >= 1,
                q == (align + tag_size - 1) as int / tag_size as int,
        ;
        assert(q * tag_size <= align + tag_size - 1 && q * tag_size >= tag_size) by (nonlinear_arith)
            requires
                tag_size >= 1,
                q >= 1,
                (align + tag_size - 1) as int == tag_size * q + (align + tag_size - 1) as int % tag_size as int,
                (align + tag_size - 1) as int % tag_size as int >= 0,
        ;
    }
    q * tag_size
}

impl<C: FarfalleCore> DeckSane<C> {
    /// The session is well formed.
    pub closed spec fn wf(&self) -> bool {
        &&& self.d.wf()
        &&& self.k.wf()
        &&& self.tag_size >= 1
        &&& self.align >= 1
        &&& self.align + self.tag_size <= usize::MAX
    }

    /// Draw `tag_size` bytes as the tag, then keep drawing and discarding
    /// until the aligned offset is reached; the reader is then positioned
    /// for the next call's keystream.
    fn consume_tag_and_offset(k: &mut FarfalleXofCore<C>, tag_size: usize, align: usize) -> (tag:
        Vec<u8>)
        requires
            old(k).wf(),
            tag_size >= 1,
            align >= 1,
            align + tag_size <= usize::MAX,
        ensures
            final(k).wf(),
            tag@ == spec_consume::<C>(old(k)@, tag_size as nat, align as nat).0,
            final(k)@ == spec_consume::<C>(old(k)@, tag_size as nat, align as nat).1,
            tag@.len() == tag_size,
    {
        let tag = k.read_vec(tag_size);
        let total = total_consume(tag_size, align);
        let _ = k.read_vec(total - tag_size);
        tag
    }

    /// Start a session: derive the history from the key, absorb the IV, and
    /// discard the leading keystream bytes up to the aligned offset.
    ///
    /// `tag_size` is the tag length in bytes and `align` the keystream
    /// alignment parameter of the instantiation.
    pub fn init(key: &[u8], iv: &[u8], tag_size: usize, align: usize) -> (r: Result<
        Self,
        ConfigError,
    >)
        requires
            tag_size >= 1,
            align >= 1,
            align + tag_size <= usize::MAX,
        ensures
            r is Ok <==> key@.len() < C::spec_width(),
            r matches Ok(s) ==> s.wf() && s@ == spec_sane_init::<C>(
                key@,
                iv@,
                tag_size as nat,
                align as nat,
            ),
    {
        let mut d = match Farfalle::<C>::init(key) {
            Ok(d) => d,
            Err(e) => {
                return Err(e);
            },
        };
        let mut k = apply_padded(&mut d, iv, WithTrailingZeros::pad1x().byte());
        let _ = Self::consume_tag_and_offset(&mut k, tag_size, align);
        let s = DeckSane { d, k, e: false, tag_size, align };
        Ok(s)
    }

    /// Encrypt the buffer in place and return the authentication tag. This
    /// also moves the session state forward.
    pub fn encrypt_inout_detached(&mut self, ad: &[u8], buffer: &mut Vec<u8>) -> (tag: Vec<u8>)
        requires
            old(self).wf(),
        ensures
            final(self).wf(),
            final(self)@ == spec_sane_encrypt::<C>(old(self)@, ad@, old(buffer)@).0,
            final(buffer)@ == spec_sane_encrypt::<C>(old(self)@, ad@, old(buffer)@).1,
            tag@ == spec_sane_encrypt::<C>(old(self)@, ad@, old(buffer)@).2,
    {
        let n = buffer.len();
        self.k.xor_read(buffer, n);
        let mut k2 = apply_ad_ct(&mut self.d, self.e, ad, buffer.as_slice());
        self.e = !self.e;
        let tag = Self::consume_tag_and_offset(&mut k2, self.tag_size, self.align);
        self.k = k2;
        tag
    }

    /// Decrypt the buffer in place after checking the tag, in constant time,
    /// against the tag expected for this ciphertext.
    ///
    /// Succeeds exactly when the supplied tag equals the expected one; the
    /// buffer is only written on success. History and direction bit advance
    /// unconditionally, so a failed call leaves a session that should be
    /// discarded.
    pub fn decrypt_inout_detached(&mut self, ad: &[u8], buffer: &mut Vec<u8>, tag: &[u8]) -> (r:
        Result<(), AuthError>)
        requires
            old(self).wf(),
        ensures
            final(self).wf(),
            r is Ok <==> tag@ == spec_sane_expected_tag::<C>(old(self)@, ad@, old(buffer)@),
            final(self)@ == spec_sane_decrypt::<C>(old(self)@, ad@, old(buffer)@, tag@).0,
            r is Ok ==> final(buffer)@ == xor_seq(
                old(buffer)@,
                spec_read::<C>(old(self)@.r, old(buffer)@.len() as nat).0,
            ),
            r is Err ==> final(buffer)@ == old(buffer)@,
    {
        let mut k2 = apply_ad_ct(&mut self.d, self.e, ad, buffer.as_slice());
        self.e = !self.e;
        let actual = Self::consume_tag_and_offset(&mut k2, self.tag_size, self.align);
        if crate::ct_ne_bytes(tag, actual.as_slice()) {
            return Err(AuthError);
        }
        let n = buffer.len();
        self.k.xor_read(buffer, n);
        self.k = k2;
        Ok(())
    }
}

/// Round trip: decrypting what a mirrored session encrypted, in the same
/// call order, succeeds, recovers the plaintext exactly, and leaves the two
/// sessions in the same state again.
pub proof fn lemma_sane_round_trip<C: FarfalleCore>(s: SaneState, ad: Seq<u8>, pt: Seq<u8>)
    ensures
        ({
            let enc = spec_sane_encrypt::<C>(s, ad, pt);
            let dec = spec_sane_decrypt::<C>(s, ad, enc.1, enc.2);
            &&& dec.1 == true
            &&& dec.0 == enc.0
            &&& xor_seq(enc.1, spec_read::<C>(s.r, enc.1.len()).0) == pt
        }),
{
    let enc = spec_sane_encrypt::<C>(s, ad, pt);
    let ks = spec_read::<C>(s.r, pt.len()).0;
    assert(enc.1.len() == pt.len());
    crate::lemma_xor_seq_involutive(pt, ks);
    assert(xor_seq(enc.1, spec_read::<C>(s.r, enc.1.len()).0) =~= pt);
}

/// Encrypt a whole conversation: a sequence of (associated data, plaintext)
/// messages, in order. Yields the final state and the (ciphertext, tag)
/// pair of every step.
pub open spec fn spec_sane_encrypt_all<C: FarfalleCore>(
    s: SaneState,
    msgs: Seq<(Seq<u8>, Seq<u8>)>,
) -> (SaneState, Seq<(Seq<u8>, Seq<u8>)>)
    decreases msgs.len(),
{
    if msgs.len() == 0 {
        (s, Seq::empty())
    } else {
        let e = spec_sane_encrypt::<C>(s, msgs[0].0, msgs[0].1);
        let rest = spec_sane_encrypt_all::<C>(e.0, msgs.skip(1));
        (rest.0, seq![(e.1, e.2)] + rest.1)
    }
}

/// Decrypt a whole conversation: a sequence of (associated data,
/// ciphertext, tag) items, in order. Yields the final state, whether every
/// tag matched, and the buffer contents of every step.
pub open spec fn spec_sane_decrypt_all<C: FarfalleCore>(
    s: SaneState,
    items: Seq<(Seq<u8>, Seq<u8>, Seq<u8>)>,
) -> (SaneState, bool, Seq<Seq<u8>>)
    decreases items.len(),
{
    if items.len() == 0 {
        (s, true, Seq::empty())
    } else {
        let d = spec_sane_decrypt::<C>(s, items[0].0, items[0].1, items[0].2);
        let pt = xor_seq(items[0].1, spec_read::<C>(s.r, items[0].1.len()).0);
        let rest = spec_sane_decrypt_all::<C>(d.0, items.skip(1));
        (rest.0, d.1 && rest.1, seq![pt] + rest.2)
    }
}

/// Round trip over a whole conversation: for any starting state and any
/// sequence of (associated data, plaintext) messages, decrypting the
/// produced (ciphertext, tag) items in the same order on a mirrored session
/// verifies at every step, recovers every plaintext exactly, and keeps the
/// two sessions in the same state throughout.
pub proof fn lemma_sane_round_trip_sequence<C: FarfalleCore>(
    s: SaneState,
    msgs: Seq<(Seq<u8>, Seq<u8>)>,
)
    ensures
        ({
            let enc = spec_sane_encrypt_all::<C>(s, msgs);
            let items = Seq::new(msgs.len(), |i: int| (msgs[i].0, enc.1[i].0, enc.1[i].1));
            let dec = spec_sane_decrypt_all::<C>(s, items);
            &&& enc.1.len() == msgs.len()
            &&& dec.1 == true
            &&& dec.0 == enc.0
            &&& dec.2 =~= Seq::new(msgs.len(), |i: int| msgs[i].1)
        }),
    decreases msgs.len(),
{
    let enc = spec_sane_encrypt_all::<C>(s, msgs);
    let items = Seq::new(msgs.len(), |i: int| (msgs[i].0, enc.1[i].0, enc.1[i].1));
    let dec = spec_sane_decrypt_all::<C>(s, items);
    if msgs.len() == 0 {
    } else {
        let e = spec_sane_encrypt::<C>(s, msgs[0].0, msgs[0].1);
        let rest = spec_sane_encrypt_all::<C>(e.0, msgs.skip(1));
        assert(enc.1 == seq![(e.1, e.2)] + rest.1);
        lemma_sane_round_trip::<C>(s, msgs[0].0, msgs[0].1);
        lemma_sane_round_trip_sequence::<C>(e.0, msgs.skip(1));
        let items1 = Seq::new(
            msgs.skip(1).len(),
            |i: int| (msgs.skip(1)[i].0, rest.1[i].0, rest.1[i].1),
        );
        assert(items[0] == (msgs[0].0, e.1, e.2));
        assert(items.skip(1) =~= items1);
        let d = spec_sane_decrypt::<C>(s, msgs[0].0, e.1, e.2);
        assert(d.1 && d.0 == e.0);
        assert(dec.2 =~= Seq::new(msgs.len(), |i: int| msgs[i].1));
    }
}

/// Zero-length handling: encrypting with empty associated data and an empty
/// buffer leaves the buffer empty and yields a tag that decrypts back
/// successfully on a mirrored session.
pub proof fn lemma_sane_zero_length<C: FarfalleCore>(s: SaneState)
    ensures
        spec_sane_encrypt::<C>(s, Seq::empty(), Seq::empty()).1 == Seq::<u8>::empty(),
        spec_sane_decrypt::<C>(
            s,
            Seq::empty(),
            Seq::empty(),
            spec_sane_encrypt::<C>(s, Seq::empty(), Seq::empty()).2,
        ).1 == true,
{
    let enc = spec_sane_encrypt::<C>(s, Seq::<u8>::empty(), Seq::<u8>::empty());
    assert(enc.1 =~= Seq::<u8>::empty());
    lemma_sane_round_trip::<C>(s, Seq::<u8>::empty(), Seq::<u8>::empty());
}

} // verus!
