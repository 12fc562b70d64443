//! The Deck-SANSE construction: an SIV-style session authenticated
//! encryption scheme.
//!
//! The tag is computed over the plaintext itself, and the keystream is then
//! derived from that tag on a clone of the pre-plaintext history, so
//! encryption needs no unique nonce: identical sessions fed identical input
//! produce identical output (misuse resistance). On a failed decryption the
//! keystream is XORed back over the buffer, restoring the original
//! ciphertext byte for byte.

use vstd::prelude::*;

use crate::deck::{spec_prefix, WithTrailingZeros};
use crate::farfalle::{spec_read, DeckState, Farfalle, FarfalleCore};
use crate::sane::{apply_padded, spec_apply_padded};
use crate::{xor_seq, AuthError, ConfigError};

verus! {

/// The SANSE delimiter for an associated-data absorption: the direction bit
/// over the `pad10*` suffix.
pub open spec fn spec_sanse_delim_ad(e: bool) -> u8 {
    spec_prefix(spec_prefix(0x80, e), false)
}

/// The SANSE delimiter for a plaintext absorption.
pub open spec fn spec_sanse_delim_pt(e: bool) -> u8 {
    spec_prefix(spec_prefix(spec_prefix(0x80, e), true), false)
}

/// The SANSE delimiter for the tag absorption that derives the SIV
/// keystream.
pub open spec fn spec_sanse_delim_tag(e: bool) -> u8 {
    spec_prefix(spec_prefix(spec_prefix(0x80, e), true), true)
}

/// Build the associated-data delimiter byte.
fn sanse_delim_ad(e: bool) -> (b: u8)
    ensures
        b == spec_sanse_delim_ad(e),
{
    WithTrailingZeros::pad1x().prefix(e).prefix(false).byte()
}

/// Build the plaintext delimiter byte.
fn sanse_delim_pt(e: bool) -> (b: u8)
    ensures
        b == spec_sanse_delim_pt(e),
{
    WithTrailingZeros::pad1x().prefix(e).prefix(true).prefix(false).byte()
}

/// Build the tag delimiter byte.
fn sanse_delim_tag(e: bool) -> (b: u8)
    ensures
        b == spec_sanse_delim_tag(e),
{
    WithTrailingZeros::pad1x().prefix(e).prefix(true).prefix(true).byte()
}

/// The whole abstract state of a SANSE session.
#[verifier::ext_equal]
pub ghost struct SanseState {
    pub d: DeckState,
    pub e: bool,
    pub tag_size: nat,
}

/// The state of a fresh session.
pub open spec fn spec_sanse_init<C: FarfalleCore>(key: Seq<u8>, tag_size: nat) -> SanseState
    recommends
        key.len() < C::spec_width(),
{
    SanseState { d: crate::farfalle::spec_init::<C>(key), e: false, tag_size }
}

/// One SANSE encryption, yielding (new state, ciphertext, tag).
///
/// With an empty plaintext only the associated data is absorbed and its
/// reader yields the tag (the keep-alive short circuit). Otherwise a
/// non-empty associated data is absorbed first; the history is cloned; the
/// plaintext is absorbed into the original history, whose reader yields the
/// tag; and the clone absorbs that tag to derive the keystream XORed over
/// the plaintext.
pub open spec fn spec_sanse_encrypt<C: FarfalleCore>(s: SanseState, ad: Seq<u8>, pt: Seq<u8>) -> (
    SanseState,
    Seq<u8>,
    Seq<u8>,
) {
    if pt.len() == 0 {
        let ap = spec_apply_padded::<C>(s.d, ad, spec_sanse_delim_ad(s.e));
        (
            SanseState { d: ap.0, e: !s.e, tag_size: s.tag_size },
            pt,
            spec_read::<C>(ap.1, s.tag_size).0,
        )
    } else {
        let d1 = if ad.len() > 0 {
            spec_apply_padded::<C>(s.d, ad, spec_sanse_delim_ad(s.e)).0
        } else {
            s.d
        };
        let tg = spec_apply_padded::<C>(d1, pt, spec_sanse_delim_pt(s.e));
        let tag = spec_read::<C>(tg.1, s.tag_size).0;
        let kx = spec_apply_padded::<C>(d1, tag, spec_sanse_delim_tag(s.e));
        let ct = xor_seq(pt, spec_read::<C>(kx.1, pt.len()).0);
        (SanseState { d: tg.0, e: !s.e, tag_size: s.tag_size }, ct, tag)
    }
}

/// One SANSE decryption, yielding (new state, whether the tag matched, the
/// final buffer contents).
///
/// The keystream is derived from the *supplied* tag on a clone of the
/// post-associated-data history; the tentative plaintext is absorbed into
/// the original history, whose reader yields the expected tag. On a
/// mismatch the keystream is applied again, so the buffer holds the original
/// ciphertext; history and direction bit advance either way.
pub open spec fn spec_sanse_decrypt<C: FarfalleCore>(
    s: SanseState,
    ad: Seq<u8>,
    ct: Seq<u8>,
    tag: Seq<u8>,
) -> (SanseState, bool, Seq<u8>) {
    if ct.len() == 0 {
        let ap = spec_apply_padded::<C>(s.d, ad, spec_sanse_delim_ad(s.e));
        let expected = spec_read::<C>(ap.1, s.tag_size).0;
        (SanseState { d: ap.0, e: !s.e, tag_size: s.tag_size }, tag == expected, ct)
    } else {
        let d1 = if ad.len() > 0 {
            spec_apply_padded::<C>(s.d, ad, spec_sanse_delim_ad(s.e)).0
        } else {
            s.d
        };
        let kx = spec_apply_padded::<C>(d1, tag, spec_sanse_delim_tag(s.e));
        let ks = spec_read::<C>(kx.1, ct.len()).0;
        let pt = xor_seq(ct, ks);
        let tg = spec_apply_padded::<C>(d1, pt, spec_sanse_delim_pt(s.e));
        let expected = spec_read::<C>(tg.1, s.tag_size).0;
        let st = SanseState { d: tg.0, e: !s.e, tag_size: s.tag_size };
        if tag == expected {
            (st, true, pt)
        } else {
            (st, false, ct)
        }
    }
}

/// Deck-SANSE: a misuse-resistant session authenticated encryption scheme
/// built on a Deck function.
pub struct DeckSanse<C: FarfalleCore> {
    d: Farfalle<C>,
    e: bool,
    tag_size: usize,
}

impl<C: FarfalleCore> View for DeckSanse<C> {
    type V = SanseState;

    closed spec fn view(&self) -> SanseState {
        SanseState { d: self.d@, e: self.e, tag_size: self.tag_size as nat }
    }
}

impl<C: FarfalleCore> DeckSanse<C> {
    /// The session is well formed.
    pub closed spec fn wf(&self) -> bool {
        self.d.wf()
    }

    /// Start a session from a key. `tag_size` is the tag length in bytes.
    pub fn init(key: &[u8], tag_size: usize) -> (r: Result<Self, ConfigError>)
        ensures
            r is Ok <==> key@.len() < C::spec_width(),
            r matches Ok(s) ==> s.wf() && s@ == spec_sanse_init::<C>(key@, tag_size as nat),
    {
        let d = match Farfalle::<C>::init(key) {
            Ok(d) => d,
            Err(e) => {
                return Err(e);
            },
        };
        Ok(DeckSanse { d, e: false, tag_size })
    }

    /// Encrypt the buffer in place and return the authentication tag. This
    /// also moves the session state forward.
    pub fn encrypt_inout_detached(&mut self, ad: &[u8], buffer: &mut Vec<u8>) -> (tag: Vec<u8>)
        requires
            old(self).wf(),
        ensures
            final(self).wf(),
            final(self)@ == spec_sanse_encrypt::<C>(old(self)@, ad@, old(buffer)@).0,
            final(buffer)@ == spec_sanse_encrypt::<C>(old(self)@, ad@, old(buffer)@).1,
            tag@ == spec_sanse_encrypt::<C>(old(self)@, ad@, old(buffer)@).2,
    {
        let e = self.e;
        self.e = !self.e;
        if ad.len() > 0 || buffer.len() == 0 {
            let mut k = apply_padded(&mut self.d, ad, sanse_delim_ad(e));
            if buffer.len() == 0 {
                return k.read_vec(self.tag_size);
            }
        }
        let mut d_copy = self.d.clone();
        let mut tg = apply_padded(&mut self.d, buffer.as_slice(), sanse_delim_pt(e));
        let tag = tg.read_vec(self.tag_size);
        let mut kx = apply_padded(&mut d_copy, tag.as_slice(), sanse_delim_tag(e));
        let n = buffer.len();
        kx.xor_read(buffer, n);
        tag
    }

    /// Decrypt the buffer in place after checking, in constant time, that
    /// the supplied tag matches the one recomputed from the recovered
    /// plaintext.
    ///
    /// Succeeds exactly when the supplied tag equals the expected one. On
    /// failure the buffer is restored to the original ciphertext, byte for
    /// byte; history and direction bit advance either way, so a failed call
    /// leaves a session that should be discarded.
    pub fn decrypt_inout_detached(&mut self, ad: &[u8], buffer: &mut Vec<u8>, tag: &[u8]) -> (r:
        Result<(), AuthError>)
        requires
            old(self).wf(),
        ensures
            final(self).wf(),
            final(self)@ == spec_sanse_decrypt::<C>(old(self)@, ad@, old(buffer)@, tag@).0,
            r is Ok <==> spec_sanse_decrypt::<C>(old(self)@, ad@, old(buffer)@, tag@).1,
            final(buffer)@ == spec_sanse_decrypt::<C>(old(self)@, ad@, old(buffer)@, tag@).2,
            r is Err ==> final(buffer)@ == old(buffer)@,
    {
        let e = self.e;
        self.e = !self.e;
        if ad.len() > 0 || buffer.len() == 0 {
            let mut k = apply_padded(&mut self.d, ad, sanse_delim_ad(e));
            if buffer.len() == 0 {
                let actual = k.read_vec(self.tag_size);
                if crate::ct_ne_bytes(tag, actual.as_slice()) {
                    return Err(AuthError);
                }
                return Ok(());
            }
        }
        let mut d_copy = self.d.clone();
        let mut kx = apply_padded(&mut d_copy, tag, sanse_delim_tag(e));
        let n = buffer.len();
        let ks = kx.read_vec(n);
        let ghost ct0 = buffer@;
        crate::xor_into(buffer, ks.as_slice());
        let mut tg = apply_padded(&mut self.d, buffer.as_slice(), sanse_delim_pt(e));
        let actual = tg.read_vec(self.tag_size);
        if crate::ct_ne_bytes(tag, actual.as_slice()) {
            crate::xor_into(buffer, ks.as_slice());
            proof {
                crate::lemma_xor_seq_involutive(ct0, ks@);
            }
            return Err(AuthError);
        }
        Ok(())
    }
}

/// Round trip: decrypting what a mirrored session encrypted succeeds,
/// recovers the plaintext exactly, and leaves the two sessions in the same
/// state again.
pub proof fn lemma_sanse_round_trip<C: FarfalleCore>(s: SanseState, ad: Seq<u8>, pt: Seq<u8>)
    ensures
        ({
            let enc = spec_sanse_encrypt::<C>(s, ad, pt);
            let dec = spec_sanse_decrypt::<C>(s, ad, enc.1, enc.2);
            &&& dec.1 == true
            &&& dec.0 == enc.0
            &&& dec.2 == pt
        }),
{
    let enc = spec_sanse_encrypt::<C>(s, ad, pt);
    if pt.len() == 0 {
    } else {
        let d1 = if ad.len() > 0 {
            spec_apply_padded::<C>(s.d, ad, spec_sanse_delim_ad(s.e)).0
        } else {
            s.d
        };
        let kx = spec_apply_padded::<C>(d1, enc.2, spec_sanse_delim_tag(s.e));
        let ks = spec_read::<C>(kx.1, pt.len()).0;
        assert(enc.1.len() == pt.len());
        crate::lemma_xor_seq_involutive(pt, ks);
        assert(xor_seq(enc.1, spec_read::<C>(kx.1, enc.1.len()).0) =~= pt);
    }
}

/// SIV determinism: the outcome of an encryption is a function of the
/// session state and the input alone — two sessions in the same state (for
/// instance, two freshly initialized with the same key), fed the same
/// associated data and plaintext, produce the same ciphertext, the same tag
/// and the same next state. Repeating this argument along a sequence of
/// calls keeps the two sessions byte-identical at every step.
pub proof fn lemma_sanse_deterministic<C: FarfalleCore>(
    s1: SanseState,
    s2: SanseState,
    ad: Seq<u8>,
    pt: Seq<u8>,
)
    requires
        s1 == s2,
    ensures
        spec_sanse_encrypt::<C>(s1, ad, pt) == spec_sanse_encrypt::<C>(s2, ad, pt),
{
}

/// Encrypt a whole conversation: a sequence of (associated data, plaintext)
/// messages, in order. Yields the final state and the (ciphertext, tag)
/// pair of every step.
pub open spec fn spec_sanse_encrypt_all<C: FarfalleCore>(
    s: SanseState,
    msgs: Seq<(Seq<u8>, Seq<u8>)>,
) -> (SanseState, Seq<(Seq<u8>, Seq<u8>)>)
    decreases msgs.len(),
{
    if msgs.len() == 0 {
        (s, Seq::empty())
    } else {
        let e = spec_sanse_encrypt::<C>(s, msgs[0].0, msgs[0].1);
        let rest = spec_sanse_encrypt_all::<C>(e.0, msgs.skip(1));
        (rest.0, seq![(e.1, e.2)] + rest.1)
    }
}

/// Decrypt a whole conversation: a sequence of (associated data,
/// ciphertext, tag) items, in order. Yields the final state, whether every
/// tag matched, and the buffer contents of every step.
pub open spec fn spec_sanse_decrypt_all<C: FarfalleCore>(
    s: SanseState,
    items: Seq<(Seq<u8>, Seq<u8>, Seq<u8>)>,
) -> (SanseState, bool, Seq<Seq<u8>>)
    decreases items.len(),
{
    if items.len() == 0 {
        (s, true, Seq::empty())
    } else {
        let d = spec_sanse_decrypt::<C>(s, items[0].0, items[0].1, items[0].2);
        let rest = spec_sanse_decrypt_all::<C>(d.0, items.skip(1));
        (rest.0, d.1 && rest.1, seq![d.2] + rest.2)
    }
}

/// Round trip over a whole conversation: decrypting the produced
/// (ciphertext, tag) items in the same order on a mirrored session verifies
/// at every step, recovers every plaintext exactly, and keeps the two
/// sessions in the same state throughout.
pub proof fn lemma_sanse_round_trip_sequence<C: FarfalleCore>(
    s: SanseState,
    msgs: Seq<(Seq<u8>, Seq<u8>)>,
)
    ensures
        ({
            let enc = spec_sanse_encrypt_all::<C>(s, msgs);
            let items = Seq::new(msgs.len(), |i: int| (msgs[i].0, enc.1[i].0, enc.1[i].1));
            let dec = spec_sanse_decrypt_all::<C>(s, items);
            &&& enc.1.len() == msgs.len()
            &&& dec.1 == true
            &&& dec.0 == enc.0
            &&& dec.2 =~= Seq::new(msgs.len(), |i: int| msgs[i].1)
        }),
    decreases msgs.len(),
{
    let enc = spec_sanse_encrypt_all::<C>(s, msgs);
    let items = Seq::new(msgs.len(), |i: int| (msgs[i].0, enc.1[i].0, enc.1[i].1));
    let dec = spec_sanse_decrypt_all::<C>(s, items);
    if msgs.len() == 0 {
    } else {
        let e = spec_sanse_encrypt::<C>(s, msgs[0].0, msgs[0].1);
        let rest = spec_sanse_encrypt_all::<C>(e.0, msgs.skip(1));
        assert(enc.1 == seq![(e.1, e.2)] + rest.1);
        lemma_sanse_round_trip::<C>(s, msgs[0].0, msgs[0].1);
        lemma_sanse_round_trip_sequence::<C>(e.0, msgs.skip(1));
        let items1 = Seq::new(
            msgs.skip(1).len(),
            |i: int| (msgs.skip(1)[i].0, rest.1[i].0, rest.1[i].1),
        );
        assert(items[0] == (msgs[0].0, e.1, e.2));
        assert(items.skip(1) =~= items1);
        let d = spec_sanse_decrypt::<C>(s, msgs[0].0, e.1, e.2);
        assert(d.1 && d.0 == e.0 && d.2 == msgs[0].1);
        assert(dec.2 =~= Seq::new(msgs.len(), |i: int| msgs[i].1));
    }
}

/// SIV determinism over a whole conversation: two sessions in the same
/// state, fed the same sequence of messages, produce byte-identical
/// ciphertexts and tags at every step, and end in the same state.
pub proof fn lemma_sanse_deterministic_sequence<C: FarfalleCore>(
    s1: SanseState,
    s2: SanseState,
    msgs: Seq<(Seq<u8>, Seq<u8>)>,
)
    requires
        s1 == s2,
    ensures
        spec_sanse_encrypt_all::<C>(s1, msgs) == spec_sanse_encrypt_all::<C>(s2, msgs),
{
}

/// Zero-length handling: encrypting with empty associated data and an empty
/// buffer leaves the buffer empty and yields a tag that decrypts back
/// successfully on a mirrored session.
pub proof fn lemma_sanse_zero_length<C: FarfalleCore>(s: SanseState)
    ensures
        spec_sanse_encrypt::<C>(s, Seq::empty(), Seq::empty()).1 == Seq::<u8>::empty(),
        spec_sanse_decrypt::<C>(
            s,
            Seq::empty(),
            Seq::empty(),
            spec_sanse_encrypt::<C>(s, Seq::empty(), Seq::empty()).2,
        ).1 == true,
{
    lemma_sanse_round_trip::<C>(s, Seq::<u8>::empty(), Seq::<u8>::empty());
}

} // verus!
