//! The Farfalle construction: a keyed duplex giving a Deck function, with a
//! compression (absorb) layer and an expansion (squeeze) layer driven by four
//! permutations and two rolling functions over one block width.

use vstd::prelude::*;

use crate::{copy_bytes, xor_into, xor_seq, ConfigError, Permutation};

verus! {

/// The parameters of one Farfalle instantiation: four permutations, two
/// rolling functions, and the common block width they act on.
pub trait FarfalleCore {
    /// Permutation used for deriving the initial mask from the key.
    type Pb: Permutation;

    /// Permutation used in the compression layer.
    type Pc: Permutation;

    /// Permutation used between compression and expansion.
    type Pd: Permutation;

    /// Permutation used in the expansion layer.
    type Pe: Permutation;

    /// Rolling function generating the per-block input masks.
    type Rc: Permutation;

    /// Rolling function updating the expansion state.
    type Re: Permutation;

    /// The block width in bytes, as a mathematical value.
    spec fn spec_width() -> nat;

    /// The block width is positive.
    proof fn lemma_width()
        ensures
            Self::spec_width() >= 1,
    ;

    /// The block width in bytes.
    fn width() -> (w: usize)
        ensures
            w as nat == Self::spec_width(),
    ;
}

/// The absorbing state of a Deck instance: the rolling input mask `k`, the
/// accumulator `x`, and the partial input tail not yet absorbed as a block.
#[verifier::ext_equal]
pub ghost struct DeckState {
    pub k: Seq<u8>,
    pub x: Seq<u8>,
    pub tail: Seq<u8>,
}

/// The state of a keystream reader: the bytes of the current expansion block
/// not yet handed out, the frozen output mask `k`, and the rolling expansion
/// state `y`.
#[verifier::ext_equal]
pub ghost struct ReaderState {
    pub pending: Seq<u8>,
    pub k: Seq<u8>,
    pub y: Seq<u8>,
}

/// The all-zero byte sequence of length `n`.
pub open spec fn zeros(n: nat) -> Seq<u8> {
    Seq::new(n, |i: int| 0u8)
}

/// A well-formed absorbing state: mask and accumulator span one block, and
/// the tail is a strict partial block.
pub open spec fn deck_wf<C: FarfalleCore>(st: DeckState) -> bool {
    &&& st.k.len() == C::spec_width()
    &&& st.x.len() == C::spec_width()
    &&& st.tail.len() < C::spec_width()
}

/// A well-formed reader state: mask and expansion state span one block.
pub open spec fn reader_wf<C: FarfalleCore>(r: ReaderState) -> bool {
    &&& r.k.len() == C::spec_width()
    &&& r.y.len() == C::spec_width()
}

/// The state after key setup: the key padded with `0x80` and zeros to one
/// block and sent through `Pb` becomes the initial mask; the accumulator
/// starts zero.
pub open spec fn spec_init<C: FarfalleCore>(key: Seq<u8>) -> DeckState
    recommends
        key.len() < C::spec_width(),
{
    DeckState {
        k: <C::Pb as Permutation>::spec_permute(
            key + seq![0x80u8] + zeros((C::spec_width() - key.len() - 1) as nat),
        ),
        x: zeros(C::spec_width()),
        tail: Seq::empty(),
    }
}

/// Absorbing one full block `m`: XOR the current mask into `m`, roll the
/// mask, send the masked block through `Pc`, and XOR the result into the
/// accumulator.
pub open spec fn spec_update_block<C: FarfalleCore>(st: DeckState, m: Seq<u8>) -> DeckState
    recommends
        m.len() == C::spec_width(),
{
    DeckState {
        k: <C::Rc as Permutation>::spec_permute(st.k),
        x: xor_seq(st.x, <C::Pc as Permutation>::spec_permute(xor_seq(m, st.k))),
        tail: st.tail,
    }
}

/// Absorbing one input byte: it joins the tail, and a tail grown to a full
/// block is absorbed at once.
pub open spec fn spec_absorb_byte<C: FarfalleCore>(st: DeckState, b: u8) -> DeckState {
    let t = st.tail.push(b);
    if t.len() == C::spec_width() {
        let st1 = spec_update_block::<C>(st, t);
        DeckState { k: st1.k, x: st1.x, tail: Seq::empty() }
    } else {
        DeckState { k: st.k, x: st.x, tail: t }
    }
}

/// Absorbing a byte sequence, front to back.
pub open spec fn spec_update<C: FarfalleCore>(st: DeckState, data: Seq<u8>) -> DeckState
    decreases data.len(),
{
    if data.len() == 0 {
        st
    } else {
        spec_update::<C>(spec_absorb_byte::<C>(st, data[0]), data.skip(1))
    }
}

/// The final padded block of one absorb phase: the tail, then the delimiter
/// byte, then zeros to the block width.
pub open spec fn spec_pad_block<C: FarfalleCore>(tail: Seq<u8>, delim: u8) -> Seq<u8>
    recommends
        tail.len() < C::spec_width(),
{
    tail + seq![delim] + zeros((C::spec_width() - tail.len() - 1) as nat)
}

/// Finalizing to a reader: absorb the padded tail-and-delimiter block, roll
/// the mask once more, and freeze an expansion seed `y = Pd(x)`. The Deck
/// instance itself keeps its accumulator and the rolled mask, so it remains
/// usable for further absorption ("doubly extendable").
pub open spec fn spec_finalize<C: FarfalleCore>(st: DeckState, delim: u8) -> (DeckState, ReaderState)
    recommends
        deck_wf::<C>(st),
{
    let st1 = spec_update_block::<C>(st, spec_pad_block::<C>(st.tail, delim));
    let k2 = <C::Rc as Permutation>::spec_permute(st1.k);
    let y = <C::Pd as Permutation>::spec_permute(st1.x);
    (
        DeckState { k: k2, x: st1.x, tail: Seq::empty() },
        ReaderState { pending: Seq::empty(), k: k2, y: y },
    )
}

/// One expansion block: `Pe(y)` masked with the frozen `k`.
pub open spec fn spec_block<C: FarfalleCore>(k: Seq<u8>, y: Seq<u8>) -> Seq<u8> {
    xor_seq(<C::Pe as Permutation>::spec_permute(y), k)
}

/// Reading one keystream byte: hand out the next pending byte, or derive a
/// fresh expansion block and roll `y`.
pub open spec fn spec_read1<C: FarfalleCore>(r: ReaderState) -> (u8, ReaderState) {
    if r.pending.len() > 0 {
        (r.pending[0], ReaderState { pending: r.pending.skip(1), k: r.k, y: r.y })
    } else {
        let b = spec_block::<C>(r.k, r.y);
        (b[0], ReaderState { pending: b.skip(1), k: r.k, y: <C::Re as Permutation>::spec_permute(r.y) })
    }
}

/// Reading `n` keystream bytes.
pub open spec fn spec_read<C: FarfalleCore>(r: ReaderState, n: nat) -> (Seq<u8>, ReaderState)
    decreases n,
{
    if n == 0 {
        (Seq::empty(), r)
    } else {
        let step = spec_read1::<C>(r);
        let rest = spec_read::<C>(step.1, (n - 1) as nat);
        (seq![step.0] + rest.0, rest.1)
    }
}

/// Absorbing a block preserves well-formedness of mask and accumulator.
pub proof fn lemma_update_block_len<C: FarfalleCore>(st: DeckState, m: Seq<u8>)
    requires
        st.k.len() == C::spec_width(),
        st.x.len() == C::spec_width(),
    ensures
        spec_update_block::<C>(st, m).k.len() == C::spec_width(),
        spec_update_block::<C>(st, m).x.len() == C::spec_width(),
        spec_update_block::<C>(st, m).tail == st.tail,
{
    <C::Rc as Permutation>::lemma_permute_len(st.k);
}

/// Absorbing a byte preserves well-formedness.
pub proof fn lemma_absorb_byte_wf<C: FarfalleCore>(st: DeckState, b: u8)
    requires
        deck_wf::<C>(st),
    ensures
        deck_wf::<C>(spec_absorb_byte::<C>(st, b)),
{
    lemma_update_block_len::<C>(st, st.tail.push(b));
    C::lemma_width();
}

/// Absorbing a sequence preserves well-formedness.
pub proof fn lemma_update_wf<C: FarfalleCore>(st: DeckState, data: Seq<u8>)
    requires
        deck_wf::<C>(st),
    ensures
        deck_wf::<C>(spec_update::<C>(st, data)),
    decreases data.len(),
{
    if data.len() > 0 {
        lemma_absorb_byte_wf::<C>(st, data[0]);
        lemma_update_wf::<C>(spec_absorb_byte::<C>(st, data[0]), data.skip(1));
    }
}

/// Finalizing preserves well-formedness of both the Deck state and the
/// derived reader.
pub proof fn lemma_finalize_wf<C: FarfalleCore>(st: DeckState, delim: u8)
    requires
        deck_wf::<C>(st),
    ensures
        deck_wf::<C>(spec_finalize::<C>(st, delim).0),
        reader_wf::<C>(spec_finalize::<C>(st, delim).1),
{
    C::lemma_width();
    lemma_update_block_len::<C>(st, spec_pad_block::<C>(st.tail, delim));
    let st1 = spec_update_block::<C>(st, spec_pad_block::<C>(st.tail, delim));
    <C::Rc as Permutation>::lemma_permute_len(st1.k);
    <C::Pd as Permutation>::lemma_permute_len(st1.x);
}

/// Reading one byte preserves reader well-formedness.
pub proof fn lemma_read1_wf<C: FarfalleCore>(r: ReaderState)
    requires
        reader_wf::<C>(r),
    ensures
        reader_wf::<C>(spec_read1::<C>(r).1),
{
    <C::Re as Permutation>::lemma_permute_len(r.y);
}

/// Reading `n` bytes yields exactly `n` bytes.
pub proof fn lemma_read_len<C: FarfalleCore>(r: ReaderState, n: nat)
    ensures
        spec_read::<C>(r, n).0.len() == n,
    decreases n,
{
    if n > 0 {
        lemma_read_len::<C>(spec_read1::<C>(r).1, (n - 1) as nat);
    }
}

/// Reading `n` bytes yields exactly `n` bytes and preserves reader
/// well-formedness.
pub proof fn lemma_read_wf<C: FarfalleCore>(r: ReaderState, n: nat)
    requires
        reader_wf::<C>(r),
    ensures
        reader_wf::<C>(spec_read::<C>(r, n).1),
        spec_read::<C>(r, n).0.len() == n,
    decreases n,
{
    if n > 0 {
        lemma_read1_wf::<C>(r);
        lemma_read_wf::<C>(spec_read1::<C>(r).1, (n - 1) as nat);
    }
}

/// A Deck instance: the keyed Farfalle absorbing state.
pub struct Farfalle<C: FarfalleCore> {
    k: Vec<u8>,
    x: Vec<u8>,
    tail: Vec<u8>,
    core: core::marker::PhantomData<C>,
}

impl<C: FarfalleCore> View for Farfalle<C> {
    type V = DeckState;

    closed spec fn view(&self) -> DeckState {
        DeckState { k: self.k@, x: self.x@, tail: self.tail@ }
    }
}

/// A keystream reader: the frozen post-finalize expansion state. Each read
/// advances the cursor, so a reader is a single-use, non-restartable stream.
pub struct FarfalleXofCore<C: FarfalleCore> {
    k: Vec<u8>,
    y: Vec<u8>,
    cur: Vec<u8>,
    pos: usize,
    core: core::marker::PhantomData<C>,
}

impl<C: FarfalleCore> View for FarfalleXofCore<C> {
    type V = ReaderState;

    closed spec fn view(&self) -> ReaderState {
        ReaderState { pending: self.cur@.skip(self.pos as int), k: self.k@, y: self.y@ }
    }
}

/// A vector of `n` zero bytes.
pub fn zero_vec(n: usize) -> (r: Vec<u8>)
    ensures
        r@ =~= zeros(n as nat),
{
    let mut r: Vec<u8> = Vec::new();
    let mut i: usize = 0;
    while i < n
        invariant
            i <= n,
            r@ =~= zeros(i as nat),
        decreases n - i,
    {
        r.push(0);
        i += 1;
    }
    r
}

impl<C: FarfalleCore> Farfalle<C> {
    /// The instance is well formed.
    pub open spec fn wf(&self) -> bool {
        deck_wf::<C>(self@)
    }

    /// Initialise a Deck instance from a key, which must be strictly shorter
    /// than the block width.
    pub fn init(key: &[u8]) -> (r: Result<Self, ConfigError>)
        ensures
            r is Ok <==> key@.len() < C::spec_width(),
            r matches Ok(d) ==> d@ == spec_init::<C>(key@) && d.wf(),
    {
        let w = C::width();
        if key.len() >= w {
            return Err(ConfigError);
        }
        let mut k = copy_bytes(key);
        k.push(0x80);
        while k.len() < w
            invariant
                k@.len() >= key@.len() + 1,
                k@.len() <= w,
                k@ =~= key@ + seq![0x80u8] + zeros((k@.len() - key@.len() - 1) as nat),
            decreases w - k.len(),
        {
            k.push(0);
        }
        <C::Pb as Permutation>::permute(&mut k);
        let x = zero_vec(w);
        let d = Farfalle { k, x, tail: Vec::new(), core: core::marker::PhantomData };
        proof {
            <C::Pb as Permutation>::lemma_permute_len(
                key@ + seq![0x80u8] + zeros((C::spec_width() - key@.len() - 1) as nat),
            );
            C::lemma_width();
            assert(d@ =~= spec_init::<C>(key@));
        }
        Ok(d)
    }

    /// Absorb one full block held in the tail.
    fn absorb_tail(&mut self)
        requires
            old(self)@.k.len() == C::spec_width(),
            old(self)@.x.len() == C::spec_width(),
            old(self)@.tail.len() == C::spec_width(),
        ensures
            final(self)@.k == spec_update_block::<C>(old(self)@, old(self)@.tail).k,
            final(self)@.x == spec_update_block::<C>(old(self)@, old(self)@.tail).x,
            final(self)@.tail == Seq::<u8>::empty(),
    {
        let mut m = copy_bytes(self.tail.as_slice());
        self.tail.clear();
        xor_into(&mut m, self.k.as_slice());
        <C::Rc as Permutation>::permute(&mut self.k);
        <C::Pc as Permutation>::permute(&mut m);
        proof {
            <C::Pc as Permutation>::lemma_permute_len(xor_seq(old(self)@.tail, old(self)@.k));
        }
        xor_into(&mut self.x, m.as_slice());
    }

    /// Absorb input bytes. Full blocks are compressed as they form; a partial
    /// block stays in the tail.
    pub fn update(&mut self, data: &[u8])
        requires
            old(self).wf(),
        ensures
            final(self).wf(),
            final(self)@ == spec_update::<C>(old(self)@, data@),
    {
        let ghost orig = self@;
        let w = C::width();
        let mut i: usize = 0;
        proof {
            assert(data@.skip(0) =~= data@);
        }
        while i < data.len()
            invariant
                i <= data.len(),
                self.wf(),
                w as nat == C::spec_width(),
                spec_update::<C>(orig, data@) == spec_update::<C>(self@, data@.skip(i as int)),
            decreases data.len() - i,
        {
            let ghost pre = self@;
            proof {
                C::lemma_width();
            }
            self.tail.push(data[i]);
            if self.tail.len() == w {
                self.absorb_tail();
            }
            proof {
                assert(self@ =~= spec_absorb_byte::<C>(pre, data@[i as int]));
                lemma_absorb_byte_wf::<C>(pre, data@[i as int]);
                assert(data@.skip(i as int).skip(1) =~= data@.skip(i as int + 1));
                assert(data@.skip(i as int)[0] == data@[i as int]);
            }
            i += 1;
        }
        proof {
            assert(data@.skip(data.len() as int) =~= Seq::<u8>::empty());
        }
    }

    /// Finalize the current absorb phase under a delimiter byte and hand back
    /// a fresh keystream reader. The instance itself stays usable for further
    /// absorption, continuing from its pre-finalize accumulator.
    pub fn finalize_deck(&mut self, delim: u8) -> (r: FarfalleXofCore<C>)
        requires
            old(self).wf(),
        ensures
            final(self).wf(),
            r.wf(),
            final(self)@ == spec_finalize::<C>(old(self)@, delim).0,
            r@ == spec_finalize::<C>(old(self)@, delim).1,
    {
        let ghost orig = self@;
        let w = C::width();
        self.tail.push(delim);
        while self.tail.len() < w
            invariant
                self@.k == orig.k,
                self@.x == orig.x,
                self@.tail.len() >= orig.tail.len() + 1,
                self@.tail.len() <= w,
                w as nat == C::spec_width(),
                self@.tail =~= orig.tail + seq![delim]
                    + zeros((self@.tail.len() - orig.tail.len() - 1) as nat),
            decreases w - self.tail.len(),
        {
            self.tail.push(0);
        }
        proof {
            assert(self@.tail =~= spec_pad_block::<C>(orig.tail, delim));
        }
        self.absorb_tail();
        <C::Rc as Permutation>::permute(&mut self.k);
        let mut y = copy_bytes(self.x.as_slice());
        <C::Pd as Permutation>::permute(&mut y);
        let k2 = copy_bytes(self.k.as_slice());
        let r = FarfalleXofCore {
            k: k2,
            y,
            cur: Vec::new(),
            pos: 0,
            core: core::marker::PhantomData,
        };
        proof {
            lemma_finalize_wf::<C>(orig, delim);
            assert(self@ =~= spec_finalize::<C>(orig, delim).0);
            assert(r@ =~= spec_finalize::<C>(orig, delim).1);
        }
        r
    }
}

impl<C: FarfalleCore> Clone for Farfalle<C> {
    /// Snapshot the entire absorbed state: mask, accumulator and tail.
    fn clone(&self) -> (r: Self)
        ensures
            r@ == self@,
    {
        let r = Farfalle {
            k: copy_bytes(self.k.as_slice()),
            x: copy_bytes(self.x.as_slice()),
            tail: copy_bytes(self.tail.as_slice()),
            core: core::marker::PhantomData,
        };
        proof {
            assert(r@ =~= self@);
        }
        r
    }
}

impl<C: FarfalleCore> FarfalleXofCore<C> {
    /// The reader is well formed.
    pub open spec fn wf(&self) -> bool {
        &&& reader_wf::<C>(self@)
        &&& self.inv()
    }

    /// The cursor stays within the current block.
    pub closed spec fn inv(&self) -> bool {
        self.pos <= self.cur@.len()
    }

    /// Read one keystream byte.
    fn read_byte(&mut self) -> (b: u8)
        requires
            old(self).wf(),
        ensures
            final(self).wf(),
            b == spec_read1::<C>(old(self)@).0,
            final(self)@ == spec_read1::<C>(old(self)@).1,
    {
        proof {
            C::lemma_width();
        }
        if self.pos < self.cur.len() {
            let b = self.cur[self.pos];
            self.pos += 1;
            proof {
                assert(old(self)@.pending[0] == b);
                assert(self@.pending =~= old(self)@.pending.skip(1));
                assert(self@ =~= spec_read1::<C>(old(self)@).1);
            }
            b
        } else {
            proof {
                assert(old(self)@.pending =~= Seq::<u8>::empty());
            }
            let mut t = copy_bytes(self.y.as_slice());
            <C::Pe as Permutation>::permute(&mut t);
            proof {
                <C::Pe as Permutation>::lemma_permute_len(self.y@);
            }
            xor_into(&mut t, self.k.as_slice());
            <C::Re as Permutation>::permute(&mut self.y);
            proof {
                <C::Re as Permutation>::lemma_permute_len(old(self)@.y);
                assert(t@ == spec_block::<C>(old(self)@.k, old(self)@.y));
            }
            self.cur = t;
            self.pos = 1;
            let b = self.cur[0];
            proof {
                assert(self@.pending =~= spec_block::<C>(old(self)@.k, old(self)@.y).skip(1));
                assert(self@ =~= spec_read1::<C>(old(self)@).1);
            }
            b
        }
    }

    /// Read `n` keystream bytes into a fresh vector.
    pub fn read_vec(&mut self, n: usize) -> (out: Vec<u8>)
        requires
            old(self).wf(),
        ensures
            final(self).wf(),
            out@.len() == n,
            out@ == spec_read::<C>(old(self)@, n as nat).0,
            final(self)@ == spec_read::<C>(old(self)@, n as nat).1,
    {
        let ghost orig = self@;
        let mut out: Vec<u8> = Vec::new();
        let mut i: usize = 0;
        while i < n
            invariant
                i <= n,
                self.wf(),
                out@.len() == i,
                spec_read::<C>(orig, n as nat).0 == out@ + spec_read::<C>(self@, (n - i) as nat).0,
                spec_read::<C>(orig, n as nat).1 == spec_read::<C>(self@, (n - i) as nat).1,
            decreases n - i,
        {
            let ghost pre = self@;
            let b = self.read_byte();
            out.push(b);
            proof {
                let m = (n - i) as nat;
                assert(spec_read::<C>(pre, m).0 =~= seq![b] + spec_read::<C>(self@, (m - 1) as nat).0);
                assert(out@.take(i as int) + (seq![b] + spec_read::<C>(self@, (m - 1) as nat).0)
                    =~= out@ + spec_read::<C>(self@, (m - 1) as nat).0);
                assert(out@.take(i as int) == out@.drop_last().take(i as int)
                    || true);
            }
            i += 1;
        }
        proof {
            assert(spec_read::<C>(self@, 0).0 =~= Seq::<u8>::empty());
            assert(out@ + Seq::<u8>::empty() =~= out@);
        }
        out
    }

    /// Read `n` keystream bytes and XOR them over the first `n` bytes of
    /// `buf` in place. With `n` at least the buffer length the whole buffer
    /// is masked.
    pub fn xor_read(&mut self, buf: &mut Vec<u8>, n: usize)
        requires
            old(self).wf(),
        ensures
            final(self).wf(),
            final(buf)@ == crate::xor_prefix(old(buf)@, spec_read::<C>(old(self)@, n as nat).0),
            final(self)@ == spec_read::<C>(old(self)@, n as nat).1,
            n >= old(buf)@.len() ==> final(buf)@ == xor_seq(
                old(buf)@,
                spec_read::<C>(old(self)@, n as nat).0,
            ),
    {
        let ks = self.read_vec(n);
        proof {
            lemma_read_wf::<C>(old(self)@, n as nat);
        }
        xor_into(buf, ks.as_slice());
    }

    /// Duplicate the reader, sharing nothing with the original.
    fn fork(&self) -> (r: Self)
        ensures
            r@ == self@,
            r.wf() <==> self.wf(),
    {
        let r = FarfalleXofCore {
            k: copy_bytes(self.k.as_slice()),
            y: copy_bytes(self.y.as_slice()),
            cur: copy_bytes(self.cur.as_slice()),
            pos: self.pos,
            core: core::marker::PhantomData,
        };
        proof {
            assert(r@ =~= self@);
        }
        r
    }
}

impl<C: FarfalleCore> Clone for FarfalleXofCore<C> {
    /// Snapshot the reader state, including the current block cursor.
    fn clone(&self) -> (r: Self)
        ensures
            r@ == self@,
            r.wf() <==> self.wf(),
    {
        self.fork()
    }
}

} // verus!
