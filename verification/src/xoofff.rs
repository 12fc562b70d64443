//! A concrete permutation suite over a 48-byte state: the Xoodoo permutation
//! reduced to six rounds for the four cryptographic permutations, and the
//! two lightweight Xoodoo rolling functions for the masks. Together they
//! instantiate the Farfalle construction.
//!
//! The 48-byte state is viewed as twelve 32-bit lanes in little-endian
//! order.

use vstd::prelude::*;

use crate::farfalle::FarfalleCore;
use crate::Permutation;

verus! {

/// Left rotation of a 32-bit lane.
pub open spec fn spec_rotl(x: u32, k: u32) -> u32
    recommends
        1 <= k < 32,
{
    (x << k) | (x >> ((32 - k) as u32))
}

/// Left-rotate a lane.
fn rotl(x: u32, k: u32) -> (r: u32)
    requires
        1 <= k < 32,
    ensures
        r == spec_rotl(x, k),
{
    (x << k) | (x >> (32 - k))
}

/// One 32-bit little-endian lane from four bytes.
pub open spec fn le32(b0: u8, b1: u8, b2: u8, b3: u8) -> u32 {
    (b0 as u32) | ((b1 as u32) << 8) | ((b2 as u32) << 16) | ((b3 as u32) << 24)
}

/// Byte `k` (little-endian) of a lane.
pub open spec fn byte_of(x: u32, k: int) -> u8 {
    if k == 0 {
        (x & 0xff) as u8
    } else if k == 1 {
        ((x >> 8) & 0xff) as u8
    } else if k == 2 {
        ((x >> 16) & 0xff) as u8
    } else {
        ((x >> 24) & 0xff) as u8
    }
}

/// The twelve lanes of a 48-byte state.
pub open spec fn lanes_of(s: Seq<u8>) -> Seq<u32>
    recommends
        s.len() == 48,
{
    Seq::new(12, |i: int| le32(s[4 * i], s[4 * i + 1], s[4 * i + 2], s[4 * i + 3]))
}

/// The 48 bytes of twelve lanes.
pub open spec fn bytes_of(ls: Seq<u32>) -> Seq<u8>
    recommends
        ls.len() == 12,
{
    Seq::new(48, |i: int| byte_of(ls[i / 4], i % 4))
}

/// One Xoodoo round on twelve lanes under one round key.
pub open spec fn spec_xoodoo_round(s: Seq<u32>, rk: u32) -> Seq<u32>
    recommends
        s.len() == 12,
{
    let a00 = s[0];
    let a01 = s[1];
    let a02 = s[2];
    let a03 = s[3];
    let a10 = s[4];
    let a11 = s[5];
    let a12 = s[6];
    let a13 = s[7];
    let a20 = s[8];
    let a21 = s[9];
    let a22 = s[10];
    let a23 = s[11];
    let p0 = a00 ^ a10 ^ a20;
    let p1 = a01 ^ a11 ^ a21;
    let p2 = a02 ^ a12 ^ a22;
    let p3 = a03 ^ a13 ^ a23;
    let e0 = spec_rotl(p3, 5) ^ spec_rotl(p3, 14);
    let e1 = spec_rotl(p0, 5) ^ spec_rotl(p0, 14);
    let e2 = spec_rotl(p1, 5) ^ spec_rotl(p1, 14);
    let e3 = spec_rotl(p2, 5) ^ spec_rotl(p2, 14);
    let tmp0 = e0 ^ a00 ^ rk;
    let tmp1 = e1 ^ a01;
    let tmp2 = e2 ^ a02;
    let tmp3 = e3 ^ a03;
    let tmp4 = e3 ^ a13;
    let tmp5 = e0 ^ a10;
    let tmp6 = e1 ^ a11;
    let tmp7 = e2 ^ a12;
    let tmp8 = spec_rotl(e0 ^ a20, 11);
    let tmp9 = spec_rotl(e1 ^ a21, 11);
    let tmp10 = spec_rotl(e2 ^ a22, 11);
    let tmp11 = spec_rotl(e3 ^ a23, 11);
    seq![
        (!tmp4 & tmp8) ^ tmp0,
        (!tmp5 & tmp9) ^ tmp1,
        (!tmp6 & tmp10) ^ tmp2,
        (!tmp7 & tmp11) ^ tmp3,
        spec_rotl((!tmp8 & tmp0) ^ tmp4, 1),
        spec_rotl((!tmp9 & tmp1) ^ tmp5, 1),
        spec_rotl((!tmp10 & tmp2) ^ tmp6, 1),
        spec_rotl((!tmp11 & tmp3) ^ tmp7, 1),
        spec_rotl((!tmp2 & tmp6) ^ tmp10, 8),
        spec_rotl((!tmp3 & tmp7) ^ tmp11, 8),
        spec_rotl((!tmp0 & tmp4) ^ tmp8, 8),
        spec_rotl((!tmp1 & tmp5) ^ tmp9, 8),
    ]
}

/// The six-round Xoodoo permutation on lanes: the last six round keys of
/// the twelve-round schedule.
pub open spec fn spec_xoodoo6_lanes(s: Seq<u32>) -> Seq<u32> {
    spec_xoodoo_round(
        spec_xoodoo_round(
            spec_xoodoo_round(
                spec_xoodoo_round(
                    spec_xoodoo_round(spec_xoodoo_round(s, 0x00000060), 0x0000002C),
                    0x00000380,
                ),
                0x000000F0,
            ),
            0x000001A0,
        ),
        0x00000012,
    )
}

/// The compression-mask rolling function on lanes.
pub open spec fn spec_roll_xc_lanes(s: Seq<u32>) -> Seq<u32>
    recommends
        s.len() == 12,
{
    let a00 = (s[0] ^ (s[0] << 13)) ^ spec_rotl(s[4], 3);
    seq![s[4], s[5], s[6], s[7], s[8], s[9], s[10], s[11], s[3], a00, s[1], s[2]]
}

/// The expansion-state rolling function on lanes.
pub open spec fn spec_roll_xe_lanes(s: Seq<u32>) -> Seq<u32>
    recommends
        s.len() == 12,
{
    let a00 = (((s[4] & s[8]) ^ spec_rotl(s[0], 5)) ^ spec_rotl(s[4], 13)) ^ 0x00000007;
    seq![s[4], s[5], s[6], s[7], s[8], s[9], s[10], s[11], s[3], a00, s[1], s[2]]
}

/// Read the twelve little-endian lanes of a 48-byte state.
fn lanes_from_bytes(s: &[u8]) -> (r: Vec<u32>)
    requires
        s@.len() == 48,
    ensures
        r@ == lanes_of(s@),
        r@.len() == 12,
{
    let mut r: Vec<u32> = Vec::new();
    let mut i: usize = 0;
    while i < 12
        invariant
            i <= 12,
            s@.len() == 48,
            r@.len() == i,
            forall|j: int| 0 <= j < i ==> r@[j] == lanes_of(s@)[j],
        decreases 12 - i,
    {
        let lane = (s[4 * i] as u32) | ((s[4 * i + 1] as u32) << 8) | ((s[4 * i + 2] as u32)
            << 16) | ((s[4 * i + 3] as u32) << 24);
        r.push(lane);
        i += 1;
    }
    proof {
        assert(r@ =~= lanes_of(s@));
    }
    r
}

/// Write twelve lanes back to 48 little-endian bytes.
fn bytes_from_lanes(ls: &Vec<u32>) -> (r: Vec<u8>)
    requires
        ls@.len() == 12,
    ensures
        r@ == bytes_of(ls@),
        r@.len() == 48,
{
    let mut r: Vec<u8> = Vec::new();
    let mut i: usize = 0;
    while i < 12
        invariant
            i <= 12,
            ls@.len() == 12,
            r@.len() == 4 * i,
            forall|j: int| 0 <= j < 4 * i ==> r@[j] == bytes_of(ls@)[j],
        decreases 12 - i,
    {
        let x = ls[i];
        r.push((x & 0xff) as u8);
        r.push(((x >> 8) & 0xff) as u8);
        r.push(((x >> 16) & 0xff) as u8);
        r.push(((x >> 24) & 0xff) as u8);
        proof {
            assert forall|j: int| 4 * i <= j < 4 * i + 4 implies r@[j] == bytes_of(ls@)[j] by {
                assert(j / 4 == i && j % 4 == j - 4 * i);
            }
        }
        i += 1;
    }
    proof {
        assert(r@ =~= bytes_of(ls@));
    }
    r
}

/// One Xoodoo round in place.
fn xoodoo_round(ls: &mut Vec<u32>, rk: u32)
    requires
        old(ls)@.len() == 12,
    ensures
        final(ls)@ == spec_xoodoo_round(old(ls)@, rk),
        final(ls)@.len() == 12,
{
    let a00 = ls[0];
    let a01 = ls[1];
    let a02 = ls[2];
    let a03 = ls[3];
    let a10 = ls[4];
    let a11 = ls[5];
    let a12 = ls[6];
    let a13 = ls[7];
    let a20 = ls[8];
    let a21 = ls[9];
    let a22 = ls[10];
    let a23 = ls[11];
    let p0 = a00 ^ a10 ^ a20;
    let p1 = a01 ^ a11 ^ a21;
    let p2 = a02 ^ a12 ^ a22;
    let p3 = a03 ^ a13 ^ a23;
    let e0 = rotl(p3, 5) ^ rotl(p3, 14);
    let e1 = rotl(p0, 5) ^ rotl(p0, 14);
    let e2 = rotl(p1, 5) ^ rotl(p1, 14);
    let e3 = rotl(p2, 5) ^ rotl(p2, 14);
    let tmp0 = e0 ^ a00 ^ rk;
    let tmp1 = e1 ^ a01;
    let tmp2 = e2 ^ a02;
    let tmp3 = e3 ^ a03;
    let tmp4 = e3 ^ a13;
    let tmp5 = e0 ^ a10;
    let tmp6 = e1 ^ a11;
    let tmp7 = e2 ^ a12;
    let tmp8 = rotl(e0 ^ a20, 11);
    let tmp9 = rotl(e1 ^ a21, 11);
    let tmp10 = rotl(e2 ^ a22, 11);
    let tmp11 = rotl(e3 ^ a23, 11);
    ls.set(0, (!tmp4 & tmp8) ^ tmp0);
    ls.set(1, (!tmp5 & tmp9) ^ tmp1);
    ls.set(2, (!tmp6 & tmp10) ^ tmp2);
    ls.set(3, (!tmp7 & tmp11) ^ tmp3);
    ls.set(4, rotl((!tmp8 & tmp0) ^ tmp4, 1));
    ls.set(5, rotl((!tmp9 & tmp1) ^ tmp5, 1));
    ls.set(6, rotl((!tmp10 & tmp2) ^ tmp6, 1));
    ls.set(7, rotl((!tmp11 & tmp3) ^ tmp7, 1));
    ls.set(8, rotl((!tmp2 & tmp6) ^ tmp10, 8));
    ls.set(9, rotl((!tmp3 & tmp7) ^ tmp11, 8));
    ls.set(10, rotl((!tmp0 & tmp4) ^ tmp8, 8));
    ls.set(11, rotl((!tmp1 & tmp5) ^ tmp9, 8));
    proof {
        assert(ls@ =~= spec_xoodoo_round(old(ls)@, rk));
    }
}

/// The Xoodoo permutation reduced to six rounds, on the 48-byte state.
pub struct Xoodoo6;

impl Permutation for Xoodoo6 {
    open spec fn spec_permute(s: Seq<u8>) -> Seq<u8> {
        if s.len() == 48 {
            bytes_of(spec_xoodoo6_lanes(lanes_of(s)))
        } else {
            s
        }
    }

    proof fn lemma_permute_len(s: Seq<u8>) {
    }

    fn permute(block: &mut Vec<u8>) {
        if block.len() != 48 {
            return;
        }
        let mut ls = lanes_from_bytes(block.as_slice());
        xoodoo_round(&mut ls, 0x00000060);
        xoodoo_round(&mut ls, 0x0000002C);
        xoodoo_round(&mut ls, 0x00000380);
        xoodoo_round(&mut ls, 0x000000F0);
        xoodoo_round(&mut ls, 0x000001A0);
        xoodoo_round(&mut ls, 0x00000012);
        let out = bytes_from_lanes(&ls);
        *block = out;
    }
}

/// The Xoodoo compression-mask rolling function.
pub struct RollXc;

impl Permutation for RollXc {
    open spec fn spec_permute(s: Seq<u8>) -> Seq<u8> {
        if s.len() == 48 {
            bytes_of(spec_roll_xc_lanes(lanes_of(s)))
        } else {
            s
        }
    }

    proof fn lemma_permute_len(s: Seq<u8>) {
    }

    fn permute(block: &mut Vec<u8>) {
        if block.len() != 48 {
            return;
        }
        let mut ls = lanes_from_bytes(block.as_slice());
        let a00 = (ls[0] ^ (ls[0] << 13)) ^ rotl(ls[4], 3);
        roll_shuffle(&mut ls, a00);
        proof {
            assert(ls@ =~= spec_roll_xc_lanes(lanes_of(old(block)@)));
        }
        let out = bytes_from_lanes(&ls);
        *block = out;
    }
}

/// The Xoodoo expansion-state rolling function.
pub struct RollXe;

impl Permutation for RollXe {
    open spec fn spec_permute(s: Seq<u8>) -> Seq<u8> {
        if s.len() == 48 {
            bytes_of(spec_roll_xe_lanes(lanes_of(s)))
        } else {
            s
        }
    }

    proof fn lemma_permute_len(s: Seq<u8>) {
    }

    fn permute(block: &mut Vec<u8>) {
        if block.len() != 48 {
            return;
        }
        let mut ls = lanes_from_bytes(block.as_slice());
        let a00 = (((ls[4] & ls[8]) ^ rotl(ls[0], 5)) ^ rotl(ls[4], 13)) ^ 0x00000007;
        roll_shuffle(&mut ls, a00);
        proof {
            assert(ls@ =~= spec_roll_xe_lanes(lanes_of(old(block)@)));
        }
        let out = bytes_from_lanes(&ls);
        *block = out;
    }
}

/// The plane shuffle both rolling functions share: the transformed lane
/// `a00` joins the moved-up planes.
fn roll_shuffle(ls: &mut Vec<u32>, a00: u32)
    requires
        old(ls)@.len() == 12,
    ensures
        final(ls)@ =~= seq![
            old(ls)@[4],
            old(ls)@[5],
            old(ls)@[6],
            old(ls)@[7],
            old(ls)@[8],
            old(ls)@[9],
            old(ls)@[10],
            old(ls)@[11],
            old(ls)@[3],
            a00,
            old(ls)@[1],
            old(ls)@[2],
        ],
{
    let b0 = ls[3];
    let b2 = ls[1];
    let b3 = ls[2];
    ls.set(0, ls[4]);
    ls.set(1, ls[5]);
    ls.set(2, ls[6]);
    ls.set(3, ls[7]);
    ls.set(4, ls[8]);
    ls.set(5, ls[9]);
    ls.set(6, ls[10]);
    ls.set(7, ls[11]);
    ls.set(8, b0);
    ls.set(9, a00);
    ls.set(10, b2);
    ls.set(11, b3);
}

/// The Xoofff instantiation of the Farfalle construction: six-round Xoodoo
/// for the four permutations and the two Xoodoo rolling functions, over a
/// 48-byte block.
pub struct XoofffCore;

impl FarfalleCore for XoofffCore {
    type Pb = Xoodoo6;

    type Pc = Xoodoo6;

    type Pd = Xoodoo6;

    type Pe = Xoodoo6;

    type Rc = RollXc;

    type Re = RollXe;

    open spec fn spec_width() -> nat {
        48
    }

    proof fn lemma_width() {
    }

    fn width() -> usize {
        48
    }
}

} // verus!
