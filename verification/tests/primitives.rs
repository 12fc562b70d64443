use deck::deck::{WithTrailingZeros, D};
use deck::farfalle::Farfalle;
use deck::xoofff::{Xoodoo6, XoofffCore};
use deck::Permutation;

type Deck = Farfalle<XoofffCore>;

#[test]
fn delimiter_bit_packing() {
    // Context bits are packed MSB-first over the fixed `10*` suffix.
    assert_eq!(WithTrailingZeros::only_zeros().byte(), 0x00);
    assert_eq!(WithTrailingZeros::pad1x().byte(), 0x80);
    assert_eq!(WithTrailingZeros::pad1x().prefix(false).byte(), 0x40);
    assert_eq!(WithTrailingZeros::pad1x().prefix(true).byte(), 0xC0);
    assert_eq!(WithTrailingZeros::pad1x().prefix(false).prefix(false).byte(), 0x20);
    assert_eq!(WithTrailingZeros::pad1x().prefix(true).prefix(false).byte(), 0x60);
    assert_eq!(WithTrailingZeros::pad1x().prefix(false).prefix(true).byte(), 0xA0);
    assert_eq!(WithTrailingZeros::pad1x().prefix(true).prefix(true).byte(), 0xE0);
    assert_eq!(D::empty().prefix(true).byte(), 0x80);
}

#[test]
fn delimiter_uniqueness() {
    // Every distinct (direction, AD-vs-CT) context maps to a distinct byte.
    let mut seen: Vec<u8> = Vec::new();
    for e in [false, true] {
        for ct in [false, true] {
            let b = WithTrailingZeros::pad1x().prefix(e).prefix(ct).byte();
            assert!(!seen.contains(&b));
            seen.push(b);
        }
    }
}

#[test]
fn padding_apply_layout() {
    let p = WithTrailingZeros::pad1x().prefix(true);
    let block = p.apply(b"abc", 16);
    let mut expected: Vec<u8> = b"abc".to_vec();
    expected.push(0xC0);
    while expected.len() < 16 {
        expected.push(0);
    }
    assert_eq!(block, expected);
}

#[test]
fn deck_reader_buffering_is_transparent() {
    // Reading 5 then 7 bytes equals reading 12 bytes from a cloned reader.
    let mut d = Deck::init(b"a key").unwrap();
    d.update(b"some input");
    let mut r1 = d.finalize_deck(0x80);
    let mut r2 = r1.clone();
    let mut a = r1.read_vec(5);
    let mut a2 = r1.read_vec(7);
    a.append(&mut a2);
    let b = r2.read_vec(12);
    assert_eq!(a, b);
}

#[test]
fn deck_clone_snapshots_state() {
    let mut d = Deck::init(b"a key").unwrap();
    d.update(b"absorbed history");
    let mut d2 = d.clone();
    let mut ra = d.finalize_deck(0x80);
    let mut rb = d2.finalize_deck(0x80);
    assert_eq!(ra.read_vec(96), rb.read_vec(96));
}

#[test]
fn deck_is_doubly_extendable() {
    // After a finalize the instance keeps absorbing from its pre-finalize
    // state: the reader is a frozen snapshot, and further input changes
    // later output without disturbing the first reader.
    let mut d = Deck::init(b"key").unwrap();
    d.update(b"first");
    let mut d_twin = d.clone();
    let mut r1 = d.finalize_deck(0x80);
    let out1 = r1.read_vec(48);

    d.update(b"second");
    let mut r2 = d.finalize_deck(0x80);
    let out2 = r2.read_vec(48);
    assert_ne!(out1, out2);

    // The twin that was never finalized absorbs the same continuation and
    // must agree once finalized the same way.
    let mut r1b = d_twin.finalize_deck(0x80);
    let _ = r1b.read_vec(48);
    d_twin.update(b"second");
    let mut r2b = d_twin.finalize_deck(0x80);
    assert_eq!(out2, r2b.read_vec(48));
}

#[test]
fn deck_update_is_incremental() {
    let mut a = Deck::init(b"key").unwrap();
    a.update(b"hello ");
    a.update(b"world, this spans more than one block boundary of 48 bytes....");
    let mut b = Deck::init(b"key").unwrap();
    b.update(b"hello world, this spans more than one block boundary of 48 bytes....");
    let mut ra = a.finalize_deck(0x80);
    let mut rb = b.finalize_deck(0x80);
    assert_eq!(ra.read_vec(64), rb.read_vec(64));
}

#[test]
fn deck_delimiter_separates_domains() {
    let mut a = Deck::init(b"key").unwrap();
    a.update(b"same input");
    let mut b = Deck::init(b"key").unwrap();
    b.update(b"same input");
    let mut ra = a.finalize_deck(0x20);
    let mut rb = b.finalize_deck(0xA0);
    assert_ne!(ra.read_vec(32), rb.read_vec(32));
}

#[test]
fn deck_key_must_be_shorter_than_width() {
    assert!(Deck::init(&[0u8; 48]).is_err());
    assert!(Deck::init(&[0u8; 47]).is_ok());
    assert!(Deck::init(b"").is_ok());
}

#[test]
fn xoodoo_permutation_changes_state_and_preserves_length() {
    let mut block: Vec<u8> = vec![0u8; 48];
    Xoodoo6::permute(&mut block);
    assert_eq!(block.len(), 48);
    assert_ne!(block, vec![0u8; 48]);
    // A block of another length is left unchanged.
    let mut odd: Vec<u8> = vec![1, 2, 3];
    Xoodoo6::permute(&mut odd);
    assert_eq!(odd, vec![1, 2, 3]);
}
