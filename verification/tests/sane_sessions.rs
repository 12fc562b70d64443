use deck::sane::DeckSane;
use deck::xoofff::XoofffCore;

type XoofffSane = DeckSane<XoofffCore>;

const TAG: usize = 16;
const ALIGN: usize = 32;

#[test]
fn check() {
    let key = [0; 32];
    let iv = [0; 16];
    let mut enc = XoofffSane::init(&key, &iv, TAG, ALIGN).unwrap();
    let mut dec = XoofffSane::init(&key, &iv, TAG, ALIGN).unwrap();

    let ad1 = *b"foo";
    let mut msg1: Vec<u8> = b"abcd".to_vec();
    let tag = enc.encrypt_inout_detached(&ad1, &mut msg1);
    dec.decrypt_inout_detached(&ad1, &mut msg1, &tag).unwrap();
    assert_eq!(msg1, b"abcd".to_vec());

    let ad2 = *b"bar";
    let mut msg2: Vec<u8> = b"xyzw".to_vec();
    let tag = enc.encrypt_inout_detached(&ad2, &mut msg2);
    dec.decrypt_inout_detached(&ad2, &mut msg2, &tag).unwrap();
    assert_eq!(msg2, b"xyzw".to_vec());
}

#[test]
fn sane_round_trip_long_messages() {
    let key = [7u8; 31];
    let iv = [9u8; 48];
    let mut enc = XoofffSane::init(&key, &iv, TAG, ALIGN).unwrap();
    let mut dec = XoofffSane::init(&key, &iv, TAG, ALIGN).unwrap();

    for len in [0usize, 1, 16, 47, 48, 49, 96, 200] {
        let ad: Vec<u8> = (0..len).map(|i| (i * 3) as u8).collect();
        let pt: Vec<u8> = (0..len).map(|i| (i * 7 + 1) as u8).collect();
        let mut buf = pt.clone();
        let tag = enc.encrypt_inout_detached(&ad, &mut buf);
        if len > 0 {
            assert_ne!(buf, pt, "ciphertext should differ from plaintext");
        }
        dec.decrypt_inout_detached(&ad, &mut buf, &tag).unwrap();
        assert_eq!(buf, pt);
    }
}

#[test]
fn sane_tamper_tag_fails() {
    let key = [1u8; 32];
    let iv = [2u8; 16];
    let mut enc = XoofffSane::init(&key, &iv, TAG, ALIGN).unwrap();
    let mut dec = XoofffSane::init(&key, &iv, TAG, ALIGN).unwrap();

    let mut buf: Vec<u8> = b"some secret message".to_vec();
    let mut tag = enc.encrypt_inout_detached(b"ad", &mut buf);
    let ct = buf.clone();
    tag[0] ^= 0x01;
    let r = dec.decrypt_inout_detached(b"ad", &mut buf, &tag);
    assert!(r.is_err());
    assert_eq!(buf, ct, "SANE decrypt must not touch the buffer on failure");
}

#[test]
fn sane_tamper_ciphertext_fails() {
    let key = [1u8; 32];
    let iv = [2u8; 16];
    let mut enc = XoofffSane::init(&key, &iv, TAG, ALIGN).unwrap();
    let mut dec = XoofffSane::init(&key, &iv, TAG, ALIGN).unwrap();

    let mut buf: Vec<u8> = b"some secret message".to_vec();
    let tag = enc.encrypt_inout_detached(b"ad", &mut buf);
    buf[3] ^= 0x80;
    let ct = buf.clone();
    let r = dec.decrypt_inout_detached(b"ad", &mut buf, &tag);
    assert!(r.is_err());
    assert_eq!(buf, ct);
}

#[test]
fn sane_tamper_ad_fails() {
    let key = [1u8; 32];
    let iv = [2u8; 16];
    let mut enc = XoofffSane::init(&key, &iv, TAG, ALIGN).unwrap();
    let mut dec = XoofffSane::init(&key, &iv, TAG, ALIGN).unwrap();

    let mut buf: Vec<u8> = b"some secret message".to_vec();
    let tag = enc.encrypt_inout_detached(b"ad", &mut buf);
    let r = dec.decrypt_inout_detached(b"aD", &mut buf, &tag);
    assert!(r.is_err());
}

#[test]
fn sane_order_sensitivity() {
    let key = [5u8; 32];
    let iv = [6u8; 16];

    let mut s1 = XoofffSane::init(&key, &iv, TAG, ALIGN).unwrap();
    let mut a1: Vec<u8> = b"message A".to_vec();
    let tag_a_first = s1.encrypt_inout_detached(b"", &mut a1);
    let mut b1: Vec<u8> = b"message B".to_vec();
    let tag_b_second = s1.encrypt_inout_detached(b"", &mut b1);

    let mut s2 = XoofffSane::init(&key, &iv, TAG, ALIGN).unwrap();
    let mut b2: Vec<u8> = b"message B".to_vec();
    let tag_b_first = s2.encrypt_inout_detached(b"", &mut b2);
    let mut a2: Vec<u8> = b"message A".to_vec();
    let tag_a_second = s2.encrypt_inout_detached(b"", &mut a2);

    assert_ne!(tag_a_first, tag_a_second, "history accumulation must be order-dependent");
    assert_ne!(tag_b_first, tag_b_second);
}

#[test]
fn sane_zero_length() {
    let key = [0u8; 32];
    let iv = [0u8; 16];
    let mut enc = XoofffSane::init(&key, &iv, TAG, ALIGN).unwrap();
    let mut dec = XoofffSane::init(&key, &iv, TAG, ALIGN).unwrap();

    let mut buf: Vec<u8> = Vec::new();
    let tag = enc.encrypt_inout_detached(b"", &mut buf);
    assert_eq!(tag.len(), TAG);
    assert!(buf.is_empty());
    dec.decrypt_inout_detached(b"", &mut buf, &tag).unwrap();
    assert!(buf.is_empty());
}

#[test]
fn sane_key_too_long_is_config_error() {
    let key = [0u8; 48];
    let iv = [0u8; 16];
    assert!(XoofffSane::init(&key, &iv, TAG, ALIGN).is_err());
    let key47 = [0u8; 47];
    assert!(XoofffSane::init(&key47, &iv, TAG, ALIGN).is_ok());
}

#[test]
fn sane_failed_decrypt_advances_history() {
    // After a failed decrypt the session history and direction bit have
    // advanced, so it no longer mirrors the encrypting session.
    let key = [3u8; 32];
    let iv = [4u8; 16];
    let mut enc = XoofffSane::init(&key, &iv, TAG, ALIGN).unwrap();
    let mut dec = XoofffSane::init(&key, &iv, TAG, ALIGN).unwrap();

    let mut buf: Vec<u8> = b"first".to_vec();
    let mut tag = enc.encrypt_inout_detached(b"x", &mut buf);
    tag[0] ^= 1;
    assert!(dec.decrypt_inout_detached(b"x", &mut buf, &tag).is_err());
    tag[0] ^= 1;
    // The same, untampered call now fails too: the session moved on.
    assert!(dec.decrypt_inout_detached(b"x", &mut buf, &tag).is_err());
}
