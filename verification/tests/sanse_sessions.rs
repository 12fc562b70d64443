use deck::sanse::DeckSanse;
use deck::xoofff::XoofffCore;

type XoofffSanse = DeckSanse<XoofffCore>;

const TAG: usize = 16;

#[test]
fn sanse_round_trip_sequence() {
    let key = [11u8; 32];
    let mut enc = XoofffSanse::init(&key, TAG).unwrap();
    let mut dec = XoofffSanse::init(&key, TAG).unwrap();

    for len in [0usize, 1, 15, 47, 48, 49, 100] {
        let ad: Vec<u8> = (0..len).map(|i| (i * 5) as u8).collect();
        let pt: Vec<u8> = (0..len).map(|i| (i * 11 + 2) as u8).collect();
        let mut buf = pt.clone();
        let tag = enc.encrypt_inout_detached(&ad, &mut buf);
        if len > 0 {
            assert_ne!(buf, pt);
        }
        dec.decrypt_inout_detached(&ad, &mut buf, &tag).unwrap();
        assert_eq!(buf, pt);
    }
}

#[test]
fn sanse_deterministic() {
    // Two freshly initialized sessions with identical keys, fed the same
    // sequence, produce byte-identical ciphertexts and tags at every step.
    let key = [42u8; 24];
    let mut s1 = XoofffSanse::init(&key, TAG).unwrap();
    let mut s2 = XoofffSanse::init(&key, TAG).unwrap();

    let steps: [(&[u8], &[u8]); 4] =
        [(b"ad one", b"plaintext one"), (b"", b"plaintext two"), (b"ad three", b""), (b"x", b"y")];
    for (ad, pt) in steps {
        let mut b1 = pt.to_vec();
        let mut b2 = pt.to_vec();
        let t1 = s1.encrypt_inout_detached(ad, &mut b1);
        let t2 = s2.encrypt_inout_detached(ad, &mut b2);
        assert_eq!(b1, b2);
        assert_eq!(t1, t2);
    }
}

#[test]
fn sanse_repeat_plaintext_detectable() {
    // The accepted SIV trade-off: within one session state, identical input
    // at the same position of two mirrored sessions gives identical output
    // (tested above); across successive calls of one session the history has
    // grown, so the same (ad, pt) encrypts differently.
    let key = [13u8; 32];
    let mut s = XoofffSanse::init(&key, TAG).unwrap();
    let mut b1: Vec<u8> = b"repeat me".to_vec();
    let t1 = s.encrypt_inout_detached(b"ad", &mut b1);
    let mut b2: Vec<u8> = b"repeat me".to_vec();
    let t2 = s.encrypt_inout_detached(b"ad", &mut b2);
    assert_ne!(t1, t2);
}

#[test]
fn sanse_tamper_restores_buffer() {
    let key = [9u8; 32];
    let mut enc = XoofffSanse::init(&key, TAG).unwrap();
    let mut dec = XoofffSanse::init(&key, TAG).unwrap();

    let mut buf: Vec<u8> = b"a rather longer secret message for the siv mode".to_vec();
    let mut tag = enc.encrypt_inout_detached(b"ad", &mut buf);
    let ct = buf.clone();

    tag[5] ^= 0x20;
    let r = dec.decrypt_inout_detached(b"ad", &mut buf, &tag);
    assert!(r.is_err());
    assert_eq!(buf, ct, "failed decrypt must restore the ciphertext byte for byte");
}

#[test]
fn sanse_tamper_ciphertext_restores_buffer() {
    let key = [9u8; 32];
    let mut enc = XoofffSanse::init(&key, TAG).unwrap();
    let mut dec = XoofffSanse::init(&key, TAG).unwrap();

    let mut buf: Vec<u8> = b"another secret".to_vec();
    let tag = enc.encrypt_inout_detached(b"", &mut buf);
    buf[0] ^= 0x04;
    let ct = buf.clone();
    let r = dec.decrypt_inout_detached(b"", &mut buf, &tag);
    assert!(r.is_err());
    assert_eq!(buf, ct);
}

#[test]
fn sanse_tamper_ad_fails() {
    let key = [9u8; 32];
    let mut enc = XoofffSanse::init(&key, TAG).unwrap();
    let mut dec = XoofffSanse::init(&key, TAG).unwrap();

    let mut buf: Vec<u8> = b"payload".to_vec();
    let tag = enc.encrypt_inout_detached(b"ad", &mut buf);
    let ct = buf.clone();
    let r = dec.decrypt_inout_detached(b"da", &mut buf, &tag);
    assert!(r.is_err());
    assert_eq!(buf, ct);
}

#[test]
fn sanse_zero_length() {
    let key = [0u8; 32];
    let mut enc = XoofffSanse::init(&key, TAG).unwrap();
    let mut dec = XoofffSanse::init(&key, TAG).unwrap();

    let mut buf: Vec<u8> = Vec::new();
    let tag = enc.encrypt_inout_detached(b"", &mut buf);
    assert_eq!(tag.len(), TAG);
    assert!(buf.is_empty());
    dec.decrypt_inout_detached(b"", &mut buf, &tag).unwrap();
    assert!(buf.is_empty());
}

#[test]
fn sanse_ad_only_keep_alive_tamper() {
    let key = [21u8; 32];
    let mut enc = XoofffSanse::init(&key, TAG).unwrap();
    let mut dec = XoofffSanse::init(&key, TAG).unwrap();

    let mut empty: Vec<u8> = Vec::new();
    let mut tag = enc.encrypt_inout_detached(b"keep alive", &mut empty);
    tag[15] ^= 0x01;
    let r = dec.decrypt_inout_detached(b"keep alive", &mut empty, &tag);
    assert!(r.is_err());
}

#[test]
fn sanse_key_too_long_is_config_error() {
    let key = [0u8; 64];
    assert!(XoofffSanse::init(&key, TAG).is_err());
}
