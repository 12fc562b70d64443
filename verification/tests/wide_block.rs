use deck::wbc::{WideBlockCipher, WideBlockCipherAuthenticated};
use deck::xoofff::XoofffCore;

type Wbc = WideBlockCipher<XoofffCore>;
type WbcA = WideBlockCipherAuthenticated<XoofffCore>;

const L: usize = 16;
const TAG: usize = 16;

#[test]
fn wbc_round_trip_many_lengths() {
    let key = [17u8; 32];
    let w = Wbc::init(&key, L).unwrap();
    // Lengths covering the short split branch, the long branch, and the
    // power-of-two block-count edge of the split formula.
    for len in [0usize, 1, 15, 16, 47, 48, 78, 79, 80, 100, 127, 128, 176, 200, 368, 400] {
        let pt: Vec<u8> = (0..len).map(|i| (i * 13 + 5) as u8).collect();
        let mut buf = pt.clone();
        w.clone().encrypt_inout(b"tweak", &mut buf);
        assert_eq!(buf.len(), len);
        if len > 0 {
            assert_ne!(buf, pt);
        }
        w.clone().decrypt_inout(b"tweak", &mut buf);
        assert_eq!(buf, pt);
    }
}

#[test]
fn wbc_tweak_matters() {
    let key = [17u8; 32];
    let w = Wbc::init(&key, L).unwrap();
    let pt: Vec<u8> = (0..64).map(|i| i as u8).collect();
    let mut a = pt.clone();
    let mut b = pt.clone();
    w.clone().encrypt_inout(b"tweak one", &mut a);
    w.clone().encrypt_inout(b"tweak two", &mut b);
    assert_ne!(a, b);
}

#[test]
fn wbc_avalanche() {
    // Flipping one ciphertext byte changes every byte of the recovered
    // plaintext.
    let key = [23u8; 32];
    let w = Wbc::init(&key, L).unwrap();
    let pt: Vec<u8> = (0..96).map(|i| (i * 31 + 7) as u8).collect();
    let mut buf = pt.clone();
    w.clone().encrypt_inout(b"t", &mut buf);
    buf[10] ^= 0x01;
    w.clone().decrypt_inout(b"t", &mut buf);
    let differing = buf.iter().zip(pt.iter()).filter(|(a, b)| a != b).count();
    assert!(differing >= 90, "only {differing} of {} bytes changed", pt.len());
}

#[test]
fn wbca_round_trip() {
    let key = [3u8; 32];
    let w = WbcA::init(&key, L, TAG).unwrap();
    let pt: Vec<u8> = b"an authenticated wide block message".to_vec();
    let mut buf = pt.clone();
    w.clone().encrypt_in_place(b"tweak", &mut buf);
    assert_eq!(buf.len(), pt.len() + TAG, "the tag travels inside the buffer");
    w.clone().decrypt_in_place(b"tweak", &mut buf).unwrap();
    assert_eq!(buf, pt);
}

#[test]
fn wbca_tamper_restores_buffer() {
    let key = [3u8; 32];
    let w = WbcA::init(&key, L, TAG).unwrap();
    let pt: Vec<u8> = (0..70).map(|i| (i * 3) as u8).collect();
    let mut buf = pt.clone();
    w.clone().encrypt_in_place(b"tweak", &mut buf);
    buf[0] ^= 0x40;
    let ct = buf.clone();
    let r = w.clone().decrypt_in_place(b"tweak", &mut buf);
    assert!(r.is_err());
    assert_eq!(buf, ct, "failed decrypt must restore the ciphertext byte for byte");
}

#[test]
fn wbca_wrong_tweak_fails() {
    let key = [3u8; 32];
    let w = WbcA::init(&key, L, TAG).unwrap();
    let mut buf: Vec<u8> = b"payload".to_vec();
    w.clone().encrypt_in_place(b"tweak", &mut buf);
    assert!(w.clone().decrypt_in_place(b"other", &mut buf).is_err());
}

#[test]
fn wbca_short_buffer_fails() {
    let key = [3u8; 32];
    let w = WbcA::init(&key, L, TAG).unwrap();
    let mut buf: Vec<u8> = vec![0u8; TAG - 1];
    let before = buf.clone();
    assert!(w.decrypt_in_place(b"tweak", &mut buf).is_err());
    assert_eq!(buf, before);
}

#[test]
fn wbc_key_too_long_is_config_error() {
    let key = [0u8; 48];
    assert!(Wbc::init(&key, L).is_err());
    assert!(WbcA::init(&key, L, TAG).is_err());
}
