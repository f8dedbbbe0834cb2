use hbs_lms::{
    keygen, keygen_random, verify, LmotsAlgorithmType, LmsAlgorithmType, LmsError, LmsParameter,
    LmsPrivateKey, LmsPublicKey, LmsSha256M32H10, LmsSha256M32H5, LmsSignature,
};
use std::cell::RefCell;

fn zero_key(lmots: LmotsAlgorithmType) -> (LmsPrivateKey, LmsPublicKey) {
    keygen(LmsAlgorithmType::LmsSha256M32H5, lmots, &[0u8; 16], &[0u8; 32])
}

fn accept_all(_b: &[u8]) -> bool {
    true
}

#[test]
fn h5_w1_zero_seed_signs_and_verifies() {
    let (mut sk, pk) = zero_key(LmotsAlgorithmType::LmotsSha256N32W1);
    let sig = sk.sign(b"abc", accept_all).unwrap();
    let sig_bytes = sig.to_binary_representation();
    let pk_bytes = pk.to_binary_representation();
    assert!(verify(b"abc", &sig_bytes, &pk_bytes));
    assert!(sig.verify(b"abc", &pk));
    assert_eq!(sk.q, 1);
}

#[test]
fn h5_w8_large_message_and_tampering() {
    let (mut sk, pk) = keygen_random(LmsAlgorithmType::LmsSha256M32H5, LmotsAlgorithmType::LmotsSha256N32W8);
    let mut message = vec![0xaau8; 1 << 20];
    let sig = sk.sign(&message, accept_all).unwrap();
    let sig_bytes = sig.to_binary_representation();
    let pk_bytes = pk.to_binary_representation();
    assert!(verify(&message, &sig_bytes, &pk_bytes));
    message[0] ^= 0x01;
    assert!(!verify(&message, &sig_bytes, &pk_bytes));
}

#[test]
fn single_bit_flips_are_rejected() {
    let (mut sk, pk) = zero_key(LmotsAlgorithmType::LmotsSha256N32W4);
    let sig_bytes = sk.sign(b"flip", accept_all).unwrap().to_binary_representation();
    let pk_bytes = pk.to_binary_representation();
    assert!(verify(b"flip", &sig_bytes, &pk_bytes));
    for pos in [0usize, 3, 5, 8, 40, 100, sig_bytes.len() - 1] {
        let mut s = sig_bytes.clone();
        s[pos] ^= 0x01;
        assert!(!verify(b"flip", &s, &pk_bytes), "signature byte {}", pos);
    }
    for pos in [0usize, 7, 8, 30, 55] {
        let mut k = pk_bytes.clone();
        k[pos] ^= 0x80;
        assert!(!verify(b"flip", &sig_bytes, &k), "public key byte {}", pos);
    }
    assert!(!verify(b"flop", &sig_bytes, &pk_bytes));
}

#[test]
fn signature_bytes_round_trip() {
    let (mut sk, _pk) = zero_key(LmotsAlgorithmType::LmotsSha256N32W2);
    let sig = sk.sign(b"round trip", accept_all).unwrap();
    let bytes = sig.to_binary_representation();
    assert_eq!(bytes.len(), 4 + (4 + 32 * 134) + 4 + 32 * 5);
    let parsed = LmsSignature::from_binary_representation(&bytes).expect("parses");
    assert_eq!(parsed.to_binary_representation(), bytes);
    assert_eq!(parsed.q, 0);
    assert!(parsed.lmots_signature == sig.lmots_signature);
}

#[test]
fn public_and_private_key_round_trip() {
    let (sk, pk) = zero_key(LmotsAlgorithmType::LmotsSha256N32W1);
    let pk_bytes = pk.to_binary_representation();
    assert_eq!(pk_bytes.len(), 56);
    assert_eq!(&pk_bytes[..8], &[0, 0, 0, 5, 0, 0, 0, 1]);
    let pk2 = LmsPublicKey::from_binary_representation(&pk_bytes).unwrap();
    assert_eq!(pk2.to_binary_representation(), pk_bytes);
    let sk_bytes = sk.to_binary_representation();
    assert_eq!(sk_bytes.len(), 60);
    let sk2 = LmsPrivateKey::from_binary_representation(&sk_bytes).unwrap();
    assert_eq!(sk2.to_binary_representation(), sk_bytes);
    assert!(LmsPublicKey::from_binary_representation(&pk_bytes[1..]).is_none());
}

#[test]
fn failing_persistence_releases_nothing() {
    let (mut sk, _pk) = zero_key(LmotsAlgorithmType::LmotsSha256N32W1);
    let on_disk = sk.to_binary_representation();
    let r = sk.sign(b"abc", |_b: &[u8]| false);
    assert!(matches!(r, Err(LmsError::PersistenceFailed)));
    assert_eq!(sk.q, 0);
    assert_eq!(sk.to_binary_representation(), on_disk);
}

#[test]
fn persistence_sees_advanced_key_first() {
    let (mut sk, pk) = zero_key(LmotsAlgorithmType::LmotsSha256N32W4);
    let stored: RefCell<Vec<u8>> = RefCell::new(Vec::new());
    let sig = sk
        .sign(b"m", |b: &[u8]| {
            *stored.borrow_mut() = b.to_vec();
            true
        })
        .unwrap();
    let persisted = LmsPrivateKey::from_binary_representation(&stored.borrow()).unwrap();
    assert_eq!(persisted.q, 1);
    assert_eq!(sig.q, 0);
    assert!(sig.verify(b"m", &pk));
    let sig2 = sk.sign(b"m", accept_all).unwrap();
    assert_eq!(sig2.q, 1);
    assert_eq!(sk.q, 2);
    assert!(sig2.verify(b"m", &pk));
}

#[test]
fn exhausted_key_is_refused() {
    let (sk, _pk) = zero_key(LmotsAlgorithmType::LmotsSha256N32W8);
    let mut bytes = sk.to_binary_representation();
    bytes[11] = 32;
    let mut last = LmsPrivateKey::from_binary_representation(&bytes).unwrap();
    assert!(matches!(last.sign(b"x", accept_all), Err(LmsError::KeyExhausted)));
    assert_eq!(last.q, 32);
    bytes[11] = 33;
    assert!(LmsPrivateKey::from_binary_representation(&bytes).is_none());
}

#[test]
fn leaf_index_past_tree_is_malformed() {
    let (mut sk, pk) = zero_key(LmotsAlgorithmType::LmotsSha256N32W8);
    let mut bytes = sk.sign(b"q", accept_all).unwrap().to_binary_representation();
    bytes[0..4].copy_from_slice(&[0, 0, 0, 32]);
    assert!(LmsSignature::from_binary_representation(&bytes).is_none());
    assert!(!verify(b"q", &bytes, &pk.to_binary_representation()));
}

#[test]
fn all_leaves_sign_and_verify() {
    let (mut sk, pk) = zero_key(LmotsAlgorithmType::LmotsSha256N32W1);
    for i in 0..32u32 {
        let sig = sk.sign(&i.to_be_bytes(), accept_all).unwrap();
        assert_eq!(sig.q, i);
        assert!(sig.verify(&i.to_be_bytes(), &pk));
    }
    assert!(matches!(sk.sign(b"more", accept_all), Err(LmsError::KeyExhausted)));
}

#[test]
fn tree_profiles() {
    assert_eq!(LmsSha256M32H5::number_of_lm_ots_keys(), 32);
    assert_eq!(LmsSha256M32H10::number_of_lm_ots_keys(), 1024);
    assert!(LmsSha256M32H5::is_type_correct(5));
    assert!(!LmsSha256M32H5::is_type_correct(6));
    assert_eq!(LmsAlgorithmType::from_u32(9), Some(LmsAlgorithmType::LmsSha256M32H25));
    assert_eq!(LmsAlgorithmType::from_u32(4), None);
    assert_eq!(LmsAlgorithmType::LmsSha256M32H25.height(), 25);
}

#[test]
fn signature_with_wrong_public_key_is_rejected() {
    let (mut sk, _pk) = zero_key(LmotsAlgorithmType::LmotsSha256N32W4);
    let (_sk2, pk2) = keygen(
        LmsAlgorithmType::LmsSha256M32H5,
        LmotsAlgorithmType::LmotsSha256N32W4,
        &[1u8; 16],
        &[0u8; 32],
    );
    let sig = sk.sign(b"abc", accept_all).unwrap();
    assert!(!sig.verify(b"abc", &pk2));
}
