use std::cell::RefCell;
use hbs_lms::{
    hss_keygen, HssParameter, LmotsAlgorithmType, LmsAlgorithmType, LmsError,
};

fn accept_all(_b: &[u8]) -> bool {
    true
}

fn h5(lmots: LmotsAlgorithmType) -> HssParameter {
    HssParameter::new(lmots, LmsAlgorithmType::LmsSha256M32H5)
}

#[test]
fn two_levels_roll_over_to_a_fresh_bottom_key() {
    let params = [h5(LmotsAlgorithmType::LmotsSha256N32W4), h5(LmotsAlgorithmType::LmotsSha256N32W4)];
    let mut sk = hss_keygen(&params).unwrap();
    let pk = sk.public_key();
    assert_eq!(pk.levels, 2);
    let top_bytes = pk.to_binary_representation();
    for i in 0..33u32 {
        let message = format!("message {}", i);
        let sig = sk.sign(message.as_bytes(), accept_all).unwrap();
        assert!(sig.verify(message.as_bytes(), &pk), "signature {}", i);
        assert_eq!(sig.signed_public_keys.len(), 1);
        if i < 32 {
            assert_eq!(sig.signature.q, i);
            assert_eq!(sig.signed_public_keys[0].q, 0);
        } else {
            assert_eq!(sig.signature.q, 0);
            assert_eq!(sig.signed_public_keys[0].q, 1);
        }
        assert!(!sig.verify(b"other", &pk));
    }
    assert_eq!(sk.levels[0].q, 2);
    assert_eq!(sk.levels[1].q, 1);
    assert_eq!(sk.public_key().to_binary_representation(), top_bytes);
}

#[test]
fn single_level_signature_layout() {
    let mut sk = hss_keygen(&[h5(LmotsAlgorithmType::LmotsSha256N32W8)]).unwrap();
    let pk = sk.public_key();
    let sig = sk.sign(b"abc", accept_all).unwrap();
    assert!(sig.verify(b"abc", &pk));
    let bytes = sig.to_binary_representation();
    assert_eq!(&bytes[..4], &[0, 0, 0, 0]);
    assert_eq!(bytes.len(), 4 + 4 + (4 + 32 * 35) + 4 + 32 * 5);
    let pk_bytes = pk.to_binary_representation();
    assert_eq!(&pk_bytes[..4], &[0, 0, 0, 1]);
    assert_eq!(pk_bytes.len(), 60);
}

#[test]
fn level_counts_outside_one_to_eight_are_refused() {
    assert!(hss_keygen(&[]).is_none());
    let nine = [h5(LmotsAlgorithmType::LmotsSha256N32W8); 9];
    assert!(hss_keygen(&nine).is_none());
}

#[test]
fn hss_persistence_failure_changes_nothing() {
    let mut sk = hss_keygen(&[h5(LmotsAlgorithmType::LmotsSha256N32W8)]).unwrap();
    let r = sk.sign(b"abc", |_b: &[u8]| false);
    assert!(matches!(r, Err(LmsError::PersistenceFailed)));
    assert_eq!(sk.levels[0].q, 0);
}

#[test]
fn hss_exhausted_key_is_refused() {
    let mut sk = hss_keygen(&[h5(LmotsAlgorithmType::LmotsSha256N32W8)]).unwrap();
    sk.levels[0].q = 32;
    assert!(matches!(sk.sign(b"abc", accept_all), Err(LmsError::KeyExhausted)));
}

#[test]
fn hss_public_key_round_trip() {
    let sk = hss_keygen(&[h5(LmotsAlgorithmType::LmotsSha256N32W8)]).unwrap();
    let pk = sk.public_key();
    let bytes = pk.to_binary_representation();
    let parsed = hbs_lms::HssPublicKey::from_binary_representation(&bytes).expect("parses");
    assert_eq!(parsed.levels, 1);
    assert_eq!(parsed.to_binary_representation(), bytes);
    let mut zero_levels = bytes.clone();
    zero_levels[3] = 0;
    assert!(hbs_lms::HssPublicKey::from_binary_representation(&zero_levels).is_none());
    let mut nine_levels = bytes.clone();
    nine_levels[3] = 9;
    assert!(hbs_lms::HssPublicKey::from_binary_representation(&nine_levels).is_none());
    assert!(hbs_lms::HssPublicKey::from_binary_representation(&bytes[..59]).is_none());
}

#[test]
fn hss_signature_bytes_concatenate_levels() {
    let params = [h5(LmotsAlgorithmType::LmotsSha256N32W8), h5(LmotsAlgorithmType::LmotsSha256N32W8)];
    let mut sk = hss_keygen(&params).unwrap();
    let sig = sk.sign(b"layout", accept_all).unwrap();
    let bytes = sig.to_binary_representation();
    let lms_len = 4 + (4 + 32 * 35) + 4 + 32 * 5;
    assert_eq!(&bytes[..4], &[0, 0, 0, 1]);
    assert_eq!(bytes.len(), 4 + lms_len + 56 + lms_len);
    assert_eq!(&bytes[4..4 + lms_len], &sig.signed_public_keys[0].to_binary_representation()[..]);
    assert_eq!(
        &bytes[4 + lms_len..4 + lms_len + 56],
        &sig.public_keys[0].to_binary_representation()[..]
    );
}

#[test]
fn hss_bytes_verify_and_parse() {
    let params = [h5(LmotsAlgorithmType::LmotsSha256N32W8), h5(LmotsAlgorithmType::LmotsSha256N32W8)];
    let mut sk = hss_keygen(&params).unwrap();
    let pk_bytes = sk.public_key().to_binary_representation();
    let sig = sk.sign(b"bytes", accept_all).unwrap();
    let bytes = sig.to_binary_representation();
    assert!(hbs_lms::hss_verify(b"bytes", &bytes, &pk_bytes));
    assert!(!hbs_lms::hss_verify(b"bytez", &bytes, &pk_bytes));
    let parsed = hbs_lms::HssSignature::from_binary_representation(&bytes).expect("parses");
    assert_eq!(parsed.to_binary_representation(), bytes);
    let mut flipped = bytes.clone();
    flipped[100] ^= 0x01;
    assert!(!hbs_lms::hss_verify(b"bytes", &flipped, &pk_bytes));
    let mut longer = bytes.clone();
    longer.push(0);
    assert!(hbs_lms::HssSignature::from_binary_representation(&longer).is_none());
    assert!(!hbs_lms::hss_verify(b"bytes", &longer, &pk_bytes));
    assert!(hbs_lms::HssSignature::from_binary_representation(&bytes[..bytes.len() - 1]).is_none());
    let mut eight_levels = bytes.clone();
    eight_levels[3] = 8;
    assert!(hbs_lms::HssSignature::from_binary_representation(&eight_levels).is_none());
}

#[test]
fn hss_private_key_bytes_persist_and_reload() {
    let params = [h5(LmotsAlgorithmType::LmotsSha256N32W8), h5(LmotsAlgorithmType::LmotsSha256N32W8)];
    let mut sk = hss_keygen(&params).unwrap();
    let pk = sk.public_key();
    let bytes = sk.to_binary_representation();
    let reloaded = hbs_lms::HssPrivateKey::from_binary_representation(&bytes).expect("parses");
    assert_eq!(reloaded.to_binary_representation(), bytes);
    let stored: RefCell<Vec<u8>> = RefCell::new(Vec::new());
    let sig = sk
        .sign(b"persist", |b: &[u8]| {
            *stored.borrow_mut() = b.to_vec();
            true
        })
        .unwrap();
    assert!(sig.verify(b"persist", &pk));
    assert_eq!(*stored.borrow(), sk.to_binary_representation());
    let mut again = hbs_lms::HssPrivateKey::from_binary_representation(&stored.borrow()).unwrap();
    assert_eq!(again.levels[1].q, 1);
    let sig2 = again.sign(b"next", accept_all).unwrap();
    assert_eq!(sig2.signature.q, 1);
    assert!(sig2.verify(b"next", &pk));
    let mut tampered = bytes.clone();
    tampered[20] ^= 1;
    assert!(hbs_lms::HssPrivateKey::from_binary_representation(&tampered).is_none());
    assert!(hbs_lms::HssPrivateKey::from_binary_representation(&bytes[..bytes.len() - 1]).is_none());
}

#[test]
fn seeded_hss_keygen_is_reproducible() {
    let params = [h5(LmotsAlgorithmType::LmotsSha256N32W8), h5(LmotsAlgorithmType::LmotsSha256N32W8)];
    let seed = [7u8; 40];
    let a = hbs_lms::hss_keygen_with_seed(&params, &seed).unwrap();
    let b = hbs_lms::hss_keygen_with_seed(&params, &seed).unwrap();
    assert_eq!(a.public_key().to_binary_representation(), b.public_key().to_binary_representation());
    let c = hbs_lms::hss_keygen_with_seed(&params, &seed[..39]).unwrap();
    assert_ne!(a.public_key().to_binary_representation(), c.public_key().to_binary_representation());
    assert_ne!(a.levels[0].I, a.levels[1].I);
}
