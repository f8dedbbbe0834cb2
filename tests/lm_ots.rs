use hbs_lms::util::coef_of;
use hbs_lms::{LmotsAlgorithmType, LmotsPrivateKey, LmotsSignature, Sha256Hasher};

#[test]
fn test_binary_representation() {
    let c: Vec<u8> = (0..32).map(|i| i as u8).collect();
    let mut y: Vec<Vec<u8>> = Vec::new();
    for _ in 0..265 {
        y.push((0..32).map(|j| j as u8).collect());
    }

    let signature = LmotsSignature {
        parameter: LmotsAlgorithmType::LmotsSha256N32W1.get_parameter(),
        C: c,
        y,
    };

    let binary_rep = signature.to_binary_representation();
    let deserialized_signature = LmotsSignature::from_binary_representation(&binary_rep)
        .expect("Deserialization must succeed.");

    assert!(signature == deserialized_signature);
}

#[test]
fn parameter_table_rows() {
    let rows = [
        (LmotsAlgorithmType::LmotsSha256N32W1, 1u8, 265u16, 7u8, 1u32),
        (LmotsAlgorithmType::LmotsSha256N32W2, 2, 133, 6, 2),
        (LmotsAlgorithmType::LmotsSha256N32W4, 4, 67, 4, 3),
        (LmotsAlgorithmType::LmotsSha256N32W8, 8, 34, 0, 4),
    ];
    for (t, w, p, ls, code) in rows {
        let param = t.get_parameter();
        assert_eq!(param.n, 32);
        assert_eq!(param.w, w);
        assert_eq!(param.p, p);
        assert_eq!(param.ls, ls);
        assert_eq!(t.code(), code);
        assert_eq!(LmotsAlgorithmType::from_u32(code), Some(t));
    }
    assert_eq!(LmotsAlgorithmType::from_u32(0), None);
    assert_eq!(LmotsAlgorithmType::from_u32(5), None);
}

#[test]
fn coef_reads_big_endian_digits() {
    let s = [0x12u8, 0x34];
    assert_eq!(coef_of(&s, 0, 4), 1);
    assert_eq!(coef_of(&s, 1, 4), 2);
    assert_eq!(coef_of(&s, 2, 4), 3);
    assert_eq!(coef_of(&s, 3, 4), 4);
    assert_eq!(coef_of(&s, 1, 8), 0x34);
    // 0x12 = 0001 0010
    assert_eq!(coef_of(&s, 3, 1), 1);
    assert_eq!(coef_of(&s, 6, 1), 1);
    assert_eq!(coef_of(&s, 7, 1), 0);
    // 0x34 = 00 11 01 00
    assert_eq!(coef_of(&s, 5, 2), 3);
    assert_eq!(coef_of(&s, 6, 2), 1);
}

#[test]
fn checksum_of_zero_digest() {
    let q = [0u8; 32];
    let w8 = LmotsAlgorithmType::LmotsSha256N32W8.get_parameter().get_appended_with_checksum(&q);
    assert_eq!(w8.len(), 34);
    assert_eq!(&w8[32..], &[0x1f, 0xe0]);
    let w1 = LmotsAlgorithmType::LmotsSha256N32W1.get_parameter().get_appended_with_checksum(&q);
    assert_eq!(&w1[32..], &[0x80, 0x00]);
    let w4 = LmotsAlgorithmType::LmotsSha256N32W4.get_parameter().get_appended_with_checksum(&q);
    // 64 digits of 15, shifted left by 4: 960 << 4 = 15360
    assert_eq!(&w4[32..], &[0x3c, 0x00]);
    let ones = [0xffu8; 32];
    let w2 = LmotsAlgorithmType::LmotsSha256N32W2.get_parameter().get_appended_with_checksum(&ones);
    assert_eq!(&w2[32..], &[0x00, 0x00]);
}

#[test]
fn sha256_of_abc() {
    let mut h = Sha256Hasher::new();
    h.update(b"abc");
    let d = h.finalize_reset();
    assert_eq!(
        d,
        vec![
            0xba, 0x78, 0x16, 0xbf, 0x8f, 0x01, 0xcf, 0xea, 0x41, 0x41, 0x40, 0xde, 0x5d, 0xae,
            0x22, 0x23, 0xb0, 0x03, 0x61, 0xa3, 0x96, 0x17, 0x7a, 0x9c, 0xb4, 0x10, 0xff, 0x61,
            0xf2, 0x00, 0x15, 0xad
        ]
    );
}

fn one_time_key() -> LmotsPrivateKey {
    let param = LmotsAlgorithmType::LmotsSha256N32W4.get_parameter();
    LmotsPrivateKey::new(param, &[7u8; 16], &[0, 0, 0, 3], &[9u8; 32])
}

#[test]
fn lmots_sign_is_deterministic_given_randomizer() {
    let key = one_time_key();
    let a = LmotsSignature::sign_with_randomizer(&key, b"message", vec![5u8; 32]);
    let b = LmotsSignature::sign_with_randomizer(&key, b"message", vec![5u8; 32]);
    assert!(a == b);
    assert_eq!(a.to_binary_representation(), b.to_binary_representation());
    let c = LmotsSignature::sign_with_randomizer(&key, b"message", vec![6u8; 32]);
    assert!(a != c);
}

#[test]
fn lmots_candidate_matches_public_key() {
    let key = one_time_key();
    let pk = key.public_key();
    let sig = LmotsSignature::sign(&key, b"hello");
    assert_eq!(sig.C.len(), 32);
    assert_eq!(sig.candidate_public_key(&[7u8; 16], &[0, 0, 0, 3], b"hello"), pk);
    assert_ne!(sig.candidate_public_key(&[7u8; 16], &[0, 0, 0, 3], b"hellp"), pk);
    assert_ne!(sig.candidate_public_key(&[7u8; 16], &[0, 0, 0, 4], b"hello"), pk);
}

#[test]
fn lmots_parse_rejects_bad_input() {
    let key = one_time_key();
    let sig = LmotsSignature::sign(&key, b"x");
    let bytes = sig.to_binary_representation();
    assert_eq!(bytes.len(), 4 + 32 * 68);
    assert!(LmotsSignature::from_binary_representation(&bytes[..bytes.len() - 1]).is_none());
    let mut wrong_type = bytes.clone();
    wrong_type[3] = 9;
    assert!(LmotsSignature::from_binary_representation(&wrong_type).is_none());
    assert!(LmotsSignature::from_binary_representation(&[0, 0, 0]).is_none());
    let back = LmotsSignature::from_binary_representation(&bytes).unwrap();
    assert!(back == sig);
}
