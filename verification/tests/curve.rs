use wireguard_vanity_lib::curve::CurvePoint;
use wireguard_vanity_lib::encoding::ENCODED_KEY_LEN;
use wireguard_vanity_lib::scalar::Scalar;
use wireguard_vanity_lib::search::{trial, trial_with_key, KeyPair};

const BASE_POINT: [u8; 32] = [
    0x58, 0x66, 0x66, 0x66, 0x66, 0x66, 0x66, 0x66, 0x66, 0x66, 0x66, 0x66, 0x66, 0x66, 0x66, 0x66,
    0x66, 0x66, 0x66, 0x66, 0x66, 0x66, 0x66, 0x66, 0x66, 0x66, 0x66, 0x66, 0x66, 0x66, 0x66, 0x66,
];

const TWICE_BASE_POINT: [u8; 32] = [
    0xc9, 0xa3, 0xf8, 0x6a, 0xae, 0x46, 0x5f, 0x0e, 0x56, 0x51, 0x38, 0x64, 0x51, 0x0f, 0x39, 0x97,
    0x56, 0x1f, 0xa2, 0xc9, 0xe8, 0x5e, 0xa2, 0x1d, 0xc2, 0x29, 0x23, 0x09, 0xf3, 0xcd, 0x60, 0x22,
];

const EIGHT_TIMES_BASE_POINT: [u8; 32] = [
    0xb4, 0xb9, 0x37, 0xfc, 0xa9, 0x5b, 0x2f, 0x1e, 0x93, 0xe4, 0x1e, 0x62, 0xfc, 0x3c, 0x78, 0x81,
    0x8f, 0xf3, 0x8a, 0x66, 0x09, 0x6f, 0xad, 0x6e, 0x79, 0x73, 0xe5, 0xc9, 0x00, 0x06, 0xd3, 0x21,
];

const RFC_PRIVATE: [u8; 32] = [
    0x77, 0x07, 0x6d, 0x0a, 0x73, 0x18, 0xa5, 0x7d, 0x3c, 0x16, 0xc1, 0x72, 0x51, 0xb2, 0x66, 0x45,
    0xdf, 0x4c, 0x2f, 0x87, 0xeb, 0xc0, 0x99, 0x2a, 0xb1, 0x77, 0xfb, 0xa5, 0x1d, 0xb9, 0x2c, 0x2a,
];

const RFC_PUBLIC: [u8; 32] = [
    0x85, 0x20, 0xf0, 0x09, 0x89, 0x30, 0xa7, 0x54, 0x74, 0x8b, 0x7d, 0xdc, 0xb4, 0x3e, 0xf7, 0x5a,
    0x0d, 0xbf, 0x3a, 0x0d, 0x26, 0x38, 0x1a, 0xf4, 0xeb, 0xa4, 0xa9, 0x8e, 0xaa, 0x9b, 0x4e, 0x6a,
];

#[test]
fn one_times_the_base_point() {
    assert_eq!(CurvePoint::of_scalar(&Scalar::from_u64(1)).to_bytes(), BASE_POINT);
}

#[test]
fn zero_times_the_base_point_is_the_identity() {
    let mut identity = [0u8; 32];
    identity[0] = 1;
    assert_eq!(CurvePoint::of_scalar(&Scalar::from_u64(0)).to_bytes(), identity);
}

#[test]
fn eight_times_the_base_point() {
    assert_eq!(CurvePoint::of_scalar(&Scalar::from_u64(8)).to_bytes(), EIGHT_TIMES_BASE_POINT);
}

#[test]
fn base_point_plus_itself() {
    let g = CurvePoint::of_scalar(&Scalar::from_u64(1));
    assert_eq!(g.plus(&g).to_bytes(), TWICE_BASE_POINT);
}

#[test]
fn sums_follow_the_scalars() {
    let a = Scalar::from_u64(0x1234_5678_9abc_def0);
    let pa = CurvePoint::of_scalar(&a);
    let pb = CurvePoint::of_scalar(&Scalar::from_u64(977));
    assert_eq!(pa.plus(&pb).to_bytes(), CurvePoint::of_scalar(&a.plus(977)).to_bytes());
    assert_eq!(pb.plus(&pa).to_bytes(), pa.plus(&pb).to_bytes());
}

#[test]
fn sums_wrap_at_the_order() {
    let order_minus_eight: [u8; 32] = [
        0xe5, 0xd3, 0xf5, 0x5c, 0x1a, 0x63, 0x12, 0x58, 0xd6, 0x9c, 0xf7, 0xa2, 0xde, 0xf9, 0xde,
        0x14, 0x00, 0x00, 0x00, 0x00, 0x00, 0x00, 0x00, 0x00, 0x00, 0x00, 0x00, 0x00, 0x00, 0x00,
        0x00, 0x10,
    ];
    let p = CurvePoint::of_scalar(&Scalar::from_private_key_bytes(&order_minus_eight));
    let q = CurvePoint::of_scalar(&Scalar::from_u64(9));
    assert_eq!(p.plus(&q).to_bytes(), BASE_POINT);
}

#[test]
fn adding_the_identity_changes_nothing() {
    let zero = CurvePoint::of_scalar(&Scalar::from_u64(0));
    let g = CurvePoint::of_scalar(&Scalar::from_u64(1));
    assert_eq!(g.plus(&zero).to_bytes(), BASE_POINT);
}

#[test]
fn public_key_of_the_base_point_is_nine() {
    let mut nine = [0u8; 32];
    nine[0] = 9;
    assert_eq!(CurvePoint::of_scalar(&Scalar::from_u64(1)).public_key(), nine);
}

#[test]
fn public_key_of_a_point_is_not_its_encoding() {
    let p = CurvePoint::of_scalar(&Scalar::from_u64(8));
    assert_eq!(
        p.public_key(),
        [
            0x68, 0x99, 0xc9, 0x48, 0xed, 0x6f, 0x71, 0xf1, 0x1e, 0xa9, 0x74, 0xad, 0xca, 0xed,
            0x78, 0x7a, 0xa1, 0x5c, 0xb6, 0xc8, 0x4d, 0x88, 0x3b, 0xd8, 0x2d, 0x5c, 0xd6, 0xaa,
            0xd7, 0xa6, 0x5f, 0x27,
        ]
    );
}

#[test]
fn public_key_of_a_known_private_key() {
    let (private_text, public_text) = trial_with_key(&RFC_PRIVATE, "", 0, 0, true).unwrap();
    assert_eq!(private_text, "dwdtCnMYpX08FsFyUbJmRd9ML4frwJkqsXf7pR25LCo=");
    assert_eq!(public_text, "hSDwCYkwp1R0i33ctD73Wg2/Og0mOBr066SpjqqbTmo=");
    assert_eq!(base64::decode(&public_text).unwrap(), RFC_PUBLIC.to_vec());
}

#[test]
fn public_key_ignores_the_bits_that_clamping_sets() {
    let mut clamped = RFC_PRIVATE;
    clamped[0] &= 248;
    clamped[31] &= 127;
    clamped[31] |= 64;
    let (_, public_text) = trial_with_key(&clamped, "", 0, 0, true).unwrap();
    assert_eq!(public_text, "hSDwCYkwp1R0i33ctD73Wg2/Og0mOBr066SpjqqbTmo=");
}

#[test]
fn public_key_agrees_with_the_point_of_the_reduced_key() {
    let mut clamped = RFC_PRIVATE;
    clamped[0] &= 248;
    clamped[31] &= 127;
    clamped[31] |= 64;
    let point = CurvePoint::of_scalar(&Scalar::from_private_key_bytes(&clamped));
    assert_eq!(point.public_key(), RFC_PUBLIC);
}

#[test]
fn random_private_keys_are_clamped_and_differ() {
    let mut keys: Vec<Vec<u8>> = Vec::new();
    for _ in 0..4 {
        let (private_text, _) = trial("", 0, 0, true).unwrap();
        let key = base64::decode(&private_text).unwrap();
        assert_eq!(key.len(), 32);
        assert_eq!(key[0] & 7, 0);
        assert_eq!(key[31] & 0x80, 0);
        assert_eq!(key[31] & 0x40, 0x40);
        keys.push(key);
    }
    assert_ne!(keys[0], keys[1]);
    assert_ne!(keys[2], keys[3]);
}

#[test]
fn base64_of_known_keys() {
    let pair = KeyPair { private_key: RFC_PRIVATE, public_key: RFC_PUBLIC };
    let (private_text, public_text) = pair.to_base64();
    assert_eq!(private_text, "dwdtCnMYpX08FsFyUbJmRd9ML4frwJkqsXf7pR25LCo=");
    assert_eq!(public_text, "hSDwCYkwp1R0i33ctD73Wg2/Og0mOBr066SpjqqbTmo=");
    let edges = KeyPair { private_key: [0u8; 32], public_key: [0xffu8; 32] };
    let (zeros, ones) = edges.to_base64();
    assert_eq!(zeros, "AAAAAAAAAAAAAAAAAAAAAAAAAAAAAAAAAAAAAAAAAAA=");
    assert_eq!(ones, "//////////////////////////////////////////8=");
}

#[test]
fn base64_length_and_alphabet() {
    for _ in 0..20 {
        let (private_text, public_text) = trial("", 0, 0, true).unwrap();
        for text in [private_text, public_text] {
            assert_eq!(text.len(), ENCODED_KEY_LEN);
            assert!(text.is_ascii());
            assert!(text.ends_with('='));
            assert_eq!(base64::decode(&text).unwrap().len(), 32);
        }
    }
}
