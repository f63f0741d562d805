use wireguard_vanity_lib::curve::CurvePoint;
use wireguard_vanity_lib::error::InvariantViolation;
use wireguard_vanity_lib::predicate::make_predicate;
use wireguard_vanity_lib::scalar::Scalar;
use wireguard_vanity_lib::scan::{Seed, SCAN_LIMIT, SCAN_STEP};

const CLAMPED_KEY: [u8; 32] = [
    0x70, 0x07, 0x6d, 0x0a, 0x73, 0x18, 0xa5, 0x7d, 0x3c, 0x16, 0xc1, 0x72, 0x51, 0xb2, 0x66, 0x45,
    0xdf, 0x4c, 0x2f, 0x87, 0xeb, 0xc0, 0x99, 0x2a, 0xb1, 0x77, 0xfb, 0xa5, 0x1d, 0xb9, 0x2c, 0x6a,
];

fn unhex(text: &str) -> [u8; 32] {
    let mut out = [0u8; 32];
    for i in 0..32 {
        out[i] = u8::from_str_radix(&text[2 * i..2 * i + 2], 16).unwrap();
    }
    out
}

#[test]
fn constants_are_the_cofactor_and_the_cap() {
    assert_eq!(SCAN_STEP, 8);
    assert_eq!(SCAN_LIMIT, u64::MAX - 15);
}

#[test]
fn seed_of_a_clamped_key() {
    assert!(Seed::from_private_key(&CLAMPED_KEY).is_ok());
}

#[test]
fn seed_of_the_least_clamped_integer_is_refused() {
    let mut key = [0u8; 32];
    key[31] = 0x40;
    assert_eq!(Seed::from_private_key(&key).err(), Some(InvariantViolation::UnexpectedLowBits));
}

#[test]
fn seed_of_an_unclamped_key_is_refused() {
    // The scalar four has an alias, which is not the key it came from.
    let mut key = [0u8; 32];
    key[0] = 4;
    assert_eq!(Seed::from_private_key(&key).err(), Some(InvariantViolation::RoundTripMismatch));
    let mut high = CLAMPED_KEY;
    high[31] |= 0x80;
    assert!(Seed::from_private_key(&high).is_err());
}

#[test]
fn generated_seeds_are_usable() {
    for _ in 0..5 {
        let seed = Seed::generate().unwrap();
        let mut scan = seed.scan();
        let (count, _) = scan.advance().unwrap();
        assert_eq!(count, 0);
        assert!(seed.convert_count_to_privkey(0).is_ok());
    }
}

#[test]
fn scan_hands_out_known_points() {
    let seed = Seed::from_private_key(&CLAMPED_KEY).unwrap();
    let mut scan = seed.scan();
    let expected = [
        "8120f299c37ae1ca64a179f638a6c6fafde968f1c33705e28c413c7579d988cf",
        "97b03bf95101fe54aad87bbeb1562d2fa0f6ecb22aa7d431e004c03850f948b1",
        "c81f2774bbe4f9d15d820ae6b797af0dea671686fe94c83715d8e29aeb65ef91",
        "d7c5bc80a05164feb8b2e9d2207f9d361c828060f20e578580b744f23e04b9ee",
    ];
    for (k, hex) in expected.iter().enumerate() {
        assert_eq!(scan.count(), 8 * k as u64);
        let (count, point) = scan.advance().unwrap();
        assert_eq!(count, 8 * k as u64);
        assert_eq!(point.to_bytes(), unhex(hex));
    }
    assert_eq!(scan.count(), 32);
}

#[test]
fn stepping_equals_direct_multiplication() {
    let key = x25519_dalek::StaticSecret::new(&mut rand_core::OsRng).to_bytes();
    let seed = Seed::from_private_key(&key).unwrap();
    let base = Scalar::from_private_key_bytes(&key);
    let mut scan = seed.scan();
    for k in 0..50u64 {
        let (count, point) = scan.advance().unwrap();
        assert_eq!(count, 8 * k);
        assert_eq!(point.to_bytes(), CurvePoint::of_scalar(&base.plus(8 * k)).to_bytes());
    }
}

#[test]
fn scan_from_a_count_joins_the_scan() {
    let seed = Seed::from_private_key(&CLAMPED_KEY).unwrap();
    let mut scan = seed.scan_from(16).unwrap();
    assert_eq!(scan.count(), 16);
    let (count, point) = scan.advance().unwrap();
    assert_eq!(count, 16);
    assert_eq!(
        point.to_bytes(),
        unhex("c81f2774bbe4f9d15d820ae6b797af0dea671686fe94c83715d8e29aeb65ef91")
    );
    let (count, point) = scan.advance().unwrap();
    assert_eq!(count, 24);
    assert_eq!(
        point.to_bytes(),
        unhex("d7c5bc80a05164feb8b2e9d2207f9d361c828060f20e578580b744f23e04b9ee")
    );
}

#[test]
fn scan_from_needs_a_multiple_of_eight() {
    let seed = Seed::from_private_key(&CLAMPED_KEY).unwrap();
    assert!(seed.scan_from(12).is_none());
    assert!(seed.scan_from(1).is_none());
    assert!(seed.scan_from(0).is_some());
}

#[test]
fn scan_ends_at_the_cap_without_wrapping() {
    let seed = Seed::from_private_key(&CLAMPED_KEY).unwrap();
    let mut scan = seed.scan_from(SCAN_LIMIT - 8).unwrap();
    assert_eq!(scan.advance().map(|(count, _)| count), Some(SCAN_LIMIT - 8));
    let (count, point) = scan.advance().unwrap();
    assert_eq!(count, SCAN_LIMIT);
    assert_eq!(
        point.to_bytes(),
        [
            0x5d, 0x6f, 0x6f, 0xa4, 0x35, 0x7f, 0xdd, 0x1a, 0xf6, 0xb6, 0x49, 0x4a, 0xe8, 0x6b,
            0xa1, 0x24, 0x37, 0x71, 0xd4, 0xbe, 0x09, 0x05, 0x63, 0x1f, 0x6c, 0x03, 0xda, 0xf6,
            0x27, 0x4e, 0x94, 0xd4,
        ]
    );
    assert_eq!(scan.count(), SCAN_LIMIT + 8);
    for _ in 0..10 {
        assert!(scan.advance().is_none());
        assert_eq!(scan.count(), SCAN_LIMIT + 8);
    }
}

#[test]
fn scan_started_past_the_cap_hands_out_nothing() {
    let seed = Seed::from_private_key(&CLAMPED_KEY).unwrap();
    let mut scan = seed.scan_from(SCAN_LIMIT + 8).unwrap();
    assert!(scan.advance().is_none());
    assert!(scan.advance().is_none());
    assert_eq!(scan.count(), SCAN_LIMIT + 8);
}

#[test]
fn private_key_of_a_count_is_the_key_plus_the_count() {
    let seed = Seed::from_private_key(&CLAMPED_KEY).unwrap();
    assert_eq!(seed.convert_count_to_privkey(0), Ok(CLAMPED_KEY));
    let mut expected = CLAMPED_KEY;
    expected[0] = 0x88;
    assert_eq!(seed.convert_count_to_privkey(24), Ok(expected));
    assert_eq!(
        seed.convert_count_to_privkey(SCAN_LIMIT),
        Ok([
            0x60, 0x07, 0x6d, 0x0a, 0x73, 0x18, 0xa5, 0x7d, 0x3d, 0x16, 0xc1, 0x72, 0x51, 0xb2,
            0x66, 0x45, 0xdf, 0x4c, 0x2f, 0x87, 0xeb, 0xc0, 0x99, 0x2a, 0xb1, 0x77, 0xfb, 0xa5,
            0x1d, 0xb9, 0x2c, 0x6a,
        ])
    );
}

#[test]
fn private_key_of_a_count_off_the_scan_is_refused() {
    let seed = Seed::from_private_key(&CLAMPED_KEY).unwrap();
    assert_eq!(seed.convert_count_to_privkey(1), Err(InvariantViolation::UnexpectedLowBits));
}

#[test]
fn find_match_returns_the_first_match() {
    let seed = Seed::from_private_key(&CLAMPED_KEY).unwrap();
    let p = make_predicate("K", 0, 3, false).unwrap();
    let (count, point) = seed.find_match(&p).unwrap();
    assert_eq!(count, 72);
    assert_eq!(
        base64::encode(point.public_key()),
        "k31oictooibshr3YyhKppytNVl2sky6qw7Af5ba8SDg="
    );
}

#[test]
fn find_match_takes_the_base_point_itself() {
    let seed = Seed::from_private_key(&CLAMPED_KEY).unwrap();
    let p = make_predicate("hsdw", 0, 10, false).unwrap();
    let (count, point) = seed.find_match(&p).unwrap();
    assert_eq!(count, 0);
    assert_eq!(
        point.to_bytes(),
        unhex("8120f299c37ae1ca64a179f638a6c6fafde968f1c33705e28c413c7579d988cf")
    );
}
