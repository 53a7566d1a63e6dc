use ecc_core::bigint::BigInt;
use ecc_core::blake2b512::Blake;
use ecc_core::curve_traits::{ECPoint, ECScalar};
use ecc_core::demo_curve::DemoPoint;

#[test]
fn create_hash_test() {
    let result = Blake::create_hash(&[&BigInt::one(), &BigInt::zero()], b"Zcash_RedJubjubH");
    assert!(result > BigInt::zero());
}

#[test]
fn create_hash_known_vector() {
    // BLAKE2b-512 of the byte 0x01 (the minimal encoding of one followed by
    // the empty encoding of zero), personalized with the tag below.
    let result = Blake::create_hash(&[&BigInt::one(), &BigInt::zero()], b"Zcash_RedJubjubH");
    let expected: [u8; 64] = [
        0xcb, 0x99, 0x19, 0x2a, 0xc7, 0x9b, 0xfd, 0x65, 0x6b, 0x47, 0x3e, 0xb3, 0x01, 0x3d, 0x3d,
        0xfa, 0xa0, 0x2d, 0x42, 0x13, 0xf1, 0x3b, 0x26, 0x8a, 0x26, 0xd2, 0x24, 0x7b, 0x3f, 0x42,
        0xd5, 0xdf, 0xa0, 0xff, 0xb2, 0xde, 0x7b, 0x56, 0xbd, 0x80, 0x5f, 0xa5, 0x47, 0x65, 0x86,
        0x9e, 0x10, 0x25, 0x45, 0xc3, 0xb3, 0x60, 0x9a, 0xc9, 0x34, 0x84, 0x87, 0x35, 0xb9, 0x50,
        0x03, 0xab, 0x31, 0x2e,
    ];
    assert_eq!(result.to_bytes(), expected.to_vec());
    // A digest of the full output length is far larger than any machine word.
    assert!(result > BigInt::from_u64(u64::MAX));
}

#[test]
fn create_hash_deterministic() {
    let a = BigInt::from_u64(42);
    let b = BigInt::from_u64(7);
    let r1 = Blake::create_hash(&[&a, &b], b"tag-alpha");
    let r2 = Blake::create_hash(&[&a, &b], b"tag-alpha");
    assert!(r1 == r2);
}

#[test]
fn create_hash_domain_separation() {
    let inputs = [&BigInt::one(), &BigInt::zero()];
    let r1 = Blake::create_hash(&inputs, b"tag-alpha");
    let r2 = Blake::create_hash(&inputs, b"tag-beta");
    let r3 = Blake::create_hash(&inputs, b"tag-gamma");
    assert!(r1 != r2);
    assert!(r1 != r3);
    assert!(r2 != r3);
}

#[test]
fn create_hash_order_sensitive() {
    let a = BigInt::from_u64(42);
    let b = BigInt::from_u64(7);
    let r1 = Blake::create_hash(&[&a, &b], b"tag-alpha");
    let r2 = Blake::create_hash(&[&b, &a], b"tag-alpha");
    assert!(r1 != r2);
}

#[test]
fn create_hash_from_ge_order_and_reproducibility() {
    let point = <DemoPoint as ECPoint>::base_point2();
    let result1 = Blake::create_hash_from_ge(
        &[&point, &<DemoPoint as ECPoint>::generator()],
        b"Zcash_RedJubjubH",
    );
    let result2 = Blake::create_hash_from_ge(
        &[&<DemoPoint as ECPoint>::generator(), &point],
        b"Zcash_RedJubjubH",
    );
    let result3 = Blake::create_hash_from_ge(
        &[&<DemoPoint as ECPoint>::generator(), &point],
        b"Zcash_RedJubjubH",
    );
    assert!(!result1.eq_scalar(&result2));
    assert!(result2.eq_scalar(&result3));
    // The digests of these two orders reduce to 3 and 0 modulo the demo
    // group order; the second is a live instance of the documented
    // zero-reduction case that the engine does not special-case.
    assert!(!result1.is_zero());
    assert!(result2.is_zero());
}

#[test]
fn hmac_verify_roundtrip_and_bit_flips() {
    let key = BigInt::from_u64(123456);
    let d1 = BigInt::from_u64(1);
    let d2 = BigInt::from_u64(2);
    let d3 = BigInt::from_u64(3);
    let data = [&d1, &d2, &d3];
    let mac = Blake::create_hmac(&key, &data);
    let tag_bytes = mac.to_bytes();
    assert!(tag_bytes.len() <= 64);
    let mut code = [0u8; 64];
    code[64 - tag_bytes.len()..].copy_from_slice(&tag_bytes);
    assert!(Blake::verify(&key, &data, code).is_ok());
    // Flipping any single bit of the tag makes verification fail.
    for byte in 0..64 {
        for bit in 0..8 {
            let mut flipped = code;
            flipped[byte] ^= 1u8 << bit;
            assert!(Blake::verify(&key, &data, flipped).is_err());
        }
    }
    // A different key fails too.
    let other_key = BigInt::from_u64(123457);
    assert!(Blake::verify(&other_key, &data, code).is_err());
}

#[test]
fn hmac_deterministic() {
    let key = BigInt::from_u64(99);
    let d = BigInt::from_u64(5);
    let m1 = Blake::create_hmac(&key, &[&d]);
    let m2 = Blake::create_hmac(&key, &[&d]);
    assert!(m1 == m2);
}
