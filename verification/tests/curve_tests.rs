use ecc_core::bigint::BigInt;
use ecc_core::demo_curve::{DemoPoint, DemoScalar};
use ecc_core::errors::CurveError;
use ecc_core::wrappers::{Generator, Point, PointZ, Scalar, ScalarZ};

#[test]
fn generator_roundtrip() {
    let g = Point::<DemoPoint>::generator();
    let bytes = g.to_bytes();
    let decoded = Point::<DemoPoint>::from_bytes(&bytes).unwrap();
    assert!(decoded == g);
}

#[test]
fn point_encode_decode_roundtrip() {
    let g = Point::<DemoPoint>::generator();
    let h = Point::<DemoPoint>::base_point2();
    assert!(g != h);
    for p in [&g, &h, &g.neg(), &h.neg()] {
        let bytes = p.to_bytes();
        assert_eq!(bytes.len(), 2);
        let decoded = Point::<DemoPoint>::from_bytes(&bytes).unwrap();
        assert!(decoded == *p);
    }
}

#[test]
fn decode_rejects_invalid_bytes() {
    // Wrong length: a deserialization error before any algebraic check.
    assert_eq!(
        Point::<DemoPoint>::from_bytes(&[5]).unwrap_err(),
        CurveError::DeserializationError
    );
    assert_eq!(
        Point::<DemoPoint>::from_bytes(&[0, 3, 0]).unwrap_err(),
        CurveError::DeserializationError
    );
    // Right length, but no subgroup element has this encoding.
    assert_eq!(
        Point::<DemoPoint>::from_bytes(&[0, 2]).unwrap_err(),
        CurveError::NotOnCurve
    );
    assert_eq!(
        Point::<DemoPoint>::from_bytes(&[0, 0]).unwrap_err(),
        CurveError::NotOnCurve
    );
    assert_eq!(
        Point::<DemoPoint>::from_bytes(&[1, 3]).unwrap_err(),
        CurveError::NotOnCurve
    );
    // The same bytes never decode for the possibly-identity type either.
    assert_eq!(
        PointZ::<DemoPoint>::from_bytes(&[0, 2]).unwrap_err(),
        CurveError::NotOnCurve
    );
}

#[test]
fn identity_encoding_is_a_zero_downgrade() {
    // The identity element of the demonstration group encodes as [0, 1].
    let ident_bytes = PointZ::<DemoPoint>::identity().to_bytes();
    assert_eq!(ident_bytes, vec![0u8, 1u8]);
    let strict = Point::<DemoPoint>::from_bytes(&ident_bytes);
    assert_eq!(strict.unwrap_err(), CurveError::ZeroValue);
    let relaxed = PointZ::<DemoPoint>::from_bytes(&ident_bytes).unwrap();
    assert!(relaxed.is_identity());
}

#[test]
fn point_arithmetic() {
    let g = Point::<DemoPoint>::generator();
    let h = Point::<DemoPoint>::base_point2();
    // In the demonstration group the alternative base point is the double of
    // the primary one.
    assert!(g.add(&g) == h.to_pointz());
    let two = Scalar::from_bigint(&BigInt::from_u64(2)).unwrap();
    assert!(g.mul(&two) == h);
    // Subtracting a point from itself cancels to the identity.
    assert!(g.sub(&g).is_identity());
    assert!(g.add(&g.neg()).is_identity());
    // Multiplying by a zero scalar reaches the identity.
    assert!(g.mul_z(&ScalarZ::zero()).is_identity());
    // Subtraction of possibly-identity points mirrors the strict form.
    assert!(g.to_pointz().sub(&g.to_pointz()).is_identity());
}

#[test]
fn pointz_downgrade() {
    let g = Point::<DemoPoint>::generator();
    let z = g.sub(&g);
    assert_eq!(z.ensure_nonzero().unwrap_err(), CurveError::ZeroValue);
    let nz = g.to_pointz();
    assert!(nz.ensure_nonzero().unwrap() == g);
    assert!(PointZ::from_point(&g) == nz);
}

#[test]
fn generator_marker() {
    let marker = Generator::<DemoPoint>::new();
    assert!(marker.to_point() == Point::<DemoPoint>::generator());
    let two = Scalar::from_bigint(&BigInt::from_u64(2)).unwrap();
    assert!(marker.mul(&two) == Point::<DemoPoint>::base_point2());
}

#[test]
fn scalar_invert_is_multiplicative_identity() {
    let one = Scalar::<DemoScalar>::from_bigint(
        &BigInt::from_u64(1),
    )
    .unwrap();
    for v in 1u64..5 {
        let s = Scalar::from_bigint(&BigInt::from_u64(v)).unwrap();
        let inv = s.invert();
        assert!(s.mul(&inv) == one);
    }
}

#[test]
fn scalar_from_bigint_reduces_and_rejects_zero() {
    // 7 reduces to 2 modulo the demonstration group order 5.
    let s = ScalarZ::<DemoScalar>::from_bigint(
        &BigInt::from_u64(7),
    );
    assert!(s.to_bigint() == BigInt::from_u64(2));
    // A reduction that lands on zero is a zero-downgrade failure for the
    // nonzero scalar type.
    let z = Scalar::<DemoScalar>::from_bigint(
        &BigInt::from_u64(10),
    );
    assert_eq!(z.unwrap_err(), CurveError::ZeroValue);
}

#[test]
fn scalar_arithmetic_and_downgrade() {
    let two = Scalar::<DemoScalar>::from_bigint(
        &BigInt::from_u64(2),
    )
    .unwrap();
    let three = Scalar::from_bigint(&BigInt::from_u64(3)).unwrap();
    // 2 + 3 cancels modulo 5: the sum of nonzero scalars may be zero.
    let sum = two.add(&three);
    assert!(sum.is_zero());
    assert_eq!(sum.ensure_nonzero().unwrap_err(), CurveError::ZeroValue);
    // 2 + 2 does not cancel.
    let four = two.add(&two);
    assert!(!four.is_zero());
    assert!(four.ensure_nonzero().unwrap().to_bigint() == BigInt::from_u64(4));
    // Negation adds back to zero.
    let neg = three.neg();
    assert!(three.to_scalarz().add(&neg.to_scalarz()).is_zero());
    // Subtraction adds back the subtrahend.
    let diff = two.sub(&three);
    assert!(diff.add(&three.to_scalarz()).to_bigint() == BigInt::from_u64(2));
}

#[test]
fn scalar_bytes_roundtrip() {
    let three = Scalar::<DemoScalar>::from_bigint(
        &BigInt::from_u64(3),
    )
    .unwrap();
    let bytes = three.to_bytes();
    assert_eq!(bytes, vec![0u8, 3u8]);
    let back = Scalar::from_bytes(&bytes).unwrap();
    assert!(back == three);
    // Out-of-range and malformed encodings are rejected.
    assert_eq!(
        Scalar::<DemoScalar>::from_bytes(&[0, 7])
            .unwrap_err(),
        CurveError::DeserializationError
    );
    assert_eq!(
        Scalar::<DemoScalar>::from_bytes(&[3])
            .unwrap_err(),
        CurveError::DeserializationError
    );
    // Zero decodes for the possibly-zero type and is refused by the strict one.
    assert_eq!(
        Scalar::<DemoScalar>::from_bytes(&[0, 0])
            .unwrap_err(),
        CurveError::ZeroValue
    );
    let z = ScalarZ::<DemoScalar>::from_bytes(&[0, 0])
        .unwrap();
    assert!(z.is_zero());
}

#[test]
fn bigint_basics() {
    assert!(BigInt::zero().is_zero());
    assert!(!BigInt::one().is_zero());
    assert!(BigInt::from_bytes(&[0, 0, 1, 2]) == BigInt::from_bytes(&[1, 2]));
    assert!(BigInt::from_u64(258).to_bytes() == vec![1u8, 2u8]);
    assert!(BigInt::zero().to_bytes().is_empty());
    assert!(BigInt::from_u64(300) > BigInt::from_u64(299));
    assert!(BigInt::from_u64(255) < BigInt::from_u64(256));
}
