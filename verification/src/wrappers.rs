use vstd::prelude::*;
use vstd::arithmetic::div_mod::{lemma_mod_bound, lemma_small_mod};
use crate::bigint::{be_val, BigInt};
use crate::curve_traits::{ECPoint, ECScalar};
use crate::errors::CurveError;

verus! {

/// A scalar guaranteed nonzero and reduced modulo the group order.
///
/// Construction passes through validation; every existing value is proof of
/// its own well-formedness, so arithmetic needs no re-validation.
#[derive(Debug)]
pub struct Scalar<S: ECScalar> {
    raw: S,
}

/// A scalar reduced modulo the group order; zero is allowed. Strictly weaker
/// than [`Scalar`]: lifting is free, the reverse is a checked downgrade.
#[derive(Debug)]
pub struct ScalarZ<S: ECScalar> {
    raw: S,
}

/// A point on the curve, in the prime-order subgroup, and never the identity
/// element.
#[derive(Debug)]
pub struct Point<E: ECPoint> {
    raw: E,
}

/// A point on the curve and in the prime-order subgroup; the identity
/// element is allowed. Strictly weaker than [`Point`].
#[derive(Debug)]
pub struct PointZ<E: ECPoint> {
    raw: E,
}

/// A zero-sized marker standing for the distinguished base point of the
/// curve.
pub struct Generator<E: ECPoint> {
    _marker: core::marker::PhantomData<E>,
}

impl<S: ECScalar> Scalar<S> {
    /// The scalar's value.
    pub closed spec fn val(&self) -> nat {
        self.raw.s_val()
    }

    /// Well-formedness: reduced and nonzero.
    #[verifier::type_invariant]
    pub closed spec fn wf(&self) -> bool {
        0 < self.raw.s_val() < S::order()
    }

    /// Reduces an arbitrary-precision integer modulo the group order; fails
    /// exactly when the reduction is zero.
    pub fn from_bigint(n: &BigInt) -> (r: Result<Self, CurveError>)
        ensures
            r is Ok <==> n@ % S::order() != 0,
            match r {
                Ok(s) => s.val() == n@ % S::order(),
                Err(e) => e == CurveError::ZeroValue,
            },
    {
        let raw = S::from_bigint(n);
        if raw.is_zero() {
            Err(CurveError::ZeroValue)
        } else {
            proof {
                S::lemma_order();
                lemma_mod_bound(n@ as int, S::order() as int);
            }
            Ok(Scalar { raw })
        }
    }

    /// The value as an arbitrary-precision integer.
    pub fn to_bigint(&self) -> (r: BigInt)
        ensures
            r@ == self.val(),
    {
        proof {
            use_type_invariant(self);
            S::lemma_enc(self.raw.s_val());
        }
        let bytes = self.raw.to_bytes();
        BigInt::from_bytes(bytes.as_slice())
    }

    /// Canonical fixed-length encoding.
    pub fn to_bytes(&self) -> (r: Vec<u8>)
        ensures
            r@ == S::s_enc(self.val()),
            be_val(r@) == self.val(),
    {
        proof {
            use_type_invariant(self);
            S::lemma_enc(self.raw.s_val());
        }
        self.raw.to_bytes()
    }

    /// Strict decoding: the fixed length and a value below the group order
    /// are required, and zero is rejected as a downgrade failure.
    pub fn from_bytes(b: &[u8]) -> (r: Result<Self, CurveError>)
        ensures
            r is Ok <==> (b@.len() == S::s_enc_len() && 0 < be_val(b@) < S::order()),
            match r {
                Ok(s) => s.val() == be_val(b@),
                Err(e) => if b@.len() != S::s_enc_len() || be_val(b@) >= S::order() {
                    e == CurveError::DeserializationError
                } else {
                    e == CurveError::ZeroValue
                },
            },
    {
        match S::from_bytes(b) {
            Ok(raw) => {
                if raw.is_zero() {
                    Err(CurveError::ZeroValue)
                } else {
                    Ok(Scalar { raw })
                }
            },
            Err(e) => Err(e),
        }
    }

    /// Addition modulo the group order; the sum of two nonzero scalars may
    /// cancel, so the result admits zero.
    pub fn add(&self, o: &Self) -> (r: ScalarZ<S>)
        ensures
            r.val() == (self.val() + o.val()) % S::order(),
    {
        proof {
            use_type_invariant(self);
            use_type_invariant(o);
            S::lemma_order();
            lemma_mod_bound((self.val() + o.val()) as int, S::order() as int);
        }
        ScalarZ { raw: self.raw.add(&o.raw) }
    }

    /// Subtraction modulo the group order, stated by what it adds back.
    pub fn sub(&self, o: &Self) -> (r: ScalarZ<S>)
        ensures
            r.val() < S::order(),
            (r.val() + o.val()) % S::order() == self.val(),
    {
        proof {
            use_type_invariant(self);
            use_type_invariant(o);
        }
        ScalarZ { raw: self.raw.sub(&o.raw) }
    }

    /// Multiplication modulo the prime group order: a product of nonzero
    /// scalars stays nonzero.
    pub fn mul(&self, o: &Self) -> (r: Self)
        ensures
            r.val() == (self.val() * o.val()) % S::order(),
    {
        proof {
            use_type_invariant(self);
            use_type_invariant(o);
            S::lemma_order();
            S::lemma_mul_nonzero(self.val(), o.val());
            lemma_mod_bound((self.val() * o.val()) as int, S::order() as int);
        }
        Scalar { raw: self.raw.mul(&o.raw) }
    }

    /// Negation modulo the group order; the negation of a nonzero scalar is
    /// nonzero.
    pub fn neg(&self) -> (r: Self)
        ensures
            (r.val() + self.val()) % S::order() == 0,
    {
        proof {
            use_type_invariant(self);
            S::lemma_order();
            lemma_small_mod(self.val(), S::order());
        }
        let raw = self.raw.neg();
        proof {
            if raw.s_val() == 0 {
                assert((raw.s_val() + self.val()) % S::order() == self.val());
            }
        }
        Scalar { raw }
    }

    /// Modular inverse; always defined, since the scalar is nonzero.
    pub fn invert(&self) -> (r: Self)
        ensures
            (self.val() * r.val()) % S::order() == 1,
    {
        proof {
            use_type_invariant(self);
        }
        Scalar { raw: self.raw.invert() }
    }

    /// Free lift into the possibly-zero scalar type.
    pub fn to_scalarz(&self) -> (r: ScalarZ<S>)
        ensures
            r.val() == self.val(),
    {
        proof {
            use_type_invariant(self);
        }
        ScalarZ { raw: self.raw }
    }
}

impl<S: ECScalar> ScalarZ<S> {
    /// The scalar's value.
    pub closed spec fn val(&self) -> nat {
        self.raw.s_val()
    }

    /// Well-formedness: reduced modulo the group order.
    #[verifier::type_invariant]
    pub closed spec fn wf(&self) -> bool {
        self.raw.s_val() < S::order()
    }

    /// The zero scalar.
    pub fn zero() -> (r: Self)
        ensures
            r.val() == 0,
    {
        proof {
            S::lemma_order();
        }
        ScalarZ { raw: S::zero() }
    }

    /// Reduces an arbitrary-precision integer modulo the group order; never
    /// fails.
    pub fn from_bigint(n: &BigInt) -> (r: Self)
        ensures
            r.val() == n@ % S::order(),
    {
        proof {
            S::lemma_order();
            lemma_mod_bound(n@ as int, S::order() as int);
        }
        ScalarZ { raw: S::from_bigint(n) }
    }

    /// The value as an arbitrary-precision integer.
    pub fn to_bigint(&self) -> (r: BigInt)
        ensures
            r@ == self.val(),
    {
        proof {
            use_type_invariant(self);
            S::lemma_enc(self.raw.s_val());
        }
        let bytes = self.raw.to_bytes();
        BigInt::from_bytes(bytes.as_slice())
    }

    /// Canonical fixed-length encoding.
    pub fn to_bytes(&self) -> (r: Vec<u8>)
        ensures
            r@ == S::s_enc(self.val()),
            be_val(r@) == self.val(),
    {
        proof {
            use_type_invariant(self);
            S::lemma_enc(self.raw.s_val());
        }
        self.raw.to_bytes()
    }

    /// Strict decoding: the fixed length and a value below the group order
    /// are required; zero is accepted.
    pub fn from_bytes(b: &[u8]) -> (r: Result<Self, CurveError>)
        ensures
            r is Ok <==> (b@.len() == S::s_enc_len() && be_val(b@) < S::order()),
            match r {
                Ok(s) => s.val() == be_val(b@),
                Err(e) => e == CurveError::DeserializationError,
            },
    {
        match S::from_bytes(b) {
            Ok(raw) => Ok(ScalarZ { raw }),
            Err(e) => Err(e),
        }
    }

    /// Addition modulo the group order.
    pub fn add(&self, o: &Self) -> (r: Self)
        ensures
            r.val() == (self.val() + o.val()) % S::order(),
    {
        proof {
            use_type_invariant(self);
            use_type_invariant(o);
            S::lemma_order();
            lemma_mod_bound((self.val() + o.val()) as int, S::order() as int);
        }
        ScalarZ { raw: self.raw.add(&o.raw) }
    }

    /// Subtraction modulo the group order, stated by what it adds back.
    pub fn sub(&self, o: &Self) -> (r: Self)
        ensures
            r.val() < S::order(),
            (r.val() + o.val()) % S::order() == self.val(),
    {
        proof {
            use_type_invariant(self);
            use_type_invariant(o);
        }
        ScalarZ { raw: self.raw.sub(&o.raw) }
    }

    /// Multiplication modulo the group order.
    pub fn mul(&self, o: &Self) -> (r: Self)
        ensures
            r.val() == (self.val() * o.val()) % S::order(),
    {
        proof {
            use_type_invariant(self);
            use_type_invariant(o);
            S::lemma_order();
            lemma_mod_bound((self.val() * o.val()) as int, S::order() as int);
        }
        ScalarZ { raw: self.raw.mul(&o.raw) }
    }

    /// Negation modulo the group order, stated by what it cancels.
    pub fn neg(&self) -> (r: Self)
        ensures
            r.val() < S::order(),
            (r.val() + self.val()) % S::order() == 0,
    {
        proof {
            use_type_invariant(self);
        }
        ScalarZ { raw: self.raw.neg() }
    }

    /// Zero test.
    pub fn is_zero(&self) -> (r: bool)
        ensures
            r == (self.val() == 0),
    {
        self.raw.is_zero()
    }

    /// Checked downgrade to the nonzero scalar type; fails exactly on zero.
    pub fn ensure_nonzero(&self) -> (r: Result<Scalar<S>, CurveError>)
        ensures
            r is Ok <==> self.val() != 0,
            match r {
                Ok(s) => s.val() == self.val(),
                Err(e) => e == CurveError::ZeroValue,
            },
    {
        proof {
            use_type_invariant(self);
        }
        if self.raw.is_zero() {
            Err(CurveError::ZeroValue)
        } else {
            Ok(Scalar { raw: self.raw })
        }
    }

    /// Free lift of a nonzero scalar.
    pub fn from_scalar(s: &Scalar<S>) -> (r: Self)
        ensures
            r.val() == s.val(),
    {
        s.to_scalarz()
    }
}

impl<E: ECPoint> Point<E> {
    /// The abstract name of the element this point holds.
    pub closed spec fn val(&self) -> nat {
        self.raw.p_val()
    }

    /// Well-formedness: in the prime-order subgroup and not the identity.
    #[verifier::type_invariant]
    pub closed spec fn wf(&self) -> bool {
        E::in_subgroup(self.raw.p_val()) && self.raw.p_val() != E::ident()
    }

    /// The distinguished base point; always a valid construction path.
    pub fn generator() -> (r: Self)
        ensures
            r.val() == E::gen_val(),
    {
        proof {
            E::lemma_distinguished();
        }
        Point { raw: E::generator() }
    }

    /// An alternative base point with no published discrete-log relation to
    /// the primary one.
    pub fn base_point2() -> (r: Self)
        ensures
            r.val() == E::gen2_val(),
    {
        proof {
            E::lemma_distinguished();
        }
        Point { raw: E::base_point2() }
    }

    /// Point addition; two nonzero points may cancel to the identity, so the
    /// result admits it.
    pub fn add(&self, o: &Self) -> (r: PointZ<E>)
        ensures
            r.val() == E::add_val(self.val(), o.val()),
    {
        proof {
            use_type_invariant(self);
            use_type_invariant(o);
            E::lemma_add(self.val(), o.val());
        }
        PointZ { raw: self.raw.add(&o.raw) }
    }

    /// Point subtraction: addition of the inverse.
    pub fn sub(&self, o: &Self) -> (r: PointZ<E>)
        ensures
            r.val() == E::add_val(self.val(), E::neg_val(o.val())),
    {
        proof {
            use_type_invariant(self);
            use_type_invariant(o);
            E::lemma_neg(o.val());
            E::lemma_add(self.val(), E::neg_val(o.val()));
        }
        PointZ { raw: self.raw.add(&o.raw.neg()) }
    }

    /// Scalar multiplication by a nonzero scalar: in a prime-order group it
    /// cannot reach the identity from a non-identity point.
    pub fn mul(&self, s: &Scalar<E::Scalar>) -> (r: Self)
        ensures
            r.val() == E::mul_val(self.val(), s.val()),
    {
        proof {
            use_type_invariant(self);
            use_type_invariant(s);
            E::lemma_mul(self.val(), s.val());
        }
        Point { raw: self.raw.mul(&s.raw) }
    }

    /// Scalar multiplication by a possibly-zero scalar; the result admits
    /// the identity.
    pub fn mul_z(&self, s: &ScalarZ<E::Scalar>) -> (r: PointZ<E>)
        ensures
            r.val() == E::mul_val(self.val(), s.val()),
    {
        proof {
            use_type_invariant(self);
            use_type_invariant(s);
            E::lemma_mul(self.val(), s.val());
        }
        PointZ { raw: self.raw.mul(&s.raw) }
    }

    /// The group inverse; never the identity for a non-identity point.
    pub fn neg(&self) -> (r: Self)
        ensures
            r.val() == E::neg_val(self.val()),
            E::add_val(self.val(), r.val()) == E::ident(),
    {
        proof {
            use_type_invariant(self);
            E::lemma_distinguished();
            E::lemma_neg(self.val());
            E::lemma_add(self.val(), E::ident());
        }
        Point { raw: self.raw.neg() }
    }

    /// Canonical fixed-length compressed encoding.
    pub fn to_bytes(&self) -> (r: Vec<u8>)
        ensures
            r@ == E::p_enc(self.val()),
            r@.len() == E::p_enc_len(),
    {
        proof {
            use_type_invariant(self);
            E::lemma_enc(self.val());
        }
        self.raw.to_bytes()
    }

    /// Strict decoding: backend decode, membership checks, then the identity
    /// check; each failing step reports its own error and no partial object
    /// is produced.
    pub fn from_bytes(b: &[u8]) -> (r: Result<Self, CurveError>)
        ensures
            match r {
                Ok(p) => E::p_dec(b@) == Ok::<nat, CurveError>(p.val()) && p.val() != E::ident(),
                Err(e) => if e == CurveError::ZeroValue {
                    E::p_dec(b@) == Ok::<nat, CurveError>(E::ident())
                } else {
                    E::p_dec(b@) == Err::<nat, CurveError>(e)
                },
            },
    {
        proof {
            E::lemma_dec(b@);
        }
        match E::from_bytes(b) {
            Ok(raw) => {
                if raw.is_identity() {
                    Err(CurveError::ZeroValue)
                } else {
                    Ok(Point { raw })
                }
            },
            Err(e) => Err(e),
        }
    }

    /// Free lift into the possibly-identity point type.
    pub fn to_pointz(&self) -> (r: PointZ<E>)
        ensures
            r.val() == self.val(),
    {
        proof {
            use_type_invariant(self);
        }
        PointZ { raw: self.raw }
    }
}

impl<E: ECPoint> PointZ<E> {
    /// The abstract name of the element this point holds.
    pub closed spec fn val(&self) -> nat {
        self.raw.p_val()
    }

    /// Well-formedness: in the prime-order subgroup.
    #[verifier::type_invariant]
    pub closed spec fn wf(&self) -> bool {
        E::in_subgroup(self.raw.p_val())
    }

    /// The identity element.
    pub fn identity() -> (r: Self)
        ensures
            r.val() == E::ident(),
    {
        proof {
            E::lemma_distinguished();
        }
        PointZ { raw: E::identity() }
    }

    /// Point addition.
    pub fn add(&self, o: &Self) -> (r: Self)
        ensures
            r.val() == E::add_val(self.val(), o.val()),
    {
        proof {
            use_type_invariant(self);
            use_type_invariant(o);
            E::lemma_add(self.val(), o.val());
        }
        PointZ { raw: self.raw.add(&o.raw) }
    }

    /// The group inverse.
    pub fn neg(&self) -> (r: Self)
        ensures
            r.val() == E::neg_val(self.val()),
            E::add_val(self.val(), r.val()) == E::ident(),
    {
        proof {
            use_type_invariant(self);
            E::lemma_neg(self.val());
        }
        PointZ { raw: self.raw.neg() }
    }

    /// Point subtraction: addition of the inverse.
    pub fn sub(&self, o: &Self) -> (r: Self)
        ensures
            r.val() == E::add_val(self.val(), E::neg_val(o.val())),
    {
        proof {
            use_type_invariant(self);
            use_type_invariant(o);
            E::lemma_neg(o.val());
            E::lemma_add(self.val(), E::neg_val(o.val()));
        }
        PointZ { raw: self.raw.add(&o.raw.neg()) }
    }

    /// Scalar multiplication.
    pub fn mul(&self, s: &ScalarZ<E::Scalar>) -> (r: Self)
        ensures
            r.val() == E::mul_val(self.val(), s.val()),
    {
        proof {
            use_type_invariant(self);
            use_type_invariant(s);
            E::lemma_mul(self.val(), s.val());
        }
        PointZ { raw: self.raw.mul(&s.raw) }
    }

    /// Identity test.
    pub fn is_identity(&self) -> (r: bool)
        ensures
            r == (self.val() == E::ident()),
    {
        self.raw.is_identity()
    }

    /// Canonical fixed-length compressed encoding.
    pub fn to_bytes(&self) -> (r: Vec<u8>)
        ensures
            r@ == E::p_enc(self.val()),
            r@.len() == E::p_enc_len(),
    {
        proof {
            use_type_invariant(self);
            E::lemma_enc(self.val());
        }
        self.raw.to_bytes()
    }

    /// Strict decoding; the identity is accepted.
    pub fn from_bytes(b: &[u8]) -> (r: Result<Self, CurveError>)
        ensures
            match r {
                Ok(p) => E::p_dec(b@) == Ok::<nat, CurveError>(p.val()),
                Err(e) => E::p_dec(b@) == Err::<nat, CurveError>(e),
            },
    {
        proof {
            E::lemma_dec(b@);
        }
        match E::from_bytes(b) {
            Ok(raw) => Ok(PointZ { raw }),
            Err(e) => Err(e),
        }
    }

    /// Checked downgrade to the non-identity point type; fails exactly on
    /// the identity.
    pub fn ensure_nonzero(&self) -> (r: Result<Point<E>, CurveError>)
        ensures
            r is Ok <==> self.val() != E::ident(),
            match r {
                Ok(p) => p.val() == self.val(),
                Err(e) => e == CurveError::ZeroValue,
            },
    {
        proof {
            use_type_invariant(self);
        }
        if self.raw.is_identity() {
            Err(CurveError::ZeroValue)
        } else {
            Ok(Point { raw: self.raw })
        }
    }

    /// Free lift of a non-identity point.
    pub fn from_point(p: &Point<E>) -> (r: Self)
        ensures
            r.val() == p.val(),
    {
        p.to_pointz()
    }
}

impl<E: ECPoint> Generator<E> {
    /// The marker for the distinguished base point.
    pub fn new() -> (r: Self) {
        Generator { _marker: core::marker::PhantomData }
    }

    /// The base point itself.
    pub fn to_point(&self) -> (r: Point<E>)
        ensures
            r.val() == E::gen_val(),
    {
        Point::<E>::generator()
    }

    /// Multiplication of the base point by a nonzero scalar; backends may
    /// specialize this relative to multiplying an arbitrary point.
    pub fn mul(&self, s: &Scalar<E::Scalar>) -> (r: Point<E>)
        ensures
            r.val() == E::mul_val(E::gen_val(), s.val()),
    {
        Point::<E>::generator().mul(s)
    }
}

impl<S: ECScalar> PartialEq for Scalar<S> {
    /// Value equality, delegated to the backend's comparison.
    fn eq(&self, other: &Scalar<S>) -> (r: bool) {
        self.raw.eq_scalar(&other.raw)
    }
}

impl<S: ECScalar> vstd::std_specs::cmp::PartialEqSpecImpl for Scalar<S> {
    open spec fn obeys_eq_spec() -> bool {
        true
    }

    open spec fn eq_spec(&self, other: &Scalar<S>) -> bool {
        self.val() == other.val()
    }
}

impl<S: ECScalar> Eq for Scalar<S> {

}

impl<S: ECScalar> PartialEq for ScalarZ<S> {
    /// Value equality, delegated to the backend's comparison.
    fn eq(&self, other: &ScalarZ<S>) -> (r: bool) {
        self.raw.eq_scalar(&other.raw)
    }
}

impl<S: ECScalar> vstd::std_specs::cmp::PartialEqSpecImpl for ScalarZ<S> {
    open spec fn obeys_eq_spec() -> bool {
        true
    }

    open spec fn eq_spec(&self, other: &ScalarZ<S>) -> bool {
        self.val() == other.val()
    }
}

impl<S: ECScalar> Eq for ScalarZ<S> {

}

impl<E: ECPoint> PartialEq for Point<E> {
    /// Element equality, delegated to the backend's comparison.
    fn eq(&self, other: &Point<E>) -> (r: bool) {
        self.raw.eq_point(&other.raw)
    }
}

impl<E: ECPoint> vstd::std_specs::cmp::PartialEqSpecImpl for Point<E> {
    open spec fn obeys_eq_spec() -> bool {
        true
    }

    open spec fn eq_spec(&self, other: &Point<E>) -> bool {
        self.val() == other.val()
    }
}

impl<E: ECPoint> Eq for Point<E> {

}

impl<E: ECPoint> PartialEq for PointZ<E> {
    /// Element equality, delegated to the backend's comparison.
    fn eq(&self, other: &PointZ<E>) -> (r: bool) {
        self.raw.eq_point(&other.raw)
    }
}

impl<E: ECPoint> vstd::std_specs::cmp::PartialEqSpecImpl for PointZ<E> {
    open spec fn obeys_eq_spec() -> bool {
        true
    }

    open spec fn eq_spec(&self, other: &PointZ<E>) -> bool {
        self.val() == other.val()
    }
}

impl<E: ECPoint> Eq for PointZ<E> {

}

/// Round-trip law: every valid point decodes from its own canonical
/// encoding back to an equal value. The base point returned by `generator`
/// is one such point.
pub proof fn lemma_encode_decode_roundtrip<E: ECPoint>(p: &Point<E>)
    requires
        p.wf(),
    ensures
        E::p_enc(p.val()).len() == E::p_enc_len(),
        E::p_dec(E::p_enc(p.val())) == Ok::<nat, CurveError>(p.val()),
{
    E::lemma_enc(p.val());
}

/// Soundness law of decoding: a byte string that is not the canonical
/// encoding of a subgroup element never decodes, and every failure is a
/// deserialization or a membership error.
pub proof fn lemma_decode_accepts_only_valid<E: ECPoint>(b: Seq<u8>)
    ensures
        match E::p_dec(b) {
            Ok(v) => E::in_subgroup(v) && b == E::p_enc(v),
            Err(e) => (e == CurveError::DeserializationError || e == CurveError::NotOnCurve)
                && forall|v: nat|
                E::in_subgroup(v) ==> #[trigger] E::p_enc(v) != b,
        },
{
    E::lemma_dec(b);
    if E::p_dec(b) is Err {
        assert forall|v: nat| E::in_subgroup(v) implies #[trigger] E::p_enc(v) != b by {
            if E::p_enc(v) == b {
                E::lemma_enc(v);
            }
        }
    }
}

/// Invariant-breach law: the identity element's encoding decodes as an
/// element, so the possibly-identity type accepts it while the strict point
/// type must refuse it as a zero downgrade.
pub proof fn lemma_identity_encoding_decodes<E: ECPoint>()
    ensures
        E::p_dec(E::p_enc(E::ident())) == Ok::<nat, CurveError>(E::ident()),
{
    E::lemma_distinguished();
    E::lemma_enc(E::ident());
}

/// Multiplicative-identity law: multiplying a nonzero scalar by its inverse
/// yields the scalar whose value is one, the multiplicative identity reduced
/// modulo the group order.
pub proof fn lemma_mul_by_inverse_is_one<S: ECScalar>(s: &Scalar<S>, i: &Scalar<S>, p: &Scalar<S>)
    requires
        s.wf(),
        i.wf(),
        p.wf(),
        (s.val() * i.val()) % S::order() == 1,
        p.val() == (s.val() * i.val()) % S::order(),
    ensures
        p.val() == 1,
{
}

} // verus!
