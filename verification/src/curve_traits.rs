use vstd::prelude::*;
use crate::bigint::{be_val, BigInt};
use crate::errors::CurveError;

verus! {

/// Primality, as the contract vocabulary for group orders.
pub open spec fn is_prime(n: nat) -> bool {
    n > 1 && forall|d: nat| 2 <= d < n ==> #[trigger] (n % d) != 0
}

/// Capability contract for a curve backend's scalar type: a value reduced
/// modulo the prime group order, with field arithmetic and a canonical
/// fixed-length byte encoding.
///
/// A backend must discharge the proof obligations below; the wrapper types
/// and the hash engine rely on nothing else about it.
pub trait ECScalar: Sized + Copy {
    /// The prime order of the cryptographic subgroup.
    spec fn order() -> nat;

    /// The scalar's value, in `[0, order)`.
    spec fn s_val(&self) -> nat;

    /// Canonical fixed-length big-endian encoding of a scalar value.
    spec fn s_enc(v: nat) -> Seq<u8>;

    /// Length in bytes of the canonical encoding.
    spec fn s_enc_len() -> nat;

    /// The group order is prime.
    proof fn lemma_order()
        ensures
            is_prime(Self::order()),
    ;

    /// A product of nonzero residues modulo the prime order is nonzero.
    proof fn lemma_mul_nonzero(a: nat, b: nat)
        requires
            0 < a < Self::order(),
            0 < b < Self::order(),
        ensures
            (a * b) % Self::order() != 0,
    ;

    /// The canonical encoding has the fixed length and evaluates back to
    /// the value it encodes.
    proof fn lemma_enc(v: nat)
        requires
            v < Self::order(),
        ensures
            Self::s_enc(v).len() == Self::s_enc_len(),
            be_val(Self::s_enc(v)) == v,
    ;

    /// The zero scalar.
    fn zero() -> (r: Self)
        ensures
            r.s_val() == 0,
    ;

    /// Reduction of an arbitrary-precision integer modulo the group order.
    fn from_bigint(n: &BigInt) -> (r: Self)
        ensures
            r.s_val() == n@ % Self::order(),
    ;

    /// Addition modulo the group order.
    fn add(&self, o: &Self) -> (r: Self)
        ensures
            r.s_val() == (self.s_val() + o.s_val()) % Self::order(),
    ;

    /// Subtraction modulo the group order, stated by what it adds back.
    fn sub(&self, o: &Self) -> (r: Self)
        ensures
            r.s_val() < Self::order(),
            (r.s_val() + o.s_val()) % Self::order() == self.s_val(),
    ;

    /// Multiplication modulo the group order.
    fn mul(&self, o: &Self) -> (r: Self)
        ensures
            r.s_val() == (self.s_val() * o.s_val()) % Self::order(),
    ;

    /// Negation modulo the group order, stated by what it cancels.
    fn neg(&self) -> (r: Self)
        ensures
            r.s_val() < Self::order(),
            (r.s_val() + self.s_val()) % Self::order() == 0,
    ;

    /// Modular inverse; undefined at zero, so zero is excluded.
    fn invert(&self) -> (r: Self)
        requires
            self.s_val() != 0,
        ensures
            r.s_val() != 0,
            r.s_val() < Self::order(),
            (self.s_val() * r.s_val()) % Self::order() == 1,
    ;

    /// Zero test.
    fn is_zero(&self) -> (r: bool)
        ensures
            r == (self.s_val() == 0),
    ;

    /// Value equality.
    fn eq_scalar(&self, o: &Self) -> (r: bool)
        ensures
            r == (self.s_val() == o.s_val()),
    ;

    /// Canonical fixed-length encoding.
    fn to_bytes(&self) -> (r: Vec<u8>)
        ensures
            r@ == Self::s_enc(self.s_val()),
    ;

    /// Strict decoding: accepts exactly the canonical encodings of values
    /// below the group order.
    fn from_bytes(b: &[u8]) -> (r: Result<Self, CurveError>)
        ensures
            r is Ok <==> (b@.len() == Self::s_enc_len() && be_val(b@) < Self::order()),
            match r {
                Ok(s) => s.s_val() == be_val(b@) && b@ == Self::s_enc(s.s_val()),
                Err(e) => e == CurveError::DeserializationError,
            },
    ;
}

/// Capability contract for a curve backend's point type: an element of the
/// prime-order subgroup (the identity included), with the group operations
/// and a canonical fixed-length byte encoding.
///
/// `in_subgroup` is the backend's combined on-curve and subgroup-membership
/// predicate over abstract element names; on cofactor-1 backends the two
/// checks coincide.
pub trait ECPoint: Sized + Copy {
    type Scalar: ECScalar;

    /// Abstract name of the element this value holds.
    spec fn p_val(&self) -> nat;

    /// Membership in the cryptographic subgroup.
    spec fn in_subgroup(v: nat) -> bool;

    /// The identity element.
    spec fn ident() -> nat;

    /// The distinguished base point.
    spec fn gen_val() -> nat;

    /// An alternative base point with no published discrete-log relation to
    /// the primary one.
    spec fn gen2_val() -> nat;

    /// The group operation.
    spec fn add_val(a: nat, b: nat) -> nat;

    /// The group inverse.
    spec fn neg_val(a: nat) -> nat;

    /// Scalar multiplication: `k`-fold application of the group operation.
    spec fn mul_val(a: nat, k: nat) -> nat;

    /// Canonical fixed-length encoding of an element.
    spec fn p_enc(v: nat) -> Seq<u8>;

    /// Length in bytes of the canonical encoding.
    spec fn p_enc_len() -> nat;

    /// Decoding decision: which byte strings name which elements, and how
    /// the others fail.
    spec fn p_dec(b: Seq<u8>) -> Result<nat, CurveError>;

    /// The distinguished elements are members, and distinct.
    proof fn lemma_distinguished()
        ensures
            Self::in_subgroup(Self::ident()),
            Self::in_subgroup(Self::gen_val()),
            Self::in_subgroup(Self::gen2_val()),
            Self::gen_val() != Self::ident(),
            Self::gen2_val() != Self::ident(),
            Self::gen2_val() != Self::gen_val(),
    ;

    /// The subgroup is closed under the group operation, and the identity
    /// is neutral.
    proof fn lemma_add(a: nat, b: nat)
        requires
            Self::in_subgroup(a),
            Self::in_subgroup(b),
        ensures
            Self::in_subgroup(Self::add_val(a, b)),
            Self::add_val(a, Self::ident()) == a,
            Self::add_val(Self::ident(), a) == a,
    ;

    /// Inverses stay in the subgroup and cancel their element.
    proof fn lemma_neg(a: nat)
        requires
            Self::in_subgroup(a),
        ensures
            Self::in_subgroup(Self::neg_val(a)),
            Self::add_val(a, Self::neg_val(a)) == Self::ident(),
    ;

    /// Scalar multiples stay in the subgroup, and a nonzero multiple of a
    /// non-identity element never reaches the identity: the subgroup has
    /// prime order, so only the identity has a smaller order.
    proof fn lemma_mul(a: nat, k: nat)
        requires
            Self::in_subgroup(a),
            k < <Self::Scalar as ECScalar>::order(),
        ensures
            Self::in_subgroup(Self::mul_val(a, k)),
            (a != Self::ident() && 0 < k) ==> Self::mul_val(a, k) != Self::ident(),
    ;

    /// Encoding a member and decoding it back round-trips.
    proof fn lemma_enc(v: nat)
        requires
            Self::in_subgroup(v),
        ensures
            Self::p_enc(v).len() == Self::p_enc_len(),
            Self::p_dec(Self::p_enc(v)) == Ok::<nat, CurveError>(v),
    ;

    /// Decoding succeeds only on the canonical encoding of a member, and
    /// classifies every failure: wrong length is a deserialization error,
    /// anything else that fails names no subgroup element.
    proof fn lemma_dec(b: Seq<u8>)
        ensures
            match Self::p_dec(b) {
                Ok(v) => Self::in_subgroup(v) && b == Self::p_enc(v) && b.len()
                    == Self::p_enc_len(),
                Err(e) => (e == CurveError::DeserializationError || e == CurveError::NotOnCurve)
                    && (e == CurveError::DeserializationError <==> b.len() != Self::p_enc_len()),
            },
    ;

    /// The identity element.
    fn identity() -> (r: Self)
        ensures
            r.p_val() == Self::ident(),
    ;

    /// The distinguished base point.
    fn generator() -> (r: Self)
        ensures
            r.p_val() == Self::gen_val(),
    ;

    /// The alternative base point.
    fn base_point2() -> (r: Self)
        ensures
            r.p_val() == Self::gen2_val(),
    ;

    /// The group operation.
    fn add(&self, o: &Self) -> (r: Self)
        ensures
            r.p_val() == Self::add_val(self.p_val(), o.p_val()),
    ;

    /// The group inverse.
    fn neg(&self) -> (r: Self)
        ensures
            r.p_val() == Self::neg_val(self.p_val()),
    ;

    /// Scalar multiplication.
    fn mul(&self, s: &Self::Scalar) -> (r: Self)
        ensures
            r.p_val() == Self::mul_val(self.p_val(), s.s_val()),
    ;

    /// Identity test.
    fn is_identity(&self) -> (r: bool)
        ensures
            r == (self.p_val() == Self::ident()),
    ;

    /// Element equality.
    fn eq_point(&self, o: &Self) -> (r: bool)
        ensures
            r == (self.p_val() == o.p_val()),
    ;

    /// Canonical fixed-length encoding.
    fn to_bytes(&self) -> (r: Vec<u8>)
        ensures
            r@ == Self::p_enc(self.p_val()),
    ;

    /// Strict decoding, following the `p_dec` decision.
    fn from_bytes(b: &[u8]) -> (r: Result<Self, CurveError>)
        ensures
            match r {
                Ok(p) => Self::p_dec(b@) == Ok::<nat, CurveError>(p.p_val()),
                Err(e) => Self::p_dec(b@) == Err::<nat, CurveError>(e),
            },
    ;
}

} // verus!
