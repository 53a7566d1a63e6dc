use vstd::prelude::*;
use vstd::arithmetic::div_mod::{
    lemma_add_mod_noop, lemma_mod_bound, lemma_small_mod,
};
use crate::bigint::{be_val, BigInt};
use crate::curve_traits::{ECPoint, ECScalar};
use crate::errors::CurveError;

verus! {

// A compact demonstration backend: the cryptographic subgroup is the group
// of quadratic residues of the multiplicative group modulo the safe prime 11,
// a cyclic group of prime order 5 under multiplication modulo 11. It
// satisfies the full backend capability contract (prime-order subgroup,
// membership test, canonical two-byte big-endian encoding) and exists so the
// wrapper layer has a checked, executable instance; its parameters are far
// too small for any real cryptographic use.

/// Membership in the order-5 subgroup of the multiplicative group modulo 11:
/// exactly the quadratic residues.
pub open spec fn demo_in_subgroup(v: nat) -> bool {
    v == 1 || v == 3 || v == 4 || v == 5 || v == 9
}

/// The group operation: multiplication modulo 11.
pub open spec fn demo_op(a: nat, b: nat) -> nat {
    (a * b) % 11
}

/// The group inverse, tabulated.
pub open spec fn demo_inv(a: nat) -> nat {
    if a == 1 {
        1
    } else if a == 3 {
        4
    } else if a == 4 {
        3
    } else if a == 5 {
        9
    } else if a == 9 {
        5
    } else {
        0
    }
}

/// `k`-fold application of the group operation to `a`.
pub open spec fn demo_pow(a: nat, k: nat) -> nat
    decreases k,
{
    if k == 0 {
        1
    } else {
        (a * demo_pow(a, (k - 1) as nat)) % 11
    }
}

/// The membership table above is exactly the order-5 subgroup: the residues
/// modulo 11 whose fifth power is one.
pub proof fn lemma_demo_subgroup_characterization()
    ensures
        forall|v: nat|
            #[trigger] demo_in_subgroup(v) <==> (0 < v < 11 && vstd::arithmetic::power::pow(
                v as int,
                5,
            ) % 11 == 1),
{
    assert forall|v: nat|
        #[trigger] demo_in_subgroup(v) <==> (0 < v < 11 && vstd::arithmetic::power::pow(v as int, 5)
            % 11 == 1) by {
        if 0 < v < 11 {
            let b = v as int;
            reveal_with_fuel(vstd::arithmetic::power::pow, 7);
            assert(vstd::arithmetic::power::pow(b, 0) == 1);
            assert(vstd::arithmetic::power::pow(b, 1) == b * vstd::arithmetic::power::pow(b, 0));
            assert(vstd::arithmetic::power::pow(b, 2) == b * vstd::arithmetic::power::pow(b, 1));
            assert(vstd::arithmetic::power::pow(b, 3) == b * vstd::arithmetic::power::pow(b, 2));
            assert(vstd::arithmetic::power::pow(b, 4) == b * vstd::arithmetic::power::pow(b, 3));
            assert(vstd::arithmetic::power::pow(b, 5) == b * vstd::arithmetic::power::pow(b, 4));
            if v == 1 {
                assert(vstd::arithmetic::power::pow(b, 5) % 11 == 1);
            } else if v == 2 {
                assert(vstd::arithmetic::power::pow(b, 5) % 11 == 10);
            } else if v == 3 {
                assert(vstd::arithmetic::power::pow(b, 5) % 11 == 1);
            } else if v == 4 {
                assert(vstd::arithmetic::power::pow(b, 5) % 11 == 1);
            } else if v == 5 {
                assert(vstd::arithmetic::power::pow(b, 5) % 11 == 1);
            } else if v == 6 {
                assert(vstd::arithmetic::power::pow(b, 5) % 11 == 10);
            } else if v == 7 {
                assert(vstd::arithmetic::power::pow(b, 5) % 11 == 10);
            } else if v == 8 {
                assert(vstd::arithmetic::power::pow(b, 5) % 11 == 10);
            } else if v == 9 {
                assert(vstd::arithmetic::power::pow(b, 5) % 11 == 1);
            } else {
                assert(v == 10);
                assert(vstd::arithmetic::power::pow(b, 5) % 11 == 10);
            }
        }
    }
}

/// Two-byte big-endian encoding of a small value.
pub open spec fn enc2(v: nat) -> Seq<u8> {
    seq![(v / 256) as u8, (v % 256) as u8]
}

/// Value of a two-byte big-endian string.
pub proof fn lemma_be_val_pair(s: Seq<u8>)
    requires
        s.len() == 2,
    ensures
        be_val(s) == s[0] * 256 + s[1],
{
    assert(s.drop_last() =~= seq![s[0]]);
    assert(seq![s[0]].drop_last() =~= Seq::<u8>::empty());
    assert(be_val(Seq::<u8>::empty()) == 0);
    assert(be_val(seq![s[0]]) == be_val(seq![s[0]].drop_last()) * 256 + seq![s[0]].last());
    assert(seq![s[0]].last() == s[0]);
    assert(be_val(s) == be_val(s.drop_last()) * 256 + s.last());
    assert(s.last() == s[1]);
}

/// The subgroup is closed under the group operation.
proof fn lemma_demo_op_closed(a: nat, b: nat)
    requires
        demo_in_subgroup(a),
        demo_in_subgroup(b),
    ensures
        demo_in_subgroup(demo_op(a, b)),
{
}

/// The first five powers of each member, unfolded as stepping stones.
proof fn lemma_demo_pow_table(a: nat, k: nat)
    requires
        demo_in_subgroup(a),
        k < 5,
    ensures
        demo_in_subgroup(demo_pow(a, k)),
        (a != 1 && k != 0) ==> demo_pow(a, k) != 1,
{
    assert(demo_pow(a, 0) == 1);
    assert(demo_pow(a, 1) == (a * demo_pow(a, 0)) % 11);
    assert(demo_pow(a, 2) == (a * demo_pow(a, 1)) % 11);
    assert(demo_pow(a, 3) == (a * demo_pow(a, 2)) % 11);
    assert(demo_pow(a, 4) == (a * demo_pow(a, 3)) % 11);
    if a == 1 {
        assert(demo_pow(a, 1) == 1);
        assert(demo_pow(a, 2) == 1);
        assert(demo_pow(a, 3) == 1);
        assert(demo_pow(a, 4) == 1);
    } else if a == 3 {
        assert(demo_pow(a, 1) == 3);
        assert(demo_pow(a, 2) == 9);
        assert(demo_pow(a, 3) == 5);
        assert(demo_pow(a, 4) == 4);
    } else if a == 4 {
        assert(demo_pow(a, 1) == 4);
        assert(demo_pow(a, 2) == 5);
        assert(demo_pow(a, 3) == 9);
        assert(demo_pow(a, 4) == 3);
    } else if a == 5 {
        assert(demo_pow(a, 1) == 5);
        assert(demo_pow(a, 2) == 3);
        assert(demo_pow(a, 3) == 4);
        assert(demo_pow(a, 4) == 9);
    } else {
        assert(a == 9);
        assert(demo_pow(a, 1) == 9);
        assert(demo_pow(a, 2) == 4);
        assert(demo_pow(a, 3) == 3);
        assert(demo_pow(a, 4) == 5);
    }
    assert(k == 0 || k == 1 || k == 2 || k == 3 || k == 4);
}

/// A value below 256 encodes as a zero byte and the value byte, and the
/// encoding evaluates back to the value.
proof fn lemma_enc2_small(v: nat)
    requires
        v < 256,
    ensures
        enc2(v) =~= seq![0u8, v as u8],
        enc2(v).len() == 2,
        be_val(enc2(v)) == v,
{
    lemma_small_mod(v, 256);
    lemma_be_val_pair(enc2(v));
}

/// Scalar of the demonstration backend: a residue modulo the prime group
/// order 5.
#[derive(Clone, Copy, Debug)]
pub struct DemoScalar {
    v: u64,
}

impl DemoScalar {
    #[verifier::type_invariant]
    closed spec fn inv(&self) -> bool {
        self.v == 0 || self.v == 1 || self.v == 2 || self.v == 3 || self.v == 4
    }
}

impl ECScalar for DemoScalar {
    closed spec fn order() -> nat {
        5
    }

    closed spec fn s_val(&self) -> nat {
        self.v as nat
    }

    closed spec fn s_enc(v: nat) -> Seq<u8> {
        enc2(v)
    }

    closed spec fn s_enc_len() -> nat {
        2
    }

    proof fn lemma_order() {
        assert forall|d: nat| 2 <= d < 5 implies #[trigger] (5nat % d) != 0 by {
            if d == 2 {
                assert(5nat % 2nat == 1);
            } else if d == 3 {
                assert(5nat % 3nat == 2);
            } else {
                assert(d == 4);
                assert(5nat % 4nat == 1);
            }
        }
    }

    proof fn lemma_mul_nonzero(a: nat, b: nat) {
        assert((a * b) % 5nat != 0) by {
            if a == 1 {
            } else if a == 2 {
                assert(b == 1 || b == 2 || b == 3 || b == 4);
            } else if a == 3 {
                assert(b == 1 || b == 2 || b == 3 || b == 4);
            } else {
                assert(a == 4);
                assert(b == 1 || b == 2 || b == 3 || b == 4);
            }
        }
    }

    proof fn lemma_enc(v: nat) {
        lemma_enc2_small(v);
    }

    fn zero() -> (r: Self) {
        DemoScalar { v: 0 }
    }

    fn from_bigint(n: &BigInt) -> (r: Self) {
        let v = n.mod_u64(5);
        proof {
            lemma_mod_bound(n@ as int, 5);
        }
        DemoScalar { v }
    }

    fn add(&self, o: &Self) -> (r: Self) {
        proof {
            use_type_invariant(self);
            use_type_invariant(o);
        }
        DemoScalar { v: (self.v + o.v) % 5 }
    }

    fn sub(&self, o: &Self) -> (r: Self) {
        proof {
            use_type_invariant(self);
            use_type_invariant(o);
        }
        let r = DemoScalar { v: (self.v + 5 - o.v) % 5 };
        proof {
            let a = self.v as int;
            let b = o.v as int;
            let t = a + 5 - b;
            lemma_small_mod(o.v as nat, 5);
            lemma_add_mod_noop(t, b, 5);
            lemma_small_mod(self.v as nat, 5);
            assert((t + b) % 5 == (a + 5) % 5);
            vstd::arithmetic::div_mod::lemma_mod_add_multiples_vanish(a, 5);
        }
        r
    }

    fn mul(&self, o: &Self) -> (r: Self) {
        proof {
            use_type_invariant(self);
            use_type_invariant(o);
        }
        DemoScalar { v: (self.v * o.v) % 5 }
    }

    fn neg(&self) -> (r: Self) {
        proof {
            use_type_invariant(self);
        }
        DemoScalar { v: (5 - self.v) % 5 }
    }

    fn invert(&self) -> (r: Self) {
        proof {
            use_type_invariant(self);
        }
        let v = if self.v == 1 {
            1
        } else if self.v == 2 {
            3
        } else if self.v == 3 {
            2
        } else {
            4
        };
        DemoScalar { v }
    }

    fn is_zero(&self) -> (r: bool) {
        self.v == 0
    }

    fn eq_scalar(&self, o: &Self) -> (r: bool) {
        self.v == o.v
    }

    fn to_bytes(&self) -> (r: Vec<u8>) {
        proof {
            use_type_invariant(self);
            lemma_enc2_small(self.v as nat);
        }
        let mut r: Vec<u8> = Vec::new();
        r.push(0);
        r.push(self.v as u8);
        proof {
            assert(r@ =~= seq![0u8, self.v as u8]);
        }
        r
    }

    fn from_bytes(b: &[u8]) -> (r: Result<Self, CurveError>) {
        if b.len() != 2 {
            return Err(CurveError::DeserializationError);
        }
        let x: u64 = (b[0] as u64) * 256 + (b[1] as u64);
        proof {
            lemma_be_val_pair(b@);
        }
        if x < 5 {
            proof {
                lemma_enc2_small(x as nat);
                assert(b@[0] == 0);
                assert(b@ =~= enc2(x as nat));
            }
            Ok(DemoScalar { v: x })
        } else {
            Err(CurveError::DeserializationError)
        }
    }
}

/// Point of the demonstration backend: an element of the order-5 subgroup
/// of the multiplicative group modulo 11.
#[derive(Clone, Copy, Debug)]
pub struct DemoPoint {
    v: u64,
}

impl DemoPoint {
    #[verifier::type_invariant]
    closed spec fn inv(&self) -> bool {
        demo_in_subgroup(self.v as nat)
    }
}

impl ECPoint for DemoPoint {
    type Scalar = DemoScalar;

    closed spec fn p_val(&self) -> nat {
        self.v as nat
    }

    closed spec fn in_subgroup(v: nat) -> bool {
        demo_in_subgroup(v)
    }

    closed spec fn ident() -> nat {
        1
    }

    closed spec fn gen_val() -> nat {
        3
    }

    closed spec fn gen2_val() -> nat {
        9
    }

    closed spec fn add_val(a: nat, b: nat) -> nat {
        demo_op(a, b)
    }

    closed spec fn neg_val(a: nat) -> nat {
        demo_inv(a)
    }

    closed spec fn mul_val(a: nat, k: nat) -> nat {
        demo_pow(a, k)
    }

    closed spec fn p_enc(v: nat) -> Seq<u8> {
        enc2(v)
    }

    closed spec fn p_enc_len() -> nat {
        2
    }

    closed spec fn p_dec(b: Seq<u8>) -> Result<nat, CurveError> {
        if b.len() != 2 {
            Err(CurveError::DeserializationError)
        } else if demo_in_subgroup((b[0] * 256 + b[1]) as nat) {
            Ok((b[0] * 256 + b[1]) as nat)
        } else {
            Err(CurveError::NotOnCurve)
        }
    }

    proof fn lemma_distinguished() {
    }

    proof fn lemma_add(a: nat, b: nat) {
        lemma_demo_op_closed(a, b);
        lemma_small_mod(a, 11);
        lemma_small_mod(b, 11);
    }

    proof fn lemma_neg(a: nat) {
    }

    proof fn lemma_mul(a: nat, k: nat) {
        lemma_demo_pow_table(a, k);
    }

    proof fn lemma_enc(v: nat) {
        lemma_enc2_small(v);
        let b = enc2(v);
        assert(b[0] == 0 && b[1] == v as u8);
    }

    proof fn lemma_dec(b: Seq<u8>) {
        if b.len() == 2 {
            let x = (b[0] * 256 + b[1]) as nat;
            if demo_in_subgroup(x) {
                lemma_enc2_small(x);
                assert(b[0] == 0);
                assert(b =~= enc2(x));
            }
        }
    }

    fn identity() -> (r: Self) {
        DemoPoint { v: 1 }
    }

    fn generator() -> (r: Self) {
        DemoPoint { v: 3 }
    }

    fn base_point2() -> (r: Self) {
        DemoPoint { v: 9 }
    }

    fn add(&self, o: &Self) -> (r: Self) {
        proof {
            use_type_invariant(self);
            use_type_invariant(o);
            lemma_demo_op_closed(self.v as nat, o.v as nat);
        }
        DemoPoint { v: (self.v * o.v) % 11 }
    }

    fn neg(&self) -> (r: Self) {
        proof {
            use_type_invariant(self);
        }
        let v = if self.v == 1 {
            1
        } else if self.v == 3 {
            4
        } else if self.v == 4 {
            3
        } else if self.v == 5 {
            9
        } else {
            5
        };
        DemoPoint { v }
    }

    fn mul(&self, s: &Self::Scalar) -> (r: Self) {
        proof {
            use_type_invariant(self);
            use_type_invariant(s);
            lemma_demo_pow_table(self.p_val(), s.s_val());
        }
        let k = s.v;
        let mut acc: u64 = 1;
        let mut i: u64 = 0;
        while i < k
            invariant
                0 <= i <= k,
                demo_in_subgroup(self.v as nat),
                acc == demo_pow(self.v as nat, i as nat),
                acc < 11,
            decreases k - i,
        {
            proof {
                assert(demo_pow(self.v as nat, (i + 1) as nat) == (self.v * demo_pow(
                    self.v as nat,
                    i as nat,
                )) % 11);
                vstd::arithmetic::mul::lemma_mul_upper_bound(self.v as int, 9, acc as int, 10);
            }
            acc = (self.v * acc) % 11;
            i = i + 1;
        }
        DemoPoint { v: acc }
    }

    fn is_identity(&self) -> (r: bool) {
        self.v == 1
    }

    fn eq_point(&self, o: &Self) -> (r: bool) {
        self.v == o.v
    }

    fn to_bytes(&self) -> (r: Vec<u8>) {
        proof {
            use_type_invariant(self);
            lemma_enc2_small(self.v as nat);
        }
        let mut r: Vec<u8> = Vec::new();
        r.push(0);
        r.push(self.v as u8);
        proof {
            assert(r@ =~= seq![0u8, self.v as u8]);
        }
        r
    }

    fn from_bytes(b: &[u8]) -> (r: Result<Self, CurveError>) {
        if b.len() != 2 {
            return Err(CurveError::DeserializationError);
        }
        let x: u64 = (b[0] as u64) * 256 + (b[1] as u64);
        if x == 1 || x == 3 || x == 4 || x == 5 || x == 9 {
            Ok(DemoPoint { v: x })
        } else {
            Err(CurveError::NotOnCurve)
        }
    }
}

} // verus!
