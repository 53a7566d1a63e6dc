use vstd::prelude::*;
use vstd::arithmetic::div_mod::{
    lemma_add_mod_noop, lemma_fundamental_div_mod, lemma_fundamental_div_mod_converse,
    lemma_mod_bound, lemma_mul_mod_noop_left,
};

verus! {

/// Value of a big-endian byte string, as an unbounded natural number.
pub open spec fn be_val(s: Seq<u8>) -> nat
    decreases s.len(),
{
    if s.len() == 0 {
        0
    } else {
        (be_val(s.drop_last()) * 256 + s.last()) as nat
    }
}

/// Minimal big-endian encoding of `n`: the empty byte string for zero,
/// no leading zero byte otherwise.
pub open spec fn min_be(n: nat) -> Seq<u8>
    decreases n,
{
    if n == 0 {
        Seq::empty()
    } else {
        min_be(n / 256).push((n % 256) as u8)
    }
}

/// A byte string is canonical when it carries no leading zero byte.
pub open spec fn canonical(s: Seq<u8>) -> bool {
    s.len() == 0 || s[0] != 0
}

/// Appending one byte multiplies the value by the base and adds the byte.
pub proof fn lemma_be_val_push(s: Seq<u8>, b: u8)
    ensures
        be_val(s.push(b)) == be_val(s) * 256 + b,
{
    assert(s.push(b).drop_last() =~= s);
    assert(s.push(b).last() == b);
}

/// Dropping one leading zero byte keeps the value.
pub proof fn lemma_be_val_strip(s: Seq<u8>)
    requires
        s.len() > 0,
        s[0] == 0,
    ensures
        be_val(s.skip(1)) == be_val(s),
    decreases s.len(),
{
    if s.len() == 1 {
        assert(s.drop_last() =~= Seq::<u8>::empty());
        assert(s.skip(1) =~= Seq::<u8>::empty());
        assert(s.last() == s[0]);
    } else {
        let d = s.drop_last();
        lemma_be_val_strip(d);
        assert(s.skip(1).drop_last() =~= d.skip(1));
        assert(s.skip(1).last() == s.last());
    }
}

/// A canonical nonempty byte string names a positive value.
pub proof fn lemma_canonical_pos(s: Seq<u8>)
    requires
        s.len() > 0,
        s[0] != 0,
    ensures
        be_val(s) > 0,
    decreases s.len(),
{
    if s.len() == 1 {
        assert(s.last() == s[0]);
    } else {
        let d = s.drop_last();
        assert(d[0] == s[0]);
        lemma_canonical_pos(d);
    }
}

/// A canonical byte string is the minimal encoding of its own value:
/// the representation is unique.
pub proof fn lemma_canonical_min_be(s: Seq<u8>)
    requires
        canonical(s),
    ensures
        min_be(be_val(s)) == s,
    decreases s.len(),
{
    if s.len() == 0 {
    } else {
        let d = s.drop_last();
        let n = be_val(s);
        assert(n == be_val(d) * 256 + s.last());
        lemma_canonical_pos(s);
        lemma_fundamental_div_mod_converse(n as int, 256, be_val(d) as int, s.last() as int);
        assert(n / 256 == be_val(d));
        assert(n % 256 == s.last());
        if d.len() == 0 {
            assert(min_be(0nat) =~= Seq::<u8>::empty());
            assert(min_be(n) =~= Seq::<u8>::empty().push(s.last()));
            assert(min_be(n) =~= s);
        } else {
            assert(d[0] == s[0]);
            lemma_canonical_min_be(d);
            assert(min_be(n) =~= d.push(s.last()));
            assert(d.push(s.last()) =~= s);
        }
    }
}

/// Equal values have equal canonical encodings.
pub proof fn lemma_canonical_injective(a: Seq<u8>, b: Seq<u8>)
    requires
        canonical(a),
        canonical(b),
        be_val(a) == be_val(b),
    ensures
        a == b,
{
    lemma_canonical_min_be(a);
    lemma_canonical_min_be(b);
}

/// An unsigned arbitrary-precision integer, kept as its minimal big-endian
/// byte string. Its view is the natural number it names.
pub struct BigInt {
    bytes: Vec<u8>,
}

impl View for BigInt {
    type V = nat;

    closed spec fn view(&self) -> nat {
        be_val(self.bytes@)
    }
}

impl BigInt {
    /// Length in bytes of the minimal encoding.
    pub closed spec fn encoded_len(&self) -> nat {
        self.bytes@.len()
    }

    #[verifier::type_invariant]
    closed spec fn inv(&self) -> bool {
        canonical(self.bytes@)
    }

    /// The integer zero, encoded as the empty byte string.
    pub fn zero() -> (r: BigInt)
        ensures
            r@ == 0,
            r.encoded_len() == 0,
    {
        BigInt { bytes: Vec::new() }
    }

    /// The integer one.
    pub fn one() -> (r: BigInt)
        ensures
            r@ == 1,
    {
        let mut bytes: Vec<u8> = Vec::new();
        bytes.push(1);
        proof {
            assert(bytes@ =~= seq![1u8]);
            assert(bytes@.drop_last() =~= Seq::<u8>::empty());
            assert(be_val(Seq::<u8>::empty()) == 0);
            assert(bytes@.last() == 1);
        }
        BigInt { bytes }
    }

    /// Reads an unsigned big-endian byte string; leading zero bytes are
    /// accepted and ignored.
    pub fn from_bytes(b: &[u8]) -> (r: BigInt)
        ensures
            r@ == be_val(b@),
            r.encoded_len() <= b@.len(),
    {
        let n = b.len();
        let mut i: usize = 0;
        proof {
            assert(b@.skip(0) =~= b@);
        }
        while i < n && b[i] == 0
            invariant
                0 <= i <= n,
                n == b@.len(),
                be_val(b@.skip(i as int)) == be_val(b@),
                forall|j: int| 0 <= j < i ==> b@[j] == 0,
            decreases n - i,
        {
            proof {
                lemma_be_val_strip(b@.skip(i as int));
                assert(b@.skip(i as int).skip(1) =~= b@.skip(i + 1));
            }
            i = i + 1;
        }
        let rest = vstd::slice::slice_subrange(b, i, n);
        let bytes = vstd::slice::slice_to_vec(rest);
        proof {
            assert(rest@ =~= b@.skip(i as int));
        }
        BigInt { bytes }
    }

    /// The minimal big-endian encoding of the value.
    pub fn to_bytes(&self) -> (r: Vec<u8>)
        ensures
            r@ == min_be(self@),
            r@.len() == self.encoded_len(),
    {
        proof {
            use_type_invariant(self);
            lemma_canonical_min_be(self.bytes@);
        }
        vstd::slice::slice_to_vec(self.bytes.as_slice())
    }

    /// Builds the integer that a machine word names.
    pub fn from_u64(v: u64) -> (r: BigInt)
        ensures
            r@ == v,
        decreases v,
    {
        if v == 0 {
            BigInt::zero()
        } else {
            let r = BigInt::from_u64(v / 256);
            proof {
                use_type_invariant(&r);
                lemma_be_val_push(r.bytes@, (v % 256) as u8);
                lemma_fundamental_div_mod(v as int, 256);
                if v / 256 == 0 && r.bytes@.len() > 0 {
                    lemma_canonical_pos(r.bytes@);
                }
            }
            let BigInt { mut bytes } = r;
            bytes.push((v % 256) as u8);
            BigInt { bytes }
        }
    }

    /// True exactly when the value is zero.
    pub fn is_zero(&self) -> (r: bool)
        ensures
            r == (self@ == 0),
    {
        proof {
            use_type_invariant(self);
            if self.bytes@.len() > 0 {
                lemma_canonical_pos(self.bytes@);
            }
        }
        self.bytes.len() == 0
    }

    /// The remainder of the value modulo a machine-word modulus.
    pub fn mod_u64(&self, m: u64) -> (r: u64)
        requires
            m > 0,
        ensures
            r == self@ % (m as nat),
    {
        let n = self.bytes.len();
        let mut acc: u64 = 0;
        let mut i: usize = 0;
        proof {
            assert(self.bytes@.take(0) =~= Seq::<u8>::empty());
            assert(be_val(Seq::<u8>::empty()) == 0);
        }
        while i < n
            invariant
                0 <= i <= n,
                n == self.bytes@.len(),
                m > 0,
                acc == be_val(self.bytes@.take(i as int)) % (m as nat),
            decreases n - i,
        {
            let b = self.bytes[i];
            let wide: u128 = (acc as u128) * 256 + (b as u128);
            let next: u64 = (wide % (m as u128)) as u64;
            proof {
                let prefix = self.bytes@.take(i as int);
                let x = be_val(prefix) as int;
                let mi = m as int;
                lemma_mod_bound(x, mi);
                assert(self.bytes@.take(i + 1).drop_last() =~= prefix);
                assert(be_val(self.bytes@.take(i + 1)) == be_val(prefix) * 256 + b);
                lemma_mul_mod_noop_left(x, 256, mi);
                lemma_add_mod_noop((x % mi) * 256, b as int, mi);
                lemma_add_mod_noop(x * 256, b as int, mi);
                vstd::arithmetic::div_mod::lemma_mod_twice((x % mi) * 256, mi);
                vstd::arithmetic::div_mod::lemma_mod_twice(x * 256, mi);
                assert(((x % mi) * 256 + b) % mi == (x * 256 + b) % mi) by {
                    assert(((x % mi) * 256) % mi == (x * 256) % mi);
                    assert(((x % mi) * 256 + b) % mi == (((x % mi) * 256) % mi + (b as int) % mi)
                        % mi);
                    assert((x * 256 + b) % mi == ((x * 256) % mi + (b as int) % mi) % mi);
                };
            }
            acc = next;
            i = i + 1;
        }
        proof {
            assert(self.bytes@.take(n as int) =~= self.bytes@);
        }
        acc
    }
}

impl PartialEq for BigInt {
    /// Numeric equality; canonical representations make it a byte comparison.
    fn eq(&self, other: &BigInt) -> (r: bool) {
        proof {
            use_type_invariant(self);
            use_type_invariant(other);
            if self@ == other@ {
                lemma_canonical_injective(self.bytes@, other.bytes@);
            }
        }
        let n = self.bytes.len();
        if n != other.bytes.len() {
            return false;
        }
        let mut i: usize = 0;
        while i < n
            invariant
                0 <= i <= n,
                n == self.bytes@.len(),
                n == other.bytes@.len(),
                forall|j: int| 0 <= j < i ==> self.bytes@[j] == other.bytes@[j],
            decreases n - i,
        {
            if self.bytes[i] != other.bytes[i] {
                proof {
                    use_type_invariant(self);
                    use_type_invariant(other);
                    if self@ == other@ {
                        lemma_canonical_injective(self.bytes@, other.bytes@);
                    }
                }
                return false;
            }
            i = i + 1;
        }
        proof {
            assert(self.bytes@ =~= other.bytes@);
        }
        true
    }
}

impl vstd::std_specs::cmp::PartialEqSpecImpl for BigInt {
    open spec fn obeys_eq_spec() -> bool {
        true
    }

    open spec fn eq_spec(&self, other: &BigInt) -> bool {
        self@ == other@
    }
}

impl Eq for BigInt {

}

impl PartialOrd for BigInt {
    /// Numeric order: a shorter minimal encoding names a smaller value, and
    /// equal lengths compare lexicographically.
    fn partial_cmp(&self, other: &BigInt) -> (r: Option<core::cmp::Ordering>) {
        if self.bytes.len() < other.bytes.len() {
            return Some(core::cmp::Ordering::Less);
        }
        if self.bytes.len() > other.bytes.len() {
            return Some(core::cmp::Ordering::Greater);
        }
        let n = self.bytes.len();
        let mut i: usize = 0;
        while i < n
            invariant
                0 <= i <= n,
                n == self.bytes@.len(),
                n == other.bytes@.len(),
            decreases n - i,
        {
            if self.bytes[i] < other.bytes[i] {
                return Some(core::cmp::Ordering::Less);
            }
            if self.bytes[i] > other.bytes[i] {
                return Some(core::cmp::Ordering::Greater);
            }
            i = i + 1;
        }
        Some(core::cmp::Ordering::Equal)
    }
}

impl vstd::std_specs::cmp::PartialOrdSpecImpl for BigInt {
    open spec fn obeys_partial_cmp_spec() -> bool {
        false
    }

    open spec fn partial_cmp_spec(&self, other: &BigInt) -> Option<core::cmp::Ordering> {
        if self@ < other@ {
            Some(core::cmp::Ordering::Less)
        } else if self@ == other@ {
            Some(core::cmp::Ordering::Equal)
        } else {
            Some(core::cmp::Ordering::Greater)
        }
    }
}

} // verus!
