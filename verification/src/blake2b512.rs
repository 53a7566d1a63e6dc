use vstd::prelude::*;
use crate::bigint::{be_val, min_be, BigInt};
use crate::curve_traits::{ECPoint, ECScalar};

verus! {

/// The 64-byte digest of the BLAKE2b primitive, keyed with `key` and
/// personalized with `persona`, over the byte stream `input`. The digest is
/// a pure function of these three byte strings; its definition is the
/// outside primitive's and is not restated here.
pub uninterp spec fn blake2b_digest(key: Seq<u8>, persona: Seq<u8>, input: Seq<u8>) -> Seq<u8>;

/// Concatenation of the minimal big-endian serializations of a sequence of
/// integers, in sequence order: what the unkeyed and keyed hashes consume.
pub open spec fn ints_bytes(s: Seq<&BigInt>) -> Seq<u8>
    decreases s.len(),
{
    if s.len() == 0 {
        Seq::empty()
    } else {
        ints_bytes(s.drop_last()) + min_be(s.last()@)
    }
}

/// Concatenation of the canonical encodings of a sequence of points, in
/// sequence order.
pub open spec fn points_bytes<P: ECPoint>(s: Seq<&P>) -> Seq<u8>
    decreases s.len(),
{
    if s.len() == 0 {
        Seq::empty()
    } else {
        points_bytes(s.drop_last()) + P::p_enc(s.last().p_val())
    }
}

/// Relies on blake2b_simd (Params, State): a BLAKE2b digest with 64-byte
/// output, personalized with `persona` and unkeyed, over `input`. The
/// personalization field holds at most 16 bytes; `personal` panics beyond
/// that, so longer tags are excluded. An absent key equals an empty key.
#[verifier::external_body]
fn blake2b64(persona: &[u8], input: &[u8]) -> (r: Vec<u8>)
    requires
        persona@.len() <= 16,
    ensures
        r@ == blake2b_digest(Seq::<u8>::empty(), persona@, input@),
        r@.len() == 64,
{
    let hash = blake2b_simd::Params::new()
        .hash_length(64)
        .personal(persona)
        .to_state()
        .update(input)
        .finalize();
    hash.as_bytes().to_vec()
}

/// Relies on blake2b_simd (Params, State): a BLAKE2b digest with 64-byte
/// output in keyed (MAC) mode, over `input`. The key field holds at most 64
/// bytes; `key` panics beyond that, so longer keys are excluded. An absent
/// personalization equals an empty one.
#[verifier::external_body]
fn blake2b64_keyed(key: &[u8], input: &[u8]) -> (r: Vec<u8>)
    requires
        key@.len() <= 64,
    ensures
        r@ == blake2b_digest(key@, Seq::<u8>::empty(), input@),
        r@.len() == 64,
{
    let hash = blake2b_simd::Params::new()
        .hash_length(64)
        .key(key)
        .to_state()
        .update(input)
        .finalize();
    hash.as_bytes().to_vec()
}

/// Serializes each integer to its minimal big-endian bytes and concatenates
/// them in sequence order.
fn serialize_ints(big_ints: &[&BigInt]) -> (r: Vec<u8>)
    ensures
        r@ == ints_bytes(big_ints@),
{
    let mut buf: Vec<u8> = Vec::new();
    let n = big_ints.len();
    let mut i: usize = 0;
    proof {
        assert(big_ints@.take(0) =~= Seq::<&BigInt>::empty());
        assert(ints_bytes(Seq::<&BigInt>::empty()) =~= Seq::<u8>::empty());
    }
    while i < n
        invariant
            0 <= i <= n,
            n == big_ints@.len(),
            buf@ == ints_bytes(big_ints@.take(i as int)),
        decreases n - i,
    {
        let mut chunk = big_ints[i].to_bytes();
        proof {
            assert(big_ints@.take(i + 1).drop_last() =~= big_ints@.take(i as int));
            assert(big_ints@.take(i + 1).last() == big_ints@[i as int]);
        }
        buf.append(&mut chunk);
        i = i + 1;
    }
    proof {
        assert(big_ints@.take(n as int) =~= big_ints@);
    }
    buf
}

/// Constant-time byte comparison: the traversal is fixed and a mismatch flag
/// is accumulated across all bytes, with no early exit on a differing byte.
fn ct_eq_64(a: &[u8], b: &[u8; 64]) -> (r: bool)
    requires
        a@.len() == 64,
    ensures
        r == (a@ == b@),
{
    let mut diff: u8 = 0;
    let mut i: usize = 0;
    while i < 64
        invariant
            0 <= i <= 64,
            a@.len() == 64,
            (diff == 0) <==> (forall|j: int| 0 <= j < i ==> a@[j] == b@[j]),
        decreases 64 - i,
    {
        let x = a[i] ^ b[i];
        proof {
            let ag = a@[i as int];
            let bg = b@[i as int];
            assert((ag ^ bg) == 0 <==> ag == bg) by (bit_vector);
            let d = diff;
            assert((d | (ag ^ bg)) == 0 <==> (d == 0 && (ag ^ bg) == 0)) by (bit_vector);
        }
        diff = diff | x;
        i = i + 1;
    }
    proof {
        if forall|j: int| 0 <= j < 64 ==> a@[j] == b@[j] {
            assert(a@ =~= b@);
        }
    }
    diff == 0
}

/// The BLAKE2b-512 hash engine: deterministic, domain-separated hashing of
/// integers or group elements, and a keyed MAC pair over the same primitive.
pub struct Blake;

impl Blake {
    /// Domain-separated hash of a sequence of integers: each is serialized
    /// to its minimal big-endian bytes (empty for zero), fed in sequence
    /// order into a 64-byte BLAKE2b state personalized with the domain tag,
    /// and the digest is read as an unsigned big-endian integer. The tag may
    /// hold at most the primitive's 16-byte personalization field.
    pub fn create_hash(big_ints: &[&BigInt], persona: &[u8]) -> (r: BigInt)
        requires
            persona@.len() <= 16,
        ensures
            r@ == be_val(blake2b_digest(Seq::<u8>::empty(), persona@, ints_bytes(big_ints@))),
    {
        let buf = serialize_ints(big_ints);
        let digest = blake2b64(persona, buf.as_slice());
        BigInt::from_bytes(digest.as_slice())
    }

    /// Domain-separated hash of a sequence of points: each point's canonical
    /// encoding is fed in sequence order, and the digest, read as an
    /// unsigned big-endian integer, is reduced modulo the group order. The
    /// reduction is not special-cased at zero: with negligible but nonzero
    /// probability the resulting raw scalar is zero.
    pub fn create_hash_from_ge<P: ECPoint>(ge_vec: &[&P], persona: &[u8]) -> (r: P::Scalar)
        requires
            persona@.len() <= 16,
        ensures
            r.s_val() == be_val(
                blake2b_digest(Seq::<u8>::empty(), persona@, points_bytes(ge_vec@)),
            ) % <P::Scalar as ECScalar>::order(),
    {
        let mut buf: Vec<u8> = Vec::new();
        let n = ge_vec.len();
        let mut i: usize = 0;
        proof {
            assert(ge_vec@.take(0) =~= Seq::<&P>::empty());
            assert(points_bytes(Seq::<&P>::empty()) =~= Seq::<u8>::empty());
        }
        while i < n
            invariant
                0 <= i <= n,
                n == ge_vec@.len(),
                buf@ == points_bytes(ge_vec@.take(i as int)),
            decreases n - i,
        {
            let mut chunk = ge_vec[i].to_bytes();
            proof {
                assert(ge_vec@.take(i + 1).drop_last() =~= ge_vec@.take(i as int));
                assert(ge_vec@.take(i + 1).last() == ge_vec@[i as int]);
            }
            buf.append(&mut chunk);
            i = i + 1;
        }
        proof {
            assert(ge_vec@.take(n as int) =~= ge_vec@);
        }
        let digest = blake2b64(persona, buf.as_slice());
        let b = BigInt::from_bytes(digest.as_slice());
        <P::Scalar as ECScalar>::from_bigint(&b)
    }

    /// Keyed MAC over a sequence of integers: BLAKE2b in keyed mode, with
    /// the key's minimal big-endian bytes as the key and the serialized data
    /// as the stream. The primitive's key field holds at most 64 bytes.
    pub fn create_hmac(key: &BigInt, data: &[&BigInt]) -> (r: BigInt)
        requires
            key.encoded_len() <= 64,
        ensures
            r@ == be_val(blake2b_digest(min_be(key@), Seq::<u8>::empty(), ints_bytes(data@))),
    {
        let kb = key.to_bytes();
        let buf = serialize_ints(data);
        let digest = blake2b64_keyed(kb.as_slice(), buf.as_slice());
        BigInt::from_bytes(digest.as_slice())
    }

    /// Recomputes the MAC and compares it against `code_bytes` in constant
    /// time; succeeds exactly when the tag matches.
    pub fn verify(key: &BigInt, data: &[&BigInt], code_bytes: [u8; 64]) -> (r: Result<(), ()>)
        requires
            key.encoded_len() <= 64,
        ensures
            r is Ok <==> code_bytes@ == blake2b_digest(
                min_be(key@),
                Seq::<u8>::empty(),
                ints_bytes(data@),
            ),
    {
        let kb = key.to_bytes();
        let buf = serialize_ints(data);
        let digest = blake2b64_keyed(kb.as_slice(), buf.as_slice());
        if ct_eq_64(digest.as_slice(), &code_bytes) {
            Ok(())
        } else {
            Err(())
        }
    }
}

/// Determinism law: the unkeyed hash is a pure function of the domain tag
/// and the input sequence, so two results of identical calls are equal.
pub proof fn lemma_create_hash_deterministic(
    persona: Seq<u8>,
    ints: Seq<&BigInt>,
    r1: nat,
    r2: nat,
)
    requires
        r1 == be_val(blake2b_digest(Seq::<u8>::empty(), persona, ints_bytes(ints))),
        r2 == be_val(blake2b_digest(Seq::<u8>::empty(), persona, ints_bytes(ints))),
    ensures
        r1 == r2,
{
}

} // verus!
