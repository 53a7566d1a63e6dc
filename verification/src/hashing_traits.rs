use vstd::prelude::*;
use crate::bigint::BigInt;
use crate::curve_traits::ECPoint;

verus! {

/// Interface of an unkeyed hash primitive over protocol data, for downstream
/// implementors.
pub trait Hash {
    fn create_hash(big_ints: &[&BigInt]) -> BigInt;

    fn create_hash_from_slice(byte_slice: &[u8]) -> BigInt;

    fn create_hash_from_ge<P: ECPoint>(ge_vec: &[&P]) -> P::Scalar;
}

/// Interface of a keyed hash (MAC) pair, for downstream implementors:
/// `verify` recomputes the tag and compares in constant time.
pub trait KeyedHash {
    fn create_hmac(key: &BigInt, data: &[&BigInt]) -> BigInt;

    fn verify(key: &BigInt, data: &[&BigInt], code_bytes: [u8; 64]) -> Result<(), ()>;
}

} // verus!
