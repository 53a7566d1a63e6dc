//! Curve-agnostic elliptic-curve cryptography core: capability contracts for
//! curve backends, invariant-enforcing point and scalar wrappers, and a
//! domain-separated hash engine for deriving challenges from protocol data.

pub mod bigint;
pub mod blake2b512;
pub mod curve_traits;
pub mod demo_curve;
pub mod errors;
pub mod hashing_traits;
pub mod wrappers;
