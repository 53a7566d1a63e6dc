use vstd::prelude::*;

verus! {

/// Shared failure vocabulary of the wrapper constructors and decoders.
///
/// These are explicit outcomes, never panics: once a value of a wrapper type
/// exists, it is proof that it is well-formed, and arithmetic on valid
/// operands cannot produce any of them.
#[derive(Clone, Copy, Debug, PartialEq, Eq, Structural)]
pub enum CurveError {
    /// Malformed byte length or encoding, detected before any algebraic
    /// validation is attempted.
    DeserializationError,
    /// Decoded bytes do not name an element of the prime-order subgroup.
    NotOnCurve,
    /// A zero scalar or identity point appeared where a type guaranteeing a
    /// nonzero value was required.
    ZeroValue,
}

} // verus!
