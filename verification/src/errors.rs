//! The error kinds of the core.

use vstd::prelude::*;

use crate::ids::RawCoID;

verus! {

/// Everything a fallible core operation can report.
///
/// Every fallible operation surfaces its error to the caller and leaves the
/// state unchanged.
#[derive(Debug)]
pub enum CoValueError {
    /// A caller-provided expected hash disagreed with the recomputed chain.
    HashMismatch { covalue_id: RawCoID, expected: crate::crypto::Hash, actual: crate::crypto::Hash },
    /// Ed25519 verification failed.
    SignatureInvalid,
    /// A textual form could not be parsed: missing prefix, invalid Base58,
    /// or wrong payload length.
    MalformedEncoding,
}

impl CoValueError {
    /// Whether this is a hash mismatch.
    pub fn is_hash_mismatch(&self) -> (r: bool)
        ensures
            r == (self is HashMismatch),
    {
        match self {
            CoValueError::HashMismatch { .. } => true,
            _ => false,
        }
    }

    /// Whether this is an invalid signature.
    pub fn is_signature_invalid(&self) -> (r: bool)
        ensures
            r == (self is SignatureInvalid),
    {
        match self {
            CoValueError::SignatureInvalid => true,
            _ => false,
        }
    }

    /// Whether this is a malformed textual encoding.
    pub fn is_malformed_encoding(&self) -> (r: bool)
        ensures
            r == (self is MalformedEncoding),
    {
        match self {
            CoValueError::MalformedEncoding => true,
            _ => false,
        }
    }
}

} // verus!
