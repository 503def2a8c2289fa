//! Error values surfaced by encoding and decoding.

use vstd::prelude::*;

verus! {

/// Why an encode call could not complete.
#[derive(Clone, Copy, Debug, PartialEq, Eq, Structural)]
pub enum EncodeError {
    /// The writable buffer does not have room for the bytes the call would
    /// produce.  Raised before the buffer is mutated.
    InsufficientCapacity,
}

/// Why a decode or merge call rejected its input.
#[derive(Clone, Copy, Debug, PartialEq, Eq, Structural)]
pub enum DecodeError {
    /// A varint ended before its terminating byte, or its value does not fit
    /// in sixty-four bits.
    InvalidVarint,
    /// A field key carried a tag of zero, a tag above the protocol maximum,
    /// or an unassigned wire-type number.
    InvalidKey,
    /// A field key named a tag the message being merged does not define.
    UnknownTag,
    /// A length-delimited frame declared more payload bytes than the buffer
    /// still holds.
    BufferUnderflow,
    /// A field key carried a wire type other than the one the field requires.
    WireTypeMismatch,
}

impl EncodeError {
    /// A short description, for callers that report the error.
    pub fn describe(&self) -> (s: &'static str)
        ensures
            s@ == "insufficient buffer capacity"@,
    {
        "insufficient buffer capacity"
    }
}

impl DecodeError {
    /// A short description, for callers that report the error.
    pub fn describe(&self) -> (s: &'static str)
        ensures
            s@ == match self {
                DecodeError::InvalidVarint => "invalid varint"@,
                DecodeError::InvalidKey => "invalid field key"@,
                DecodeError::UnknownTag => "unknown field tag"@,
                DecodeError::BufferUnderflow => "buffer underflow"@,
                DecodeError::WireTypeMismatch => "wire type mismatch"@,
            },
    {
        match self {
            DecodeError::InvalidVarint => "invalid varint",
            DecodeError::InvalidKey => "invalid field key",
            DecodeError::UnknownTag => "unknown field tag",
            DecodeError::BufferUnderflow => "buffer underflow",
            DecodeError::WireTypeMismatch => "wire type mismatch",
        }
    }
}

} // verus!
