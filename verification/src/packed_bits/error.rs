use crate::text::{append_decimal, decimal};
use vstd::prelude::*;
use vstd::string::StringExecFns;

verus! {

/// What can go wrong with a [`PackedBits`](super::PackedBits) array.
#[derive(Debug, PartialEq, Eq, Structural)]
pub enum PackedBitsError {
    /// The bit width is outside `1..=32`; holds the width.
    InvalidBitWidth(usize),
    /// The value does not fit in the bit width; holds the value and the width.
    ValueOverflow(u32, usize),
    /// The index is at or past the length; holds the index and the length.
    IndexOutOfBounds(usize, usize),
    /// The buffer is too short for the element count; holds the count.
    InsufficientBytes(usize),
    /// Kept for callers that match on it; no operation of this crate returns it.
    Unexpected,
}

impl PackedBitsError {
    /// The text of the error.
    pub open spec fn message(&self) -> Seq<char> {
        match self {
            PackedBitsError::InvalidBitWidth(n) => "Bit width N must be in the range 1..=32, got "@
                + decimal(*n as nat),
            PackedBitsError::ValueOverflow(v, n) => "Value "@ + decimal(*v as nat)
                + " does not fit in "@ + decimal(*n as nat) + " bits"@,
            PackedBitsError::IndexOutOfBounds(i, len) => "Index "@ + decimal(*i as nat)
                + " is out of bounds for length "@ + decimal(*len as nat),
            PackedBitsError::InsufficientBytes(n) => "Insufficient bytes for "@ + decimal(
                *n as nat,
            ) + " elements"@,
            PackedBitsError::Unexpected => "Unexpected error"@,
        }
    }

    /// Returns the text of the error.
    pub fn to_string(&self) -> (r: String)
        ensures
            r@ == self.message(),
    {
        match self {
            PackedBitsError::InvalidBitWidth(n) => {
                let mut out = String::from_str("Bit width N must be in the range 1..=32, got ");
                append_decimal(&mut out, *n as u64);
                out
            },
            PackedBitsError::ValueOverflow(v, n) => {
                let mut out = String::from_str("Value ");
                append_decimal(&mut out, *v as u64);
                out.append(" does not fit in ");
                append_decimal(&mut out, *n as u64);
                out.append(" bits");
                out
            },
            PackedBitsError::IndexOutOfBounds(i, len) => {
                let mut out = String::from_str("Index ");
                append_decimal(&mut out, *i as u64);
                out.append(" is out of bounds for length ");
                append_decimal(&mut out, *len as u64);
                out
            },
            PackedBitsError::InsufficientBytes(n) => {
                let mut out = String::from_str("Insufficient bytes for ");
                append_decimal(&mut out, *n as u64);
                out.append(" elements");
                out
            },
            PackedBitsError::Unexpected => String::from_str("Unexpected error"),
        }
    }
}

} // verus!
