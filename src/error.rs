use vstd::prelude::*;

verus! {

/// The one failure that callers of the decoder see.
#[derive(Debug, Clone, Copy, PartialEq, Eq, Structural)]
pub enum SunlightError {
    Parser,
}

impl SunlightError {
    /// Human-readable description of the failure.
    pub fn message(&self) -> (r: String)
        ensures
            r@ == "Could not parse provided protobuf bytes"@,
    {
        match self {
            SunlightError::Parser => String::from_str("Could not parse provided protobuf bytes"),
        }
    }
}

/// Failures of the low-level readers; they never leave the decoder.
#[derive(Debug, Clone, Copy, PartialEq, Eq, Structural)]
pub enum ParseError {
    /// The buffer ended before the bytes that the wire format asks for.
    InsufficientBytes,
    /// A multi-byte field number does not fit in `usize`.
    FieldOverflow,
}

} // verus!
