//! Error kinds reported by the library.

use vstd::prelude::*;

verus! {

/// Which hexadecimal field of a log line a decoding fault belongs to.
#[derive(Debug, Clone, Copy, PartialEq, Eq, Structural)]
pub enum HexField {
    /// The frame identifier, to the left of `#`.
    Id,
    /// The payload, to the right of `#`.
    Payload,
}

/// Why a hexadecimal text could not be decoded.
#[derive(Debug, Clone, Copy, PartialEq, Eq, Structural)]
pub enum HexFault {
    /// The text has an odd number of digits.
    OddLength,
    /// The byte at `index` is not a hexadecimal digit; `c` is that byte as a character.
    InvalidCharacter { c: char, index: usize },
    /// The decoded bytes do not fill the fixed-size value they are meant for.
    InvalidLength,
}

/// Everything that can go wrong between a log line and an extracted signal.
#[derive(Debug, Clone, Copy, PartialEq, Eq, Structural)]
pub enum CanError {
    /// The line does not have the form `(<timestamp>) <device> <id>#<payload>`.
    MalformedLine,
    /// A hexadecimal field of the line could not be decoded.
    HexDecode { field: HexField, fault: HexFault },
    /// A signal was requested from a frame without payload bytes.
    EmptyPayload,
    /// The first selected byte lies beyond the last one.
    EmptySelection,
    /// The selection holds more bytes than a 64-bit word.
    Config,
}

} // verus!
