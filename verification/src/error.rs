//! The ways in which a line can fail to decode.

use vstd::prelude::*;

verus! {

/// Why a line, or a run of hexadecimal text, was rejected.
#[derive(Clone, Copy, Debug, PartialEq, Eq, Structural)]
pub enum DecodeError {
    /// The line does not start with `S` and a type character, is shorter than
    /// its byte count declares, declares a count too small to hold its
    /// address and checksum, or holds a character that is not a hexadecimal
    /// digit in its count, address or payload.
    MalformedHeader,
    /// A payload offset was asked for a record type that carries no payload.
    UnsupportedRecordType,
    /// The payload has an odd number of hexadecimal digits.
    OddPayloadLength,
}

} // verus!
