//! The ways in which an operation of the recorder can fail.

use vstd::prelude::*;

verus! {

/// Why an operation was refused. A failure ends the operation at hand and
/// leaves the recorder as it was.
#[derive(Debug, Clone, Copy, PartialEq, Eq)]
pub enum RecError {
    /// A discriminant that the catalog does not hold.
    UnknownDiscriminant,
    /// Two samples of one record share a discriminant.
    DuplicateField,
    /// A cell of text that does not denote what was expected there.
    ParseError,
    /// The peer left the protocol: a frame longer than allowed, or cut short.
    ProtocolViolation,
    /// The link could not be opened, read or written.
    TransportError,
    /// A payload that cannot be expanded.
    CompressionError,
    /// A running total that left the range of a decimal.
    Overflow,
}

} // verus!
