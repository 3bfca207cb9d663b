use vstd::prelude::*;

verus! {

/// Every failure the library can report.  Each variant carries the value
/// that identifies the offending input.
#[derive(Debug, PartialEq, Eq)]
pub enum NrpsError {
    /// A result count that is not at least one.
    CountError(usize),
    /// Two vectors of unequal length were combined.
    DimensionMismatch { first: usize, second: usize },
    /// A token that should have held a real number did not parse.
    FloatParserError(String),
    /// A token that should have held an unsigned integer did not parse.
    IntParserError(String),
    /// A malformed line in a kernel-machine model file.
    InvalidFeatureLine(String),
    /// A malformed signature or signature-database row.
    SignatureError(String),
    /// A kernel-type code outside the supported set.
    UnsupportedKernel(usize),
}

} // verus!
