use vstd::prelude::*;

verus! {

/// Failures that stop the processing of a poll cycle or of one rule.
#[derive(Clone, Copy, Debug, PartialEq, Eq, Structural)]
pub enum NgsLogActionError {
    /// A numbered failure of the surrounding program.
    ErrorCode(u32),
    /// A value outside every known shape inside a recognised line; the
    /// decoding of the whole cycle stops.
    UnrecognizedFormat,
    /// A rule holds a pattern that does not compile.
    InvalidRegex,
    /// An item count would pass the largest `u32`.
    CounterOverflow,
    /// The local UTC offset could not be read.
    LocalOffsetUnavailable,
}

} // verus!
