use vstd::prelude::*;

verus! {

/// Why a trace could not be optimised: one of the two identifier counters
/// cannot advance any further.
///
/// Identifiers are never reused and never wrap around, so nothing more can be
/// interned once a counter has reached the largest 64-bit value.
#[derive(Debug, Clone, Copy, PartialEq, Eq, Hash, Structural)]
pub enum IdentifierSpaceExhausted {
    /// The counter of stack frame identifiers would overflow.
    StackFrames,
    /// The counter of backtrace identifiers would overflow.
    Backtraces,
}

} // verus!
