use vstd::prelude::*;

verus! {

/// A raw return address captured from the call stack of the profiled program.
///
/// The value is opaque: two instruction pointers are the same exactly when
/// their 64 bits are.
#[derive(Debug, Clone, Copy, PartialEq, Eq, Hash, Structural)]
pub struct InstructionPointer(pub u64);

} // verus!
