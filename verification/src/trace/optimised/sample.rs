use crate::trace::optimised::backtrace::BacktraceID;
use crate::trace::shared::timestamp::Timestamp;
use vstd::prelude::*;

verus! {

/// One capture in deduplicated form: the interned backtrace it saw, and the
/// instant, copied from the recorded sample.
#[derive(Debug, Clone, Copy, PartialEq, Eq, Hash, Structural)]
pub struct Sample {
    pub backtrace: BacktraceID,
    pub timestamp: Timestamp,
}

} // verus!
