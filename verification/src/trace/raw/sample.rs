use crate::trace::raw::backtrace::Backtrace;
use crate::trace::shared::instruction_pointer::InstructionPointer;
use crate::trace::shared::timestamp::Timestamp;
use vstd::prelude::*;

verus! {

/// One capture as it was recorded: the call stack and the instant.
#[derive(Debug, Clone, PartialEq, Eq, Hash)]
pub struct Sample {
    pub backtrace: Backtrace,
    pub timestamp: Timestamp,
}

/// What a recorded sample holds, as mathematical values.
pub struct SampleView {
    pub backtrace: Seq<InstructionPointer>,
    pub timestamp: Timestamp,
}

impl View for Sample {
    type V = SampleView;

    open spec fn view(&self) -> SampleView {
        SampleView { backtrace: self.backtrace@, timestamp: self.timestamp }
    }
}

} // verus!
