use crate::trace::shared::instruction_pointer::InstructionPointer;
use vstd::prelude::*;

verus! {

/// One captured call stack: its instruction pointers, top of stack first.
#[derive(Debug, Clone, PartialEq, Eq, Hash)]
pub struct Backtrace(pub Vec<InstructionPointer>);

impl View for Backtrace {
    type V = Seq<InstructionPointer>;

    open spec fn view(&self) -> Seq<InstructionPointer> {
        self.0@
    }
}

} // verus!
