pub use crate::trace::raw::backtrace::Backtrace;
pub use crate::trace::raw::sample::Sample;
use crate::trace::raw::sample::SampleView;
pub use crate::trace::shared::instruction_pointer::InstructionPointer;
pub use crate::trace::shared::timestamp::Timestamp;
use vstd::prelude::*;

verus! {

/// A recorded trace as one value: the samples of one profiling run, in
/// capture order.
#[derive(Debug, Clone, PartialEq, Eq, Hash)]
pub struct RawTrace {
    pub samples: Vec<Sample>,
}

impl View for RawTrace {
    type V = Seq<SampleView>;

    open spec fn view(&self) -> Seq<SampleView> {
        self.samples@.map_values(|sample: Sample| sample@)
    }
}

impl RawTrace {
    /// The samples, in capture order.
    pub fn samples(&self) -> (samples: &Vec<Sample>)
        ensures
            *samples == self.samples,
    {
        &self.samples
    }
}

} // verus!
