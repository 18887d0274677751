use crate::trace::raw::sample::Sample;
use crate::trace::raw::sample::SampleView;
use vstd::prelude::*;

verus! {

/// A recorded trace: the samples of one profiling run, in capture order.
#[derive(Debug, Clone, PartialEq, Eq, Hash)]
pub struct Trace {
    pub samples: Vec<Sample>,
}

impl View for Trace {
    type V = Seq<SampleView>;

    open spec fn view(&self) -> Seq<SampleView> {
        self.samples@.map_values(|sample: Sample| sample@)
    }
}

impl Trace {
    /// The samples, in capture order.
    pub fn samples(&self) -> (samples: &Vec<Sample>)
        ensures
            *samples == self.samples,
    {
        &self.samples
    }
}

} // verus!
