use crate::raw_trace::RawTrace;
pub use crate::trace::optimised::backtrace::Backtrace as OptimisedBacktrace;
pub use crate::trace::optimised::backtrace::BacktraceID;
use crate::trace::optimised::backtrace::BacktraceInterner;
use crate::trace::optimised::interning::interned_all;
use crate::trace::optimised::interning::lemma_interned_all;
use crate::trace::optimised::interning::lemma_interned_all_concat;
use crate::trace::optimised::interning::lemma_interned_all_push;
use crate::trace::optimised::interning::lemma_prefix_keeps_identifiers;
use crate::trace::optimised::model::backtrace_keys;
use crate::trace::optimised::model::backtrace_table;
use crate::trace::optimised::model::exhaustion;
use crate::trace::optimised::model::frame_ids;
use crate::trace::optimised::model::frame_table;
use crate::trace::optimised::model::lemma_backtrace_table_push;
use crate::trace::optimised::model::lemma_exhaustion_stays;
use crate::trace::optimised::model::lemma_frame_table_push;
use crate::trace::optimised::model::lemma_optimised_is_well_formed;
use crate::trace::optimised::model::lemma_optimised_sample;
use crate::trace::optimised::model::optimised;
use crate::trace::optimised::model::TraceView;
pub use crate::trace::optimised::sample::Sample as OptimisedSample;
pub use crate::trace::optimised::stack_frame::StackFrame;
pub use crate::trace::optimised::stack_frame::StackFrameID;
use crate::trace::optimised::stack_frame::StackFrameInterner;
use crate::trace::raw::sample::SampleView;
use crate::trace::shared::instruction_pointer::InstructionPointer;
use vstd::prelude::*;

verus! {

/// An optimised trace as one value: the interned stack frames and
/// backtraces, each in first-seen order, and the samples in capture order.
#[derive(Debug, Clone, PartialEq, Eq, Hash)]
pub struct OptimisedTrace {
    pub stack_frames: Vec<StackFrame>,
    pub backtraces: Vec<OptimisedBacktrace>,
    pub samples: Vec<OptimisedSample>,
}

impl View for OptimisedTrace {
    type V = TraceView;

    open spec fn view(&self) -> TraceView {
        TraceView {
            stack_frames: self.stack_frames@,
            backtraces: self.backtraces@.map_values(|backtrace: OptimisedBacktrace| backtrace@),
            samples: self.samples@,
        }
    }
}

impl OptimisedTrace {
    /// Optimises a recorded trace in one pass over its samples.
    ///
    /// Each instruction pointer of a sample is interned, top of stack first,
    /// then the sequence of the identifiers, and the sample is kept with the
    /// identifier of its backtrace and its own timestamp. The recorded trace
    /// must not run out of identifiers.
    pub fn new(raw_trace: RawTrace) -> (trace: OptimisedTrace)
        requires
            exhaustion(raw_trace@) is None,
        ensures
            trace@ == optimised(raw_trace@),
            trace@.wf(),
    {
        let ghost raw = raw_trace@;
        let mut stack_frames = StackFrameInterner::new();
        let mut backtraces = BacktraceInterner::new();
        let mut samples: Vec<OptimisedSample> = Vec::new();
        proof {
            assert(raw.take(0).map_values(|sample: SampleView| sample.backtrace) =~= Seq::<
                Seq<InstructionPointer>,
            >::empty());
            assert(backtrace_keys(raw.take(0)) =~= Seq::<Seq<StackFrameID>>::empty());
            assert(optimised(raw.take(0)).samples =~= Seq::<OptimisedSample>::empty());
        }
        let mut i: usize = 0;
        while i < raw_trace.samples.len()
            invariant
                i <= raw.len(),
                raw == raw_trace@,
                raw.len() == raw_trace.samples@.len(),
                exhaustion(raw) is None,
                stack_frames.wf(),
                backtraces.wf(),
                stack_frames@ == frame_table(raw.take(i as int)),
                backtraces@ == backtrace_table(raw.take(i as int)),
                samples@ == optimised(raw.take(i as int)).samples,
                exhaustion(raw.take(i as int)) is None,
            decreases raw.len() - i,
        {
            let raw_sample = &raw_trace.samples[i];
            let ghost table = stack_frames@;
            let ghost stack = raw_sample@.backtrace;
            proof {
                assert(raw.take(i + 1) =~= raw.take(i as int).push(raw[i as int]));
                lemma_optimised_sample(raw.take(i as int), raw[i as int]);
                lemma_frame_table_push(raw.take(i as int), raw[i as int]);
                lemma_backtrace_table_push(raw.take(i as int), raw[i as int]);
                if exhaustion(raw.take(i + 1)) is Some {
                    lemma_exhaustion_stays(raw, i + 1);
                }
            }
            let mut new_backtrace: Vec<StackFrameID> = Vec::new();
            let mut j: usize = 0;
            while j < raw_sample.backtrace.0.len()
                invariant
                    j <= stack.len(),
                    stack == raw_sample@.backtrace,
                    interned_all(table, stack).len() < u64::MAX,
                    stack_frames.wf(),
                    stack_frames@ == interned_all(table, stack.take(j as int)),
                    new_backtrace@ == frame_ids(stack_frames@, stack.take(j as int)),
                decreases stack.len() - j,
            {
                let ghost before = stack_frames@;
                let instruction_pointer = raw_sample.backtrace.0[j];
                proof {
                    assert(stack.take(j + 1) =~= stack.take(j as int).push(instruction_pointer));
                    lemma_interned_all_push(table, stack.take(j as int), instruction_pointer);
                    assert(stack =~= stack.take(j + 1) + stack.skip(j + 1));
                    lemma_interned_all_concat(table, stack.take(j + 1), stack.skip(j + 1));
                    lemma_interned_all(interned_all(table, stack.take(j + 1)), stack.skip(j + 1));
                }
                match stack_frames.intern(instruction_pointer) {
                    Ok(id) => {
                        proof {
                            stack_frames.lemma_wf();
                            assert(before.is_prefix_of(stack_frames@));
                            assert forall|k: int| 0 <= k < j implies frame_ids(
                                stack_frames@,
                                stack.take(j + 1),
                            )[k] == new_backtrace@[k] by {
                                lemma_interned_all(table, stack.take(j as int));
                                assert(stack.take(j as int).contains(stack.take(j as int)[k]));
                                lemma_prefix_keeps_identifiers(before, stack_frames@, stack[k]);
                            }
                        }
                        new_backtrace.push(id);
                        proof {
                            assert(new_backtrace@ =~= frame_ids(stack_frames@, stack.take(j + 1)));
                        }
                    },
                    Err(_) => {
                        vstd::pervasive::unreached::<()>();
                    },
                }
                j = j + 1;
            }
            proof {
                assert(stack.take(j as int) =~= stack);
            }
            match backtraces.intern(new_backtrace) {
                Ok(id) => {
                    samples.push(OptimisedSample { backtrace: id, timestamp: raw_sample.timestamp });
                },
                Err(_) => {
                    vstd::pervasive::unreached::<()>();
                },
            }
            i = i + 1;
        }
        proof {
            assert(raw.take(i as int) =~= raw);
            lemma_optimised_is_well_formed(raw);
        }
        OptimisedTrace {
            stack_frames: stack_frames.into_stack_frames(),
            backtraces: backtraces.into_backtraces(),
            samples,
        }
    }
}

} // verus!
