use crate::trace::optimised::backtrace::Backtrace;
use crate::trace::optimised::backtrace::BacktraceID;
use crate::trace::optimised::backtrace::BacktraceInterner;
use crate::trace::optimised::error::IdentifierSpaceExhausted;
use crate::trace::optimised::interning::interned;
use crate::trace::optimised::interning::interned_all;
use crate::trace::optimised::interning::lemma_interned_all;
use crate::trace::optimised::interning::lemma_interned_all_concat;
use crate::trace::optimised::interning::lemma_interned_all_push;
use crate::trace::optimised::interning::lemma_prefix_keeps_identifiers;
use crate::trace::optimised::model::backtrace_keys;
use crate::trace::optimised::model::exhaustion;
use crate::trace::optimised::model::frame_ids;
use crate::trace::optimised::model::backtrace_table;
use crate::trace::optimised::model::frame_table;
use crate::trace::optimised::model::lemma_backtrace_table_push;
use crate::trace::optimised::model::lemma_exhaustion_stays;
use crate::trace::optimised::model::lemma_frame_table_push;
use crate::trace::optimised::model::lemma_optimised_is_well_formed;
use crate::trace::optimised::model::lemma_optimised_sample;
use crate::trace::optimised::model::optimised;
use crate::trace::optimised::model::optimised_sample;
use crate::trace::optimised::model::TraceView;
use crate::trace::optimised::sample::Sample;
use crate::trace::optimised::stack_frame::StackFrame;
use crate::trace::optimised::stack_frame::StackFrameID;
use crate::trace::optimised::stack_frame::StackFrameInterner;
use crate::trace::raw::sample::Sample as RawSample;
use crate::trace::raw::sample::SampleView;
use crate::trace::raw::trace::Trace as RawTrace;
use crate::trace::shared::instruction_pointer::InstructionPointer;
use vstd::prelude::*;

verus! {

/// A trace in deduplicated form: every distinct instruction pointer is one
/// stack frame, every distinct call stack one backtrace, and a sample names
/// its backtrace by identifier.
///
/// Stack frames and backtraces stand in first-seen order, the samples in
/// capture order.
#[derive(Debug, Clone, PartialEq, Eq, Hash)]
pub struct Trace {
    pub stack_frames: Vec<StackFrame>,
    pub backtraces: Vec<Backtrace>,
    pub samples: Vec<Sample>,
}

impl View for Trace {
    type V = TraceView;

    open spec fn view(&self) -> TraceView {
        TraceView {
            stack_frames: self.stack_frames@,
            backtraces: self.backtraces@.map_values(|backtrace: Backtrace| backtrace@),
            samples: self.samples@,
        }
    }
}

/// Optimises one recorded sample: interns its instruction pointers, top of
/// stack first, then the sequence of their identifiers, and pairs the
/// identifier of that backtrace with the timestamp of the sample.
///
/// Fails where a counter cannot advance. The backtraces are then as they
/// were, and of the instruction pointers of the sample those before the one
/// that found no identifier are interned.
pub fn raw_to_optimised_sample(
    raw_sample: &RawSample,
    stack_frames: &mut StackFrameInterner,
    backtraces: &mut BacktraceInterner,
) -> (result: Result<Sample, IdentifierSpaceExhausted>)
    requires
        old(stack_frames).wf(),
        old(backtraces).wf(),
    ensures
        final(stack_frames).wf(),
        final(backtraces).wf(),
        result == optimised_sample(old(stack_frames)@, old(backtraces)@, raw_sample@),
        result is Ok ==> final(stack_frames)@ == interned_all(
            old(stack_frames)@,
            raw_sample@.backtrace,
        ),
        result is Ok ==> final(backtraces)@ == interned(
            old(backtraces)@,
            frame_ids(final(stack_frames)@, raw_sample@.backtrace),
        ),
        result is Err ==> final(backtraces)@ == old(backtraces)@,
        result is Err ==> exists|n: int|
            0 <= n <= raw_sample@.backtrace.len() && final(stack_frames)@ == interned_all(
                old(stack_frames)@,
                #[trigger] raw_sample@.backtrace.take(n),
            ),
{
    let ghost table = stack_frames@;
    let ghost stack = raw_sample@.backtrace;
    let mut ids: Vec<StackFrameID> = Vec::new();
    let mut i: usize = 0;
    while i < raw_sample.backtrace.0.len()
        invariant
            i <= stack.len(),
            stack == raw_sample@.backtrace,
            table == old(stack_frames)@,
            *backtraces == *old(backtraces),
            backtraces.wf(),
            stack_frames.wf(),
            stack_frames@ == interned_all(table, stack.take(i as int)),
            ids@ == frame_ids(stack_frames@, stack.take(i as int)),
        decreases stack.len() - i,
    {
        let ghost before = stack_frames@;
        let instruction_pointer = raw_sample.backtrace.0[i];
        proof {
            assert(stack.take(i + 1) =~= stack.take(i as int).push(instruction_pointer));
            lemma_interned_all_push(table, stack.take(i as int), instruction_pointer);
        }
        match stack_frames.intern(instruction_pointer) {
            Err(counter) => {
                proof {
                    assert(stack =~= stack.take(i + 1) + stack.skip(i + 1));
                    lemma_interned_all_concat(table, stack.take(i + 1), stack.skip(i + 1));
                    lemma_interned_all(
                        interned_all(table, stack.take(i + 1)),
                        stack.skip(i + 1),
                    );
                }
                return Err(counter);
            },
            Ok(id) => {
                proof {
                    stack_frames.lemma_wf();
                    assert(before.is_prefix_of(stack_frames@));
                    assert forall|j: int| 0 <= j < i implies frame_ids(
                        stack_frames@,
                        stack.take(i + 1),
                    )[j] == ids@[j] by {
                        lemma_interned_all(table, stack.take(i as int));
                        assert(stack.take(i as int).contains(stack.take(i as int)[j]));
                        lemma_prefix_keeps_identifiers(before, stack_frames@, stack[j]);
                    }
                }
                ids.push(id);
                proof {
                    assert(ids@ =~= frame_ids(stack_frames@, stack.take(i + 1)));
                }
            },
        }
        i = i + 1;
    }
    proof {
        assert(stack.take(i as int) =~= stack);
        stack_frames.lemma_wf();
        backtraces.lemma_wf();
    }
    match backtraces.intern(ids) {
        Err(counter) => Err(counter),
        Ok(id) => Ok(Sample { backtrace: id, timestamp: raw_sample.timestamp }),
    }
}

impl Trace {
    /// The trace is numbered from 1, holds no stack frame and no backtrace
    /// twice, and holds every one that it refers to.
    pub open spec fn wf(&self) -> bool {
        self@.wf()
    }

    /// Looks up a stack frame by its identifier.
    pub fn stack_frame(&self, id: StackFrameID) -> (found: Option<&StackFrame>)
        requires
            self.wf(),
        ensures
            found is Some <==> self@.has_stack_frame(id),
            found is Some ==> found->Some_0.id == id && self.stack_frames@.contains(
                *found->Some_0,
            ),
    {
        if 1 <= id.0 && id.0 <= self.stack_frames.len() as u64 {
            let position: usize = (id.0 - 1) as usize;
            assert(self@.stack_frames[position as int].id == id);
            Some(&self.stack_frames[position])
        } else {
            None
        }
    }

    /// Looks up a backtrace by its identifier.
    pub fn backtrace(&self, id: BacktraceID) -> (found: Option<&Backtrace>)
        requires
            self.wf(),
        ensures
            found is Some <==> self@.has_backtrace(id),
            found is Some ==> found->Some_0.id == id && self.backtraces@.contains(
                *found->Some_0,
            ),
    {
        if 1 <= id.0 && id.0 <= self.backtraces.len() as u64 {
            let position: usize = (id.0 - 1) as usize;
            assert(self@.backtraces[position as int].id == id);
            Some(&self.backtraces[position])
        } else {
            None
        }
    }

    /// Optimises a recorded trace, or reports the counter that ran out of
    /// identifiers first.
    pub fn try_new(raw_trace: RawTrace) -> (result: Result<Trace, IdentifierSpaceExhausted>)
        ensures
            match result {
                Ok(trace) => exhaustion(raw_trace@) is None && trace@ == optimised(raw_trace@)
                    && trace.wf(),
                Err(counter) => exhaustion(raw_trace@) == Some(counter),
            },
    {
        let ghost raw = raw_trace@;
        let mut stack_frames = StackFrameInterner::new();
        let mut backtraces = BacktraceInterner::new();
        let mut samples: Vec<Sample> = Vec::new();
        let mut i: usize = 0;
        proof {
            assert(raw.take(0).map_values(|sample: SampleView| sample.backtrace) =~= Seq::<
                Seq<InstructionPointer>,
            >::empty());
            assert(backtrace_keys(raw.take(0)) =~= Seq::<Seq<StackFrameID>>::empty());
            assert(optimised(raw.take(0)).samples =~= Seq::<Sample>::empty());
        }
        while i < raw_trace.samples.len()
            invariant
                i <= raw.len(),
                raw == raw_trace@,
                raw.len() == raw_trace.samples@.len(),
                stack_frames.wf(),
                backtraces.wf(),
                stack_frames@ == frame_table(raw.take(i as int)),
                backtraces@ == backtrace_table(raw.take(i as int)),
                samples@ == optimised(raw.take(i as int)).samples,
                exhaustion(raw.take(i as int)) is None,
            decreases raw.len() - i,
        {
            proof {
                assert(raw.take(i + 1) =~= raw.take(i as int).push(raw[i as int]));
                lemma_optimised_sample(raw.take(i as int), raw[i as int]);
                lemma_frame_table_push(raw.take(i as int), raw[i as int]);
                lemma_backtrace_table_push(raw.take(i as int), raw[i as int]);
            }
            match raw_to_optimised_sample(&raw_trace.samples[i], &mut stack_frames, &mut backtraces) {
                Err(counter) => {
                    proof {
                        lemma_exhaustion_stays(raw, i + 1);
                    }
                    return Err(counter);
                },
                Ok(sample) => {
                    samples.push(sample);
                },
            }
            i = i + 1;
        }
        proof {
            assert(raw.take(i as int) =~= raw);
            lemma_optimised_is_well_formed(raw);
        }
        let trace = Trace {
            stack_frames: stack_frames.into_stack_frames(),
            backtraces: backtraces.into_backtraces(),
            samples,
        };
        Ok(trace)
    }

    /// Optimises a recorded trace that does not run out of identifiers.
    pub fn new(raw_trace: RawTrace) -> (trace: Trace)
        requires
            exhaustion(raw_trace@) is None,
        ensures
            trace@ == optimised(raw_trace@),
            trace.wf(),
    {
        match Trace::try_new(raw_trace) {
            Ok(trace) => trace,
            Err(_) => vstd::pervasive::unreached(),
        }
    }
}

/// Optimising is deterministic: two optimised traces built from recorded
/// traces with the same samples hold the same stack frames, the same
/// backtraces and the same samples, identifiers included.
pub proof fn lemma_optimising_is_deterministic(
    first_raw: RawTrace,
    second_raw: RawTrace,
    first: Trace,
    second: Trace,
)
    requires
        first_raw@ == second_raw@,
        first@ == optimised(first_raw@),
        second@ == optimised(second_raw@),
    ensures
        first@ == second@,
{
}

} // verus!
