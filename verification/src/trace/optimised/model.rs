use crate::trace::optimised::backtrace::backtraces_of;
use crate::trace::optimised::backtrace::BacktraceID;
use crate::trace::optimised::backtrace::BacktraceView;
use crate::trace::optimised::error::IdentifierSpaceExhausted;
use crate::trace::optimised::interning::admits;
use crate::trace::optimised::interning::first_seen;
use crate::trace::optimised::interning::identifier;
use crate::trace::optimised::interning::interned;
use crate::trace::optimised::interning::interned_all;
use crate::trace::optimised::interning::lemma_identifier_in_range;
use crate::trace::optimised::interning::lemma_interned_all;
use crate::trace::optimised::interning::lemma_interned_all_len;
use crate::trace::optimised::interning::lemma_interned_all_concat;
use crate::trace::optimised::interning::lemma_interned_all_push;
use crate::trace::optimised::interning::lemma_prefix_keeps_identifiers;
use crate::trace::optimised::sample::Sample;
use crate::trace::optimised::stack_frame::stack_frames_of;
use crate::trace::optimised::stack_frame::StackFrame;
use crate::trace::optimised::stack_frame::StackFrameID;
use crate::trace::raw::sample::SampleView;
use crate::trace::shared::instruction_pointer::InstructionPointer;
use vstd::prelude::*;

verus! {

/// What an optimised trace holds, as mathematical values: the interned stack
/// frames and backtraces, each in first-seen order, and the samples in
/// capture order.
pub struct TraceView {
    pub stack_frames: Seq<StackFrame>,
    pub backtraces: Seq<BacktraceView>,
    pub samples: Seq<Sample>,
}

impl TraceView {
    /// Whether a stack frame with the identifier `id` is in the trace.
    pub open spec fn has_stack_frame(self, id: StackFrameID) -> bool {
        exists|i: int| 0 <= i < self.stack_frames.len() && #[trigger] self.stack_frames[i].id == id
    }

    /// Whether a backtrace with the identifier `id` is in the trace.
    pub open spec fn has_backtrace(self, id: BacktraceID) -> bool {
        exists|i: int| 0 <= i < self.backtraces.len() && #[trigger] self.backtraces[i].id == id
    }

    /// Stack frames and backtraces are numbered from 1 in the order in which
    /// they stand.
    pub open spec fn numbered(self) -> bool {
        &&& forall|i: int|
            0 <= i < self.stack_frames.len() ==> (#[trigger] self.stack_frames[i]).id.0 == i + 1
        &&& forall|i: int|
            0 <= i < self.backtraces.len() ==> (#[trigger] self.backtraces[i]).id.0 == i + 1
    }

    /// Every stack frame that a backtrace names is in the trace, and so is
    /// every backtrace that a sample names.
    pub open spec fn referentially_closed(self) -> bool {
        &&& forall|i: int, j: int|
            0 <= i < self.backtraces.len() && 0 <= j < self.backtraces[i].stack_frames.len()
                ==> self.has_stack_frame(#[trigger] self.backtraces[i].stack_frames[j])
        &&& forall|i: int|
            0 <= i < self.samples.len() ==> self.has_backtrace(
                (#[trigger] self.samples[i]).backtrace,
            )
    }

    /// No two stack frames share an identifier or an instruction pointer, and
    /// no two backtraces share an identifier or a sequence of frames.
    pub open spec fn deduplicated(self) -> bool {
        &&& forall|i: int, j: int|
            0 <= i < self.stack_frames.len() && 0 <= j < self.stack_frames.len() && i != j ==> (
            #[trigger] self.stack_frames[i]).id != (#[trigger] self.stack_frames[j]).id
                && self.stack_frames[i].instruction_pointer
                != self.stack_frames[j].instruction_pointer
        &&& forall|i: int, j: int|
            0 <= i < self.backtraces.len() && 0 <= j < self.backtraces.len() && i != j ==> (
            #[trigger] self.backtraces[i]).id != (#[trigger] self.backtraces[j]).id
                && self.backtraces[i].stack_frames != self.backtraces[j].stack_frames
    }

    /// The trace is numbered, holds nothing twice and holds everything it
    /// refers to.
    pub open spec fn wf(self) -> bool {
        &&& self.numbered()
        &&& self.deduplicated()
        &&& self.referentially_closed()
    }
}

/// Every instruction pointer of a recorded trace, in capture order: sample
/// after sample, top of stack first.
pub open spec fn instruction_pointers(raw: Seq<SampleView>) -> Seq<InstructionPointer> {
    raw.map_values(|sample: SampleView| sample.backtrace).flatten()
}

/// The distinct instruction pointers of a recorded trace, in first-seen
/// order.
pub open spec fn frame_table(raw: Seq<SampleView>) -> Seq<InstructionPointer> {
    first_seen(instruction_pointers(raw))
}

/// A call stack with each instruction pointer replaced by the identifier
/// that `table` gives it.
pub open spec fn frame_ids(table: Seq<InstructionPointer>, backtrace: Seq<InstructionPointer>) -> Seq<
    StackFrameID,
> {
    backtrace.map_values(|ip: InstructionPointer| StackFrameID(identifier(table, ip) as u64))
}

/// The call stack of each sample of a recorded trace, as stack frame
/// identifiers.
pub open spec fn backtrace_keys(raw: Seq<SampleView>) -> Seq<Seq<StackFrameID>> {
    raw.map_values(|sample: SampleView| frame_ids(frame_table(raw), sample.backtrace))
}

/// The distinct call stacks of a recorded trace, as stack frame identifiers,
/// in first-seen order.
pub open spec fn backtrace_table(raw: Seq<SampleView>) -> Seq<Seq<StackFrameID>> {
    first_seen(backtrace_keys(raw))
}

/// The optimised form of a recorded trace.
///
/// Its stack frames are the distinct instruction pointers and its backtraces
/// the distinct call stacks, both numbered from 1 in first-seen order. Sample
/// `i` names the backtrace of the call stack of recorded sample `i` and
/// carries its timestamp.
pub open spec fn optimised(raw: Seq<SampleView>) -> TraceView {
    TraceView {
        stack_frames: stack_frames_of(frame_table(raw)),
        backtraces: backtraces_of(backtrace_table(raw)),
        samples: Seq::new(
            raw.len(),
            |i: int|
                Sample {
                    backtrace: BacktraceID(
                        identifier(backtrace_table(raw), backtrace_keys(raw)[i]) as u64,
                    ),
                    timestamp: raw[i].timestamp,
                },
        ),
    }
}

/// Whether, and where first, a recorded trace runs out of identifiers.
///
/// Samples are taken in capture order, and within a sample the frames before
/// the backtrace. The first counter that would have to pass the largest
/// 64-bit value decides.
pub open spec fn exhaustion(raw: Seq<SampleView>) -> Option<IdentifierSpaceExhausted>
    decreases raw.len(),
{
    if raw.len() == 0 {
        None
    } else if exhaustion(raw.drop_last()) is Some {
        exhaustion(raw.drop_last())
    } else if frame_table(raw).len() >= u64::MAX {
        Some(IdentifierSpaceExhausted::StackFrames)
    } else if backtrace_table(raw).len() >= u64::MAX {
        Some(IdentifierSpaceExhausted::Backtraces)
    } else {
        None
    }
}

/// What optimising one more recorded sample gives, starting from the tables
/// `frames` and `backtraces`: the optimised sample, or the counter that is
/// exhausted first.
pub open spec fn optimised_sample(
    frames: Seq<InstructionPointer>,
    backtraces: Seq<Seq<StackFrameID>>,
    sample: SampleView,
) -> Result<Sample, IdentifierSpaceExhausted> {
    let frames_after = interned_all(frames, sample.backtrace);
    let key = frame_ids(frames_after, sample.backtrace);
    if frames_after.len() >= u64::MAX {
        Err(IdentifierSpaceExhausted::StackFrames)
    } else if !admits(backtraces, key) {
        Err(IdentifierSpaceExhausted::Backtraces)
    } else {
        Ok(
            Sample {
                backtrace: BacktraceID(identifier(interned(backtraces, key), key) as u64),
                timestamp: sample.timestamp,
            },
        )
    }
}

/// The instruction pointers of a trace with one more sample.
pub proof fn lemma_instruction_pointers_push(raw: Seq<SampleView>, sample: SampleView)
    ensures
        instruction_pointers(raw.push(sample)) == instruction_pointers(raw) + sample.backtrace,
{
    let stacks = raw.map_values(|sample: SampleView| sample.backtrace);
    assert(raw.push(sample).map_values(|sample: SampleView| sample.backtrace) =~= stacks.push(
        sample.backtrace,
    ));
    stacks.lemma_flatten_push(sample.backtrace);
}

/// Every instruction pointer of every sample is among the instruction
/// pointers of the trace.
pub proof fn lemma_instruction_pointers_contains(raw: Seq<SampleView>, i: int, j: int)
    requires
        0 <= i < raw.len(),
        0 <= j < raw[i].backtrace.len(),
    ensures
        instruction_pointers(raw).contains(raw[i].backtrace[j]),
        frame_table(raw).contains(raw[i].backtrace[j]),
    decreases raw.len(),
{
    let front = raw.drop_last();
    let ip = raw[i].backtrace[j];
    assert(front.push(raw.last()) =~= raw);
    lemma_instruction_pointers_push(front, raw.last());
    let all = instruction_pointers(raw);
    if i < front.len() {
        lemma_instruction_pointers_contains(front, i, j);
        let k = choose|k: int|
            0 <= k < instruction_pointers(front).len() && instruction_pointers(front)[k] == ip;
        assert(all[k] == ip);
    } else {
        assert(all[instruction_pointers(front).len() + j] == ip);
    }
    lemma_interned_all(Seq::<InstructionPointer>::empty(), all);
}

/// The frame table of a trace with one more sample: the pointers of the new
/// sample are interned into the table of the samples before it.
pub proof fn lemma_frame_table_push(raw: Seq<SampleView>, sample: SampleView)
    ensures
        frame_table(raw.push(sample)) == interned_all(frame_table(raw), sample.backtrace),
        frame_table(raw).is_prefix_of(frame_table(raw.push(sample))),
        frame_table(raw.push(sample)).no_duplicates(),
{
    lemma_instruction_pointers_push(raw, sample);
    lemma_interned_all_concat(
        Seq::<InstructionPointer>::empty(),
        instruction_pointers(raw),
        sample.backtrace,
    );
    lemma_interned_all(frame_table(raw), sample.backtrace);
    lemma_interned_all(
        Seq::<InstructionPointer>::empty(),
        instruction_pointers(raw.push(sample)),
    );
}

/// The call stacks of a trace with one more sample: those of the samples
/// before keep their frame identifiers, and the new one comes last.
pub proof fn lemma_backtrace_keys_push(raw: Seq<SampleView>, sample: SampleView)
    ensures
        backtrace_keys(raw.push(sample)) == backtrace_keys(raw).push(
            frame_ids(frame_table(raw.push(sample)), sample.backtrace),
        ),
{
    let longer = raw.push(sample);
    lemma_frame_table_push(raw, sample);
    let keys = backtrace_keys(raw).push(frame_ids(frame_table(longer), sample.backtrace));
    assert forall|i: int| 0 <= i < longer.len() implies backtrace_keys(longer)[i] == keys[i] by {
        if i < raw.len() {
            let stack = raw[i].backtrace;
            assert forall|j: int| 0 <= j < stack.len() implies frame_ids(
                frame_table(longer),
                stack,
            )[j] == frame_ids(frame_table(raw), stack)[j] by {
                lemma_instruction_pointers_contains(raw, i, j);
                lemma_prefix_keeps_identifiers(frame_table(raw), frame_table(longer), stack[j]);
            }
            assert(frame_ids(frame_table(longer), stack) =~= frame_ids(frame_table(raw), stack));
        }
    }
    assert(backtrace_keys(longer) =~= keys);
}

/// The backtrace table of a trace with one more sample: the call stack of
/// the new sample is interned into the table of the samples before it.
pub proof fn lemma_backtrace_table_push(raw: Seq<SampleView>, sample: SampleView)
    ensures
        backtrace_table(raw.push(sample)) == interned(
            backtrace_table(raw),
            frame_ids(frame_table(raw.push(sample)), sample.backtrace),
        ),
        backtrace_table(raw).is_prefix_of(backtrace_table(raw.push(sample))),
        backtrace_table(raw.push(sample)).no_duplicates(),
{
    let key = frame_ids(frame_table(raw.push(sample)), sample.backtrace);
    lemma_backtrace_keys_push(raw, sample);
    lemma_interned_all_push(Seq::<Seq<StackFrameID>>::empty(), backtrace_keys(raw), key);
    lemma_interned_all(Seq::<Seq<StackFrameID>>::empty(), backtrace_keys(raw.push(sample)));
    lemma_interned_all(Seq::<Seq<StackFrameID>>::empty(), backtrace_keys(raw));
}

/// The samples of the optimised form of a trace with one more sample: those
/// before keep their backtrace, and the new one comes last.
pub proof fn lemma_optimised_samples_push(raw: Seq<SampleView>, sample: SampleView)
    ensures
        optimised(raw.push(sample)).samples == optimised(raw).samples.push(
            Sample {
                backtrace: BacktraceID(
                    identifier(
                        backtrace_table(raw.push(sample)),
                        frame_ids(frame_table(raw.push(sample)), sample.backtrace),
                    ) as u64,
                ),
                timestamp: sample.timestamp,
            },
        ),
{
    let longer = raw.push(sample);
    let key = frame_ids(frame_table(longer), sample.backtrace);
    lemma_backtrace_keys_push(raw, sample);
    lemma_backtrace_table_push(raw, sample);
    lemma_interned_all(Seq::<Seq<StackFrameID>>::empty(), backtrace_keys(raw));
    let expected = optimised(raw).samples.push(
        Sample {
            backtrace: BacktraceID(identifier(backtrace_table(longer), key) as u64),
            timestamp: sample.timestamp,
        },
    );
    assert forall|i: int| 0 <= i < longer.len() implies optimised(longer).samples[i]
        == expected[i] by {
        if i < raw.len() {
            assert(backtrace_keys(longer)[i] == backtrace_keys(raw)[i]);
            assert(backtrace_keys(raw).contains(backtrace_keys(raw)[i]));
            lemma_prefix_keeps_identifiers(
                backtrace_table(raw),
                backtrace_table(longer),
                backtrace_keys(raw)[i],
            );
        }
    }
    assert(optimised(longer).samples =~= expected);
}

/// A recorded trace runs out of identifiers exactly when it has too many
/// distinct instruction pointers or too many distinct call stacks for the
/// counters: as many as the largest 64-bit value, or more.
pub proof fn lemma_exhaustion(raw: Seq<SampleView>)
    ensures
        exhaustion(raw) is None <==> frame_table(raw).len() < u64::MAX && backtrace_table(
            raw,
        ).len() < u64::MAX,
    decreases raw.len(),
{
    if raw.len() == 0 {
        assert(backtrace_keys(raw) =~= Seq::<Seq<StackFrameID>>::empty());
        assert(raw.map_values(|sample: SampleView| sample.backtrace) =~= Seq::<
            Seq<InstructionPointer>,
        >::empty());
    } else {
        let front = raw.drop_last();
        assert(front.push(raw.last()) =~= raw);
        lemma_exhaustion(front);
        lemma_frame_table_push(front, raw.last());
        lemma_backtrace_table_push(front, raw.last());
    }
}

/// Once a trace has run out of identifiers, recording more samples changes
/// neither that nor the counter that is blamed.
pub proof fn lemma_exhaustion_stays(raw: Seq<SampleView>, n: int)
    requires
        0 <= n <= raw.len(),
        exhaustion(raw.take(n)) is Some,
    ensures
        exhaustion(raw) == exhaustion(raw.take(n)),
    decreases raw.len() - n,
{
    if n == raw.len() {
        assert(raw.take(n) =~= raw);
    } else {
        assert(raw.drop_last().take(n) =~= raw.take(n));
        lemma_exhaustion_stays(raw.drop_last(), n);
    }
}

/// Optimising sample by sample gives the optimised trace: for a trace that
/// has not run out of identifiers, the step from its tables with one more
/// sample yields the last sample of the longer trace, or the counter at which
/// the longer trace runs out.
pub proof fn lemma_optimised_sample(raw: Seq<SampleView>, sample: SampleView)
    requires
        exhaustion(raw) is None,
    ensures
        match optimised_sample(frame_table(raw), backtrace_table(raw), sample) {
            Ok(last) => exhaustion(raw.push(sample)) is None && optimised(
                raw.push(sample),
            ).samples == optimised(raw).samples.push(last),
            Err(counter) => exhaustion(raw.push(sample)) == Some(counter),
        },
{
    let longer = raw.push(sample);
    assert(longer.drop_last() =~= raw);
    lemma_exhaustion(raw);
    lemma_frame_table_push(raw, sample);
    lemma_backtrace_table_push(raw, sample);
    lemma_optimised_samples_push(raw, sample);
}

/// A recorded trace with fewer samples and fewer instruction pointers in all
/// than the largest 64-bit value cannot run out of identifiers.
pub proof fn lemma_bounded_trace_fits(raw: Seq<SampleView>)
    requires
        raw.len() < u64::MAX,
        instruction_pointers(raw).len() < u64::MAX,
    ensures
        exhaustion(raw) is None,
{
    lemma_exhaustion(raw);
    lemma_interned_all_len(Seq::<InstructionPointer>::empty(), instruction_pointers(raw));
    lemma_interned_all_len(Seq::<Seq<StackFrameID>>::empty(), backtrace_keys(raw));
}

/// The optimised form of a trace that has not run out of identifiers is
/// numbered from 1, holds nothing twice, and holds every stack frame and
/// every backtrace that it refers to.
pub proof fn lemma_optimised_is_well_formed(raw: Seq<SampleView>)
    requires
        exhaustion(raw) is None,
    ensures
        optimised(raw).numbered(),
        optimised(raw).deduplicated(),
        optimised(raw).referentially_closed(),
        optimised(raw).wf(),
{
    let trace = optimised(raw);
    let frames = frame_table(raw);
    let stacks = backtrace_table(raw);
    let keys = backtrace_keys(raw);
    lemma_exhaustion(raw);
    lemma_interned_all(Seq::<InstructionPointer>::empty(), instruction_pointers(raw));
    lemma_interned_all(Seq::<Seq<StackFrameID>>::empty(), keys);
    assert forall|i: int, j: int|
        0 <= i < trace.backtraces.len() && 0 <= j < trace.backtraces[i].stack_frames.len()
        implies trace.has_stack_frame(#[trigger] trace.backtraces[i].stack_frames[j]) by {
        assert(stacks.contains(stacks[i]));
        let k = choose|k: int| 0 <= k < keys.len() && keys[k] == stacks[i];
        let ip = raw[k].backtrace[j];
        lemma_instruction_pointers_contains(raw, k, j);
        lemma_identifier_in_range(frames, ip);
        let at = identifier(frames, ip) - 1;
        assert(trace.stack_frames[at].id == trace.backtraces[i].stack_frames[j]);
    }
    assert forall|i: int| 0 <= i < trace.samples.len() implies trace.has_backtrace(
        (#[trigger] trace.samples[i]).backtrace,
    ) by {
        assert(keys.contains(keys[i]));
        lemma_identifier_in_range(stacks, keys[i]);
        let at = identifier(stacks, keys[i]) - 1;
        assert(trace.backtraces[at].id == trace.samples[i].backtrace);
    }
}

} // verus!
