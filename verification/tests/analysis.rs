use swimps::analysis::backtrace_by_frequency;
use swimps::trace::optimised::backtrace::{Backtrace, BacktraceID};
use swimps::trace::optimised::sample::Sample;
use swimps::trace::optimised::stack_frame::{StackFrame, StackFrameID};
use swimps::trace::optimised::trace::Trace;
use swimps::trace::shared::instruction_pointer::InstructionPointer;
use swimps::trace::shared::timestamp::Timestamp;

fn trace_with_samples(backtraces: u64, sampled: &[u64]) -> Trace {
    Trace {
        stack_frames: vec![StackFrame {
            id: StackFrameID(1),
            instruction_pointer: InstructionPointer(0x1000),
        }],
        backtraces: (1..=backtraces)
            .map(|id| Backtrace {
                id: BacktraceID(id),
                stack_frames: (0..id).map(|_| StackFrameID(1)).collect(),
            })
            .collect(),
        samples: sampled
            .iter()
            .enumerate()
            .map(|(n, id)| Sample {
                backtrace: BacktraceID(*id),
                timestamp: Timestamp { seconds: n as i64, nanoseconds: 0 },
            })
            .collect(),
    }
}

#[test]
fn counts_each_backtrace() {
    let trace = trace_with_samples(3, &[1, 2, 1, 3, 1, 2]);
    let frequencies = backtrace_by_frequency(&trace);
    assert_eq!(frequencies.len(), 3);
    assert_eq!(frequencies.get(&1), Some(&3));
    assert_eq!(frequencies.get(&2), Some(&2));
    assert_eq!(frequencies.get(&3), Some(&1));
}

#[test]
fn backtrace_that_no_sample_names_has_no_entry() {
    let trace = trace_with_samples(4, &[2, 2, 4]);
    let frequencies = backtrace_by_frequency(&trace);
    assert_eq!(frequencies.len(), 2);
    assert_eq!(frequencies.get(&1), None);
    assert_eq!(frequencies.get(&2), Some(&2));
    assert_eq!(frequencies.get(&3), None);
    assert_eq!(frequencies.get(&4), Some(&1));
}

#[test]
fn counts_add_up_to_the_number_of_samples() {
    let sampled: Vec<u64> = (0..1000u64).map(|n| n * n % 17 + 1).collect();
    let trace = trace_with_samples(17, &sampled);
    let frequencies = backtrace_by_frequency(&trace);
    assert_eq!(frequencies.values().sum::<usize>(), 1000);
    for (id, count) in &frequencies {
        assert_eq!(sampled.iter().filter(|sampled| *sampled == id).count(), *count);
    }
}

#[test]
fn no_samples_no_entries() {
    let trace = trace_with_samples(2, &[]);
    assert!(backtrace_by_frequency(&trace).is_empty());
}

#[test]
fn analysis_leaves_the_trace_as_it_is() {
    let trace = trace_with_samples(2, &[1, 2, 2]);
    let before = trace.clone();
    let _ = backtrace_by_frequency(&trace);
    assert_eq!(trace, before);
}
