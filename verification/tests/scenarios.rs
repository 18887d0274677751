use swimps::analysis::backtrace_by_frequency;
use swimps::raw_trace::RawTrace;
use swimps::trace::optimised::backtrace::{Backtrace, BacktraceID, BacktraceInterner};
use swimps::trace::optimised::sample::Sample;
use swimps::trace::optimised::stack_frame::{StackFrame, StackFrameID, StackFrameInterner};
use swimps::trace::optimised::trace::{raw_to_optimised_sample, Trace};
use swimps::trace::optimised_trace::OptimisedTrace;
use swimps::trace::raw::backtrace::Backtrace as RawBacktrace;
use swimps::trace::raw::sample::Sample as RawSample;
use swimps::trace::raw::trace::Trace as RawTrace2;
use swimps::trace::shared::instruction_pointer::InstructionPointer;
use swimps::trace::shared::timestamp::Timestamp;

fn raw_sample(instruction_pointers: &[u64], seconds: i64, nanoseconds: i64) -> RawSample {
    RawSample {
        backtrace: RawBacktrace(
            instruction_pointers.iter().map(|ip| InstructionPointer(*ip)).collect(),
        ),
        timestamp: Timestamp { seconds, nanoseconds },
    }
}

fn frame(id: u64, instruction_pointer: u64) -> StackFrame {
    StackFrame { id: StackFrameID(id), instruction_pointer: InstructionPointer(instruction_pointer) }
}

fn backtrace(id: u64, stack_frames: &[u64]) -> Backtrace {
    Backtrace {
        id: BacktraceID(id),
        stack_frames: stack_frames.iter().map(|id| StackFrameID(*id)).collect(),
    }
}

fn sample(backtrace: u64, seconds: i64, nanoseconds: i64) -> Sample {
    Sample { backtrace: BacktraceID(backtrace), timestamp: Timestamp { seconds, nanoseconds } }
}

#[test]
fn simple_dedup() {
    let raw = RawTrace2 {
        samples: vec![raw_sample(&[0x10, 0x20], 1, 0), raw_sample(&[0x10, 0x20], 2, 0)],
    };
    let trace = Trace::new(raw);
    assert_eq!(trace.stack_frames, vec![frame(1, 0x10), frame(2, 0x20)]);
    assert_eq!(trace.backtraces, vec![backtrace(1, &[1, 2])]);
    assert_eq!(trace.samples, vec![sample(1, 1, 0), sample(1, 2, 0)]);
    let frequencies = backtrace_by_frequency(&trace);
    assert_eq!(frequencies.len(), 1);
    assert_eq!(frequencies.get(&1), Some(&2));
}

#[test]
fn divergent_stacks() {
    let raw = RawTrace2 {
        samples: vec![raw_sample(&[0x10, 0x20], 1, 0), raw_sample(&[0x10, 0x30], 2, 0)],
    };
    let trace = Trace::new(raw);
    assert_eq!(trace.stack_frames, vec![frame(1, 0x10), frame(2, 0x20), frame(3, 0x30)]);
    assert_eq!(trace.backtraces, vec![backtrace(1, &[1, 2]), backtrace(2, &[1, 3])]);
    assert_eq!(trace.samples, vec![sample(1, 1, 0), sample(2, 2, 0)]);
    let frequencies = backtrace_by_frequency(&trace);
    assert_eq!(frequencies.len(), 2);
    assert_eq!(frequencies.get(&1), Some(&1));
    assert_eq!(frequencies.get(&2), Some(&1));
}

#[test]
fn empty_trace() {
    let trace = Trace::new(RawTrace2 { samples: vec![] });
    assert!(trace.stack_frames.is_empty());
    assert!(trace.backtraces.is_empty());
    assert!(trace.samples.is_empty());
    assert!(backtrace_by_frequency(&trace).is_empty());
}

#[test]
fn reversed_order_stacks() {
    let raw = RawTrace2 {
        samples: vec![raw_sample(&[0x10, 0x20], 1, 0), raw_sample(&[0x20, 0x10], 2, 0)],
    };
    let trace = Trace::new(raw);
    assert_eq!(trace.stack_frames, vec![frame(1, 0x10), frame(2, 0x20)]);
    assert_eq!(trace.backtraces, vec![backtrace(1, &[1, 2]), backtrace(2, &[2, 1])]);
    assert_eq!(trace.samples, vec![sample(1, 1, 0), sample(2, 2, 0)]);
    assert_ne!(trace.samples[0].backtrace, trace.samples[1].backtrace);
}

#[test]
fn sample_without_frames_is_a_backtrace_of_its_own() {
    let raw = RawTrace2 {
        samples: vec![raw_sample(&[], 5, 6), raw_sample(&[0x10], 7, 8), raw_sample(&[], 9, 10)],
    };
    let trace = Trace::new(raw);
    assert_eq!(trace.stack_frames, vec![frame(1, 0x10)]);
    assert_eq!(trace.backtraces, vec![backtrace(1, &[]), backtrace(2, &[1])]);
    assert_eq!(trace.samples, vec![sample(1, 5, 6), sample(2, 7, 8), sample(1, 9, 10)]);
}

#[test]
fn timestamps_are_copied_as_they_are() {
    let raw = RawTrace2 {
        samples: vec![
            raw_sample(&[1], i64::MIN, i64::MAX),
            raw_sample(&[1], -1, 2_000_000_000),
            raw_sample(&[1], 0, -5),
        ],
    };
    let trace = Trace::new(raw);
    assert_eq!(
        trace.samples,
        vec![sample(1, i64::MIN, i64::MAX), sample(1, -1, 2_000_000_000), sample(1, 0, -5)]
    );
}

#[test]
fn identifiers_follow_first_seen_order_without_gaps() {
    let raw = RawTrace2 {
        samples: vec![
            raw_sample(&[0x30, 0x10, 0x30, 0x20], 0, 0),
            raw_sample(&[0x20, 0x20], 0, 1),
            raw_sample(&[0x30, 0x10, 0x30, 0x20], 0, 2),
            raw_sample(&[u64::MAX, 0], 0, 3),
        ],
    };
    let trace = Trace::new(raw);
    assert_eq!(
        trace.stack_frames,
        vec![frame(1, 0x30), frame(2, 0x10), frame(3, 0x20), frame(4, u64::MAX), frame(5, 0)]
    );
    assert_eq!(
        trace.backtraces,
        vec![backtrace(1, &[1, 2, 1, 3]), backtrace(2, &[3, 3]), backtrace(3, &[4, 5])]
    );
    assert_eq!(
        trace.samples,
        vec![sample(1, 0, 0), sample(2, 0, 1), sample(1, 0, 2), sample(3, 0, 3)]
    );
}

#[test]
fn prefixes_of_a_stack_are_backtraces_of_their_own() {
    let raw = RawTrace2 {
        samples: vec![
            raw_sample(&[1, 2, 3], 0, 0),
            raw_sample(&[1, 2], 0, 0),
            raw_sample(&[1], 0, 0),
            raw_sample(&[1, 2, 3], 0, 0),
        ],
    };
    let trace = Trace::new(raw);
    assert_eq!(
        trace.backtraces,
        vec![backtrace(1, &[1, 2, 3]), backtrace(2, &[1, 2]), backtrace(3, &[1])]
    );
    assert_eq!(
        trace.samples.iter().map(|sample| sample.backtrace.0).collect::<Vec<_>>(),
        vec![1, 2, 3, 1]
    );
}

#[test]
fn building_twice_gives_the_same_trace() {
    let raw = RawTrace2 {
        samples: vec![
            raw_sample(&[7, 8, 9], 1, 1),
            raw_sample(&[9, 8, 7], 2, 2),
            raw_sample(&[7, 8, 9], 3, 3),
        ],
    };
    let first = Trace::new(raw.clone());
    let second = Trace::new(raw);
    assert_eq!(first, second);
}

#[test]
fn try_new_gives_what_new_gives() {
    let raw = RawTrace2 {
        samples: vec![raw_sample(&[0x10, 0x20], 1, 0), raw_sample(&[0x10, 0x30], 2, 0)],
    };
    assert_eq!(Trace::try_new(raw.clone()), Ok(Trace::new(raw)));
}

#[test]
fn many_distinct_stacks_keep_their_identifiers() {
    let mut samples = Vec::new();
    for round in 0..3 {
        for n in 0..2000u64 {
            samples.push(raw_sample(&[n % 50, n / 50, n], round, n as i64));
        }
    }
    let trace = Trace::new(RawTrace2 { samples });
    assert_eq!(trace.stack_frames.len(), 2000);
    assert_eq!(trace.backtraces.len(), 2000);
    assert_eq!(trace.samples.len(), 6000);
    for (position, backtrace) in trace.backtraces.iter().enumerate() {
        assert_eq!(backtrace.id, BacktraceID(position as u64 + 1));
    }
    for (position, sample) in trace.samples.iter().enumerate() {
        assert_eq!(sample.backtrace, BacktraceID(position as u64 % 2000 + 1));
    }
    let frequencies = backtrace_by_frequency(&trace);
    assert_eq!(frequencies.len(), 2000);
    assert!(frequencies.values().all(|count| *count == 3));
}

#[test]
fn every_reference_resolves() {
    let raw = RawTrace2 {
        samples: vec![
            raw_sample(&[0x10, 0x20], 1, 0),
            raw_sample(&[0x20, 0x10, 0x40], 2, 0),
            raw_sample(&[], 3, 0),
        ],
    };
    let trace = Trace::new(raw);
    for sample in &trace.samples {
        let backtrace = trace.backtrace(sample.backtrace).expect("backtrace of a sample");
        assert_eq!(backtrace.id, sample.backtrace);
        for id in &backtrace.stack_frames {
            assert_eq!(trace.stack_frame(*id).expect("frame of a backtrace").id, *id);
        }
    }
    assert_eq!(trace.stack_frame(StackFrameID(3)), Some(&frame(3, 0x40)));
    assert_eq!(trace.stack_frame(StackFrameID(0)), None);
    assert_eq!(trace.stack_frame(StackFrameID(4)), None);
    assert_eq!(trace.stack_frame(StackFrameID(u64::MAX)), None);
    assert_eq!(trace.backtrace(BacktraceID(2)), Some(&backtrace(2, &[2, 1, 3])));
    assert_eq!(trace.backtrace(BacktraceID(0)), None);
    assert_eq!(trace.backtrace(BacktraceID(4)), None);
}

#[test]
fn raw_trace_hands_out_its_samples() {
    let samples = vec![raw_sample(&[1, 2], 3, 4), raw_sample(&[], 5, 6)];
    assert_eq!(RawTrace2 { samples: samples.clone() }.samples(), &samples);
    assert_eq!(RawTrace { samples: samples.clone() }.samples(), &samples);
}

#[test]
fn one_pass_builder_gives_the_same_trace() {
    let samples = vec![
        raw_sample(&[0x10, 0x20], 1, 0),
        raw_sample(&[0x20, 0x10], 2, 0),
        raw_sample(&[0x10, 0x20], 3, 0),
        raw_sample(&[0x30], 4, 0),
    ];
    let flat = OptimisedTrace::new(RawTrace { samples: samples.clone() });
    let trace = Trace::new(RawTrace2 { samples });
    assert_eq!(flat.stack_frames, vec![frame(1, 0x10), frame(2, 0x20), frame(3, 0x30)]);
    assert_eq!(
        flat.backtraces,
        vec![backtrace(1, &[1, 2]), backtrace(2, &[2, 1]), backtrace(3, &[3])]
    );
    assert_eq!(flat.samples, vec![sample(1, 1, 0), sample(2, 2, 0), sample(1, 3, 0), sample(3, 4, 0)]);
    assert_eq!(flat.stack_frames, trace.stack_frames);
    assert_eq!(flat.backtraces, trace.backtraces);
    assert_eq!(flat.samples, trace.samples);
}

#[test]
fn one_sample_at_a_time() {
    let mut stack_frames = StackFrameInterner::new();
    let mut backtraces = BacktraceInterner::new();
    let first = raw_to_optimised_sample(&raw_sample(&[0x10, 0x20], 1, 2), &mut stack_frames, &mut backtraces);
    let second = raw_to_optimised_sample(&raw_sample(&[0x20], 3, 4), &mut stack_frames, &mut backtraces);
    let third = raw_to_optimised_sample(&raw_sample(&[0x10, 0x20], 5, 6), &mut stack_frames, &mut backtraces);
    assert_eq!(first, Ok(sample(1, 1, 2)));
    assert_eq!(second, Ok(sample(2, 3, 4)));
    assert_eq!(third, Ok(sample(1, 5, 6)));
    assert_eq!(stack_frames.into_stack_frames(), vec![frame(1, 0x10), frame(2, 0x20)]);
    assert_eq!(backtraces.into_backtraces(), vec![backtrace(1, &[1, 2]), backtrace(2, &[2])]);
}
