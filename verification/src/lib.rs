//! The core of a sampling profiler: it rewrites a recorded trace, a long and
//! redundant run of captured call stacks, into a compact form in which every
//! distinct stack frame and every distinct backtrace is held once and named
//! by a stable identifier, and counts how often each backtrace was sampled.

pub mod analysis;
pub mod args;
pub mod raw_trace;
pub mod trace;
pub mod tui;
