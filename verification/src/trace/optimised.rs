pub mod backtrace;
pub mod error;
pub mod interning;
pub mod model;
pub mod sample;
pub mod stack_frame;
pub mod trace;
