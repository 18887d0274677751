pub mod backtrace;
pub mod sample;
pub mod trace;
