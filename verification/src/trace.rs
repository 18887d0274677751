pub mod optimised;
pub mod optimised_trace;
pub mod raw;
pub mod shared;
