pub mod instruction_pointer;
pub mod timestamp;
