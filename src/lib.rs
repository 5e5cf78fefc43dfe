//! A virtual machine for a small 8-bit bytecode architecture: instruction
//! decoding, execution, banked memory mapping, bit-packed video memory,
//! debounced key input and 60 Hz timers.

pub mod types;
pub mod opcodes;
pub mod memory;
pub mod display;
pub mod input;
pub mod timers;
pub mod registers;
pub mod cpu;
pub mod pacing;
