//! Instruction-set simulator for a small 8-bit Harvard-architecture
//! microprocessor: a 1024-byte paged instruction ROM, a 32-byte RAM, a
//! seven-slot register file with a hard-wired zero register, an accumulator,
//! three condition flags, and a memory-mapped console port.
//!
//! The `cpu` module holds the processor state machine and its mathematical
//! model; the `loader` module parses the line-oriented binary-literal image
//! format into a byte image.

pub mod cpu;
pub mod loader;
