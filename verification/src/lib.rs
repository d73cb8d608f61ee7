//! An instruction-set simulator for a single-hart, 32-bit, integer-only
//! RISC-V machine with a flat address space.
//!
//! The crate has three parts:
//!
//! * [`memory`]: a fixed-size, little-endian, bounds-checked byte store;
//! * [`instruction`]: the closed set of decoded instructions and the decoder
//!   from raw 32-bit words;
//! * [`cpu`]: the register file, the program counter and the
//!   fetch-decode-execute step.
//!
//! Every executable function carries a contract over a mathematical model of
//! the machine state, and none of them panics.

pub mod cpu;
pub mod instruction;
pub mod memory;

pub use cpu::{Cpu, CpuState, FaultKind, StepResult};
pub use instruction::Instruction;
pub use memory::{Memory, MemoryError, Signedness, Width};
