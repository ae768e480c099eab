//! A simulator for a 64-bit RISC-V style instruction set: a little-endian
//! memory bus, an instruction decoder and an execution engine.

pub mod bus;
pub mod instruction;
pub mod alu;
pub mod opcodes;
pub mod machine;
pub mod loader;
