//! A verified model of the Synacor architecture and of the puzzle solvers
//! that go with it: 15-bit machine words, instruction decoding, memory,
//! the virtual machine step, a disassembler, the register-7 Ackermann test,
//! the coin equation and the vault maze.

pub mod ackermann;
pub mod coins;
pub mod heap;
pub mod listing;
pub mod machine;
pub mod maze;
pub mod text;
pub mod u15;
pub mod vm;
