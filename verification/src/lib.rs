//! A virtual machine for a small 16-bit educational instruction-set
//! architecture: 16 opcodes, 8 general registers, a program counter, a
//! condition-flag register, and a flat 65,536-cell memory.
//!
//! The crate is organised in three layers:
//! - [`registers`]: the register file and the condition-flag state machine;
//! - [`instruction`]: instruction decoding, the semantics of every opcode,
//!   and the trap dispatcher;
//! - [`vm`]: the machine state (registers plus memory), the program loader
//!   interface, and the fetch-decode-execute run loop.
//!
//! Character input and output are modelled as plain values: output bytes are
//! appended to a caller-supplied buffer, and the two blocking input traps
//! surface as an [`instruction::Event`] asking the embedder for a character.

pub mod instruction;
pub mod registers;
pub mod vm;
