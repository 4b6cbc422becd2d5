//! A verified interpreter core for a minimalist stack-based language.
//!
//! Source text is compiled in a single left-to-right pass into a linear
//! instruction tape whose loop and break jump targets are resolved by
//! backpatching, and the tape is then executed by a small virtual machine
//! with one byte-wide value register, an operand stack and a stack of
//! remaining loop-iteration budgets.

pub mod compile;
pub mod input;
pub mod instr;
pub mod nesting;
pub mod vm;
