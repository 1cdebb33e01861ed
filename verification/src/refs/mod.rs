//! The parts of a module, to read and to change.

pub mod block;
pub mod insn;
pub mod laws;
pub mod param;
pub mod value;
