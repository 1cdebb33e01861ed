//! Instructions: the operations, their operands and their evaluators.

pub mod aggregate;
pub mod arithmetic;
pub mod assertion;
pub mod binop;
pub mod bits;
pub mod casting;
pub mod fields;
pub mod flags;
pub mod instruction;
pub mod intrinsic;
pub mod memory;
pub mod mnemonic;
pub mod opcode;
pub mod pcode_op;
pub mod sequence;
pub mod spelling;
pub mod substitute;
pub mod terminator;
pub mod unop;
