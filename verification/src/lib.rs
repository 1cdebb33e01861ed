//! The value layer of a typed intermediate representation: types, values,
//! instructions, blocks and function bodies, with their editing operations.

pub mod arena;
pub mod base;
pub mod block;
pub mod body;
pub mod clone;
pub mod constants;
pub mod context;
pub mod error;
pub mod function;
pub mod fx;
pub mod globals;
pub mod ids;
pub mod insn;
pub mod interner;
pub mod link;
pub mod literal;
pub mod names;
pub mod refs;
pub mod segment;
pub mod small;
pub mod sort;
pub mod space;
pub mod text;
pub mod types;
pub mod value;
pub mod value_map;
