//! The record of one instruction.

use crate::ids::{LocalBlockId, LocalInsnId, TypeId, UseId};
use crate::insn::mnemonic::{Mnemonic, MnemonicView};
use crate::names::Name;
use vstd::prelude::*;

verus! {

/// An instruction: an operation with a result type, in at most one block.
///
/// `parent`, `prev` and `next` place it in its block's list and `first_use`
/// heads the list of its uses; the body that holds the instruction keeps all
/// four.
pub struct Instruction {
    pub name: Option<Name>,
    pub type_id: TypeId,
    pub mnemonic: Mnemonic,
    /// The machine address it was lifted from.
    pub address: Option<u64>,
    pub parent: Option<LocalBlockId>,
    pub prev: Option<LocalInsnId>,
    pub next: Option<LocalInsnId>,
    pub first_use: Option<UseId>,
}

/// What an instruction is, apart from where it stands and who uses it.
pub struct InsnView {
    pub name: Option<Name>,
    pub type_id: TypeId,
    pub mnemonic: MnemonicView,
    pub address: Option<u64>,
}

impl View for Instruction {
    type V = InsnView;

    open spec fn view(&self) -> InsnView {
        InsnView {
            name: self.name,
            type_id: self.type_id,
            mnemonic: self.mnemonic@,
            address: self.address,
        }
    }
}

impl Instruction {
    /// An instruction in no block, without a name.
    pub fn new(type_id: TypeId, mnemonic: Mnemonic) -> (insn: Self)
        ensures
            insn.name is None,
            insn.type_id == type_id,
            insn.mnemonic == mnemonic,
            insn.address is None,
            insn.parent is None,
            insn.prev is None,
            insn.next is None,
            insn.first_use is None,
    {
        Instruction {
            name: None,
            type_id,
            mnemonic,
            address: None,
            parent: None,
            prev: None,
            next: None,
            first_use: None,
        }
    }

    pub fn mnemonic(&self) -> (m: &Mnemonic)
        ensures
            *m == self.mnemonic,
    {
        &self.mnemonic
    }

    /// The instruction before this one in its block.
    pub fn prev_in_block(&self) -> (id: Option<LocalInsnId>)
        ensures
            id == self.prev,
    {
        self.prev
    }

    /// The instruction after this one in its block.
    pub fn next_in_block(&self) -> (id: Option<LocalInsnId>)
        ensures
            id == self.next,
    {
        self.next
    }
}

} // verus!
