//! Function bodies.
//!
//! A body stores the instructions, blocks, block parameters, edges and
//! scratch values of one function. Three structures run through it, and the
//! editing operations keep all of them:
//!
//! - the *order* of each block's instructions, a doubly linked list threaded
//!   through the instructions;
//! - the *control-flow edges*, each listed by both of its blocks;
//! - the *use edges*, one per operand occurrence, threaded into one list per
//!   used value.
//!
//! [`FunctionBody::wf`] says what holds of them in every state between two
//! operations. What an operation does is stated over [`BodyView`], which
//! leaves the links and the use edges out: the links are determined by the
//! order of the blocks, and the use edges by the operands.

use crate::arena::{Arena, Slab};
use crate::block::{BasicBlock, EdgeData};
use crate::fx::KeyMap;
use crate::ids::{
    EdgeId, FunctionId, LocalBlockId, LocalInsnId, LocalParamId, LocalTempId, LocalTempSpaceId,
    TypeId, UseId,
};
use crate::insn::instruction::{InsnView, Instruction};
use crate::names::{LocalNames, Name, NamesView};
use crate::value::{LocalValueId, ValueId};
use std::collections::BTreeSet;
use vstd::prelude::*;

pub mod absorb;
pub mod access;
pub mod blocks;
pub mod compose;
pub mod blockwise;
pub mod bulk;
pub mod callees;
pub mod cfg;
pub mod copies;
pub mod create;
pub mod edit;
pub mod epoch;
pub mod laws;
pub mod leftovers;
pub mod merge;
pub mod naming;
pub mod order;
pub mod places;
pub mod prototype;
pub mod remove;
pub mod replace;
pub mod rewrites;
pub mod run;
pub mod users;
pub mod uses;

verus! {

/// A typed parameter of a block.
pub struct BlockParam {
    /// The position in the block's parameter list.
    pub index: usize,
    pub type_id: TypeId,
    pub parent: LocalBlockId,
    pub name: Option<Name>,
    /// The value this parameter stands for, if it was made for one.
    pub origin: Option<ValueId>,
    /// Whether passes must keep the parameter.
    pub protected: bool,
    /// Head of the list of its uses.
    pub first_use: Option<UseId>,
}

/// What a block parameter is, apart from who uses it.
pub struct ParamView {
    pub index: usize,
    pub type_id: TypeId,
    pub parent: LocalBlockId,
    pub name: Option<Name>,
    pub origin: Option<ValueId>,
    pub protected: bool,
}

impl View for BlockParam {
    type V = ParamView;

    open spec fn view(&self) -> ParamView {
        ParamView {
            index: self.index,
            type_id: self.type_id,
            parent: self.parent,
            name: self.name,
            origin: self.origin,
            protected: self.protected,
        }
    }
}

/// A scratch value of a body.
pub struct Temp {
    /// The address within its space.
    pub offset: u64,
    /// The width in bytes.
    pub size: usize,
    pub space: LocalTempSpaceId,
    pub name: Option<Name>,
    /// Head of the list of its uses.
    pub first_use: Option<UseId>,
}

/// What a scratch value is, apart from who uses it.
pub struct TempView {
    pub offset: u64,
    pub size: usize,
    pub space: LocalTempSpaceId,
    pub name: Option<Name>,
}

impl View for Temp {
    type V = TempView;

    open spec fn view(&self) -> TempView {
        TempView { offset: self.offset, size: self.size, space: self.space, name: self.name }
    }
}

/// A scratch memory space of a body.
#[derive(Debug)]
pub struct TempSpace {
    pub name: Option<String>,
    /// The size of an addressable unit in bytes.
    pub word_size: usize,
    /// The width of an address in bytes.
    pub addr_size: usize,
}

/// One operand occurrence: `user`'s operand `operand_index` names `value`.
/// `next` is the next use of the same value.
#[derive(Clone, Copy, Debug, PartialEq, Eq, Structural)]
pub struct Use {
    pub value: LocalValueId,
    pub user: LocalInsnId,
    pub operand_index: u16,
    pub next: Option<UseId>,
}

/// A function's body.
pub struct FunctionBody {
    /// The function this body belongs to; `None` while the body is detached.
    pub id: Option<FunctionId>,
    /// The entry block.
    pub root: Option<LocalBlockId>,
    pub insns: Arena<Instruction>,
    pub blocks: Arena<BasicBlock>,
    /// The blocks this function owns, in order.
    pub roster: Vec<LocalBlockId>,
    pub params: Arena<BlockParam>,
    pub edges: Arena<EdgeData>,
    pub temp_spaces: Vec<TempSpace>,
    pub temps: Vec<Temp>,
    /// The addresses of the machine instructions lifted into this function.
    pub instruction_addrs: BTreeSet<u64>,
    /// The names of this body's values.
    pub names: LocalNames<LocalValueId>,
    /// The use edges.
    pub uses: Slab<Use>,
    /// The heads of the use lists of shared values, by [`value_key`].
    pub shared_first_use: KeyMap<UseId>,
    /// The use list of each value in full, for reasoning.
    pub use_lists: Ghost<Map<LocalValueId, Seq<UseId>>>,
    /// Counts the changes to which addresses the blocks carry.
    pub shape_ticks: u64,
}

/// What a block is, apart from its edges and who uses it.
pub struct BlockView {
    pub name: Option<Name>,
    pub comment: Option<String>,
    pub params: Seq<LocalParamId>,
    /// The instructions, in order.
    pub insns: Seq<LocalInsnId>,
    pub address: Option<u64>,
    pub extra_addresses: Seq<u64>,
}

impl View for BasicBlock {
    type V = BlockView;

    open spec fn view(&self) -> BlockView {
        BlockView {
            name: self.name,
            comment: self.comment,
            params: self.params@,
            insns: self.instructions.order@,
            address: self.address,
            extra_addresses: self.extra_addresses@,
        }
    }
}

/// What a body is, apart from its links and use edges.
pub struct BodyView {
    pub id: Option<FunctionId>,
    pub root: Option<LocalBlockId>,
    pub insns: Map<LocalInsnId, InsnView>,
    pub blocks: Map<LocalBlockId, BlockView>,
    pub roster: Seq<LocalBlockId>,
    pub params: Map<LocalParamId, ParamView>,
    pub edges: Map<EdgeId, EdgeData>,
    pub temp_spaces: Seq<TempSpace>,
    pub temps: Seq<TempView>,
    pub instruction_addrs: Set<u64>,
    pub names: NamesView<LocalValueId>,
    pub shape_ticks: u64,
    /// How many indices each arena has handed out.
    pub insns_issued: nat,
    pub blocks_issued: nat,
    pub params_issued: nat,
    pub edges_issued: nat,
}

/// The first item of a sequence.
pub open spec fn first_of<T>(s: Seq<T>) -> Option<T> {
    if s.len() == 0 {
        None
    } else {
        Some(s[0])
    }
}

/// The last item of a sequence.
pub open spec fn last_of<T>(s: Seq<T>) -> Option<T> {
    if s.len() == 0 {
        None
    } else {
        Some(s[s.len() - 1])
    }
}

/// The item of a sequence at a position, if there is one.
pub open spec fn item_at<T>(s: Seq<T>, k: int) -> Option<T> {
    if 0 <= k < s.len() {
        Some(s[k])
    } else {
        None
    }
}

/// Whether the whole module shares a value, so that no body can hold the head
/// of its use list in the value itself.
pub open spec fn is_shared(value: LocalValueId) -> bool {
    value is Literal || value is Bytes || value is Varnode || value is Function || value is Poison
}

/// A value as one number.
pub open spec fn value_key(value: LocalValueId) -> int {
    match value {
        LocalValueId::Literal(id) => id.0 as int,
        LocalValueId::Bytes(id) => 0x1_0000_0000_0000_0000 + id.0,
        LocalValueId::Varnode(id) => 0x2_0000_0000_0000_0000 + id.0,
        LocalValueId::Function(id) => 0x3_0000_0000_0000_0000 + id.0,
        LocalValueId::Poison(id) => 0x4_0000_0000_0000_0000 + id.0,
        LocalValueId::Instruction(id) => 0x5_0000_0000_0000_0000 + id.0,
        LocalValueId::BasicBlock(id) => 0x6_0000_0000_0000_0000 + id.0,
        LocalValueId::BlockParam(id) => 0x7_0000_0000_0000_0000 + id.0,
        LocalValueId::Temp(id) => 0x8_0000_0000_0000_0000 + id.0,
    }
}

/// Whether the base of a name is one of the body's.
pub open spec fn name_known(body: BodyView, name: Option<Name>) -> bool {
    name matches Some(n) ==> n.base.raw() < body.names.bases.len()
}

/// Every name that a value of the body carries has one of the body's bases.
pub open spec fn names_known(body: BodyView) -> bool {
    &&& forall|i: LocalInsnId|
        body.insns.contains_key(i) ==> name_known(body, #[trigger] body.insns[i].name)
    &&& forall|b: LocalBlockId|
        body.blocks.contains_key(b) ==> name_known(body, #[trigger] body.blocks[b].name)
    &&& forall|p: LocalParamId|
        body.params.contains_key(p) ==> name_known(body, #[trigger] body.params[p].name)
    &&& forall|t: int|
        0 <= t < body.temps.len() ==> name_known(body, #[trigger] body.temps[t].name)
}

impl View for FunctionBody {
    type V = BodyView;

    open spec fn view(&self) -> BodyView {
        BodyView {
            id: self.id,
            root: self.root,
            insns: Map::new(
                |i: LocalInsnId| self.has_insn(i),
                |i: LocalInsnId| self.insn_rec(i)@,
            ),
            blocks: Map::new(
                |b: LocalBlockId| self.has_block(b),
                |b: LocalBlockId| self.block_rec(b)@,
            ),
            roster: self.roster@,
            params: Map::new(
                |p: LocalParamId| self.has_param(p),
                |p: LocalParamId| self.param_rec(p)@,
            ),
            edges: Map::new(|e: EdgeId| self.has_edge(e), |e: EdgeId| self.edge_rec(e)),
            temp_spaces: self.temp_spaces@,
            temps: self.temps@.map_values(|t: Temp| t@),
            instruction_addrs: self.instruction_addrs@,
            names: self.names@,
            shape_ticks: self.shape_ticks,
            insns_issued: self.insns@.len(),
            blocks_issued: self.blocks@.len(),
            params_issued: self.params@.len(),
            edges_issued: self.edges@.len(),
        }
    }
}

impl FunctionBody {
    // The records, by id.

    pub open spec fn has_insn(&self, i: LocalInsnId) -> bool {
        self.insns.has(i.0 as int)
    }

    pub open spec fn insn_rec(&self, i: LocalInsnId) -> Instruction {
        self.insns.at(i.0 as int)
    }

    pub open spec fn has_block(&self, b: LocalBlockId) -> bool {
        self.blocks.has(b.0 as int)
    }

    pub open spec fn block_rec(&self, b: LocalBlockId) -> BasicBlock {
        self.blocks.at(b.0 as int)
    }

    pub open spec fn has_param(&self, p: LocalParamId) -> bool {
        self.params.has(p.0 as int)
    }

    pub open spec fn param_rec(&self, p: LocalParamId) -> BlockParam {
        self.params.at(p.0 as int)
    }

    pub open spec fn has_edge(&self, e: EdgeId) -> bool {
        self.edges.has(e.0 as int)
    }

    pub open spec fn edge_rec(&self, e: EdgeId) -> EdgeData {
        self.edges.at(e.0 as int)
    }

    pub open spec fn has_temp(&self, t: LocalTempId) -> bool {
        t.0 < self.temps@.len()
    }

    pub open spec fn has_use(&self, u: UseId) -> bool {
        self.uses.has(u.0 as int)
    }

    pub open spec fn use_rec(&self, u: UseId) -> Use {
        self.uses.at(u.0 as int)
    }

    /// The operands of an instruction, in canonical order.
    pub open spec fn operands(&self, i: LocalInsnId) -> Seq<LocalValueId> {
        self.insn_rec(i).mnemonic.operands()
    }

    // The order of the instructions.

    /// The instructions of a block, in order.
    pub open spec fn order(&self, b: LocalBlockId) -> Seq<LocalInsnId> {
        self.block_rec(b).instructions.order@
    }

    /// The instruction at position `k` of block `b` is linked to its
    /// neighbours and to the block.
    pub open spec fn linked_at(&self, b: LocalBlockId, k: int) -> bool {
        let s = self.order(b);
        let rec = self.insn_rec(s[k]);
        &&& self.has_insn(s[k])
        &&& rec.parent == Some(b)
        &&& rec.prev == item_at(s, k - 1)
        &&& rec.next == item_at(s, k + 1)
    }

    /// The list of block `b` is what its ends, its length and the links say.
    pub open spec fn list_ok(&self, b: LocalBlockId) -> bool {
        let list = self.block_rec(b).instructions;
        let s = list.order@;
        &&& list.len == s.len()
        &&& list.first == first_of(s)
        &&& list.last == last_of(s)
        &&& s.no_duplicates()
        &&& forall|k: int| 0 <= k < s.len() ==> #[trigger] self.linked_at(b, k)
    }

    /// An instruction is in the block it says it is in; one in no block has no
    /// links.
    pub open spec fn placed_ok(&self, i: LocalInsnId) -> bool {
        let rec = self.insn_rec(i);
        match rec.parent {
            Some(b) => self.has_block(b) && self.order(b).contains(i),
            None => rec.prev is None && rec.next is None,
        }
    }

    /// Every block's list is sound and every instruction is where it says.
    pub open spec fn lists_wf(&self) -> bool {
        &&& forall|b: LocalBlockId| self.has_block(b) ==> #[trigger] self.list_ok(b)
        &&& forall|i: LocalInsnId| self.has_insn(i) ==> #[trigger] self.placed_ok(i)
    }

    // The control-flow edges.

    /// The edges listed by block `b` are live and incident to it.
    pub open spec fn incident_ok(&self, b: LocalBlockId) -> bool {
        let s = self.block_rec(b).edges@;
        &&& s.no_duplicates()
        &&& forall|e: EdgeId| #[trigger]
            s.contains(e) ==> self.has_edge(e) && (self.edge_rec(e).from == b || self.edge_rec(e).to
                == b)
    }

    /// Edge `e` joins two blocks that both list it.
    pub open spec fn edge_ok(&self, e: EdgeId) -> bool {
        let rec = self.edge_rec(e);
        &&& self.has_block(rec.from)
        &&& self.has_block(rec.to)
        &&& self.block_rec(rec.from).edges@.contains(e)
        &&& self.block_rec(rec.to).edges@.contains(e)
    }

    /// Every edge is listed by its two blocks, and blocks list nothing else.
    pub open spec fn cfg_wf(&self) -> bool {
        &&& forall|b: LocalBlockId| self.has_block(b) ==> #[trigger] self.incident_ok(b)
        &&& forall|e: EdgeId| self.has_edge(e) ==> #[trigger] self.edge_ok(e)
    }

    // The use edges.

    /// Whether this body has storage for `value`, and so a place for the head
    /// of its use list.
    pub open spec fn has_home(&self, value: LocalValueId) -> bool {
        match value {
            LocalValueId::Instruction(i) => self@.insns.contains_key(i),
            LocalValueId::BlockParam(p) => self@.params.contains_key(p),
            LocalValueId::BasicBlock(b) => self@.blocks.contains_key(b),
            LocalValueId::Temp(t) => self.has_temp(t),
            _ => true,
        }
    }

    /// The stored head of `value`'s use list.
    pub open spec fn head_of(&self, value: LocalValueId) -> Option<UseId> {
        if !self.has_home(value) {
            None
        } else {
            match value {
                LocalValueId::Instruction(i) => self.insn_rec(i).first_use,
                LocalValueId::BlockParam(p) => self.param_rec(p).first_use,
                LocalValueId::BasicBlock(b) => self.block_rec(b).first_use,
                LocalValueId::Temp(t) => self.temps@[t.0 as int].first_use,
                _ => if self.shared_first_use@.contains_key(value_key(value) as u128) {
                    Some(self.shared_first_use@[value_key(value) as u128])
                } else {
                    None
                },
            }
        }
    }

    /// The uses of `value`, from the head of its list on.
    pub open spec fn use_list(&self, value: LocalValueId) -> Seq<UseId> {
        if self.use_lists@.contains_key(value) {
            self.use_lists@[value]
        } else {
            Seq::empty()
        }
    }

    /// The use at position `k` of `value`'s list is a use of `value` and leads
    /// to the next.
    pub open spec fn use_linked_at(&self, value: LocalValueId, k: int) -> bool {
        let s = self.use_list(value);
        &&& self.has_use(s[k])
        &&& self.use_rec(s[k]).value == value
        &&& self.use_rec(s[k]).next == item_at(s, k + 1)
    }

    /// The use list of `value` is what its head and the links say.
    pub open spec fn use_list_ok(&self, value: LocalValueId) -> bool {
        let s = self.use_list(value);
        &&& self.head_of(value) == first_of(s)
        &&& s.no_duplicates()
        &&& s.len() > 0 ==> self.has_home(value)
        &&& forall|k: int| 0 <= k < s.len() ==> #[trigger] self.use_linked_at(value, k)
    }

    /// Every use list is sound and every use but `floating` is in the list of
    /// its value.
    pub open spec fn use_lists_wf(&self, floating: Option<UseId>) -> bool {
        &&& self.uses.wf()
        &&& forall|value: LocalValueId| #[trigger] self.use_list_ok(value)
        &&& forall|u: UseId|
            self.has_use(u) && floating != Some(u) ==> #[trigger] self.use_list(
                self.use_rec(u).value,
            ).contains(u)
        &&& forall|u: UseId, value: LocalValueId|
            floating == Some(u) ==> !#[trigger] self.use_list(value).contains(u)
    }

    /// The use `u` is an operand occurrence of a live instruction.
    pub open spec fn use_faithful(&self, u: UseId) -> bool {
        let rec = self.use_rec(u);
        &&& self.has_insn(rec.user)
        &&& rec.operand_index < self.operands(rec.user).len()
        &&& self.operands(rec.user)[rec.operand_index as int] == rec.value
    }

    /// Whether `u` is the use of operand `k` of instruction `i`.
    pub open spec fn is_use_of(&self, u: UseId, i: LocalInsnId, k: int) -> bool {
        self.has_use(u) && self.use_rec(u).user == i && self.use_rec(u).operand_index == k
    }

    /// Every use is an operand occurrence, and no occurrence has two uses.
    pub open spec fn uses_faithful(&self) -> bool {
        &&& forall|u: UseId| self.has_use(u) ==> #[trigger] self.use_faithful(u)
        &&& forall|u: UseId, w: UseId, i: LocalInsnId, k: int| #[trigger]
            self.is_use_of(u, i, k) && #[trigger] self.is_use_of(w, i, k) ==> u == w
    }

    /// Whether operand `k` of instruction `i` has a use edge.
    pub open spec fn has_use_of(&self, i: LocalInsnId, k: int) -> bool {
        exists|u: UseId| #[trigger] self.is_use_of(u, i, k)
    }

    /// Every operand whose value this body has storage for has a use edge.
    ///
    /// It holds of a body that is made empty or detached and of one whose uses
    /// are rebuilt. Every edit keeps it but those that drop uses by
    /// themselves. An edit that adds a value keeps it where no operand named
    /// that value before it was there.
    pub open spec fn uses_complete(&self) -> bool {
        forall|i: LocalInsnId, k: int|
            self.has_insn(i) && 0 <= k < self.operands(i).len() && self.has_home(
                self.operands(i)[k],
            ) ==> #[trigger] self.has_use_of(i, k)
    }

    /// No instruction has more operands than a use edge can number.
    pub open spec fn operands_bounded(&self) -> bool {
        forall|i: LocalInsnId| #[trigger]
            self.has_insn(i) ==> self.operands(i).len() <= 0x1_0000
    }

    /// The roster names live blocks, each once.
    pub open spec fn roster_wf(&self) -> bool {
        &&& self.roster@.no_duplicates()
        &&& forall|k: int| 0 <= k < self.roster@.len() ==> self.has_block(#[trigger] self.roster@[k])
    }

    /// What holds of a body between two operations.
    pub open spec fn wf(&self) -> bool {
        &&& self.rest_wf()
        &&& self.use_lists_wf(None)
        &&& self.uses_faithful()
    }

    /// What holds of a body apart from its use edges.
    pub open spec fn rest_wf(&self) -> bool {
        &&& self.lists_wf()
        &&& self.cfg_wf()
        &&& self.operands_bounded()
        &&& self.roster_wf()
        &&& self.names.wf()
        &&& names_known(self@)
        &&& self.insns@.len() <= u32::MAX
        &&& self.blocks@.len() <= u32::MAX
        &&& self.params@.len() <= u32::MAX
        &&& self.edges@.len() <= u32::MAX
        &&& self.temps@.len() <= u32::MAX
        &&& self.temp_spaces@.len() <= u32::MAX
    }
}

} // verus!
