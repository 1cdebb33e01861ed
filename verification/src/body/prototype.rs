//! Appending a run of operations from a prototype.
//!
//! A lift that replays a cached instruction knows every operation it will emit
//! before it emits the first: the operations are a recording, with operands
//! numbered relative to the recording. [`FunctionBody::append_prototype`]
//! takes the whole run.

use super::create::lemma_same_storage;
use super::order::with_order;
use super::{BodyView, FunctionBody};
use crate::base::BaseId;
use crate::block::EdgeData;
use crate::ids::{
    EdgeId, LocalBlockId, LocalInsnId, LocalTempId, LocalTempSpaceId, TypeId, VarnodeId,
};
use crate::insn::instruction::{InsnView, Instruction};
use crate::insn::mnemonic::{Mnemonic, MnemonicView, Shape};
use crate::insn::terminator::Callee;
use crate::names::{
    law_a_suffix_is_free, law_names_are_finitely_many, LocalNames, Name, NamesView,
};
use crate::space::LocalMemorySpaceId;
use crate::value::LocalValueId;
use vstd::prelude::*;

verus! {

broadcast use crate::base::group_bases;

/// One operation of a prototype run. Its mnemonic's operands are indices into
/// the run's [`ProtoMap`]: `Literal(k)` the `k`th literal, `Instruction(k)` the
/// run's `k`th operation, `Temp(k)` the `k`th scratch value, `Varnode(k)` the
/// `k`th varnode; a load's or store's scratch space is the `k`th space, a
/// branch's target the `k`th block and a call's minted callee the `k`th callee.
#[derive(Debug)]
pub struct ProtoOp {
    /// The block the operation is in, an index into the map's blocks.
    pub block: u32,
    pub type_id: TypeId,
    /// The base the result is named after, made unique in the body.
    pub base: Option<BaseId>,
    pub mnemonic: Mnemonic,
}

/// What a prototype run's indices stand for in the body it is appended to.
#[derive(Clone, Copy, Debug)]
pub struct ProtoMap<'a> {
    pub literals: &'a [LocalValueId],
    pub varnodes: &'a [VarnodeId],
    pub temps: &'a [LocalTempId],
    pub spaces: &'a [LocalTempSpaceId],
    pub blocks: &'a [LocalBlockId],
    pub callees: &'a [Callee],
}

/// Whether `v` is no instruction from index `n` on.
pub open spec fn is_before(v: LocalValueId, n: int) -> bool {
    match v {
        LocalValueId::Instruction(j) => j.0 < n,
        _ => true,
    }
}

impl<'a> ProtoMap<'a> {
    /// What the operand `v` stands for, where the run's first operation got the
    /// index `first`.
    pub open spec fn operand(&self, v: LocalValueId, first: int) -> LocalValueId {
        match v {
            LocalValueId::Literal(k) => self.literals@[k.0 as int],
            LocalValueId::Instruction(k) => LocalValueId::Instruction(
                LocalInsnId((first + k.0) as u32),
            ),
            LocalValueId::Temp(k) => LocalValueId::Temp(self.temps@[k.0 as int]),
            LocalValueId::Varnode(k) => LocalValueId::Varnode(self.varnodes@[k.0 as int]),
            _ => v,
        }
    }

    /// Whether the operand `v` of the run's operation number `n` stands for
    /// something.
    pub open spec fn knows_operand(&self, v: LocalValueId, n: int) -> bool {
        match v {
            LocalValueId::Literal(k) => k.0 < self.literals@.len(),
            LocalValueId::Instruction(k) => k.0 < n,
            LocalValueId::Temp(k) => k.0 < self.temps@.len(),
            LocalValueId::Varnode(k) => k.0 < self.varnodes@.len(),
            _ => true,
        }
    }

    /// Whether no literal stands for an instruction from index `first` on.
    pub open spec fn literals_before(&self, first: int) -> bool {
        forall|k: int|
            0 <= k < self.literals@.len() ==> is_before(#[trigger] self.literals@[k], first)
    }

    pub open spec fn space(&self, space: LocalMemorySpaceId) -> LocalMemorySpaceId {
        match space {
            LocalMemorySpaceId::Temp(k) => LocalMemorySpaceId::Temp(self.spaces@[k.0 as int]),
            LocalMemorySpaceId::Shared(_) => space,
        }
    }

    pub open spec fn knows_space(&self, space: LocalMemorySpaceId) -> bool {
        space matches LocalMemorySpaceId::Temp(k) ==> k.0 < self.spaces@.len()
    }

    pub open spec fn block(&self, block: LocalBlockId) -> LocalBlockId {
        self.blocks@[block.0 as int]
    }

    pub open spec fn callee(&self, callee: Callee) -> Callee {
        match callee {
            Callee::Minted(k) => self.callees@[k as int],
            Callee::Real(_) => callee,
        }
    }

    pub open spec fn knows_callee(&self, callee: Callee) -> bool {
        callee matches Callee::Minted(k) ==> k < self.callees@.len()
    }

    /// What an operation's shape stands for.
    pub open spec fn shape(&self, shape: Shape) -> Shape {
        match shape {
            Shape::Load { space, size } => Shape::Load { space: self.space(space), size },
            Shape::Store { space, size } => Shape::Store { space: self.space(space), size },
            Shape::Branch { target, args } => Shape::Branch { target: self.block(target), args },
            Shape::CBranch { success_block, success_args, failure_block, failure_args } => {
                Shape::CBranch {
                    success_block: self.block(success_block),
                    success_args,
                    failure_block: self.block(failure_block),
                    failure_args,
                }
            },
            Shape::Call { target, args, clobbers, tag } => Shape::Call {
                target: self.callee(target),
                args,
                clobbers,
                tag,
            },
            Shape::TailCall { target, args } => Shape::TailCall {
                target: self.callee(target),
                args,
            },
            _ => shape,
        }
    }

    /// Whether everything an operation's shape names stands for something.
    pub open spec fn knows_shape(&self, shape: Shape) -> bool {
        match shape {
            Shape::Load { space, size } => self.knows_space(space),
            Shape::Store { space, size } => self.knows_space(space),
            Shape::Branch { target, args } => target.0 < self.blocks@.len(),
            Shape::CBranch { success_block, success_args, failure_block, failure_args } => {
                success_block.0 < self.blocks@.len() && failure_block.0 < self.blocks@.len()
            },
            Shape::Call { target, args, clobbers, tag } => self.knows_callee(target),
            Shape::TailCall { target, args } => self.knows_callee(target),
            _ => true,
        }
    }

    /// What an operation stands for.
    pub open spec fn mnemonic(&self, m: MnemonicView, first: int) -> MnemonicView {
        MnemonicView {
            shape: self.shape(m.shape),
            operands: m.operands.map_values(|v: LocalValueId| self.operand(v, first)),
        }
    }

    /// Whether the run's operation number `n` stands for something.
    pub open spec fn knows(&self, op: ProtoOp, n: int) -> bool {
        &&& op.block < self.blocks@.len()
        &&& op.mnemonic.operands().len() <= 0x1_0000
        &&& self.knows_shape(op.mnemonic.shape())
        &&& forall|k: int|
            0 <= k < op.mnemonic.operands().len() ==> self.knows_operand(
                #[trigger] op.mnemonic.operands()[k],
                n,
            )
    }

    fn map_space(&self, space: LocalMemorySpaceId) -> (mapped: LocalMemorySpaceId)
        requires
            self.knows_space(space),
        ensures
            mapped == self.space(space),
    {
        match space {
            LocalMemorySpaceId::Temp(k) => LocalMemorySpaceId::Temp(self.spaces[k.0 as usize]),
            LocalMemorySpaceId::Shared(_) => space,
        }
    }

    fn map_callee(&self, callee: Callee) -> (mapped: Callee)
        requires
            self.knows_callee(callee),
        ensures
            mapped == self.callee(callee),
    {
        match callee {
            Callee::Minted(k) => self.callees[k as usize],
            Callee::Real(_) => callee,
        }
    }

    /// The operation that `op` stands for, as number `n` of a run whose first
    /// operation got the index `first`.
    fn resolve(&self, op: &ProtoOp, first: u32, n: Ghost<int>) -> (m: Mnemonic)
        requires
            self.knows(*op, n@),
            n@ >= 0,
            first + n@ <= u32::MAX,
        ensures
            m@ == self.mnemonic(op.mnemonic@, first as int),
    {
        let mut m: Mnemonic = op.mnemonic.clone();
        let ghost ops = op.mnemonic.operands();
        let count: usize = m.operand_count();
        let mut k: usize = 0;
        while k < count
            invariant
                self.knows(*op, n@),
                first + n@ <= u32::MAX,
                ops == op.mnemonic.operands(),
                count == ops.len(),
                k <= count,
                m.shape() == op.mnemonic.shape(),
                m.operands().len() == count,
                forall|j: int|
                    0 <= j < count ==> #[trigger] m.operands()[j] == (if j < k {
                        self.operand(ops[j], first as int)
                    } else {
                        ops[j]
                    }),
            decreases count - k,
        {
            let operand: LocalValueId = m.operand(k).unwrap();
            proof {
                assert(operand == ops[k as int]);
                assert(self.knows_operand(ops[k as int], n@));
            }
            let mapped: LocalValueId = match operand {
                LocalValueId::Literal(j) => self.literals[j.0],
                LocalValueId::Instruction(j) => LocalValueId::Instruction(LocalInsnId(first + j.0)),
                LocalValueId::Temp(j) => LocalValueId::Temp(self.temps[j.0 as usize]),
                LocalValueId::Varnode(j) => LocalValueId::Varnode(self.varnodes[j.0]),
                other => other,
            };
            m.set_operand(k, mapped);
            k = k + 1;
        }
        let ghost mapped = m.operands();
        proof {
            assert(mapped =~= ops.map_values(|v: LocalValueId| self.operand(v, first as int)));
        }
        match &mut m {
            Mnemonic::Load(load) => {
                load.space = self.map_space(load.space);
            },
            Mnemonic::Store(store) => {
                store.space = self.map_space(store.space);
            },
            Mnemonic::Branch(branch) => {
                branch.target = self.blocks[branch.target.0 as usize];
            },
            Mnemonic::CBranch(cbranch) => {
                cbranch.success_block = self.blocks[cbranch.success_block.0 as usize];
                cbranch.failure_block = self.blocks[cbranch.failure_block.0 as usize];
            },
            Mnemonic::Call(call) => {
                call.target = self.map_callee(call.target);
            },
            Mnemonic::TailCall(call) => {
                call.target = self.map_callee(call.target);
            },
            _ => {},
        }
        proof {
            assert(m.operands() =~= mapped);
        }
        m
    }
}

/// The blocks that an operation of this shape gives its block an edge to.
pub open spec fn branch_edges(shape: Shape) -> Seq<LocalBlockId> {
    match shape {
        Shape::Branch { target, args } => seq![target],
        Shape::CBranch { success_block, success_args, failure_block, failure_args } => seq![
            success_block,
            failure_block,
        ],
        _ => Seq::empty(),
    }
}

/// `body` with an edge from `from` to each of `targets`, in order.
pub open spec fn with_edges(
    body: BodyView,
    from: LocalBlockId,
    targets: Seq<LocalBlockId>,
) -> BodyView
    decreases targets.len(),
{
    if targets.len() == 0 {
        body
    } else {
        let w = with_edges(body, from, targets.drop_last());
        BodyView {
            edges: w.edges.insert(
                EdgeId(w.edges_issued as u32),
                EdgeData { from, to: targets.last() },
            ),
            edges_issued: w.edges_issued + 1,
            ..w
        }
    }
}

/// The name that a value named after `base` gets: the bare base, or its first
/// free suffix where that is taken.
pub open spec fn unique_name(names: NamesView<LocalValueId>, base: BaseId) -> Name {
    if names.is_taken(Name { base, suffix: 0 }) {
        Name {
            base,
            suffix: choose|n: u32| LocalNames::<LocalValueId>::first_free(names, base, n),
        }
    } else {
        Name { base, suffix: 0 }
    }
}

/// `body` with one more instruction, at the end of `block` and with the edges
/// its branches need, named after `base` if there is one.
pub open spec fn with_op(
    body: BodyView,
    block: LocalBlockId,
    type_id: TypeId,
    base: Option<BaseId>,
    m: MnemonicView,
    address: Option<u64>,
) -> BodyView {
    let local = LocalInsnId(body.insns_issued as u32);
    let w = with_edges(body, block, branch_edges(m.shape));
    let name = match base {
        Some(b) => Some(unique_name(body.names, b)),
        None => None,
    };
    with_order(
        BodyView {
            insns: w.insns.insert(local, InsnView { name, type_id, mnemonic: m, address }),
            insns_issued: w.insns_issued + 1,
            names: match name {
                Some(n) => NamesView {
                    held: w.names.held.insert(n, LocalValueId::Instruction(local)),
                    ..w.names
                },
                None => w.names,
            },
            ..w
        },
        block,
        w.blocks[block].insns.push(local),
    )
}

/// `body` with a run of operations appended, resolved through `map`.
pub open spec fn with_run(
    body: BodyView,
    ops: Seq<ProtoOp>,
    map: ProtoMap<'_>,
    address: Option<u64>,
    naming: bool,
) -> BodyView
    decreases ops.len(),
{
    if ops.len() == 0 {
        body
    } else {
        let op = ops.last();
        with_op(
            with_run(body, ops.drop_last(), map, address, naming),
            map.blocks@[op.block as int],
            op.type_id,
            if naming {
                op.base
            } else {
                None
            },
            map.mnemonic(op.mnemonic@, body.insns_issued as int),
            address,
        )
    }
}

/// The edges that block `x` lists once those numbered from `first` to before
/// `last` were added to `list`.
pub open spec fn extended_list(
    edges: Map<EdgeId, EdgeData>,
    x: LocalBlockId,
    list: Seq<EdgeId>,
    first: nat,
    last: nat,
) -> Seq<EdgeId>
    decreases last,
{
    if last <= first {
        list
    } else {
        let before = extended_list(edges, x, list, first, (last - 1) as nat);
        let e = EdgeId((last - 1) as u32);
        if edges[e].from == x || edges[e].to == x {
            before.push(e)
        } else {
            before
        }
    }
}

/// Whether every block lists in `b` the edges it listed in `a` and after them,
/// in the order they were issued, its new ones.
pub open spec fn lists_extended(a: FunctionBody, b: FunctionBody) -> bool {
    forall|x: LocalBlockId|
        a.has_block(x) && b.has_block(x) ==> #[trigger] b.block_rec(x).edges@ == extended_list(
            b@.edges,
            x,
            a.block_rec(x).edges@,
            a@.edges_issued,
            b@.edges_issued,
        )
}

/// Only the new edges count.
proof fn lemma_extended_same(
    m: Map<EdgeId, EdgeData>,
    n: Map<EdgeId, EdgeData>,
    x: LocalBlockId,
    list: Seq<EdgeId>,
    first: nat,
    last: nat,
)
    requires
        last <= 0x1_0000_0000,
        forall|e: EdgeId| first <= e.0 < last ==> #[trigger] m[e] == n[e],
    ensures
        extended_list(m, x, list, first, last) == extended_list(n, x, list, first, last),
    decreases last,
{
    if first < last {
        lemma_extended_same(m, n, x, list, first, (last - 1) as nat);
        assert(m[EdgeId((last - 1) as u32)] == n[EdgeId((last - 1) as u32)]);
    }
}

/// Edges may be added in two goes.
proof fn lemma_extended_twice(
    m: Map<EdgeId, EdgeData>,
    x: LocalBlockId,
    list: Seq<EdgeId>,
    first: nat,
    mid: nat,
    last: nat,
)
    requires
        first <= mid <= last,
    ensures
        extended_list(m, x, extended_list(m, x, list, first, mid), mid, last) == extended_list(
            m,
            x,
            list,
            first,
            last,
        ),
    decreases last,
{
    if mid < last {
        lemma_extended_twice(m, x, list, first, mid, (last - 1) as nat);
    }
}

/// Lists that are extended twice are extended.
proof fn lemma_lists_extended(a: FunctionBody, b: FunctionBody, c: FunctionBody)
    requires
        lists_extended(a, b),
        lists_extended(b, c),
        a@.edges_issued <= b@.edges_issued <= c@.edges_issued <= 0x1_0000_0000,
        forall|e: EdgeId| e.0 < b@.edges_issued ==> #[trigger] c@.edges[e] == b@.edges[e],
        b@.blocks.dom() == c@.blocks.dom(),
    ensures
        lists_extended(a, c),
{
    assert forall|x: LocalBlockId| a.has_block(x) && c.has_block(x) implies #[trigger] c.block_rec(
        x,
    ).edges@ == extended_list(
        c@.edges,
        x,
        a.block_rec(x).edges@,
        a@.edges_issued,
        c@.edges_issued,
    ) by {
        assert(c@.blocks.dom().contains(x));
        assert(b@.blocks.contains_key(x));
        assert(b.has_block(x));
        let list = a.block_rec(x).edges@;
        let (first, mid, last) = (a@.edges_issued, b@.edges_issued, c@.edges_issued);
        assert(b.block_rec(x).edges@ == extended_list(b@.edges, x, list, first, mid));
        lemma_extended_same(b@.edges, c@.edges, x, list, first, mid);
        lemma_extended_twice(c@.edges, x, list, first, mid, last);
    }
}

/// A base has one first free suffix.
proof fn lemma_first_free_unique(names: NamesView<LocalValueId>, base: BaseId, a: u32, b: u32)
    requires
        LocalNames::<LocalValueId>::first_free(names, base, a),
        LocalNames::<LocalValueId>::first_free(names, base, b),
    ensures
        a == b,
{
    if a < b {
        assert(names.held.contains_key(Name { base, suffix: a }));
    } else if b < a {
        assert(names.held.contains_key(Name { base, suffix: b }));
    }
}

impl FunctionBody {
    /// Whether no operand names an instruction that is yet to come.
    pub open spec fn no_forward_operands(&self) -> bool {
        forall|i: LocalInsnId, k: int|
            self.has_insn(i) && 0 <= k < self.operands(i).len() ==> is_before(
                #[trigger] self.operands(i)[k],
                self.insns@.len() as int,
            )
    }

    /// Gives `from` an edge to each block that `m` branches to.
    fn add_branch_edges(&mut self, from: LocalBlockId, m: &Mnemonic)
        requires
            old(self).wf(),
            old(self).has_block(from),
            forall|k: int|
                0 <= k < branch_edges(m.shape()).len() ==> old(self).has_block(
                    #[trigger] branch_edges(m.shape())[k],
                ),
            old(self).edge_room(2),
            old(self)@.edges_issued + 2 <= u32::MAX,
        ensures
            final(self).wf(),
            old(self).uses_complete() ==> final(self).uses_complete(),
            final(self)@ == with_edges(old(self)@, from, branch_edges(m.shape())),
            final(self).insns == old(self).insns,
            final(self).uses == old(self).uses,
            lists_extended(*old(self), *final(self)),
            forall|x: LocalBlockId| #[trigger]
                final(self).has_block(x) ==> old(self).has_block(x) && final(self).block_rec(
                    x,
                ).edges@.len() <= old(self).block_rec(x).edges@.len() + 2,
    {
        let ghost before = *self;
        proof {
            reveal_with_fuel(with_edges, 3);
            reveal_with_fuel(extended_list, 3);
        }
        match m {
            Mnemonic::Branch(branch) => {
                proof {
                    assert(before.has_block(branch_edges(m.shape())[0]));
                    assert(seq![branch.target].drop_last() =~= Seq::<LocalBlockId>::empty());
                }
                let edge: EdgeId = self.add_cfg_edge_local(from, branch.target);
                proof {
                    assert(edge == EdgeId(before@.edges_issued as u32));
                }
            },
            Mnemonic::CBranch(cbranch) => {
                let ghost targets = seq![cbranch.success_block, cbranch.failure_block];
                proof {
                    assert(before.has_block(branch_edges(m.shape())[0]));
                    assert(before.has_block(branch_edges(m.shape())[1]));
                    assert(targets.drop_last() =~= seq![cbranch.success_block]);
                    assert(seq![cbranch.success_block].drop_last() =~= Seq::<LocalBlockId>::empty());
                }
                let first: EdgeId = self.add_cfg_edge_local(from, cbranch.success_block);
                let ghost mid = *self;
                proof {
                    assert(first == EdgeId(before@.edges_issued as u32));
                    assert(mid.has_block(from));
                    assert(mid.has_block(cbranch.failure_block));
                    assert(mid.block_rec(from).edges@.len() <= before.block_rec(from).edges@.len()
                        + 1);
                    assert(mid.block_rec(cbranch.failure_block).edges@.len() <= before.block_rec(
                        cbranch.failure_block,
                    ).edges@.len() + 1);
                }
                let second: EdgeId = self.add_cfg_edge_local(from, cbranch.failure_block);
                proof {
                    assert(second == EdgeId(mid@.edges_issued as u32));
                    assert forall|x: LocalBlockId| #[trigger] self.has_block(x) implies before.has_block(x)
                        && self.block_rec(x).edges@.len() <= before.block_rec(x).edges@.len() + 2 by {
                        assert(mid.has_block(x));
                        assert(before.has_block(x));
                        assert(mid.block_rec(x).edges@.len() <= before.block_rec(x).edges@.len()
                            + 1);
                        assert(self.block_rec(x).edges@.len() <= mid.block_rec(x).edges@.len() + 1);
                    }
                }
            },
            _ => {},
        }
    }

    /// Appends one instruction to the end of `block`, with the edges its
    /// branches need, named after `base` if there is one.
    fn append_op(
        &mut self,
        block: LocalBlockId,
        type_id: TypeId,
        base: Option<BaseId>,
        m: Mnemonic,
        address: Option<u64>,
    ) -> (local: LocalInsnId)
        requires
            old(self).wf(),
            old(self).has_block(block),
            forall|k: int|
                0 <= k < branch_edges(m.shape()).len() ==> old(self).has_block(
                    #[trigger] branch_edges(m.shape())[k],
                ),
            old(self).edge_room(2),
            old(self)@.edges_issued + 2 <= u32::MAX,
            old(self).insns.has_room(),
            m.operands().len() <= 0x1_0000,
            old(self).use_room(m.operands().len() as int),
            base matches Some(b) ==> b.raw() < old(self)@.names.bases.len() && old(
                self,
            )@.names.few(),
        ensures
            final(self).wf(),
            local.0 == old(self)@.insns_issued,
            final(self)@ == with_op(old(self)@, block, type_id, base, m@, address),
            old(self).uses_complete() && old(self).unmentioned(LocalValueId::Instruction(local))
                ==> final(self).uses_complete(),
            lists_extended(*old(self), *final(self)),
            final(self).uses@.len() <= old(self).uses@.len() + m.operands().len(),
            forall|x: LocalBlockId| #[trigger]
                final(self).has_block(x) ==> old(self).has_block(x) && final(self).block_rec(
                    x,
                ).edges@.len() <= old(self).block_rec(x).edges@.len() + 2,
    {
        let ghost before = *self;
        self.add_branch_edges(block, &m);
        let ghost joined = *self;
        proof {
            lemma_with_edges_frame(before@, block, branch_edges(m.shape()));
        }
        let local: LocalInsnId = LocalInsnId(self.insns.issued() as u32);
        let mut insn: Instruction = Instruction::new(type_id, m);
        insn.address = address;
        if let Some(b) = base {
            proof {
                law_a_suffix_is_free(self@.names, b);
            }
            let name: Name = self.names.register_unique(b, LocalValueId::Instruction(local));
            insn.name = Some(name);
            proof {
                lemma_same_storage(joined, *self);
                let names = joined@.names;
                if names.is_taken(Name { base: b, suffix: 0 }) {
                    let n = choose|n: u32|
                        LocalNames::<LocalValueId>::first_free(names, b, n);
                    lemma_first_free_unique(names, b, n, name.suffix);
                }
            }
        }
        let ghost named = *self;
        proof {
            assert(named.unmentioned(LocalValueId::Instruction(local)) == before.unmentioned(
                LocalValueId::Instruction(local),
            )) by {
                assert(named.insns == before.insns);
                assert forall|i: LocalInsnId| named.has_insn(i) == before.has_insn(i)
                    && named.operands(i) == before.operands(i) by {}
            }
        }
        let pushed: LocalInsnId = self.push_insn_local(insn);
        let ghost grown = *self;
        proof {
            assert(grown@.blocks.contains_key(block)) by {
                assert(before@.blocks.contains_key(block));
            }
            assert(grown.has_block(block));
            assert(grown@.insns.contains_key(pushed));
            assert(grown.has_insn(pushed));
        }
        self.link_last(block, pushed);
        proof {
            assert(self@.blocks =~= with_op(before@, block, type_id, base, m@, address).blocks);
            assert forall|x: LocalBlockId| #[trigger] self.has_block(x) implies joined.has_block(x)
                && self.block_rec(x).edges == joined.block_rec(x).edges by {
                assert(grown.has_block(x));
                assert(grown@.blocks.contains_key(x));
                assert(joined@.blocks.contains_key(x));
                assert(named.block_rec(x) == joined.block_rec(x));
                assert(grown.block_rec(x).edges == named.block_rec(x).edges);
                assert(self.block_rec(x).edges == grown.block_rec(x).edges);
            }
            assert(self@.edges == joined@.edges);
            assert(lists_extended(before, *self));
        }
        pushed
    }
}

/// Adding edges changes nothing else.
proof fn lemma_with_edges_frame(
    body: BodyView,
    from: LocalBlockId,
    targets: Seq<LocalBlockId>,
)
    requires
        body.edges_issued + targets.len() <= u32::MAX,
    ensures
        forall|e: EdgeId|
            e.0 < body.edges_issued ==> #[trigger] with_edges(body, from, targets).edges[e]
                == body.edges[e],
        with_edges(body, from, targets) == (BodyView {
            edges: with_edges(body, from, targets).edges,
            edges_issued: body.edges_issued + targets.len(),
            ..body
        }),
    decreases targets.len(),
{
    if targets.len() > 0 {
        lemma_with_edges_frame(body, from, targets.drop_last());
    }
}

/// The number of operands of the operations of a run.
pub open spec fn run_operands(ops: Seq<ProtoOp>) -> nat
    decreases ops.len(),
{
    if ops.len() == 0 {
        0
    } else {
        run_operands(ops.drop_last()) + ops.last().mnemonic.operands().len()
    }
}

/// The number of operations of a run that are named.
pub open spec fn run_names(ops: Seq<ProtoOp>, naming: bool) -> nat
    decreases ops.len(),
{
    if ops.len() == 0 {
        0
    } else {
        run_names(ops.drop_last(), naming) + (if naming && ops.last().base is Some {
            1nat
        } else {
            0
        })
    }
}

/// A longer run has no fewer names.
proof fn lemma_run_names(ops: Seq<ProtoOp>, naming: bool, n: int)
    requires
        0 <= n <= ops.len(),
    ensures
        run_names(ops.take(n), naming) <= run_names(ops, naming),
    decreases ops.len() - n,
{
    if n < ops.len() {
        lemma_run_names(ops, naming, n + 1);
        assert(ops.take(n + 1).drop_last() =~= ops.take(n));
    } else {
        assert(ops.take(n) =~= ops);
    }
}

/// A longer run has no fewer operands.
proof fn lemma_run_operands(ops: Seq<ProtoOp>, n: int)
    requires
        0 <= n <= ops.len(),
    ensures
        run_operands(ops.take(n)) <= run_operands(ops),
    decreases ops.len() - n,
{
    if n < ops.len() {
        lemma_run_operands(ops, n + 1);
        assert(ops.take(n + 1).drop_last() =~= ops.take(n));
    } else {
        assert(ops.take(n) =~= ops);
    }
}

impl FunctionBody {
    /// Whether the run `ops`, resolved through `map`, can be appended: every
    /// index of it stands for something, the blocks it names are live, and
    /// there is room for all of it. Where operations are named, the names they
    /// are named after are there, and there are fewer names than suffixes.
    pub open spec fn can_append(
        &self,
        ops: Seq<ProtoOp>,
        map: ProtoMap<'_>,
        naming: bool,
    ) -> bool {
        &&& forall|n: int| 0 <= n < ops.len() ==> map.knows(#[trigger] ops[n], n)
        &&& forall|k: int| 0 <= k < map.blocks@.len() ==> self.has_block(#[trigger] map.blocks@[k])
        &&& forall|n: int|
            0 <= n < ops.len() && naming ==> ((#[trigger] ops[n]).base matches Some(b) ==> b.raw()
                < self@.names.bases.len())
        &&& self@.insns_issued + ops.len() <= u32::MAX
        &&& self@.edges_issued + 2 * ops.len() <= u32::MAX
        &&& self.use_room(run_operands(ops) as int)
        &&& self.edge_room(2 * ops.len() as int)
        &&& run_names(ops, naming) == 0 || self@.names.held.dom().len() + run_names(ops, naming)
            < u32::MAX
    }

    /// Appends operation number `n` of a run whose first operation got the
    /// index `first`.
    fn append_proto_op(
        &mut self,
        op: &ProtoOp,
        map: &ProtoMap<'_>,
        address: Option<u64>,
        naming: bool,
        first: u32,
        n: Ghost<int>,
    ) -> (local: LocalInsnId)
        requires
            old(self).wf(),
            map.knows(*op, n@),
            0 <= n@,
            first + n@ == old(self)@.insns_issued,
            first + n@ < u32::MAX,
            naming ==> (op.base matches Some(b) ==> b.raw() < old(self)@.names.bases.len() && old(
                self,
            )@.names.few()),
            forall|k: int|
                0 <= k < map.blocks@.len() ==> old(self).has_block(#[trigger] map.blocks@[k]),
            old(self).edge_room(2),
            old(self)@.edges_issued + 2 <= u32::MAX,
            old(self).use_room(op.mnemonic.operands().len() as int),
        ensures
            final(self).wf(),
            local.0 == old(self)@.insns_issued,
            final(self)@ == with_op(
                old(self)@,
                map.blocks@[op.block as int],
                op.type_id,
                if naming {
                    op.base
                } else {
                    None
                },
                map.mnemonic(op.mnemonic@, first as int),
                address,
            ),
            final(self)@.insns_issued == old(self)@.insns_issued + 1,
            final(self)@.edges_issued <= old(self)@.edges_issued + 2,
            final(self)@.names.bases == old(self)@.names.bases,
            final(self)@.blocks.dom() == old(self)@.blocks.dom(),
            old(self).uses_complete() && old(self).no_forward_operands() && map.literals_before(
                first as int,
            ) ==> final(self).uses_complete() && final(self).no_forward_operands(),
            lists_extended(*old(self), *final(self)),
            old(self)@.edges_issued <= final(self)@.edges_issued,
            forall|e: EdgeId|
                e.0 < old(self)@.edges_issued ==> #[trigger] final(self)@.edges[e] == old(
                    self,
                )@.edges[e],
            final(self)@.names.held.dom().len() <= old(self)@.names.held.dom().len() + (if naming
                && op.base is Some {
                1nat
            } else {
                0
            }),
            final(self).uses@.len() <= old(self).uses@.len() + op.mnemonic.operands().len(),
            forall|x: LocalBlockId| #[trigger]
                final(self).has_block(x) ==> old(self).has_block(x) && final(self).block_rec(
                    x,
                ).edges@.len() <= old(self).block_rec(x).edges@.len() + 2,
    {
        let ghost before = *self;
        let m: Mnemonic = map.resolve(op, first, n);
        proof {
            assert forall|j: int| 0 <= j < branch_edges(m.shape()).len() implies before.has_block(
                #[trigger] branch_edges(m.shape())[j],
            ) by {
                match op.mnemonic.shape() {
                    Shape::Branch { target, args } => {
                        assert(before.has_block(map.blocks@[target.0 as int]));
                    },
                    Shape::CBranch { success_block, success_args, failure_block, failure_args } => {
                        assert(before.has_block(map.blocks@[success_block.0 as int]));
                        assert(before.has_block(map.blocks@[failure_block.0 as int]));
                    },
                    _ => {},
                }
            }
            assert(before.has_block(map.blocks@[op.block as int]));
            assert(m.operands().len() == op.mnemonic.operands().len());
            lemma_with_edges_frame(before@, map.blocks@[op.block as int], branch_edges(m.shape()));
        }
        let block: LocalBlockId = map.blocks[op.block as usize];
        let base: Option<BaseId> = if naming {
            op.base
        } else {
            None
        };
        let ghost operands = m.operands();
        let local: LocalInsnId = self.append_op(block, op.type_id, base, m, address);
        proof {
            assert(before@.blocks.contains_key(block));
            assert(self@.blocks.dom() =~= before@.blocks.dom());
            law_names_are_finitely_many(before@.names);
            if before.uses_complete() && before.no_forward_operands() && map.literals_before(
                first as int,
            ) {
                assert forall|i: LocalInsnId, l: int|
                    before.has_insn(i) && 0 <= l < before.operands(i).len() implies #[trigger] before.operands(
                    i,
                )[l] != LocalValueId::Instruction(local) by {
                    assert(is_before(before.operands(i)[l], before.insns@.len() as int));
                }
                assert(local == LocalInsnId(before@.insns_issued as u32));
                assert(self@.insns.contains_key(local));
                assert(self@.insns[local] == self.insn_rec(local)@);
                assert(self@.insns[local].mnemonic.operands == operands);
                assert forall|k: int| 0 <= k < self.operands(local).len() implies is_before(
                    #[trigger] self.operands(local)[k],
                    self.insns@.len() as int,
                ) by {
                    let v = op.mnemonic.operands()[k];
                    assert(operands[k] == map.operand(v, first as int));
                    lemma_resolved_before(map, v, first as int, n@);
                }
                assert(self@.insns.dom() =~= before@.insns.dom().insert(local));
                lemma_no_forward(before, *self, local);
            }
        }
        local
    }

    /// Appends `ops`, resolved through `map`, at the end of their blocks, and
    /// pushes each operation's id onto `out`, in order. `address` is the
    /// machine address every operation is at; names are given only when
    /// `naming`.
    pub fn append_prototype(
        &mut self,
        ops: &[ProtoOp],
        map: &ProtoMap<'_>,
        address: Option<u64>,
        naming: bool,
        out: &mut Vec<LocalInsnId>,
    )
        requires
            old(self).wf(),
            old(self).can_append(ops@, *map, naming),
        ensures
            final(self).wf(),
            lists_extended(*old(self), *final(self)),
            old(self).uses_complete() && old(self).no_forward_operands() && map.literals_before(
                old(self)@.insns_issued as int,
            ) ==> final(self).uses_complete() && final(self).no_forward_operands(),
            final(self).uses@.len() <= old(self).uses@.len() + run_operands(ops@),
            final(self)@ == with_run(old(self)@, ops@, *map, address, naming),
            final(out)@ == old(out)@ + Seq::new(
                ops@.len(),
                |k: int| LocalInsnId((old(self)@.insns_issued + k) as u32),
            ),
    {
        let ghost start = *self;
        let ghost given = out@;
        let first: u32 = self.insns.issued() as u32;
        let n: usize = ops.len();
        let mut k: usize = 0;
        proof {
            assert(ops@.take(0) =~= Seq::<ProtoOp>::empty());
            assert(out@ =~= given + Seq::new(0, |j: int| LocalInsnId((first + j) as u32)));
        }
        while k < n
            invariant
                start.wf(),
                start.can_append(ops@, *map, naming),
                first == start@.insns_issued,
                n == ops@.len(),
                k <= n,
                self.wf(),
                self@ == with_run(start@, ops@.take(k as int), *map, address, naming),
                self@.insns_issued == first + k,
                self@.edges_issued <= start@.edges_issued + 2 * k,
                self@.names.bases == start@.names.bases,
                self@.blocks.dom() == start@.blocks.dom(),
                self.uses@.len() <= start.uses@.len() + run_operands(ops@.take(k as int)),
                self@.names.held.dom().len() <= start@.names.held.dom().len() + run_names(
                    ops@.take(k as int),
                    naming,
                ),
                start@.edges_issued <= self@.edges_issued,
                lists_extended(start, *self),
                forall|x: LocalBlockId| #[trigger]
                    self.has_block(x) ==> start.has_block(x) && self.block_rec(x).edges@.len()
                        <= start.block_rec(x).edges@.len() + 2 * k,
                out@ == given + Seq::new(k as nat, |j: int| LocalInsnId((first + j) as u32)),
                start.uses_complete() && start.no_forward_operands() && map.literals_before(
                    first as int,
                ) ==> self.uses_complete() && self.no_forward_operands(),
            decreases n - k,
        {
            let op: &ProtoOp = &ops[k];
            let ghost mid = *self;
            proof {
                assert(map.knows(ops@[k as int], k as int));
                lemma_run_operands(ops@, k + 1);
                lemma_run_names(ops@, naming, k + 1);
                assert(ops@.take(k + 1).last() == ops@[k as int]);
                assert(ops@.take(k + 1).drop_last() =~= ops@.take(k as int));
                assert forall|j: int| 0 <= j < map.blocks@.len() implies mid.has_block(
                    #[trigger] map.blocks@[j],
                ) by {
                    assert(start.has_block(map.blocks@[j]));
                    assert(start@.blocks.contains_key(map.blocks@[j]));
                    assert(mid@.blocks.contains_key(map.blocks@[j]));
                }
            }
            let local: LocalInsnId = self.append_proto_op(
                op,
                map,
                address,
                naming,
                first,
                Ghost(k as int),
            );
            out.push(local);
            proof {
                lemma_lists_extended(start, mid, *self);
                assert(out@ =~= given + Seq::new(
                    (k + 1) as nat,
                    |j: int| LocalInsnId((first + j) as u32),
                ));
                assert forall|x: LocalBlockId| #[trigger] self.has_block(x) implies start.has_block(x)
                    && self.block_rec(x).edges@.len() <= start.block_rec(x).edges@.len() + 2 * (k
                    + 1) by {
                    assert(mid.has_block(x));
                }
            }
            k = k + 1;
        }
        proof {
            assert(ops@.take(n as int) =~= ops@);
        }
    }
}

/// A resolved operand names no instruction that is yet to come.
proof fn lemma_resolved_before(map: &ProtoMap<'_>, v: LocalValueId, first: int, n: int)
    requires
        map.knows_operand(v, n),
        map.literals_before(first),
        0 <= first,
        0 <= n,
        first + n <= u32::MAX,
    ensures
        is_before(map.operand(v, first), first + n),
{
    match v {
        LocalValueId::Literal(l) => {
            assert(is_before(map.literals@[l.0 as int], first));
        },
        _ => {},
    }
}

/// Adding an instruction whose operands come before it leaves no operand that
/// is yet to come.
proof fn lemma_no_forward(before: FunctionBody, after: FunctionBody, local: LocalInsnId)
    requires
        before.no_forward_operands(),
        local.0 == before@.insns_issued,
        after@.insns_issued == before@.insns_issued + 1,
        after@.insns.dom() == before@.insns.dom().insert(local),
        forall|k: int|
            0 <= k < after.operands(local).len() ==> is_before(
                #[trigger] after.operands(local)[k],
                after.insns@.len() as int,
            ),
        forall|i: LocalInsnId|
            before@.insns.contains_key(i) ==> #[trigger] after@.insns[i] == before@.insns[i],
    ensures
        after.no_forward_operands(),
{
    assert forall|i: LocalInsnId, k: int|
        after.has_insn(i) && 0 <= k < after.operands(i).len() implies is_before(
        #[trigger] after.operands(i)[k],
        after.insns@.len() as int,
    ) by {
        assert(after@.insns.contains_key(i));
        if i != local {
            assert(before@.insns.contains_key(i));
            assert(before.has_insn(i));
            assert(after@.insns[i] == before@.insns[i]);
            assert(after.operands(i) == before.operands(i));
            assert(is_before(before.operands(i)[k], before.insns@.len() as int));
        }
    }
}

} // verus!
