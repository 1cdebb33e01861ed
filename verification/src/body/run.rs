//! What appending a run of operations comes to, operation by operation.

use crate::block::EdgeData;
use crate::body::prototype::{branch_edges, with_edges, with_run, ProtoMap, ProtoOp};
use crate::body::{BlockView, BodyView};
use crate::ids::{EdgeId, LocalBlockId, LocalInsnId};
use crate::insn::mnemonic::{Mnemonic, Shape};
use crate::insn::terminator::Callee;
use crate::space::LocalMemorySpaceId;
use crate::value::LocalValueId;
use vstd::prelude::*;

verus! {

/// How many blocks a recorded operation branches to: one for a branch and two
/// for a conditional one.
pub open spec fn edges_of(m: Mnemonic) -> nat {
    match m {
        Mnemonic::Branch(_) => 1,
        Mnemonic::CBranch(_) => 2,
        _ => 0,
    }
}

/// How many blocks the first `n` of `ops` branch to.
pub open spec fn edges_up_to(ops: Seq<ProtoOp>, n: int) -> nat
    decreases n,
{
    if n <= 0 {
        0
    } else {
        edges_up_to(ops, n - 1) + edges_of(ops[n - 1].mnemonic)
    }
}

/// The operations of a run, up to `n`, that are in the block `b`.
pub open spec fn placed_in(
    ops: Seq<ProtoOp>,
    map: ProtoMap<'_>,
    b: LocalBlockId,
    first: int,
    n: int,
) -> Seq<LocalInsnId>
    decreases n,
{
    if n <= 0 {
        Seq::empty()
    } else {
        let rest = placed_in(ops, map, b, first, n - 1);
        if map.blocks@[ops[n - 1].block as int] == b {
            rest.push(LocalInsnId((first + n - 1) as u32))
        } else {
            rest
        }
    }
}

proof fn lemma_up_to_same(ops: Seq<ProtoOp>, n: int)
    requires
        0 <= n < ops.len(),
    ensures
        edges_up_to(ops.drop_last(), n) == edges_up_to(ops, n),
        edges_up_to(ops, n) <= 2 * n,
    decreases n,
{
    if n > 0 {
        lemma_up_to_same(ops, n - 1);
    }
}

proof fn lemma_placed_same(
    ops: Seq<ProtoOp>,
    map: ProtoMap<'_>,
    b: LocalBlockId,
    first: int,
    n: int,
)
    requires
        0 <= n < ops.len(),
    ensures
        placed_in(ops.drop_last(), map, b, first, n) == placed_in(ops, map, b, first, n),
    decreases n,
{
    if n > 0 {
        lemma_placed_same(ops, map, b, first, n - 1);
    }
}

/// The body after a run, its last operation apart.
spec fn up_to_last(
    body: BodyView,
    ops: Seq<ProtoOp>,
    map: ProtoMap<'_>,
    address: Option<u64>,
    naming: bool,
) -> BodyView {
    with_run(body, ops.drop_last(), map, address, naming)
}

/// What the last operation of a run adds.
proof fn lemma_last_op(
    body: BodyView,
    ops: Seq<ProtoOp>,
    map: ProtoMap<'_>,
    address: Option<u64>,
    naming: bool,
)
    requires
        ops.len() > 0,
        up_to_last(body, ops, map, address, naming).edges_issued + 2 <= u32::MAX,
    ensures
        ({
            let w = up_to_last(body, ops, map, address, naming);
            let r = with_run(body, ops, map, address, naming);
            let op = ops.last();
            let from = map.blocks@[op.block as int];
            let local = LocalInsnId(w.insns_issued as u32);
            &&& r.insns_issued == w.insns_issued + 1
            &&& r.edges_issued == w.edges_issued + edges_of(op.mnemonic)
            &&& forall|e: EdgeId| #[trigger]
                r.edges.contains_key(e) <==> w.edges.contains_key(e) || w.edges_issued <= e.0
                    < r.edges_issued
            &&& forall|e: EdgeId| e.0 < w.edges_issued ==> #[trigger] r.edges[e] == w.edges[e]
            &&& op.mnemonic matches Mnemonic::Branch(b) ==> r.edges[EdgeId(w.edges_issued as u32)]
                == (EdgeData { from, to: map.blocks@[b.target.0 as int] })
            &&& op.mnemonic matches Mnemonic::CBranch(b) ==> {
                &&& r.edges[EdgeId(w.edges_issued as u32)] == (EdgeData {
                    from,
                    to: map.blocks@[b.success_block.0 as int],
                })
                &&& r.edges[EdgeId((w.edges_issued + 1) as u32)] == (EdgeData {
                    from,
                    to: map.blocks@[b.failure_block.0 as int],
                })
            }
            &&& r.insns == w.insns.insert(local, r.insns[local])
            &&& r.insns[local].type_id == op.type_id
            &&& r.insns[local].address == address
            &&& r.insns[local].mnemonic == map.mnemonic(op.mnemonic@, body.insns_issued as int)
            &&& r.insns[local].name is Some <==> naming && op.base is Some
            &&& r.insns[local].name matches Some(name) ==> Some(name.base) == op.base
            &&& r.blocks == w.blocks.insert(
                from,
                BlockView { insns: w.blocks[from].insns.push(local), ..w.blocks[from] },
            )
            &&& r.params == w.params
            &&& r.roster == w.roster
            &&& r.root == w.root
        }),
{
    reveal_with_fuel(with_edges, 3);
    let w = up_to_last(body, ops, map, address, naming);
    let op = ops.last();
    let m = map.mnemonic(op.mnemonic@, body.insns_issued as int);
    let from = map.blocks@[op.block as int];
    let targets = branch_edges(m.shape);
    match op.mnemonic {
        Mnemonic::Branch(b) => {
            assert(targets.drop_last() =~= Seq::<LocalBlockId>::empty());
        },
        Mnemonic::CBranch(b) => {
            assert(targets.drop_last() =~= seq![map.blocks@[b.success_block.0 as int]]);
            assert(targets.drop_last().drop_last() =~= Seq::<LocalBlockId>::empty());
        },
        _ => {},
    }
    let r = with_run(body, ops, map, address, naming);
    let local = LocalInsnId(w.insns_issued as u32);
    assert(r.insns =~= w.insns.insert(local, r.insns[local]));
}

/// Every operation of a run that branches gives its block an edge to each block
/// it branches to, in their order, and there are no other new edges.
pub proof fn law_a_run_adds_an_edge_for_each_target(
    body: BodyView,
    ops: Seq<ProtoOp>,
    map: ProtoMap<'_>,
    address: Option<u64>,
    naming: bool,
)
    requires
        body.edges_issued + 2 * ops.len() <= u32::MAX,
    ensures
        ({
            let after = with_run(body, ops, map, address, naming);
            let first = body.edges_issued;
            &&& after.edges_issued == first + edges_up_to(ops, ops.len() as int)
            &&& forall|e: EdgeId| #[trigger]
                after.edges.contains_key(e) <==> body.edges.contains_key(e) || first <= e.0
                    < after.edges_issued
            &&& forall|e: EdgeId| e.0 < first ==> #[trigger] after.edges[e] == body.edges[e]
            &&& forall|n: int|
                0 <= n < ops.len() ==> {
                    let op = #[trigger] ops[n];
                    let from = map.blocks@[op.block as int];
                    let e = first + edges_up_to(ops, n);
                    &&& op.mnemonic matches Mnemonic::Branch(b) ==> after.edges[EdgeId(e as u32)]
                        == (EdgeData { from, to: map.blocks@[b.target.0 as int] })
                    &&& op.mnemonic matches Mnemonic::CBranch(b) ==> {
                        &&& after.edges[EdgeId(e as u32)] == (EdgeData {
                            from,
                            to: map.blocks@[b.success_block.0 as int],
                        })
                        &&& after.edges[EdgeId((e + 1) as u32)] == (EdgeData {
                            from,
                            to: map.blocks@[b.failure_block.0 as int],
                        })
                    }
                }
        }),
    decreases ops.len(),
{
    if ops.len() > 0 {
        let rest = ops.drop_last();
        let w = with_run(body, rest, map, address, naming);
        let after = with_run(body, ops, map, address, naming);
        law_a_run_adds_an_edge_for_each_target(body, rest, map, address, naming);
        lemma_up_to_same(ops, ops.len() - 1);
        lemma_last_op(body, ops, map, address, naming);
        assert forall|n: int| 0 <= n < ops.len() implies {
            let op = #[trigger] ops[n];
            let from = map.blocks@[op.block as int];
            let e = body.edges_issued + edges_up_to(ops, n);
            &&& op.mnemonic matches Mnemonic::Branch(b) ==> after.edges[EdgeId(e as u32)] == (
            EdgeData { from, to: map.blocks@[b.target.0 as int] })
            &&& op.mnemonic matches Mnemonic::CBranch(b) ==> {
                &&& after.edges[EdgeId(e as u32)] == (EdgeData {
                    from,
                    to: map.blocks@[b.success_block.0 as int],
                })
                &&& after.edges[EdgeId((e + 1) as u32)] == (EdgeData {
                    from,
                    to: map.blocks@[b.failure_block.0 as int],
                })
            }
        } by {
            if n < rest.len() {
                assert(rest[n] == ops[n]);
                lemma_up_to_same(ops, n);
                lemma_up_to_grows(ops, n + 1, ops.len() - 1);
            }
        }
    }
}

proof fn lemma_up_to_grows(ops: Seq<ProtoOp>, n: int, m: int)
    requires
        0 <= n <= m,
    ensures
        edges_up_to(ops, n) <= edges_up_to(ops, m),
    decreases m,
{
    if n < m {
        lemma_up_to_grows(ops, n, m - 1);
    }
}

/// The operations of a run get the next indices, in order, and join their blocks
/// at the end, in order; what was there stays where it was.
pub proof fn law_a_run_joins_its_blocks_in_order(
    body: BodyView,
    ops: Seq<ProtoOp>,
    map: ProtoMap<'_>,
    address: Option<u64>,
    naming: bool,
    b: LocalBlockId,
)
    requires
        body.insns_issued + ops.len() <= u32::MAX,
        body.edges_issued + 2 * ops.len() <= u32::MAX,
        body.blocks.contains_key(b),
    ensures
        ({
            let after = with_run(body, ops, map, address, naming);
            let first = body.insns_issued;
            &&& after.insns_issued == first + ops.len()
            &&& after.blocks.contains_key(b)
            &&& after.blocks[b] == (BlockView {
                insns: body.blocks[b].insns + placed_in(
                    ops,
                    map,
                    b,
                    first as int,
                    ops.len() as int,
                ),
                ..body.blocks[b]
            })
            &&& forall|i: LocalInsnId|
                i.0 < first ==> (#[trigger] after.insns.contains_key(i)
                    <==> body.insns.contains_key(i))
            &&& forall|i: LocalInsnId| i.0 < first ==> #[trigger] after.insns[i] == body.insns[i]
            &&& forall|i: LocalInsnId|
                first <= i.0 < first + ops.len() ==> #[trigger] after.insns.contains_key(i)
        }),
    decreases ops.len(),
{
    let first = body.insns_issued as int;
    if ops.len() == 0 {
        assert(body.blocks[b].insns + placed_in(ops, map, b, first, 0) =~= body.blocks[b].insns);
    } else {
        let rest = ops.drop_last();
        let w = with_run(body, rest, map, address, naming);
        law_a_run_joins_its_blocks_in_order(body, rest, map, address, naming, b);
        law_a_run_adds_an_edge_for_each_target(body, rest, map, address, naming);
        lemma_up_to_same(ops, ops.len() - 1);
        lemma_placed_same(ops, map, b, first, ops.len() - 1);
        lemma_last_op(body, ops, map, address, naming);
        let after = with_run(body, ops, map, address, naming);
        let local = LocalInsnId(w.insns_issued as u32);
        let all = placed_in(ops, map, b, first, ops.len() as int);
        let most = placed_in(ops, map, b, first, ops.len() - 1);
        if map.blocks@[ops.last().block as int] == b {
            assert(body.blocks[b].insns + all =~= (body.blocks[b].insns + most).push(local));
        }
        assert forall|i: LocalInsnId|
            first <= i.0 < first + ops.len() implies #[trigger] after.insns.contains_key(i) by {
            if i.0 < first + rest.len() {
                assert(w.insns.contains_key(i));
            } else {
                assert(i == local);
            }
        }
    }
}

/// What an operand of a recorded operation stands for: an index into the lists
/// that come with the run, or an operation of the run itself.
pub open spec fn stands_for(
    map: ProtoMap<'_>,
    first: int,
    recorded: LocalValueId,
    value: LocalValueId,
) -> bool {
    &&& recorded matches LocalValueId::Literal(k) ==> value == map.literals@[k.0 as int]
    &&& recorded matches LocalValueId::Instruction(k) ==> value == LocalValueId::Instruction(
        LocalInsnId((first + k.0) as u32),
    )
    &&& recorded matches LocalValueId::Temp(k) ==> value == LocalValueId::Temp(
        map.temps@[k.0 as int],
    )
    &&& recorded matches LocalValueId::Varnode(k) ==> value == LocalValueId::Varnode(
        map.varnodes@[k.0 as int],
    )
    &&& !(recorded is Literal) && !(recorded is Instruction) && !(recorded is Temp) && !(
    recorded is Varnode) ==> value == recorded
}

/// Every operation of a run is what was recorded, with each index replaced by
/// what it stands for, of the type that was recorded, at the address that was
/// given, and named after its base where names are given.
pub proof fn law_a_run_is_what_was_recorded(
    body: BodyView,
    ops: Seq<ProtoOp>,
    map: ProtoMap<'_>,
    address: Option<u64>,
    naming: bool,
    n: int,
)
    requires
        body.insns_issued + ops.len() <= u32::MAX,
        body.edges_issued + 2 * ops.len() <= u32::MAX,
        0 <= n < ops.len(),
    ensures
        ({
            let insn = with_run(body, ops, map, address, naming).insns[LocalInsnId(
                (body.insns_issued + n) as u32,
            )];
            let op = ops[n];
            let recorded = op.mnemonic.operands();
            let shape = insn.mnemonic.shape;
            &&& insn.type_id == op.type_id
            &&& insn.address == address
            &&& insn.name is Some <==> naming && op.base is Some
            &&& insn.name matches Some(name) ==> Some(name.base) == op.base
            &&& insn.mnemonic.operands.len() == recorded.len()
            &&& forall|k: int|
                0 <= k < recorded.len() ==> stands_for(
                    map,
                    body.insns_issued as int,
                    #[trigger] recorded[k],
                    insn.mnemonic.operands[k],
                )
            &&& op.mnemonic matches Mnemonic::Branch(b) ==> (shape matches Shape::Branch {
                target,
                args,
            } && target == map.blocks@[b.target.0 as int] && args == b.args@.len())
            &&& op.mnemonic matches Mnemonic::CBranch(b) ==> (shape matches Shape::CBranch {
                success_block,
                success_args,
                failure_block,
                failure_args,
            } && success_block == map.blocks@[b.success_block.0 as int] && failure_block
                == map.blocks@[b.failure_block.0 as int] && success_args == b.success_args@.len()
                && failure_args == b.failure_args@.len())
            &&& op.mnemonic matches Mnemonic::Load(l) ==> (shape matches Shape::Load { space, size }
                && size == l.size && space == (match l.space {
                LocalMemorySpaceId::Temp(k) => LocalMemorySpaceId::Temp(map.spaces@[k.0 as int]),
                LocalMemorySpaceId::Shared(s) => LocalMemorySpaceId::Shared(s),
            }))
            &&& op.mnemonic matches Mnemonic::Store(s) ==> (shape matches Shape::Store { space, size }
                && size == s.size && space == (match s.space {
                LocalMemorySpaceId::Temp(k) => LocalMemorySpaceId::Temp(map.spaces@[k.0 as int]),
                LocalMemorySpaceId::Shared(s) => LocalMemorySpaceId::Shared(s),
            }))
            &&& op.mnemonic matches Mnemonic::Call(c) ==> (shape matches Shape::Call {
                target,
                args,
                clobbers,
                tag,
            } && args == c.args@.len() && clobbers == c.clobbers@ && tag == c.tag && target == (
            match c.target {
                Callee::Minted(k) => map.callees@[k as int],
                Callee::Real(f) => Callee::Real(f),
            }))
            &&& op.mnemonic matches Mnemonic::TailCall(c) ==> (shape matches Shape::TailCall {
                target,
                args,
            } && args == c.args@.len() && target == (match c.target {
                Callee::Minted(k) => map.callees@[k as int],
                Callee::Real(f) => Callee::Real(f),
            }))
            &&& !(op.mnemonic is Branch) && !(op.mnemonic is CBranch) && !(op.mnemonic is Load)
                && !(op.mnemonic is Store) && !(op.mnemonic is Call) && !(op.mnemonic is TailCall)
                ==> shape == op.mnemonic.shape()
        }),
    decreases ops.len(),
{
    let rest = ops.drop_last();
    law_a_run_adds_an_edge_for_each_target(body, rest, map, address, naming);
    lemma_up_to_same(ops, ops.len() - 1);
    lemma_last_op(body, ops, map, address, naming);
    lemma_run_len(body, rest, map, address, naming);
    if n < rest.len() {
        assert(rest[n] == ops[n]);
        law_a_run_is_what_was_recorded(body, rest, map, address, naming, n);
    }
}

proof fn lemma_run_len(
    body: BodyView,
    ops: Seq<ProtoOp>,
    map: ProtoMap<'_>,
    address: Option<u64>,
    naming: bool,
)
    requires
        body.edges_issued + 2 * ops.len() <= u32::MAX,
    ensures
        with_run(body, ops, map, address, naming).insns_issued == body.insns_issued + ops.len(),
    decreases ops.len(),
{
    if ops.len() > 0 {
        let rest = ops.drop_last();
        lemma_run_len(body, rest, map, address, naming);
        law_a_run_adds_an_edge_for_each_target(body, rest, map, address, naming);
        lemma_up_to_same(ops, ops.len() - 1);
        lemma_last_op(body, ops, map, address, naming);
    }
}

} // verus!
