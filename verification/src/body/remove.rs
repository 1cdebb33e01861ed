//! Removing from bodies.

use super::cfg::{
    edges_not_from, edges_untouched, lemma_filtered_kept, lemma_kept_trans, lemma_untouched_kept,
    lists_filtered, lists_kept,
};
use super::create::{lemma_names_known, lemma_same_storage};
use super::order::taken_out;
use super::replace::with_uses_moved;
use super::uses::{lemma_uses_frame, same_but_uses};
use super::{names_known, BodyView, FunctionBody};
use crate::block::{lemma_filter_same, without};
use crate::body::compose::{issued_in, operands_issued};
use crate::ids::{
    BlockId, BlockParamId, EdgeId, InstructionId, LocalBlockId, LocalInsnId, LocalParamId, UseId,
};
use crate::insn::instruction::Instruction;
use crate::names::{Name, NamesView};
use crate::value::{LocalValueId, ValueId};
use vstd::prelude::*;

verus! {

/// `names` with `name` forgotten, if there is one.
pub open spec fn forgotten(
    names: NamesView<LocalValueId>,
    name: Option<Name>,
) -> NamesView<LocalValueId> {
    match name {
        Some(n) => NamesView { held: names.held.remove(n), ..names },
        None => names,
    }
}

/// Whether `b` is `a` without one record that nothing refers to.
pub open spec fn shrunk(a: FunctionBody, b: FunctionBody) -> bool {
    &&& b == (FunctionBody { insns: b.insns, blocks: b.blocks, params: b.params, ..a })
    &&& a.insns@.len() == b.insns@.len()
    &&& a.blocks@.len() == b.blocks@.len()
    &&& a.params@.len() == b.params@.len()
    &&& forall|i: LocalInsnId| #[trigger]
        b.has_insn(i) ==> a.has_insn(i) && b.insn_rec(i) == a.insn_rec(i)
    &&& forall|i: LocalInsnId| #[trigger]
        a.has_insn(i) && !b.has_insn(i) ==> {
            &&& a.insn_rec(i).parent is None
            &&& a.use_list(LocalValueId::Instruction(i)).len() == 0
            &&& forall|u: UseId| #[trigger] a.has_use(u) ==> a.occ(u).user != i
        }
    &&& forall|x: LocalBlockId| #[trigger]
        b.has_block(x) ==> a.has_block(x) && b.block_rec(x) == a.block_rec(x)
    &&& forall|x: LocalBlockId| #[trigger]
        a.has_block(x) && !b.has_block(x) ==> {
            &&& a.order(x).len() == 0
            &&& a.block_rec(x).edges@.len() == 0
            &&& !a.roster@.contains(x)
            &&& a.use_list(LocalValueId::BasicBlock(x)).len() == 0
        }
    &&& forall|p: LocalParamId| #[trigger]
        b.has_param(p) ==> a.has_param(p) && b.param_rec(p) == a.param_rec(p)
    &&& forall|p: LocalParamId| #[trigger]
        a.has_param(p) && !b.has_param(p) ==> a.use_list(LocalValueId::BlockParam(p)).len() == 0
}

/// Removing a record that nothing refers to keeps everything that held.
pub proof fn lemma_shrunk(a: FunctionBody, b: FunctionBody)
    requires
        a.wf(),
        shrunk(a, b),
    ensures
        b.wf(),
        a.uses_complete() ==> b.uses_complete(),
        forall|v: LocalValueId| #[trigger] b.has_home(v) ==> a.has_home(v),
{
    assert forall|x: LocalBlockId| b.has_block(x) implies #[trigger] b.list_ok(x) by {
        assert(a.list_ok(x));
        assert forall|k: int| 0 <= k < b.order(x).len() implies #[trigger] b.linked_at(x, k) by {
            assert(a.linked_at(x, k));
            assert(b.has_insn(b.order(x)[k]));
        }
    }
    assert forall|i: LocalInsnId| b.has_insn(i) implies #[trigger] b.placed_ok(i) by {
        assert(a.placed_ok(i));
        if let Some(x) = a.insn_rec(i).parent {
            assert(a.order(x).contains(i));
            assert(a.order(x).len() > 0);
            assert(b.has_block(x));
        }
    }
    assert(b.cfg_wf()) by {
        assert forall|x: LocalBlockId| b.has_block(x) implies #[trigger] b.incident_ok(x) by {
            assert(a.incident_ok(x));
        }
        assert forall|e: EdgeId| b.has_edge(e) implies #[trigger] b.edge_ok(e) by {
            assert(a.edge_ok(e));
            let rec = a.edge_rec(e);
            assert(a.block_rec(rec.from).edges@.len() > 0);
            assert(a.block_rec(rec.to).edges@.len() > 0);
            assert(b.has_block(rec.from));
            assert(b.has_block(rec.to));
        }
    }
    assert(b.operands_bounded()) by {
        assert forall|i: LocalInsnId| #[trigger] b.has_insn(i) implies b.operands(i).len()
            <= 0x1_0000 by {
            assert(a.has_insn(i));
        }
    }
    assert(b.roster_wf()) by {
        assert forall|k: int| 0 <= k < b.roster@.len() implies b.has_block(
            #[trigger] b.roster@[k],
        ) by {
            assert(a.has_block(a.roster@[k]));
            assert(a.roster@.contains(a.roster@[k]));
        }
    }
    assert(names_known(b@)) by {
        assert forall|i: LocalInsnId| b@.insns.contains_key(i) implies a@.insns.contains_key(i)
            && a@.insns[i].name == b@.insns[i].name by {
            assert(b.has_insn(i));
        }
        assert forall|x: LocalBlockId| b@.blocks.contains_key(x) implies a@.blocks.contains_key(x)
            && a@.blocks[x].name == b@.blocks[x].name by {
            assert(b.has_block(x));
        }
        assert forall|p: LocalParamId| b@.params.contains_key(p) implies a@.params.contains_key(p)
            && a@.params[p].name == b@.params[p].name by {
            assert(b.has_param(p));
        }
        lemma_names_known(a@, b@);
    }
    assert forall|v: LocalValueId| (b.has_home(v) ==> a.has_home(v)) && (b.has_home(v)
        ==> b.head_of(v) == a.head_of(v)) && (a.has_home(v) && !b.has_home(v) ==> a.use_list(
        v,
    ).len() == 0) by {
        match v {
            LocalValueId::Instruction(i) => {
                assert(b.has_insn(i) ==> a.has_insn(i));
                assert(a.has_insn(i) && !b.has_insn(i) ==> a.use_list(v).len() == 0);
            },
            LocalValueId::BasicBlock(x) => {
                assert(b.has_block(x) ==> a.has_block(x));
                assert(a.has_block(x) && !b.has_block(x) ==> a.use_list(v).len() == 0);
            },
            LocalValueId::BlockParam(p) => {
                assert(b.has_param(p) ==> a.has_param(p));
                assert(a.has_param(p) && !b.has_param(p) ==> a.use_list(v).len() == 0);
            },
            _ => {},
        }
    }
    assert(b.use_lists_wf(None)) by {
        assert forall|v: LocalValueId| #[trigger] b.use_list_ok(v) by {
            assert(a.use_list_ok(v));
            assert(b.has_home(v) || b.head_of(v) is None);
            assert forall|k: int| 0 <= k < b.use_list(v).len() implies #[trigger] b.use_linked_at(
                v,
                k,
            ) by {
                assert(a.use_linked_at(v, k));
            }
        }
        assert forall|u: UseId| b.has_use(u) implies #[trigger] b.use_list(
            b.use_rec(u).value,
        ).contains(u) by {
            assert(a.use_list(a.use_rec(u).value).contains(u));
        }
    }
    assert(b.uses_faithful()) by {
        assert forall|u: UseId| b.has_use(u) implies #[trigger] b.use_faithful(u) by {
            assert(a.use_faithful(u));
            let i = a.occ(u).user;
            assert(a.has_insn(i));
            assert(b.has_insn(i));
        }
        assert forall|u: UseId, w: UseId, i: LocalInsnId, k: int| #[trigger]
            b.is_use_of(u, i, k) && #[trigger] b.is_use_of(w, i, k) implies u == w by {
            assert(a.is_use_of(u, i, k) && a.is_use_of(w, i, k));
        }
    }
    if a.uses_complete() {
        assert forall|i: LocalInsnId, k: int|
            b.has_insn(i) && 0 <= k < b.operands(i).len() && b.has_home(
                b.operands(i)[k],
            ) implies #[trigger] b.has_use_of(i, k) by {
            assert(a.has_insn(i));
            assert(a.has_use_of(i, k));
            let u = choose|u: UseId| #[trigger] a.is_use_of(u, i, k);
            assert(b.is_use_of(u, i, k));
        }
    }
}

impl FunctionBody {
    /// Forgets a name of the body.
    pub(crate) fn forget_name(&mut self, name: Option<Name>)
        requires
            old(self).wf(),
            super::name_known(old(self)@, name),
        ensures
            final(self).wf(),
            old(self).uses_complete() ==> final(self).uses_complete(),
            final(self).uses@.len() <= old(self).uses@.len(),
            *final(self) == (FunctionBody { names: final(self).names, ..*old(self) }),
            final(self)@ == (BodyView {
                names: forgotten(old(self)@.names, name),
                ..old(self)@
            }),
    {
        let ghost before = *self;
        if let Some(n) = name {
            self.names.forget(n);
        }
        proof {
            lemma_same_storage(before, *self);
        }
    }

    /// Drops the payload of `insn`, which is in no block, together with every
    /// use of and by it.
    fn drop_instruction(&mut self, insn: LocalInsnId)
        requires
            old(self).wf(),
            old(self).has_insn(insn),
            old(self).insn_rec(insn).parent is None,
        ensures
            final(self).wf(),
            old(self).uses_complete() ==> final(self).uses_complete(),
            final(self)@ == (BodyView { insns: old(self)@.insns.remove(insn), ..old(self)@ }),
            final(self).uses@.len() == old(self).uses@.len(),
            forall|i: LocalInsnId|
                old(self).has_insn(i) && i != insn ==> #[trigger] final(self).insn_rec(i).parent
                    == old(self).insn_rec(i).parent,
            forall|x: LocalBlockId|
                old(self).has_block(x) ==> #[trigger] final(self).block_rec(x).edges == old(
                    self,
                ).block_rec(x).edges,
    {
        let ghost before = *self;
        self.remove_operand_uses(insn);
        let ghost bare = *self;
        proof {
            lemma_uses_frame(before, bare);
            assert(bare.has_insn(insn));
        }
        self.drop_uses_of(LocalValueId::Instruction(insn));
        let ghost unused = *self;
        proof {
            lemma_uses_frame(bare, unused);
            assert(unused.has_insn(insn));
            assert(unused.insn_rec(insn).parent == bare.insn_rec(insn).parent);
        }
        self.insns.remove(insn.0);
        proof {
            assert forall|i: LocalInsnId| #[trigger] self.has_insn(i) <==> unused.has_insn(i) && i
                != insn by {}
            assert forall|u: UseId| #[trigger] unused.has_use(u) implies unused.occ(u).user
                != insn by {
                assert(bare.has_use(u));
                assert(unused.occ(u) == bare.occ(u));
                assert(bare.occ(u) == before.occ(u));
            }
            assert(shrunk(unused, *self));
            lemma_shrunk(unused, *self);
            assert(self@.insns =~= before@.insns.remove(insn)) by {
                assert(unused@.insns == before@.insns);
            }
            assert(self@.blocks =~= unused@.blocks);
            assert(self@.params =~= unused@.params);
            assert(self@.edges =~= unused@.edges);
            assert forall|i: LocalInsnId| before.has_insn(i) && i != insn implies #[trigger] self.insn_rec(
                i,
            ).parent == before.insn_rec(i).parent by {
                assert(bare.has_insn(i));
                assert(bare.insn_rec(i).parent == before.insn_rec(i).parent);
                assert(unused.insn_rec(i).parent == bare.insn_rec(i).parent);
                assert(self.insn_rec(i) == unused.insn_rec(i));
            }
            assert forall|x: LocalBlockId| before.has_block(x) implies #[trigger] self.block_rec(
                x,
            ).edges == before.block_rec(x).edges by {
                assert(bare.has_block(x));
                assert(bare.block_rec(x).edges == before.block_rec(x).edges);
                assert(unused.block_rec(x).edges == bare.block_rec(x).edges);
            }
            if before.uses_complete() {
                lemma_dropped_complete(before, bare, unused, *self, insn);
            }
        }
    }
}

/// Dropping an instruction with its uses leaves the uses complete.
proof fn lemma_dropped_complete(
    before: FunctionBody,
    bare: FunctionBody,
    unused: FunctionBody,
    after: FunctionBody,
    insn: LocalInsnId,
)
    requires
        before.wf(),
        before.uses_complete(),
        same_but_uses(before, bare),
        same_but_uses(bare, unused),
        bare.rest_wf(),
        shrunk(unused, after),
        forall|u: UseId| #[trigger]
            bare.has_use(u) <==> before.has_use(u) && before.occ(u).user != insn,
        forall|u: UseId| bare.has_use(u) ==> #[trigger] bare.occ(u) == before.occ(u),
        forall|u: UseId| #[trigger]
            unused.has_use(u) <==> bare.has_use(u) && bare.occ(u).value
                != LocalValueId::Instruction(insn),
        forall|u: UseId| unused.has_use(u) ==> #[trigger] unused.occ(u) == bare.occ(u),
        forall|i: LocalInsnId| #[trigger] after.has_insn(i) <==> unused.has_insn(i) && i != insn,
    ensures
        after.uses_complete(),
{
    lemma_uses_frame(before, bare);
    lemma_uses_frame(bare, unused);
    assert forall|i: LocalInsnId, k: int|
        after.has_insn(i) && 0 <= k < after.operands(i).len() && after.has_home(
            after.operands(i)[k],
        ) implies #[trigger] after.has_use_of(i, k) by {
        assert(unused.has_insn(i));
        assert(bare.has_insn(i));
        assert(before.has_insn(i));
        assert(after.operands(i) == before.operands(i)) by {
            assert(after.insn_rec(i) == unused.insn_rec(i));
            assert(unused.operands(i) == bare.operands(i));
            assert(bare.operands(i) == before.operands(i));
        }
        let v = before.operands(i)[k];
        assert(v != LocalValueId::Instruction(insn));
        assert(unused.has_home(v)) by {
            match v {
                LocalValueId::Instruction(j) => {
                    assert(after.has_insn(j));
                },
                LocalValueId::BasicBlock(x) => {
                    assert(after.has_block(x));
                },
                LocalValueId::BlockParam(p) => {
                    assert(after.has_param(p));
                },
                _ => {},
            }
        }
        assert(bare.has_home(v) == before.has_home(v));
        assert(unused.has_home(v) == bare.has_home(v));
        assert(before.has_use_of(i, k));
        let u = choose|u: UseId| #[trigger] before.is_use_of(u, i, k);
        assert(before.use_faithful(u));
        assert(before.has_use(u));
        assert(bare.has_use(u));
        assert(bare.occ(u) == before.occ(u));
        assert(unused.has_use(u));
        assert(unused.occ(u) == bare.occ(u));
        assert(after.is_use_of(u, i, k));
    }
}

/// `body` without instruction `i`, which was in block `parent`: it leaves the
/// block, takes the block's outgoing edges along if it is a terminator, and
/// its name is forgotten.
pub open spec fn without_instruction(
    body: BodyView,
    parent: Option<LocalBlockId>,
    i: LocalInsnId,
) -> BodyView {
    BodyView {
        insns: body.insns.remove(i),
        edges: match parent {
            Some(b) => if body.insns[i].mnemonic.shape.terminates() {
                edges_not_from(body.edges, b)
            } else {
                body.edges
            },
            None => body.edges,
        },
        names: forgotten(body.names, body.insns[i].name),
        ..taken_out(body, parent, i)
    }
}

/// Taking an instruction away takes no edge out of a list that is still there.
pub(crate) proof fn lemma_removal_kept(a: FunctionBody, b: FunctionBody, i: LocalInsnId)
    requires
        a.wf(),
        a.has_insn(i),
        b@ == without_instruction(a@, a.insn_rec(i).parent, i),
        match a.insn_rec(i).parent {
            Some(x) => if a@.insns[i].mnemonic.shape.terminates() {
                lists_filtered(a, b, |e: EdgeId| a@.edges[e].from != x)
            } else {
                edges_untouched(a, b)
            },
            None => edges_untouched(a, b),
        },
    ensures
        lists_kept(a, b),
        forall|e: EdgeId| b@.edges.contains_key(e) ==> #[trigger] a@.edges.contains_key(e),
        forall|x: LocalBlockId| b@.blocks.contains_key(x) ==> #[trigger] a@.blocks.contains_key(x),
{
    assert(a.placed_ok(i));
    if let Some(x) = a.insn_rec(i).parent {
        assert(a.has_block(x));
        assert(a@.blocks.contains_key(x));
    }
    match a.insn_rec(i).parent {
        Some(x) if a@.insns[i].mnemonic.shape.terminates() => {
            lemma_filtered_kept(a, b, |e: EdgeId| a@.edges[e].from != x);
        },
        _ => {
            lemma_untouched_kept(a, b);
        },
    }
}

impl FunctionBody {
    /// Removes instruction `id` from its block, with the block's outgoing
    /// edges if it is a terminator, forgets its name, takes down its uses, and
    /// drops its payload.
    pub fn remove_instruction(&mut self, id: InstructionId)
        requires
            old(self).wf(),
            old(self).id == Some(id.func),
            old(self)@.insns.contains_key(id.local),
        ensures
            final(self).wf(),
            old(self).uses_complete() ==> final(self).uses_complete(),
            operands_issued(old(self)@) ==> operands_issued(final(self)@),
            final(self)@ == without_instruction(
                old(self)@,
                old(self).insn_rec(id.local).parent,
                id.local,
            ),
            final(self).uses@.len() == old(self).uses@.len(),
            forall|i: LocalInsnId|
                old(self).has_insn(i) && i != id.local ==> #[trigger] final(self).insn_rec(i).parent
                    == old(self).insn_rec(i).parent,
            match old(self).insn_rec(id.local).parent {
                Some(b) => if old(self)@.insns[id.local].mnemonic.shape.terminates() {
                    lists_filtered(
                        *old(self),
                        *final(self),
                        |e: EdgeId| old(self)@.edges[e].from != b,
                    )
                } else {
                    edges_untouched(*old(self), *final(self))
                },
                None => edges_untouched(*old(self), *final(self)),
            },
    {
        let ghost before = *self;
        let parent: Option<LocalBlockId> = self.insns.get(id.local.0).parent;
        let name: Option<Name> = self.insns.get(id.local.0).name;
        let is_terminator: bool = self.insns.get(id.local.0).mnemonic.is_terminator();
        proof {
            assert(self.placed_ok(id.local));
            assert(before@.insns.contains_key(id.local));
            assert(super::name_known(before@, before@.insns[id.local].name));
        }
        if let Some(block) = parent {
            self.unlink(id.local);
            let ghost out = *self;
            proof {
                assert(out.has_block(block));
            }
            if is_terminator {
                self.remove_outgoing_edges(block);
                proof {
                    assert forall|x: LocalBlockId|
                        before.has_block(x) && self.has_block(x) implies #[trigger] self.block_rec(
                        x,
                    ).edges@ == before.block_rec(x).edges@.filter(
                        |e: EdgeId| before@.edges[e].from != block,
                    ) by {
                        assert(out.has_block(x));
                        assert(out.block_rec(x).edges == before.block_rec(x).edges);
                        assert(before.incident_ok(x));
                        lemma_filter_same(
                            before.block_rec(x).edges@,
                            |e: EdgeId| out@.edges[e].from != block,
                            |e: EdgeId| before@.edges[e].from != block,
                        );
                    }
                }
            }
        }
        let ghost cut = *self;
        proof {
            assert(cut@.insns == before@.insns);
            assert(cut@.names == before@.names);
            assert(cut@.insns.contains_key(id.local));
            assert(cut.insn_rec(id.local).parent is None);
        }
        self.forget_name(name);
        let ghost quiet = *self;
        self.drop_instruction(id.local);
        proof {
            assert(self@ == without_instruction(before@, parent, id.local));
            assert forall|x: LocalBlockId|
                before.has_block(x) && self.has_block(x) implies #[trigger] self.block_rec(x).edges
                == cut.block_rec(x).edges by {
                assert(before@.blocks.contains_key(x));
                assert(cut@.blocks.contains_key(x));
                assert(quiet.has_block(x));
            }
            if let Some(block) = parent {
                if is_terminator {
                    assert forall|x: LocalBlockId|
                        before.has_block(x) && self.has_block(x) implies #[trigger] self.block_rec(
                        x,
                    ).edges@ == before.block_rec(x).edges@.filter(
                        |e: EdgeId| before@.edges[e].from != block,
                    ) by {
                        assert(self.block_rec(x).edges == cut.block_rec(x).edges);
                        assert(before@.blocks.contains_key(x));
                        assert(cut@.blocks.contains_key(x));
                    }
                }
            }
            assert forall|i: LocalInsnId|
                before.has_insn(i) && i != id.local implies #[trigger] self.insn_rec(i).parent
                == before.insn_rec(i).parent by {
                assert(before@.insns.contains_key(i));
                assert(cut@.insns.contains_key(i));
                assert(cut.has_insn(i));
                assert(cut.insn_rec(i).parent == before.insn_rec(i).parent);
                assert(quiet.has_insn(i));
                assert(quiet.insn_rec(i) == cut.insn_rec(i));
            }
        }
    }

    /// Replaces every use of instruction `id` with `to`, then removes `id`.
    /// Replacing an instruction with itself leaves it in place.
    pub fn replace_instruction(&mut self, id: InstructionId, to: ValueId)
        requires
            old(self).wf(),
            old(self).id == Some(id.func),
            old(self)@.insns.contains_key(id.local),
            to.is_local_to(id.func),
        ensures
            final(self).wf(),
            old(self).uses_complete() ==> final(self).uses_complete(),
            operands_issued(old(self)@) && issued_in(old(self)@, to.stripped())
                ==> operands_issued(final(self)@),
            lists_kept(*old(self), *final(self)),
            final(self).uses@.len() <= old(self).uses@.len(),
            final(self)@ == (if to == ValueId::Instruction(id) {
                old(self)@
            } else {
                without_instruction(
                    with_uses_moved(
                        *old(self),
                        LocalValueId::Instruction(id.local),
                        to.stripped(),
                    ),
                    old(self).insn_rec(id.local).parent,
                    id.local,
                )
            }),
    {
        let ghost before = *self;
        if to == ValueId::Instruction(id) {
            proof {
                lemma_untouched_kept(before, *self);
            }
            return;
        }
        self.replace_all_uses_with(ValueId::Instruction(id), to);
        let ghost moved = *self;
        proof {
            assert(before@.insns.contains_key(id.local));
            assert(moved@.insns.contains_key(id.local));
            assert(moved.has_insn(id.local));
            lemma_same_orders_same_parent(before, moved, id.local);
            lemma_untouched_kept(before, moved);
        }
        self.remove_instruction(id);
        proof {
            lemma_removal_kept(moved, *self, id.local);
            lemma_kept_trans(before, moved, *self);
        }
    }

    /// Removes a block parameter and its uses. The lists of the blocks and
    /// branches that name its position are the caller's to rewrite.
    pub fn remove_block_param(&mut self, id: BlockParamId)
        requires
            old(self).wf(),
            old(self).id == Some(id.func),
            old(self)@.params.contains_key(id.local),
        ensures
            final(self).wf(),
            old(self).uses_complete() ==> final(self).uses_complete(),
            operands_issued(old(self)@) ==> operands_issued(final(self)@),
            final(self).uses@.len() <= old(self).uses@.len(),
            final(self)@ == (BodyView {
                params: old(self)@.params.remove(id.local),
                names: forgotten(old(self)@.names, old(self)@.params[id.local].name),
                ..old(self)@
            }),
            edges_untouched(*old(self), *final(self)),
    {
        let ghost before = *self;
        let name: Option<Name> = self.params.get(id.local.0).name;
        proof {
            assert(before@.params.contains_key(id.local));
            assert(super::name_known(before@, before@.params[id.local].name));
        }
        self.forget_name(name);
        let ghost quiet = *self;
        let ghost value = LocalValueId::BlockParam(id.local);
        self.drop_uses_of(LocalValueId::BlockParam(id.local));
        let ghost unused = *self;
        proof {
            lemma_uses_frame(quiet, unused);
            assert(unused.has_param(id.local));
        }
        self.params.remove(id.local.0);
        proof {
            assert forall|p: LocalParamId| #[trigger] self.has_param(p) <==> unused.has_param(p)
                && p != id.local by {}
            assert(shrunk(unused, *self));
            lemma_shrunk(unused, *self);
            assert(self@.insns =~= unused@.insns);
            assert(self@.blocks =~= unused@.blocks);
            assert(self@.params =~= unused@.params.remove(id.local));
            assert forall|x: LocalBlockId|
                before.has_block(x) && self.has_block(x) implies #[trigger] self.block_rec(x).edges
                == before.block_rec(x).edges by {
                assert(unused.has_block(x) && quiet.has_block(x));
                assert(unused.block_rec(x).edges == quiet.block_rec(x).edges);
            }
            assert(self@.edges =~= unused@.edges);
            if before.uses_complete() {
                lemma_unused_complete(quiet, unused, *self, value);
            }
        }
    }

    /// Drops a block from the roster.
    pub fn unroster_block(&mut self, block: BlockId)
        requires
            old(self).wf(),
        ensures
            final(self).wf(),
            old(self).uses_complete() ==> final(self).uses_complete(),
            operands_issued(old(self)@) ==> operands_issued(final(self)@),
            final(self).uses@.len() <= old(self).uses@.len(),
            *final(self) == (FunctionBody { roster: final(self).roster, ..*old(self) }),
            final(self)@ == (BodyView {
                roster: without(old(self)@.roster, block.local),
                ..old(self)@
            }),
    {
        let ghost before = *self;
        let ghost all = self.roster@;
        let mut kept: Vec<LocalBlockId> = Vec::new();
        let n: usize = self.roster.len();
        let mut k: usize = 0;
        proof {
            reveal(Seq::filter);
            assert(without(all.take(0), block.local) =~= Seq::<LocalBlockId>::empty());
        }
        while k < n
            invariant
                *self == before,
                all == before.roster@,
                n == all.len(),
                k <= n,
                kept@ == without(all.take(k as int), block.local),
            decreases n - k,
        {
            let b: LocalBlockId = self.roster[k];
            proof {
                reveal(Seq::filter);
                assert(all.take(k + 1).drop_last() =~= all.take(k as int));
            }
            if b != block.local {
                kept.push(b);
            }
            k = k + 1;
        }
        proof {
            assert(all.take(n as int) =~= all);
            crate::block::lemma_filter_contains(all, block.local);
        }
        self.roster = kept;
        proof {
            assert(self.roster_wf()) by {
                assert forall|j: int| 0 <= j < self.roster@.len() implies self.has_block(
                    #[trigger] self.roster@[j],
                ) by {
                    assert(without(all, block.local).contains(self.roster@[j]));
                    let i = all.index_of(self.roster@[j]);
                    assert(before.has_block(before.roster@[i]));
                }
            }
            lemma_same_but_roster(before, *self);
        }
    }
}

/// What holds of a body's records does not depend on the roster.
pub proof fn lemma_same_but_roster(a: FunctionBody, b: FunctionBody)
    requires
        a.wf(),
        b == (FunctionBody { roster: b.roster, ..a }),
        b.roster_wf(),
    ensures
        b.wf(),
        a.uses_complete() ==> b.uses_complete(),
        b@ == (BodyView { roster: b.roster@, ..a@ }),
{
    super::create::lemma_same_records(a, b);
}

/// An instruction's block is determined by the orders of the blocks.
pub proof fn lemma_same_orders_same_parent(a: FunctionBody, b: FunctionBody, i: LocalInsnId)
    requires
        a.lists_wf(),
        b.lists_wf(),
        a.has_insn(i),
        b.has_insn(i),
        a@.blocks == b@.blocks,
    ensures
        a.insn_rec(i).parent == b.insn_rec(i).parent,
{
    assert(a.placed_ok(i));
    assert(b.placed_ok(i));
    if let Some(x) = a.insn_rec(i).parent {
        assert(a@.blocks.contains_key(x));
        assert(b@.blocks.contains_key(x));
        assert(b.has_block(x));
        assert(b@.blocks[x].insns == a@.blocks[x].insns);
        assert(b.list_ok(x));
        let k = b.order(x).index_of(i);
        assert(b.order(x).contains(i));
        assert(b.linked_at(x, k));
    } else if let Some(x) = b.insn_rec(i).parent {
        assert(b@.blocks.contains_key(x));
        assert(a@.blocks.contains_key(x));
        assert(a.has_block(x));
        assert(b@.blocks[x].insns == a@.blocks[x].insns);
        assert(a.list_ok(x));
        let k = a.order(x).index_of(i);
        assert(a.order(x).contains(i));
        assert(a.linked_at(x, k));
    }
}

/// Dropping a value with its uses leaves the uses complete.
pub proof fn lemma_unused_complete(
    before: FunctionBody,
    unused: FunctionBody,
    after: FunctionBody,
    value: LocalValueId,
)
    requires
        before.wf(),
        before.uses_complete(),
        same_but_uses(before, unused),
        shrunk(unused, after),
        !after.has_home(value),
        forall|i: LocalInsnId| #[trigger] after.has_insn(i) <==> unused.has_insn(i),
        forall|u: UseId| #[trigger]
            unused.has_use(u) <==> before.has_use(u) && before.occ(u).value != value,
        forall|u: UseId| unused.has_use(u) ==> #[trigger] unused.occ(u) == before.occ(u),
    ensures
        after.uses_complete(),
{
    lemma_uses_frame(before, unused);
    assert forall|i: LocalInsnId, k: int|
        after.has_insn(i) && 0 <= k < after.operands(i).len() && after.has_home(
            after.operands(i)[k],
        ) implies #[trigger] after.has_use_of(i, k) by {
        assert(unused.has_insn(i));
        assert(before.has_insn(i));
        assert(after.operands(i) == before.operands(i)) by {
            assert(after.insn_rec(i) == unused.insn_rec(i));
            assert(unused.operands(i) == before.operands(i));
        }
        let v = before.operands(i)[k];
        assert(v != value);
        assert(unused.has_home(v)) by {
            match v {
                LocalValueId::Instruction(j) => {
                    assert(after.has_insn(j));
                },
                LocalValueId::BasicBlock(x) => {
                    assert(after.has_block(x));
                },
                LocalValueId::BlockParam(p) => {
                    assert(after.has_param(p));
                },
                _ => {},
            }
        }
        assert(unused.has_home(v) == before.has_home(v));
        assert(before.has_use_of(i, k));
        let u = choose|u: UseId| #[trigger] before.is_use_of(u, i, k);
        assert(before.use_faithful(u));
        assert(before.has_use(u));
        assert(unused.has_use(u));
        assert(unused.occ(u) == before.occ(u));
        assert(after.is_use_of(u, i, k));
    }
}

} // verus!
