//! The order of a block's instructions.
//!
//! A block's instruction order is a doubly linked list threaded through the
//! instructions, the block holding its ends and length. Linking and unlinking
//! cost the same however long the block is; walking it costs its length. The
//! operations here are the only ones that touch the links, and keep `parent`
//! in step: linked means in a block, unlinked means in none. Linking an
//! instruction that is in a block moves it.

use super::{first_of, item_at, last_of, name_known, names_known, BlockView, BodyView, FunctionBody};
use crate::block::{lemma_filter_contains, lemma_remove_is_filter, without, BasicBlock, InsnList};
use crate::body::compose::operands_issued;
use crate::ids::{BlockId, InstructionId, LocalBlockId, LocalInsnId};
use crate::insn::instruction::Instruction;
use vstd::prelude::*;

verus! {

/// `body` with the instructions of block `b` in the order `s`.
pub open spec fn with_order(body: BodyView, b: LocalBlockId, s: Seq<LocalInsnId>) -> BodyView {
    BodyView {
        blocks: body.blocks.insert(b, BlockView { insns: s, ..body.blocks[b] }),
        ..body
    }
}

/// `body` with instruction `i` taken out of block `from`, if it is in one.
pub open spec fn taken_out(
    body: BodyView,
    from: Option<LocalBlockId>,
    i: LocalInsnId,
) -> BodyView {
    match from {
        Some(b) => with_order(body, b, without(body.blocks[b].insns, i)),
        None => body,
    }
}

/// `body` with instruction `i` moved from block `from` to the end of `b`.
pub open spec fn moved_last(
    body: BodyView,
    from: Option<LocalBlockId>,
    b: LocalBlockId,
    i: LocalInsnId,
) -> BodyView {
    let out = taken_out(body, from, i);
    with_order(out, b, out.blocks[b].insns.push(i))
}

/// `body` with instruction `i` moved from block `from` to just before the
/// instruction `before` of block `b`.
pub open spec fn moved_before(
    body: BodyView,
    from: Option<LocalBlockId>,
    b: LocalBlockId,
    before: LocalInsnId,
    i: LocalInsnId,
) -> BodyView {
    let out = taken_out(body, from, i);
    let s = out.blocks[b].insns;
    with_order(out, b, s.insert(s.index_of(before), i))
}

/// An instruction is in the block that lists it, and in no other.
pub proof fn law_an_instruction_is_in_one_block(
    body: FunctionBody,
    b: LocalBlockId,
    i: LocalInsnId,
)
    requires
        body.wf(),
        body@.blocks.contains_key(b),
    ensures
        body@.blocks[b].insns.contains(i) <==> body@.insns.contains_key(i) && body.insn_rec(i).parent
            == Some(b),
{
    assert(body.list_ok(b));
    let s = body.order(b);
    assert(body@.blocks[b].insns == s);
    if s.contains(i) {
        let k = choose|k: int| 0 <= k < s.len() && s[k] == i;
        assert(body.linked_at(b, k));
    }
    if body.has_insn(i) {
        assert(body.placed_ok(i));
    }
}

impl FunctionBody {
    /// Whether some block lists the instruction.
    pub open spec fn is_placed(&self, i: LocalInsnId) -> bool {
        exists|b: LocalBlockId|
            self@.blocks.contains_key(b) && (#[trigger] self@.blocks[b]).insns.contains(i)
    }

    /// The blocks say where the instructions are, and the instructions say so
    /// too.
    pub open spec fn places_known(&self) -> bool {
        &&& forall|b: LocalBlockId, i: LocalInsnId| #[trigger]
            self@.blocks[b].insns.contains(i) && self@.blocks.contains_key(b)
                ==> self@.insns.contains_key(i) && self.insn_rec(i).parent == Some(b)
        &&& forall|i: LocalInsnId|
            self@.insns.contains_key(i) && (#[trigger] self.insn_rec(i)).parent is Some
                ==> self@.blocks.contains_key(self.insn_rec(i).parent->0)
                && self@.blocks[self.insn_rec(i).parent->0].insns.contains(i)
    }

    /// A sound body knows where its instructions are.
    pub proof fn law_places_are_known(&self)
        requires
            self.wf(),
        ensures
            self.places_known(),
    {
        assert forall|b: LocalBlockId, i: LocalInsnId| #[trigger]
            self@.blocks[b].insns.contains(i) && self@.blocks.contains_key(
                b,
            ) implies self@.insns.contains_key(i) && self.insn_rec(i).parent == Some(b) by {
            law_an_instruction_is_in_one_block(*self, b, i);
        }
        assert forall|i: LocalInsnId|
            self@.insns.contains_key(i) && (
            #[trigger] self.insn_rec(i)).parent is Some implies self@.blocks.contains_key(
            self.insn_rec(i).parent->0,
        ) && self@.blocks[self.insn_rec(i).parent->0].insns.contains(i) by {
            assert(self.placed_ok(i));
            assert(self@.blocks.contains_key(self.insn_rec(i).parent->0));
            law_an_instruction_is_in_one_block(*self, self.insn_rec(i).parent->0, i);
        }
    }

    pub(crate) proof fn lemma_placed(&self, i: LocalInsnId)
        requires
            self.wf(),
            self.is_placed(i),
        ensures
            self.has_insn(i),
            self.insn_rec(i).parent is Some,
    {
        let b = choose|b: LocalBlockId|
            self@.blocks.contains_key(b) && (#[trigger] self@.blocks[b]).insns.contains(i);
        law_an_instruction_is_in_one_block(*self, b, i);
    }
}

/// Whether two bodies differ in nothing but the order of instructions.
pub open spec fn same_but_links(a: FunctionBody, b: FunctionBody) -> bool {
    &&& b == (FunctionBody { insns: b.insns, blocks: b.blocks, ..a })
    &&& a.insns@.len() == b.insns@.len()
    &&& a.blocks@.len() == b.blocks@.len()
    &&& forall|i: LocalInsnId| #[trigger] b.has_insn(i) <==> a.has_insn(i)
    &&& forall|i: LocalInsnId|
        a.has_insn(i) ==> #[trigger] b.insn_rec(i) == (Instruction {
            parent: b.insn_rec(i).parent,
            prev: b.insn_rec(i).prev,
            next: b.insn_rec(i).next,
            ..a.insn_rec(i)
        })
    &&& forall|x: LocalBlockId| #[trigger] b.has_block(x) <==> a.has_block(x)
    &&& forall|x: LocalBlockId|
        a.has_block(x) ==> #[trigger] b.block_rec(x) == (BasicBlock {
            instructions: b.block_rec(x).instructions,
            ..a.block_rec(x)
        })
}

/// Changing the order of instructions touches neither the control-flow edges
/// nor the uses, and of the rest only the blocks' orders.
pub proof fn lemma_links_frame(a: FunctionBody, b: FunctionBody)
    requires
        same_but_links(a, b),
        a.wf(),
        b.lists_wf(),
    ensures
        b.wf(),
        a.uses_complete() ==> b.uses_complete(),
        b@ == (BodyView { blocks: b@.blocks, ..a@ }),
        b@.blocks.dom() == a@.blocks.dom(),
        forall|x: LocalBlockId|
            a.has_block(x) ==> #[trigger] b@.blocks[x] == (BlockView {
                insns: b.order(x),
                ..a@.blocks[x]
            }),
{
    assert(b@.insns =~= a@.insns);
    assert(b@.params =~= a@.params);
    assert(b@.edges =~= a@.edges);
    assert(b@.blocks.dom() =~= a@.blocks.dom());
    assert forall|x: LocalBlockId| a.has_block(x) implies #[trigger] b@.blocks[x] == (BlockView {
        insns: b.order(x),
        ..a@.blocks[x]
    }) by {
        assert(b.block_rec(x) == (BasicBlock {
            instructions: b.block_rec(x).instructions,
            ..a.block_rec(x)
        }));
    }
    assert(names_known(b@)) by {
        assert forall|x: LocalBlockId| b@.blocks.contains_key(x) implies name_known(
            b@,
            #[trigger] b@.blocks[x].name,
        ) by {
            assert(a@.blocks.contains_key(x));
            assert(name_known(a@, a@.blocks[x].name));
        }
    }
    assert(b.cfg_wf()) by {
        assert forall|x: LocalBlockId| b.has_block(x) implies #[trigger] b.incident_ok(x) by {
            assert(a.incident_ok(x));
            assert(b.block_rec(x).edges == a.block_rec(x).edges);
        }
        assert forall|e: crate::ids::EdgeId| b.has_edge(e) implies #[trigger] b.edge_ok(e) by {
            assert(a.edge_ok(e));
            assert(b.block_rec(a.edge_rec(e).from).edges == a.block_rec(a.edge_rec(e).from).edges);
            assert(b.block_rec(a.edge_rec(e).to).edges == a.block_rec(a.edge_rec(e).to).edges);
        }
    }
    assert forall|v: crate::value::LocalValueId| b.has_home(v) == a.has_home(v) && b.head_of(v)
        == a.head_of(v) by {
        if a.has_home(v) {
            match v {
                crate::value::LocalValueId::Instruction(i) => {
                    assert(b.insn_rec(i).first_use == a.insn_rec(i).first_use);
                },
                crate::value::LocalValueId::BasicBlock(x) => {
                    assert(b.block_rec(x).first_use == a.block_rec(x).first_use);
                },
                _ => {},
            }
        }
    }
    assert(b.use_lists_wf(None)) by {
        assert forall|v: crate::value::LocalValueId| #[trigger] b.use_list_ok(v) by {
            assert(a.use_list_ok(v));
            assert forall|k: int| 0 <= k < b.use_list(v).len() implies #[trigger] b.use_linked_at(
                v,
                k,
            ) by {
                assert(a.use_linked_at(v, k));
            }
        }
        assert forall|u: crate::ids::UseId| b.has_use(u) implies #[trigger] b.use_list(
            b.use_rec(u).value,
        ).contains(u) by {
            assert(a.use_list(a.use_rec(u).value).contains(u));
        }
    }
    assert forall|i: LocalInsnId| a.has_insn(i) implies b.operands(i) == a.operands(i) by {
        assert(b.insn_rec(i).mnemonic == a.insn_rec(i).mnemonic);
    }
    assert(b.uses_faithful()) by {
        assert forall|u: crate::ids::UseId| b.has_use(u) implies #[trigger] b.use_faithful(u) by {
            assert(a.use_faithful(u));
        }
        assert forall|u: crate::ids::UseId, w: crate::ids::UseId, i: LocalInsnId, k: int| #[trigger]
            b.is_use_of(u, i, k) && #[trigger] b.is_use_of(w, i, k) implies u == w by {
            assert(a.is_use_of(u, i, k) && a.is_use_of(w, i, k));
        }
    }
    assert(b.operands_bounded()) by {
        assert forall|i: LocalInsnId| #[trigger] b.has_insn(i) implies b.operands(i).len()
            <= 0x1_0000 by {
            assert(a.has_insn(i));
        }
    }
    if a.uses_complete() {
        assert forall|i: LocalInsnId, k: int|
            b.has_insn(i) && 0 <= k < b.operands(i).len() && b.has_home(
                b.operands(i)[k],
            ) implies #[trigger] b.has_use_of(i, k) by {
            assert(a.has_use_of(i, k));
            let u = choose|u: crate::ids::UseId| #[trigger] a.is_use_of(u, i, k);
            assert(b.is_use_of(u, i, k));
        }
    }
}

/// Where an instruction stands in its block's list.
pub open spec fn place(body: FunctionBody, i: LocalInsnId) -> int {
    body.order(body.insn_rec(i).parent->0).index_of(i)
}

/// The place of a linked instruction is where it is linked, and in no other
/// block's list.
proof fn lemma_place(body: FunctionBody, i: LocalInsnId)
    requires
        body.lists_wf(),
        body.has_insn(i),
        body.insn_rec(i).parent is Some,
    ensures
        ({
            let b = body.insn_rec(i).parent->0;
            let k = place(body, i);
            &&& body.has_block(b)
            &&& body.list_ok(b)
            &&& 0 <= k < body.order(b).len()
            &&& body.order(b)[k] == i
            &&& body.linked_at(b, k)
        }),
{
    assert(body.placed_ok(i));
    let b = body.insn_rec(i).parent->0;
    assert(body.list_ok(b));
    let k = body.order(b).index_of(i);
    assert(body.order(b).contains(i));
    assert(body.linked_at(b, k));
}

impl FunctionBody {
    /// Takes `insn` out of its block's list, leaving it in no block. The
    /// instruction itself stays, with its uses.
    pub fn unlink(&mut self, insn: LocalInsnId)
        requires
            old(self).wf(),
            old(self)@.insns.contains_key(insn),
        ensures
            final(self).wf(),
            old(self).uses_complete() ==> final(self).uses_complete(),
            operands_issued(old(self)@) ==> operands_issued(final(self)@),
            final(self).uses@.len() <= old(self).uses@.len(),
            same_but_links(*old(self), *final(self)),
            final(self)@ == taken_out(old(self)@, old(self).insn_rec(insn).parent, insn),
            final(self).insn_rec(insn).parent is None,
            forall|i: LocalInsnId|
                final(self).has_insn(i) && i != insn ==> #[trigger] final(self).insn_rec(i).parent
                    == old(self).insn_rec(i).parent,
    {
        let parent: Option<LocalBlockId> = self.insns.get(insn.0).parent;
        let block: LocalBlockId = match parent {
            None => {
                proof {
                    lemma_links_frame(*self, *self);
                }
                return;
            },
            Some(block) => block,
        };
        let prev: Option<LocalInsnId> = self.insns.get(insn.0).prev;
        let next: Option<LocalInsnId> = self.insns.get(insn.0).next;
        let ghost before = *self;
        let ghost s = self.order(block);
        let ghost at = place(*self, insn);
        let ghost t = s.remove(at);
        proof {
            lemma_place(*self, insn);
            lemma_remove_is_filter(s, at);
            lemma_filter_contains(s, insn);
            if at > 0 {
                assert(self.linked_at(block, at - 1));
            }
            if at + 1 < s.len() {
                assert(self.linked_at(block, at + 1));
            }
        }
        {
            let rec: &mut Instruction = self.insns.get_mut(insn.0);
            rec.parent = None;
            rec.prev = None;
            rec.next = None;
        }
        match prev {
            Some(prev) => {
                self.insns.get_mut(prev.0).next = next;
            },
            None => {
                self.blocks.get_mut(block.0).instructions.first = next;
            },
        }
        match next {
            Some(next) => {
                self.insns.get_mut(next.0).prev = prev;
            },
            None => {
                self.blocks.get_mut(block.0).instructions.last = prev;
            },
        }
        {
            let list: &mut InsnList = &mut self.blocks.get_mut(block.0).instructions;
            list.len = list.len - 1;
            list.order = Ghost(t);
        }
        proof {
            assert(same_but_links(before, *self));
            assert(self.order(block) == t);
            assert(self.list_ok(block)) by {
                assert forall|k: int| 0 <= k < t.len() implies #[trigger] self.linked_at(block, k) by {
                    if k < at {
                        assert(before.linked_at(block, k));
                    } else {
                        assert(before.linked_at(block, k + 1));
                    }
                }
            }
            assert forall|b: LocalBlockId| self.has_block(b) implies #[trigger] self.list_ok(b) by {
                if b != block {
                    assert(before.list_ok(b));
                    assert forall|k: int| 0 <= k < self.order(b).len() implies #[trigger] self.linked_at(
                        b,
                        k,
                    ) by {
                        assert(before.linked_at(b, k));
                    }
                }
            }
            assert forall|i: LocalInsnId| self.has_insn(i) implies #[trigger] self.placed_ok(i) by {
                assert(before.placed_ok(i));
            }
            lemma_links_frame(before, *self);
            assert(self@.blocks =~= taken_out(before@, Some(block), insn).blocks);
        }
    }

    /// Links `insn`, which is in no block, at position `at` of `block`, given
    /// its neighbours there.
    fn link_between(
        &mut self,
        block: LocalBlockId,
        prev: Option<LocalInsnId>,
        next: Option<LocalInsnId>,
        insn: LocalInsnId,
        at: Ghost<int>,
    )
        requires
            old(self).wf(),
            old(self).has_insn(insn),
            old(self).insn_rec(insn).parent is None,
            old(self).has_block(block),
            0 <= at@ <= old(self).order(block).len(),
            prev == item_at(old(self).order(block), at@ - 1),
            next == item_at(old(self).order(block), at@),
        ensures
            final(self).wf(),
            old(self).uses_complete() ==> final(self).uses_complete(),
            final(self).uses@.len() <= old(self).uses@.len(),
            same_but_links(*old(self), *final(self)),
            final(self)@ == with_order(
                old(self)@,
                block,
                old(self).order(block).insert(at@, insn),
            ),
            final(self).insn_rec(insn).parent == Some(block),
            forall|i: LocalInsnId|
                final(self).has_insn(i) && i != insn ==> #[trigger] final(self).insn_rec(i).parent
                    == old(self).insn_rec(i).parent,
    {
        let ghost before = *self;
        let ghost s = self.order(block);
        let ghost t = s.insert(at@, insn);
        proof {
            assert(self.list_ok(block));
            assert(!s.contains(insn)) by {
                if s.contains(insn) {
                    let k = s.index_of(insn);
                    assert(self.linked_at(block, k));
                }
            }
            if at@ > 0 {
                assert(self.linked_at(block, at@ - 1));
            }
            if at@ < s.len() {
                assert(self.linked_at(block, at@));
            }
            lemma_list_fits(*self, block, insn);
        }
        {
            let rec: &mut Instruction = self.insns.get_mut(insn.0);
            rec.parent = Some(block);
            rec.prev = prev;
            rec.next = next;
        }
        match prev {
            Some(prev) => {
                self.insns.get_mut(prev.0).next = Some(insn);
            },
            None => {
                self.blocks.get_mut(block.0).instructions.first = Some(insn);
            },
        }
        match next {
            Some(next) => {
                self.insns.get_mut(next.0).prev = Some(insn);
            },
            None => {
                self.blocks.get_mut(block.0).instructions.last = Some(insn);
            },
        }
        {
            let list: &mut InsnList = &mut self.blocks.get_mut(block.0).instructions;
            list.len = list.len + 1;
            list.order = Ghost(t);
        }
        proof {
            assert(same_but_links(before, *self));
            assert(self.order(block) == t);
            assert(t[at@] == insn);
            assert(t.no_duplicates()) by {
                assert forall|j: int, k: int| 0 <= j < k < t.len() implies t[j] != t[k] by {
                    let a = if j < at@ {
                        j
                    } else {
                        j - 1
                    };
                    let c = if k < at@ {
                        k
                    } else {
                        k - 1
                    };
                    if j == at@ {
                        assert(t[k] == s[c]);
                        assert(s.contains(s[c]));
                    } else if k == at@ {
                        assert(t[j] == s[a]);
                        assert(s.contains(s[a]));
                    }
                }
            }
            assert(self.list_ok(block)) by {
                assert forall|k: int| 0 <= k < t.len() implies #[trigger] self.linked_at(block, k) by {
                    if k < at@ {
                        assert(before.linked_at(block, k));
                    } else if k > at@ {
                        assert(before.linked_at(block, k - 1));
                    }
                }
            }
            assert forall|b: LocalBlockId| self.has_block(b) implies #[trigger] self.list_ok(b) by {
                if b != block {
                    assert(before.list_ok(b));
                    assert forall|k: int| 0 <= k < self.order(b).len() implies #[trigger] self.linked_at(
                        b,
                        k,
                    ) by {
                        assert(before.linked_at(b, k));
                    }
                }
            }
            assert forall|i: LocalInsnId| self.has_insn(i) implies #[trigger] self.placed_ok(i) by {
                assert(before.placed_ok(i));
                if i != insn && before.insn_rec(i).parent == Some(block) {
                    let k = s.index_of(i);
                    assert(t[if k < at@ {
                        k
                    } else {
                        k + 1
                    }] == i);
                }
            }
            lemma_links_frame(before, *self);
            assert(self@.blocks =~= with_order(before@, block, t).blocks);
        }
    }

    /// Links `insn` at the end of `block`, taking it out of the block it was
    /// in, if any.
    pub fn link_last(&mut self, block: LocalBlockId, insn: LocalInsnId)
        requires
            old(self).wf(),
            old(self)@.insns.contains_key(insn),
            old(self)@.blocks.contains_key(block),
        ensures
            final(self).wf(),
            old(self).uses_complete() ==> final(self).uses_complete(),
            operands_issued(old(self)@) ==> operands_issued(final(self)@),
            final(self).uses@.len() <= old(self).uses@.len(),
            same_but_links(*old(self), *final(self)),
            final(self)@ == moved_last(
                old(self)@,
                old(self).insn_rec(insn).parent,
                block,
                insn,
            ),
            final(self).insn_rec(insn).parent == Some(block),
            forall|i: LocalInsnId|
                final(self).has_insn(i) && i != insn ==> #[trigger] final(self).insn_rec(i).parent
                    == old(self).insn_rec(i).parent,
    {
        self.unlink(insn);
        let ghost mid = *self;
        proof {
            assert(self.list_ok(block));
        }
        let last: Option<LocalInsnId> = self.blocks.get(block.0).instructions.last;
        let ghost s = self.order(block);
        self.link_between(block, last, None, insn, Ghost(s.len() as int));
        proof {
            assert(s.insert(s.len() as int, insn) =~= s.push(insn));
            lemma_links_trans(*old(self), mid, *self);
        }
    }

    /// Links `insn` immediately before `before`, which must be in `block`,
    /// taking `insn` out of the block it was in, if any. Before itself, it
    /// stays where it is.
    pub fn link_before(&mut self, block: LocalBlockId, before: LocalInsnId, insn: LocalInsnId)
        requires
            old(self).wf(),
            old(self)@.insns.contains_key(insn),
            insn != before ==> old(self)@.blocks.contains_key(block)
                && old(self)@.blocks[block].insns.contains(before),
        ensures
            final(self).wf(),
            old(self).uses_complete() ==> final(self).uses_complete(),
            operands_issued(old(self)@) ==> operands_issued(final(self)@),
            final(self).uses@.len() <= old(self).uses@.len(),
            same_but_links(*old(self), *final(self)),
            final(self)@ == (if insn == before {
                old(self)@
            } else {
                moved_before(old(self)@, old(self).insn_rec(insn).parent, block, before, insn)
            }),
            final(self).insn_rec(insn).parent == (if insn == before {
                old(self).insn_rec(insn).parent
            } else {
                Some(block)
            }),
            forall|i: LocalInsnId|
                final(self).has_insn(i) && i != insn ==> #[trigger] final(self).insn_rec(i).parent
                    == old(self).insn_rec(i).parent,
    {
        if insn == before {
            return;
        }
        proof {
            law_an_instruction_is_in_one_block(*self, block, before);
        }
        self.unlink(insn);
        let ghost mid = *self;
        let ghost at = place(*self, before);
        proof {
            assert(mid.insn_rec(before).parent == Some(block));
            lemma_place(*self, before);
        }
        let prev: Option<LocalInsnId> = self.insns.get(before.0).prev;
        self.link_between(block, prev, Some(before), insn, Ghost(at));
        proof {
            lemma_links_trans(*old(self), mid, *self);
        }
    }

    /// Links `insn` immediately after `after`, which must be in `block`. After
    /// itself, it stays where it is.
    pub fn link_after(&mut self, block: LocalBlockId, after: LocalInsnId, insn: LocalInsnId)
        requires
            old(self).wf(),
            old(self)@.insns.contains_key(insn),
            old(self)@.blocks.contains_key(block),
            old(self)@.blocks[block].insns.contains(after),
        ensures
            final(self).wf(),
            old(self).uses_complete() ==> final(self).uses_complete(),
            operands_issued(old(self)@) ==> operands_issued(final(self)@),
            final(self).uses@.len() <= old(self).uses@.len(),
            same_but_links(*old(self), *final(self)),
            final(self)@ == (if insn == after {
                old(self)@
            } else {
                let out = taken_out(old(self)@, old(self).insn_rec(insn).parent, insn);
                let s = out.blocks[block].insns;
                with_order(out, block, s.insert(s.index_of(after) + 1, insn))
            }),
            final(self).insn_rec(insn).parent == Some(block),
            forall|i: LocalInsnId|
                final(self).has_insn(i) && i != insn ==> #[trigger] final(self).insn_rec(i).parent
                    == old(self).insn_rec(i).parent,
    {
        proof {
            law_an_instruction_is_in_one_block(*self, block, after);
        }
        if insn == after {
            return;
        }
        self.unlink(insn);
        let ghost mid = *self;
        let ghost at = place(*self, after);
        proof {
            assert(mid.insn_rec(after).parent == Some(block));
            lemma_place(*self, after);
        }
        let next: Option<LocalInsnId> = self.insns.get(after.0).next;
        self.link_between(block, Some(after), next, insn, Ghost(at + 1));
        proof {
            lemma_links_trans(*old(self), mid, *self);
        }
    }
}

/// Differing in nothing but the order carries over.
pub proof fn lemma_links_trans(a: FunctionBody, b: FunctionBody, c: FunctionBody)
    requires
        same_but_links(a, b),
        same_but_links(b, c),
    ensures
        same_but_links(a, c),
{
    assert forall|i: LocalInsnId| a.has_insn(i) implies #[trigger] c.insn_rec(i) == (Instruction {
        parent: c.insn_rec(i).parent,
        prev: c.insn_rec(i).prev,
        next: c.insn_rec(i).next,
        ..a.insn_rec(i)
    }) by {
        assert(b.has_insn(i));
        assert(b.insn_rec(i).name == a.insn_rec(i).name);
    }
    assert forall|x: LocalBlockId| a.has_block(x) implies #[trigger] c.block_rec(x) == (BasicBlock {
        instructions: c.block_rec(x).instructions,
        ..a.block_rec(x)
    }) by {
        assert(b.has_block(x));
        assert(b.block_rec(x).name == a.block_rec(x).name);
    }
    assert forall|i: LocalInsnId| #[trigger] c.has_insn(i) <==> a.has_insn(i) by {
        assert(b.has_insn(i) <==> a.has_insn(i));
    }
    assert forall|x: LocalBlockId| #[trigger] c.has_block(x) <==> a.has_block(x) by {
        assert(b.has_block(x) <==> a.has_block(x));
    }
}

/// A list of different live instructions that leaves one out is shorter than
/// the arena.
proof fn lemma_list_fits(body: FunctionBody, b: LocalBlockId, out: LocalInsnId)
    requires
        body.list_ok(b),
        body.has_insn(out),
        !body.order(b).contains(out),
    ensures
        body.order(b).len() < body.insns@.len(),
{
    let s = body.order(b);
    let n = body.insns@.len() as int;
    let raw = s.push(out).map_values(|i: LocalInsnId| i.0 as int);
    assert forall|j: int, k: int| 0 <= j < k < raw.len() implies raw[j] != raw[k] by {
        if k == s.len() {
            assert(s.contains(s[j]));
        }
    }
    assert(raw.no_duplicates());
    raw.unique_seq_to_set();
    let all = vstd::set_lib::set_int_range(0, n);
    vstd::set_lib::lemma_int_range(0, n);
    assert(raw.to_set().subset_of(all)) by {
        assert forall|x: int| raw.to_set().contains(x) implies all.contains(x) by {
            let k = choose|k: int| 0 <= k < raw.len() && raw[k] == x;
            if k < s.len() {
                assert(body.linked_at(b, k));
            }
        }
    }
    vstd::set_lib::lemma_len_subset(raw.to_set(), all);
}

/// The instructions of a block, walked along their links from both ends.
pub struct InsnIds<'a> {
    pub body: &'a FunctionBody,
    pub front: Option<LocalInsnId>,
    pub back: Option<LocalInsnId>,
    pub remaining: usize,
    /// The block and the part of its order that is still to come.
    pub block: Ghost<LocalBlockId>,
    pub from: Ghost<int>,
}

impl<'a> InsnIds<'a> {
    pub open spec fn wf(&self) -> bool {
        let s = self.body.order(self.block@);
        &&& self.body.wf()
        &&& self.body.has_block(self.block@)
        &&& 0 <= self.from@ <= self.from@ + self.remaining <= s.len()
        &&& self.front == item_at(s, self.from@)
        &&& self.back == item_at(s, self.from@ + self.remaining - 1)
    }

    /// The instructions still to come, in order.
    pub open spec fn rest(&self) -> Seq<LocalInsnId> {
        self.body.order(self.block@).subrange(self.from@, self.from@ + self.remaining)
    }

    /// The next instruction from the front.
    pub fn next(&mut self) -> (insn: Option<LocalInsnId>)
        requires
            old(self).wf(),
        ensures
            final(self).wf(),
            insn == first_of(old(self).rest()),
            final(self).rest() == (if old(self).rest().len() == 0 {
                old(self).rest()
            } else {
                old(self).rest().drop_first()
            }),
    {
        if self.remaining == 0 {
            return None;
        }
        match self.front {
            None => None,
            Some(local) => {
                proof {
                    assert(self.body.list_ok(self.block@));
                    assert(self.body.linked_at(self.block@, self.from@));
                }
                self.remaining = self.remaining - 1;
                self.front = self.body.insns.get(local.0).next;
                self.from = Ghost(self.from@ + 1);
                proof {
                    assert(self.rest() =~= old(self).rest().drop_first());
                }
                Some(local)
            },
        }
    }

    /// The next instruction from the back.
    pub fn next_back(&mut self) -> (insn: Option<LocalInsnId>)
        requires
            old(self).wf(),
        ensures
            final(self).wf(),
            insn == last_of(old(self).rest()),
            final(self).rest() == (if old(self).rest().len() == 0 {
                old(self).rest()
            } else {
                old(self).rest().drop_last()
            }),
    {
        if self.remaining == 0 {
            return None;
        }
        match self.back {
            None => None,
            Some(local) => {
                proof {
                    assert(self.body.list_ok(self.block@));
                    assert(self.body.linked_at(self.block@, self.from@ + self.remaining - 1));
                }
                self.remaining = self.remaining - 1;
                self.back = self.body.insns.get(local.0).prev;
                proof {
                    assert(self.rest() =~= old(self).rest().drop_last());
                }
                Some(local)
            },
        }
    }

    /// How many instructions are still to come.
    pub fn len(&self) -> (n: usize)
        requires
            self.wf(),
        ensures
            n == self.rest().len(),
    {
        self.remaining
    }

    pub fn is_empty(&self) -> (b: bool)
        requires
            self.wf(),
        ensures
            b == (self.rest().len() == 0),
    {
        self.remaining == 0
    }
}

impl FunctionBody {
    /// The instructions of `block`, in order.
    pub fn insn_ids(&self, block: LocalBlockId) -> (ids: InsnIds<'_>)
        requires
            self.wf(),
            self@.blocks.contains_key(block),
        ensures
            ids.wf(),
            ids.rest() == self.order(block),
    {
        proof {
            assert(self.list_ok(block));
            assert(self.order(block).subrange(0, self.order(block).len() as int) =~= self.order(
                block,
            ));
        }
        let list: &InsnList = &self.blocks.get(block.0).instructions;
        InsnIds {
            body: self,
            front: list.first,
            back: list.last,
            remaining: list.len,
            block: Ghost(block),
            from: Ghost(0),
        }
    }

    /// The instructions of `block`, in order, as a vector.
    pub fn insn_vec(&self, block: LocalBlockId) -> (ids: Vec<LocalInsnId>)
        requires
            self.wf(),
            self@.blocks.contains_key(block),
        ensures
            ids@ == self.order(block),
    {
        let mut ids: Vec<LocalInsnId> = Vec::new();
        let mut walk: InsnIds<'_> = self.insn_ids(block);
        let ghost all = self.order(block);
        proof {
            assert(all.skip(0) =~= all);
            assert(ids@ =~= all.take(0));
        }
        let mut more: bool = true;
        while more
            invariant
                walk.wf(),
                all == self.order(block),
                ids@.len() <= all.len(),
                ids@ == all.take(ids@.len() as int),
                walk.rest() == all.skip(ids@.len() as int),
                !more ==> ids@.len() == all.len(),
            decreases all.len() - ids@.len() + (if more {
                1int
            } else {
                0
            }),
        {
            let ghost before = ids@;
            match walk.next() {
                Some(local) => {
                    ids.push(local);
                    proof {
                        let k = before.len() as int;
                        assert(all.skip(k).len() > 0);
                        assert(all.skip(k).drop_first() =~= all.skip(k + 1));
                        assert(all.take(k + 1) =~= all.take(k).push(local));
                    }
                },
                None => {
                    proof {
                        assert(all.skip(before.len() as int).len() == 0);
                    }
                    more = false;
                },
            }
        }
        proof {
            assert(all.take(all.len() as int) =~= all);
        }
        ids
    }

    /// The instructions of `block`, in order, as seen from outside the body.
    pub fn block_insn_ids(&self, block: BlockId) -> (ids: Vec<InstructionId>)
        requires
            self.wf(),
            self@.blocks.contains_key(block.local),
        ensures
            ids@ == self.order(block.local).map_values(
                |local: LocalInsnId| InstructionId { func: block.func, local },
            ),
    {
        let locals: Vec<LocalInsnId> = self.insn_vec(block.local);
        let mut ids: Vec<InstructionId> = Vec::new();
        let n: usize = locals.len();
        let mut k: usize = 0;
        while k < n
            invariant
                n == locals@.len(),
                k <= n,
                ids@ == locals@.take(k as int).map_values(
                    |local: LocalInsnId| InstructionId { func: block.func, local },
                ),
            decreases n - k,
        {
            ids.push(InstructionId::new(block.func, locals[k]));
            k = k + 1;
            proof {
                assert(ids@ =~= locals@.take(k as int).map_values(
                    |local: LocalInsnId| InstructionId { func: block.func, local },
                ));
            }
        }
        proof {
            assert(locals@.take(n as int) =~= locals@);
        }
        ids
    }

    /// The instruction at position `index` of `block`, walking to it.
    fn insn_at(&self, block: LocalBlockId, index: usize) -> (insn: Option<LocalInsnId>)
        requires
            self.wf(),
            self.has_block(block),
        ensures
            insn == item_at(self.order(block), index as int),
    {
        proof {
            assert(self.list_ok(block));
        }
        let mut at: Option<LocalInsnId> = self.blocks.get(block.0).instructions.first;
        let mut k: usize = 0;
        while k < index && at.is_some()
            invariant
                self.wf(),
                self.has_block(block),
                self.list_ok(block),
                k <= index,
                at == item_at(self.order(block), k as int),
            decreases index - k,
        {
            proof {
                assert(self.linked_at(block, k as int));
            }
            at = self.insns.get(at.unwrap().0).next;
            k = k + 1;
        }
        at
    }

    /// Links `insn` at position `index` of `block`, walking to it. The position
    /// may be the end, but not past it.
    pub fn insert_insn_at(&mut self, block: LocalBlockId, index: usize, insn: LocalInsnId)
        requires
            old(self).wf(),
            old(self)@.insns.contains_key(insn),
            old(self)@.blocks.contains_key(block),
            index <= old(self)@.blocks[block].insns.len(),
        ensures
            final(self).wf(),
            old(self).uses_complete() ==> final(self).uses_complete(),
            operands_issued(old(self)@) ==> operands_issued(final(self)@),
            final(self).uses@.len() <= old(self).uses@.len(),
            same_but_links(*old(self), *final(self)),
            final(self)@ == ({
                let s = old(self)@.blocks[block].insns;
                let from = old(self).insn_rec(insn).parent;
                if index == s.len() {
                    moved_last(old(self)@, from, block, insn)
                } else if s[index as int] == insn {
                    old(self)@
                } else {
                    moved_before(old(self)@, from, block, s[index as int], insn)
                }
            }),
            final(self).insn_rec(insn).parent == Some(block),
            forall|i: LocalInsnId|
                final(self).has_insn(i) && i != insn ==> #[trigger] final(self).insn_rec(i).parent
                    == old(self).insn_rec(i).parent,
    {
        proof {
            assert(self.list_ok(block));
            if index < self.order(block).len() {
                assert(self.linked_at(block, index as int));
            }
        }
        match self.insn_at(block, index) {
            Some(at) => self.link_before(block, at, insn),
            None => self.link_last(block, insn),
        }
    }

    /// Empties `block`'s list, returning its instructions in order, each now
    /// in no block.
    pub fn take_insns(&mut self, block: LocalBlockId) -> (ids: Vec<LocalInsnId>)
        requires
            old(self).wf(),
            old(self)@.blocks.contains_key(block),
        ensures
            final(self).wf(),
            old(self).uses_complete() ==> final(self).uses_complete(),
            operands_issued(old(self)@) ==> operands_issued(final(self)@),
            final(self).uses@.len() <= old(self).uses@.len(),
            same_but_links(*old(self), *final(self)),
            ids@ == old(self).order(block),
            final(self)@ == with_order(old(self)@, block, Seq::empty()),
            forall|i: LocalInsnId|
                final(self).has_insn(i) ==> #[trigger] final(self).insn_rec(i).parent == (if ids@.contains(
                    i,
                ) {
                    None
                } else {
                    old(self).insn_rec(i).parent
                }),
    {
        let ghost before = *self;
        let ids: Vec<LocalInsnId> = self.insn_vec(block);
        let n: usize = ids.len();
        let mut k: usize = 0;
        proof {
            assert(self.list_ok(block));
        }
        while k < n
            invariant
                before.wf(),
                before.has_block(block),
                before.list_ok(block),
                n == ids@.len(),
                k <= n,
                ids@ == before.order(block),
                same_but_links(before, *self),
                self.blocks == before.blocks,
                forall|i: LocalInsnId|
                    before.has_insn(i) ==> #[trigger] self.insn_rec(i) == (if ids@.take(
                        k as int,
                    ).contains(i) {
                        Instruction { parent: None, prev: None, next: None, ..before.insn_rec(i) }
                    } else {
                        before.insn_rec(i)
                    }),
            decreases n - k,
        {
            let id: LocalInsnId = ids[k];
            proof {
                assert(before.linked_at(block, k as int));
                assert(self.has_insn(id));
            }
            let ghost mid = *self;
            let rec: &mut Instruction = self.insns.get_mut(id.0);
            rec.parent = None;
            rec.prev = None;
            rec.next = None;
            proof {
                let t = ids@.take(k as int);
                assert(ids@.take(k + 1) =~= t.push(id));
                assert forall|i: LocalInsnId| before.has_insn(i) implies #[trigger] self.insn_rec(i)
                    == (if ids@.take(k + 1).contains(i) {
                    Instruction { parent: None, prev: None, next: None, ..before.insn_rec(i) }
                } else {
                    before.insn_rec(i)
                }) by {
                    assert(mid.has_insn(i));
                    assert(mid.insn_rec(i) == (if t.contains(i) {
                        Instruction { parent: None, prev: None, next: None, ..before.insn_rec(i) }
                    } else {
                        before.insn_rec(i)
                    }));
                    lemma_push_contains(t, id, i);
                }
                assert forall|i: LocalInsnId| #[trigger] self.has_insn(i) <==> before.has_insn(
                    i,
                ) by {
                    assert(mid.has_insn(i) <==> before.has_insn(i));
                }
            }
            k = k + 1;
        }
        let ghost mid = *self;
        self.blocks.get_mut(block.0).instructions = InsnList::empty();
        proof {
            assert(ids@.take(n as int) =~= ids@);
            assert forall|i: LocalInsnId| #[trigger] self.has_insn(i) <==> before.has_insn(i) by {
                assert(mid.has_insn(i) <==> before.has_insn(i));
            }
            assert forall|i: LocalInsnId| before.has_insn(i) implies #[trigger] self.insn_rec(i)
                == (if ids@.contains(i) {
                Instruction { parent: None, prev: None, next: None, ..before.insn_rec(i) }
            } else {
                before.insn_rec(i)
            }) by {
                assert(self.insn_rec(i) == mid.insn_rec(i));
            }
            assert(same_but_links(before, *self));
            assert forall|b: LocalBlockId| self.has_block(b) implies #[trigger] self.list_ok(b) by {
                assert(before.has_block(b));
                if b != block {
                    assert(before.list_ok(b));
                    assert forall|j: int| 0 <= j < self.order(b).len() implies #[trigger] self.linked_at(
                        b,
                        j,
                    ) by {
                        assert(before.linked_at(b, j));
                        let i = self.order(b)[j];
                        assert(self.has_insn(i));
                        if ids@.contains(i) {
                            let l = ids@.index_of(i);
                            assert(before.linked_at(block, l));
                        }
                    }
                }
            }
            assert forall|i: LocalInsnId| self.has_insn(i) implies #[trigger] self.placed_ok(i) by {
                assert(before.has_insn(i));
                assert(before.placed_ok(i));
            }
            lemma_links_frame(before, *self);
            assert(self@.blocks =~= with_order(before@, block, Seq::empty()).blocks);
        }
        ids
    }

    /// Inserts `insn` immediately before `before`, which must be in `block`.
    pub fn insert_insn_before(
        &mut self,
        block: BlockId,
        before: InstructionId,
        insn: InstructionId,
    )
        requires
            old(self).wf(),
            old(self).id == Some(before.func),
            before.func == block.func,
            insn.func == block.func,
            old(self)@.insns.contains_key(insn.local),
            old(self)@.blocks.contains_key(block.local),
            old(self)@.blocks[block.local].insns.contains(before.local),
        ensures
            final(self).wf(),
            old(self).uses_complete() ==> final(self).uses_complete(),
            operands_issued(old(self)@) ==> operands_issued(final(self)@),
            final(self).uses@.len() <= old(self).uses@.len(),
            same_but_links(*old(self), *final(self)),
            final(self)@ == (if insn == before {
                old(self)@
            } else {
                moved_before(
                    old(self)@,
                    old(self).insn_rec(insn.local).parent,
                    block.local,
                    before.local,
                    insn.local,
                )
            }),
    {
        self.link_before(block.local, before.localize(block.func), insn.localize(block.func));
    }

    /// Moves the non-terminator `insn` immediately before `before`, whose block
    /// it joins. Both must be in a block. Before itself, it stays where it is.
    pub fn move_insn_before(&mut self, insn: InstructionId, before: InstructionId)
        requires
            old(self).wf(),
            old(self).id == Some(insn.func),
            old(self).id == Some(before.func),
            insn != before ==> {
                &&& old(self)@.insns.contains_key(insn.local)
                &&& !old(self)@.insns[insn.local].mnemonic.shape.terminates()
                &&& old(self).is_placed(insn.local)
                &&& old(self).is_placed(before.local)
            },
        ensures
            final(self).wf(),
            old(self).uses_complete() ==> final(self).uses_complete(),
            operands_issued(old(self)@) ==> operands_issued(final(self)@),
            final(self).uses@.len() <= old(self).uses@.len(),
            same_but_links(*old(self), *final(self)),
            final(self)@ == (if insn == before {
                old(self)@
            } else {
                moved_before(
                    old(self)@,
                    old(self).insn_rec(insn.local).parent,
                    old(self).insn_rec(before.local).parent->0,
                    before.local,
                    insn.local,
                )
            }),
    {
        if insn == before {
            return;
        }
        proof {
            self.lemma_placed(insn.local);
            self.lemma_placed(before.local);
        }
        let target: LocalBlockId = self.insns.get(before.local.0).parent.unwrap();
        proof {
            assert(self.placed_ok(before.local));
            assert(self@.blocks.contains_key(target));
            law_an_instruction_is_in_one_block(*self, target, before.local);
        }
        self.link_before(target, before.local, insn.local);
    }
}

/// What a longer sequence contains.
pub proof fn lemma_push_contains<T>(s: Seq<T>, x: T, y: T)
    ensures
        s.push(x).contains(y) <==> s.contains(y) || y == x,
{
    if s.contains(y) {
        let i = choose|i: int| 0 <= i < s.len() && s[i] == y;
        assert(s.push(x)[i] == y);
    }
    if y == x {
        assert(s.push(x)[s.len() as int] == y);
    }
}

} // verus!
