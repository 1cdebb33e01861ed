//! The use edges.
//!
//! Every operand occurrence in a body is one [`Use`], threaded into a singly
//! linked list per used value whose head the value holds, or, for a shared
//! value, a table of the body. The operations here are the only ones that
//! touch the edges. Prepending keeps every operation constant-time except for
//! finding one edge in a list, which costs the value's fanout.

use super::{is_shared, item_at, value_key, BlockParam, FunctionBody, Temp, Use};
use crate::block::BasicBlock;
use crate::ids::{LocalBlockId, LocalInsnId, LocalParamId, UseId};
use crate::insn::instruction::Instruction;
use crate::small::Args;
use crate::value::LocalValueId;
use vstd::prelude::*;

verus! {

/// An operand occurrence: operand `index` of `user` names `value`.
pub struct Occurrence {
    pub value: LocalValueId,
    pub user: LocalInsnId,
    pub index: u16,
}

/// Whether two bodies differ in nothing but their use edges.
pub open spec fn same_but_uses(a: FunctionBody, b: FunctionBody) -> bool {
    &&& b == (FunctionBody {
        insns: b.insns,
        blocks: b.blocks,
        params: b.params,
        temps: b.temps,
        uses: b.uses,
        shared_first_use: b.shared_first_use,
        use_lists: b.use_lists,
        ..a
    })
    &&& a.insns@.len() == b.insns@.len()
    &&& a.blocks@.len() == b.blocks@.len()
    &&& a.params@.len() == b.params@.len()
    &&& a.temps@.len() == b.temps@.len()
    &&& forall|i: LocalInsnId| #[trigger] b.has_insn(i) <==> a.has_insn(i)
    &&& forall|i: LocalInsnId|
        a.has_insn(i) ==> #[trigger] b.insn_rec(i) == (Instruction {
            first_use: b.insn_rec(i).first_use,
            ..a.insn_rec(i)
        })
    &&& forall|x: LocalBlockId| #[trigger] b.has_block(x) <==> a.has_block(x)
    &&& forall|x: LocalBlockId|
        a.has_block(x) ==> #[trigger] b.block_rec(x) == (BasicBlock {
            first_use: b.block_rec(x).first_use,
            ..a.block_rec(x)
        })
    &&& forall|p: LocalParamId| #[trigger] b.has_param(p) <==> a.has_param(p)
    &&& forall|p: LocalParamId|
        a.has_param(p) ==> #[trigger] b.param_rec(p) == (BlockParam {
            first_use: b.param_rec(p).first_use,
            ..a.param_rec(p)
        })
    &&& forall|t: int|
        0 <= t < a.temps@.len() ==> #[trigger] b.temps@[t] == (Temp {
            first_use: b.temps@[t].first_use,
            ..a.temps@[t]
        })
}

/// Changing the use edges touches nothing else.
pub proof fn lemma_uses_frame(a: FunctionBody, b: FunctionBody)
    requires
        same_but_uses(a, b),
        a.rest_wf(),
    ensures
        b.rest_wf(),
        b@ == a@,
        forall|v: LocalValueId| #[trigger] b.has_home(v) == a.has_home(v),
        forall|i: LocalInsnId| a.has_insn(i) ==> #[trigger] b.operands(i) == a.operands(i),
{
    assert forall|i: LocalInsnId| a.has_insn(i) implies #[trigger] b.operands(i) == a.operands(
        i,
    ) && b.insn_rec(i)@ == a.insn_rec(i)@ by {
        assert(b.insn_rec(i).mnemonic == a.insn_rec(i).mnemonic);
    }
    assert forall|x: LocalBlockId| a.has_block(x) implies b.block_rec(x)@ == a.block_rec(x)@ by {
        assert(b.block_rec(x).name == a.block_rec(x).name);
    }
    assert forall|p: LocalParamId| a.has_param(p) implies b.param_rec(p)@ == a.param_rec(p)@ by {
        assert(b.param_rec(p).name == a.param_rec(p).name);
    }
    assert(b@.insns =~= a@.insns);
    assert(b@.blocks =~= a@.blocks);
    assert(b@.params =~= a@.params);
    assert(b@.edges =~= a@.edges);
    assert(b@.temps =~= a@.temps) by {
        assert forall|t: int| 0 <= t < a.temps@.len() implies b.temps@[t]@ == a.temps@[t]@ by {
            assert(b.temps@[t].name == a.temps@[t].name);
        }
    }
    assert forall|x: LocalBlockId| b.has_block(x) implies #[trigger] b.list_ok(x) by {
        assert(a.list_ok(x));
        assert(b.block_rec(x).instructions == a.block_rec(x).instructions);
        assert forall|k: int| 0 <= k < b.order(x).len() implies #[trigger] b.linked_at(x, k) by {
            assert(a.linked_at(x, k));
            assert(b.insn_rec(b.order(x)[k]).parent == a.insn_rec(b.order(x)[k]).parent);
        }
    }
    assert forall|i: LocalInsnId| b.has_insn(i) implies #[trigger] b.placed_ok(i) by {
        assert(a.placed_ok(i));
        assert(b.insn_rec(i).parent == a.insn_rec(i).parent);
        if let Some(x) = a.insn_rec(i).parent {
            assert(b.block_rec(x).instructions == a.block_rec(x).instructions);
        }
    }
    assert(b.cfg_wf()) by {
        assert forall|x: LocalBlockId| b.has_block(x) implies #[trigger] b.incident_ok(x) by {
            assert(a.incident_ok(x));
            assert(b.block_rec(x).edges == a.block_rec(x).edges);
        }
        assert forall|e: crate::ids::EdgeId| b.has_edge(e) implies #[trigger] b.edge_ok(e) by {
            assert(a.edge_ok(e));
            assert(b.block_rec(a.edge_rec(e).from).edges == a.block_rec(a.edge_rec(e).from).edges);
            assert(b.block_rec(a.edge_rec(e).to).edges == a.block_rec(a.edge_rec(e).to).edges);
        }
    }
    assert(b.operands_bounded()) by {
        assert forall|i: LocalInsnId| #[trigger] b.has_insn(i) implies b.operands(i).len()
            <= 0x1_0000 by {
            assert(a.has_insn(i));
            assert(b.operands(i) == a.operands(i));
        }
    }
    assert(b.roster_wf());
}

/// Differing in nothing but the use edges carries over.
pub proof fn lemma_uses_trans(a: FunctionBody, b: FunctionBody, c: FunctionBody)
    requires
        same_but_uses(a, b),
        same_but_uses(b, c),
    ensures
        same_but_uses(a, c),
{
    assert forall|i: LocalInsnId| #[trigger] c.has_insn(i) <==> a.has_insn(i) by {
        assert(b.has_insn(i) <==> a.has_insn(i));
    }
    assert forall|i: LocalInsnId| a.has_insn(i) implies #[trigger] c.insn_rec(i) == (Instruction {
        first_use: c.insn_rec(i).first_use,
        ..a.insn_rec(i)
    }) by {
        assert(b.has_insn(i));
        assert(b.insn_rec(i).name == a.insn_rec(i).name);
    }
    assert forall|x: LocalBlockId| #[trigger] c.has_block(x) <==> a.has_block(x) by {
        assert(b.has_block(x) <==> a.has_block(x));
    }
    assert forall|x: LocalBlockId| a.has_block(x) implies #[trigger] c.block_rec(x) == (BasicBlock {
        first_use: c.block_rec(x).first_use,
        ..a.block_rec(x)
    }) by {
        assert(b.has_block(x));
        assert(b.block_rec(x).name == a.block_rec(x).name);
    }
    assert forall|p: LocalParamId| #[trigger] c.has_param(p) <==> a.has_param(p) by {
        assert(b.has_param(p) <==> a.has_param(p));
    }
    assert forall|p: LocalParamId| a.has_param(p) implies #[trigger] c.param_rec(p) == (BlockParam {
        first_use: c.param_rec(p).first_use,
        ..a.param_rec(p)
    }) by {
        assert(b.has_param(p));
        assert(b.param_rec(p).name == a.param_rec(p).name);
    }
    assert forall|t: int| 0 <= t < a.temps@.len() implies #[trigger] c.temps@[t] == (Temp {
        first_use: c.temps@[t].first_use,
        ..a.temps@[t]
    }) by {
        assert(b.temps@[t].name == a.temps@[t].name);
    }
}

/// Different values have different keys, which fit the table.
pub proof fn lemma_value_key(a: LocalValueId, b: LocalValueId)
    ensures
        0 <= value_key(a) < 0x9_0000_0000_0000_0000,
        value_key(a) == value_key(b) ==> a == b,
{
}

/// A value as one number.
pub fn pack_value(value: LocalValueId) -> (key: u128)
    ensures
        key == value_key(value),
{
    match value {
        LocalValueId::Literal(id) => id.0 as u128,
        LocalValueId::Bytes(id) => 0x1_0000_0000_0000_0000u128 + id.0 as u128,
        LocalValueId::Varnode(id) => 0x2_0000_0000_0000_0000u128 + id.0 as u128,
        LocalValueId::Function(id) => 0x3_0000_0000_0000_0000u128 + id.0 as u128,
        LocalValueId::Poison(id) => 0x4_0000_0000_0000_0000u128 + id.0 as u128,
        LocalValueId::Instruction(id) => 0x5_0000_0000_0000_0000u128 + id.0 as u128,
        LocalValueId::BasicBlock(id) => 0x6_0000_0000_0000_0000u128 + id.0 as u128,
        LocalValueId::BlockParam(id) => 0x7_0000_0000_0000_0000u128 + id.0 as u128,
        LocalValueId::Temp(id) => 0x8_0000_0000_0000_0000u128 + id.0 as u128,
    }
}

impl FunctionBody {
    /// The operand occurrence that a use stands for.
    pub open spec fn occ(&self, u: UseId) -> Occurrence {
        Occurrence {
            value: self.use_rec(u).value,
            user: self.use_rec(u).user,
            index: self.use_rec(u).operand_index,
        }
    }

    /// Whether `n` more uses can be stored.
    pub open spec fn use_room(&self, n: int) -> bool {
        self.uses@.len() + n <= u32::MAX
    }

    /// Whether this body has storage for `value`.
    pub fn has_use_home(&self, value: LocalValueId) -> (b: bool)
        ensures
            b == self.has_home(value),
    {
        match value {
            LocalValueId::Instruction(id) => self.insns.contains(id.0),
            LocalValueId::BlockParam(id) => self.params.contains(id.0),
            LocalValueId::BasicBlock(id) => self.blocks.contains(id.0),
            LocalValueId::Temp(id) => (id.0 as usize) < self.temps.len(),
            _ => true,
        }
    }

    /// The head of `value`'s use list: `None` when nothing in this body uses
    /// it, or when this body has no storage for it.
    pub fn first_use_of(&self, value: LocalValueId) -> (head: Option<UseId>)
        ensures
            head == self.head_of(value),
    {
        if !self.has_use_home(value) {
            return None;
        }
        match value {
            LocalValueId::Instruction(id) => self.insns.get(id.0).first_use,
            LocalValueId::BlockParam(id) => self.params.get(id.0).first_use,
            LocalValueId::BasicBlock(id) => self.blocks.get(id.0).first_use,
            LocalValueId::Temp(id) => self.temps[id.0 as usize].first_use,
            _ => {
                proof {
                    lemma_value_key(value, value);
                }
                self.shared_first_use.get(pack_value(value))
            },
        }
    }

    /// Sets the head of `value`'s use list.
    pub(crate) fn set_first_use_of(&mut self, value: LocalValueId, head: Option<UseId>)
        requires
            old(self).has_home(value),
        ensures
            same_but_uses(*old(self), *final(self)),
            final(self).uses == old(self).uses,
            final(self).use_lists == old(self).use_lists,
            final(self).head_of(value) == head,
            forall|other: LocalValueId|
                other != value ==> #[trigger] final(self).head_of(other) == old(self).head_of(
                    other,
                ),
            forall|other: LocalValueId| #[trigger] final(self).has_home(other) == old(
                self,
            ).has_home(other),
    {
        let ghost before = *self;
        match value {
            LocalValueId::Instruction(id) => {
                self.insns.get_mut(id.0).first_use = head;
            },
            LocalValueId::BlockParam(id) => {
                self.params.get_mut(id.0).first_use = head;
            },
            LocalValueId::BasicBlock(id) => {
                self.blocks.get_mut(id.0).first_use = head;
            },
            LocalValueId::Temp(id) => {
                self.temps[id.0 as usize].first_use = head;
            },
            _ => {
                match head {
                    Some(head) => {
                        self.shared_first_use.insert(pack_value(value), head);
                    },
                    None => {
                        self.shared_first_use.remove(pack_value(value));
                    },
                }
            },
        }
        proof {
            assert forall|other: LocalValueId| other != value implies #[trigger] self.head_of(other)
                == before.head_of(other) by {
                if is_shared(other) && is_shared(value) {
                    lemma_value_key(other, value);
                    lemma_value_key(value, other);
                }
            }
            if is_shared(value) {
                lemma_value_key(value, value);
            }
        }
    }

    /// The lists of all values but `value` are sound if they were and nothing
    /// they depend on changed.
    proof fn lemma_other_lists(self, before: Self, value: LocalValueId, changed: Set<UseId>)
        requires
            forall|v: LocalValueId| #[trigger] before.use_list_ok(v),
            forall|v: LocalValueId|
                v != value ==> #[trigger] self.use_list(v) == before.use_list(v),
            forall|v: LocalValueId| v != value ==> #[trigger] self.head_of(v) == before.head_of(v),
            forall|v: LocalValueId| #[trigger] self.has_home(v) == before.has_home(v),
            forall|u: UseId|
                !#[trigger] changed.contains(u) && before.has_use(u) ==> self.has_use(u)
                    && self.use_rec(u) == before.use_rec(u),
            forall|u: UseId, v: LocalValueId|
                #![trigger changed.contains(u), before.use_list(v)]
                changed.contains(u) && v != value ==> !before.use_list(v).contains(u),
        ensures
            forall|v: LocalValueId| v != value ==> #[trigger] self.use_list_ok(v),
    {
        assert forall|v: LocalValueId| v != value implies #[trigger] self.use_list_ok(v) by {
            assert(before.use_list_ok(v));
            let s = before.use_list(v);
            assert(self.use_list(v) == s);
            assert(self.head_of(v) == before.head_of(v));
            assert(self.has_home(v) == before.has_home(v));
            assert forall|k: int| 0 <= k < s.len() implies #[trigger] self.use_linked_at(v, k) by {
                assert(before.use_linked_at(v, k));
                assert(s.contains(s[k]));
                assert(!changed.contains(s[k]));
            }
        }
    }

    /// Records that operand `operand_index` of `user` names `value`, at the
    /// front of `value`'s use list. Nothing is recorded, and `None` returned,
    /// when this body has no storage for `value`: the operand is dangling.
    pub fn add_use(&mut self, value: LocalValueId, user: LocalInsnId, operand_index: usize) -> (edge:
        Option<UseId>)
        requires
            old(self).rest_wf(),
            old(self).use_lists_wf(None),
            operand_index <= u16::MAX,
            old(self).use_room(1),
        ensures
            same_but_uses(*old(self), *final(self)),
            final(self).rest_wf(),
            final(self)@ == old(self)@,
            final(self).use_lists_wf(None),
            final(self).uses@.len() <= old(self).uses@.len() + 1,
            old(self).uses.free@.len() == 0 ==> final(self).uses.free@.len() == 0,
            edge is Some <==> old(self).has_home(value),
            match edge {
                None => *final(self) == *old(self),
                Some(u) => {
                    &&& !old(self).has_use(u)
                    &&& forall|w: UseId| #[trigger]
                        final(self).has_use(w) <==> old(self).has_use(w) || w == u
                    &&& final(self).occ(u) == (Occurrence {
                        value,
                        user,
                        index: operand_index as u16,
                    })
                    &&& forall|w: UseId|
                        old(self).has_use(w) ==> #[trigger] final(self).occ(w) == old(self).occ(w)
                    &&& forall|v: LocalValueId| #[trigger]
                        final(self).use_list(v) == (if v == value {
                            seq![u] + old(self).use_list(v)
                        } else {
                            old(self).use_list(v)
                        })
                },
            },
    {
        let ghost before = *self;
        proof {
            lemma_uses_frame(before, before);
        }
        if !self.has_use_home(value) {
            return None;
        }
        let next: Option<UseId> = self.first_use_of(value);
        let raw: u32 = self.uses.push(
            Use { value, user, operand_index: operand_index as u16, next },
        );
        let edge: UseId = UseId(raw);
        let ghost s = before.use_list(value);
        let ghost t = seq![edge] + s;
        self.use_lists = Ghost(self.use_lists@.insert(value, t));
        let ghost mid = *self;
        self.set_first_use_of(value, Some(edge));
        proof {
            assert(before.use_list_ok(value));
            assert(same_but_uses(before, mid));
            lemma_uses_trans(before, mid, *self);
            lemma_uses_frame(before, *self);
            assert forall|w: UseId| #[trigger] self.has_use(w) <==> before.has_use(w) || w == edge by {}
            assert forall|w: UseId| before.has_use(w) implies #[trigger] self.use_rec(w)
                == before.use_rec(w) by {}
            assert forall|v: LocalValueId| v != value implies #[trigger] self.use_list(v)
                == before.use_list(v) by {}
            assert forall|v: LocalValueId| v != value implies #[trigger] self.head_of(v)
                == before.head_of(v) by {
                assert(mid.head_of(v) == before.head_of(v));
            }
            assert forall|k: int, v: LocalValueId| 0 <= k < before.use_list(v).len() implies #[trigger] before.use_list(
                v,
            )[k] != edge by {
                assert(before.use_list_ok(v));
                assert(before.use_linked_at(v, k));
            }
            self.lemma_other_lists(before, value, set![edge]);
            assert(self.use_list_ok(value)) by {
                assert forall|k: int| 0 <= k < t.len() implies #[trigger] self.use_linked_at(
                    value,
                    k,
                ) by {
                    if k > 0 {
                        assert(before.use_linked_at(value, k - 1));
                    }
                }
            }
            assert forall|w: UseId| self.has_use(w) implies #[trigger] self.use_list(
                self.use_rec(w).value,
            ).contains(w) by {
                if w == edge {
                    assert(t[0] == edge);
                } else {
                    assert(before.use_list(before.use_rec(w).value).contains(w));
                    if self.use_rec(w).value == value {
                        let k = s.index_of(w);
                        assert(t[k + 1] == w);
                    }
                }
            }
        }
        Some(edge)
    }

    /// Finds the use of operand `operand_index` of `user` in `value`'s list,
    /// with the use before it in the list.
    pub(crate) fn find_use(&self, value: LocalValueId, user: LocalInsnId, operand_index: usize) -> (found: Option<
        (Option<UseId>, UseId),
    >)
        requires
            self.use_lists_wf(None),
            operand_index <= u16::MAX,
        ensures
            match found {
                Some((prev, u)) => {
                    let s = self.use_list(value);
                    &&& s.contains(u)
                    &&& prev == item_at(s, s.index_of(u) - 1)
                    &&& self.is_use_of(u, user, operand_index as int)
                },
                None => forall|u: UseId| #[trigger]
                    self.is_use_of(u, user, operand_index as int) ==> self.use_rec(u).value
                        != value,
            },
    {
        let ghost s = self.use_list(value);
        let mut prev: Option<UseId> = None;
        let mut at: Option<UseId> = self.first_use_of(value);
        let ghost mut k: int = 0;
        proof {
            assert(self.use_list_ok(value));
        }
        while at.is_some()
            invariant
                self.use_lists_wf(None),
                operand_index <= u16::MAX,
                s == self.use_list(value),
                self.use_list_ok(value),
                0 <= k <= s.len(),
                at == item_at(s, k),
                prev == item_at(s, k - 1),
                forall|j: int|
                    0 <= j < k ==> !self.is_use_of(
                        #[trigger] s[j],
                        user,
                        operand_index as int,
                    ),
            decreases s.len() - k,
        {
            let edge: UseId = at.unwrap();
            proof {
                assert(self.use_linked_at(value, k));
            }
            let rec: Use = *self.uses.get(edge.0);
            if rec.user == user && rec.operand_index as usize == operand_index {
                proof {
                    assert(s[k] == edge);
                    assert(s.index_of(edge) == k);
                }
                return Some((prev, edge));
            }
            prev = Some(edge);
            at = rec.next;
            proof {
                k = k + 1;
            }
        }
        proof {
            assert forall|u: UseId| #[trigger]
                self.is_use_of(u, user, operand_index as int) implies self.use_rec(u).value
                != value by {
                if self.use_rec(u).value == value {
                    assert(self.use_list(self.use_rec(u).value).contains(u));
                    let j = s.index_of(u);
                    assert(s[j] == u);
                }
            }
        }
        None
    }

    /// Unlinks `edge` from `value`'s list, `prev` being the use before it. The
    /// use stays allocated, in no list.
    pub(crate) fn unlink_use(&mut self, value: LocalValueId, prev: Option<UseId>, edge: UseId)
        requires
            old(self).rest_wf(),
            old(self).use_lists_wf(None),
            old(self).use_list(value).contains(edge),
            prev == item_at(
                old(self).use_list(value),
                old(self).use_list(value).index_of(edge) - 1,
            ),
        ensures
            same_but_uses(*old(self), *final(self)),
            final(self).rest_wf(),
            final(self)@ == old(self)@,
            final(self).use_lists_wf(Some(edge)),
            final(self).uses@.len() == old(self).uses@.len(),
            forall|w: UseId| #[trigger] final(self).has_use(w) <==> old(self).has_use(w),
            forall|w: UseId|
                old(self).has_use(w) ==> #[trigger] final(self).occ(w) == old(self).occ(w),
            final(self).has_use(edge),
            final(self).occ(edge).value == value,
            forall|v: LocalValueId| #[trigger]
                final(self).use_list(v) == (if v == value {
                    old(self).use_list(v).remove(old(self).use_list(v).index_of(edge))
                } else {
                    old(self).use_list(v)
                }),
    {
        let ghost before = *self;
        let ghost s = self.use_list(value);
        let ghost at = s.index_of(edge);
        let ghost t = s.remove(at);
        proof {
            assert(self.use_list_ok(value));
            assert(self.use_linked_at(value, at));
            if at > 0 {
                assert(self.use_linked_at(value, at - 1));
            }
        }
        let next: Option<UseId> = self.uses.get(edge.0).next;
        self.use_lists = Ghost(self.use_lists@.insert(value, t));
        match prev {
            None => {
                let ghost mid = *self;
                self.set_first_use_of(value, next);
                proof {
                    assert(same_but_uses(before, mid));
                    lemma_uses_trans(before, mid, *self);
                    assert forall|v: LocalValueId| v != value implies #[trigger] self.head_of(v)
                        == before.head_of(v) by {
                        assert(mid.head_of(v) == before.head_of(v));
                    }
                }
            },
            Some(prev) => {
                let rec: Use = *self.uses.get(prev.0);
                self.uses.set(prev.0, Use { next, ..rec });
                proof {
                    assert(same_but_uses(before, *self));
                    assert forall|v: LocalValueId| #[trigger] self.head_of(v) == before.head_of(
                        v,
                    ) by {}
                }
            },
        }
        proof {
            lemma_uses_frame(before, *self);
            assert forall|w: UseId| #[trigger] self.has_use(w) <==> before.has_use(w) by {}
            assert forall|w: UseId| before.has_use(w) && Some(w) != prev implies #[trigger] self.use_rec(
                w,
            ) == before.use_rec(w) by {}
            assert forall|v: LocalValueId| v != value implies #[trigger] self.use_list(v)
                == before.use_list(v) by {}
            let changed = match prev {
                Some(p) => set![p],
                None => Set::empty(),
            };
            assert forall|u: UseId, v: LocalValueId|
                #![trigger changed.contains(u), before.use_list(v)]
                changed.contains(u) && v != value implies !before.use_list(v).contains(u) by {
                assert(before.use_list_ok(v));
                if before.use_list(v).contains(u) {
                    let j = before.use_list(v).index_of(u);
                    assert(before.use_linked_at(v, j));
                }
            }
            self.lemma_other_lists(before, value, changed);
            assert(self.use_list_ok(value)) by {
                assert forall|k: int| 0 <= k < t.len() implies #[trigger] self.use_linked_at(
                    value,
                    k,
                ) by {
                    if k < at {
                        assert(before.use_linked_at(value, k));
                        assert(t[k] == s[k]);
                    } else {
                        assert(before.use_linked_at(value, k + 1));
                        assert(t[k] == s[k + 1]);
                        assert(Some(t[k]) != prev);
                    }
                }
            }
            assert forall|w: UseId| self.has_use(w) && w != edge implies #[trigger] self.use_list(
                self.use_rec(w).value,
            ).contains(w) by {
                assert(before.use_list(before.use_rec(w).value).contains(w));
                if self.use_rec(w).value == value {
                    let k = s.index_of(w);
                    assert(t[if k < at {
                        k
                    } else {
                        k - 1
                    }] == w);
                }
            }
            assert forall|v: LocalValueId| !#[trigger] self.use_list(v).contains(edge) by {
                if self.use_list(v).contains(edge) {
                    let j = self.use_list(v).index_of(edge);
                    if v == value {
                        assert(t[j] == edge);
                        assert(s[at] == edge);
                        assert(s[if j < at {
                            j
                        } else {
                            j + 1
                        }] == edge);
                    } else {
                        assert(before.use_list_ok(v));
                        assert(before.use_linked_at(v, j));
                    }
                }
            }
        }
    }

    /// Frees `edge`, which is in no list.
    pub(crate) fn free_use(&mut self, edge: UseId)
        requires
            old(self).rest_wf(),
            old(self).use_lists_wf(Some(edge)),
            old(self).has_use(edge),
        ensures
            same_but_uses(*old(self), *final(self)),
            final(self).rest_wf(),
            final(self)@ == old(self)@,
            final(self).use_lists_wf(None),
            final(self).uses@.len() == old(self).uses@.len(),
            forall|w: UseId| #[trigger]
                final(self).has_use(w) <==> old(self).has_use(w) && w != edge,
            forall|w: UseId|
                final(self).has_use(w) ==> #[trigger] final(self).occ(w) == old(self).occ(w),
            forall|v: LocalValueId| #[trigger]
                final(self).use_list(v) == old(self).use_list(v),
    {
        let ghost before = *self;
        self.uses.remove(edge.0);
        proof {
            assert(same_but_uses(before, *self));
            lemma_uses_frame(before, *self);
            assert forall|w: UseId| #[trigger] self.has_use(w) <==> before.has_use(w) && w
                != edge by {}
            assert forall|w: UseId| self.has_use(w) implies #[trigger] self.use_rec(w)
                == before.use_rec(w) by {}
            assert forall|v: LocalValueId| #[trigger] self.use_list_ok(v) by {
                assert(before.use_list_ok(v));
                assert forall|k: int| 0 <= k < self.use_list(v).len() implies #[trigger] self.use_linked_at(
                    v,
                    k,
                ) by {
                    assert(before.use_linked_at(v, k));
                    assert(before.use_list(v).contains(before.use_list(v)[k]));
                }
            }
            assert forall|w: UseId| self.has_use(w) implies #[trigger] self.use_list(
                self.use_rec(w).value,
            ).contains(w) by {
                assert(before.use_list(before.use_rec(w).value).contains(w));
            }
        }
    }

    /// Points `edge`, which is in no list, at `new` and prepends it to `new`'s
    /// list; or frees it, when this body has no storage for `new`.
    pub(crate) fn relink_use(&mut self, edge: UseId, new: LocalValueId)
        requires
            old(self).rest_wf(),
            old(self).use_lists_wf(Some(edge)),
            old(self).has_use(edge),
        ensures
            same_but_uses(*old(self), *final(self)),
            final(self).rest_wf(),
            final(self)@ == old(self)@,
            final(self).use_lists_wf(None),
            final(self).uses@.len() == old(self).uses@.len(),
            forall|w: UseId| #[trigger]
                final(self).has_use(w) <==> old(self).has_use(w) && (w != edge || old(
                    self,
                ).has_home(new)),
            forall|w: UseId|
                final(self).has_use(w) ==> #[trigger] final(self).occ(w) == (if w == edge {
                    Occurrence { value: new, ..old(self).occ(w) }
                } else {
                    old(self).occ(w)
                }),
            forall|v: LocalValueId|
                v != new ==> #[trigger] final(self).use_list(v) == old(self).use_list(v),
    {
        if !self.has_use_home(new) {
            self.free_use(edge);
            return;
        }
        let ghost before = *self;
        let head: Option<UseId> = self.first_use_of(new);
        let rec: Use = *self.uses.get(edge.0);
        self.uses.set(edge.0, Use { value: new, next: head, ..rec });
        let ghost s = before.use_list(new);
        let ghost t = seq![edge] + s;
        self.use_lists = Ghost(self.use_lists@.insert(new, t));
        let ghost mid = *self;
        self.set_first_use_of(new, Some(edge));
        proof {
            assert(before.use_list_ok(new));
            assert(same_but_uses(before, mid));
            lemma_uses_trans(before, mid, *self);
            lemma_uses_frame(before, *self);
            assert forall|w: UseId| #[trigger] self.has_use(w) <==> before.has_use(w) by {}
            assert forall|w: UseId| before.has_use(w) && w != edge implies #[trigger] self.use_rec(w)
                == before.use_rec(w) by {}
            assert forall|v: LocalValueId| v != new implies #[trigger] self.use_list(v)
                == before.use_list(v) by {}
            assert forall|v: LocalValueId| v != new implies #[trigger] self.head_of(v)
                == before.head_of(v) by {
                assert(mid.head_of(v) == before.head_of(v));
            }
            self.lemma_other_lists(before, new, set![edge]);
            assert(!s.contains(edge));
            assert(t.no_duplicates()) by {
                assert forall|j: int, k: int| 0 <= j < k < t.len() implies t[j] != t[k] by {
                    assert(t[k] == s[k - 1]);
                    assert(s.contains(s[k - 1]));
                }
            }
            assert(self.use_list_ok(new)) by {
                assert forall|k: int| 0 <= k < t.len() implies #[trigger] self.use_linked_at(
                    new,
                    k,
                ) by {
                    if k > 0 {
                        assert(before.use_linked_at(new, k - 1));
                        assert(s.contains(s[k - 1]));
                    }
                }
            }
            assert forall|w: UseId| self.has_use(w) implies #[trigger] self.use_list(
                self.use_rec(w).value,
            ).contains(w) by {
                if w == edge {
                    assert(t[0] == edge);
                } else {
                    assert(before.use_list(before.use_rec(w).value).contains(w));
                    if self.use_rec(w).value == new {
                        let k = s.index_of(w);
                        assert(t[k + 1] == w);
                    }
                }
            }
        }
    }

    /// Takes down the use of operand `operand_index` of `user`, if it is a use
    /// of `value`. Returns whether it was.
    pub fn remove_use(&mut self, value: LocalValueId, user: LocalInsnId, operand_index: usize) -> (removed:
        bool)
        requires
            old(self).rest_wf(),
            old(self).use_lists_wf(None),
            operand_index <= u16::MAX,
        ensures
            same_but_uses(*old(self), *final(self)),
            final(self).rest_wf(),
            final(self)@ == old(self)@,
            final(self).use_lists_wf(None),
            final(self).uses@.len() == old(self).uses@.len(),
            forall|w: UseId|
                final(self).has_use(w) ==> #[trigger] final(self).occ(w) == old(self).occ(w),
            forall|w: UseId| #[trigger] final(self).has_use(w) ==> old(self).has_use(w),
            if removed {
                exists|u: UseId|
                    {
                        &&& #[trigger] old(self).is_use_of(u, user, operand_index as int)
                        &&& old(self).occ(u).value == value
                        &&& !final(self).has_use(u)
                        &&& forall|w: UseId| #[trigger]
                            old(self).has_use(w) && w != u ==> final(self).has_use(w)
                    }
            } else {
                &&& *final(self) == *old(self)
                &&& forall|u: UseId| #[trigger]
                    old(self).is_use_of(u, user, operand_index as int) ==> old(self).occ(u).value
                        != value
            },
    {
        let ghost before = *self;
        proof {
            lemma_uses_frame(before, before);
        }
        match self.find_use(value, user, operand_index) {
            None => false,
            Some((prev, edge)) => {
                self.unlink_use(value, prev, edge);
                let ghost mid = *self;
                self.free_use(edge);
                proof {
                    lemma_uses_trans(before, mid, *self);
                    assert(before.is_use_of(edge, user, operand_index as int));
                    assert(mid.occ(edge).value == value);
                    assert(before.occ(edge) == mid.occ(edge));
                    assert forall|w: UseId| #[trigger] self.has_use(w) implies before.has_use(w) by {
                        assert(mid.has_use(w));
                    }
                    assert forall|w: UseId| self.has_use(w) implies #[trigger] self.occ(w)
                        == before.occ(w) by {
                        assert(mid.has_use(w));
                        assert(mid.occ(w) == before.occ(w));
                    }
                    assert forall|w: UseId| #[trigger] before.has_use(w) && w != edge implies self.has_use(
                        w,
                    ) by {
                        assert(mid.has_use(w));
                    }
                }
                true
            },
        }
    }

    /// Records a use for each operand of `insn`, which has none recorded yet.
    pub fn add_operand_uses(&mut self, insn: LocalInsnId)
        requires
            old(self).rest_wf(),
            old(self).use_lists_wf(None),
            old(self).uses_faithful(),
            old(self)@.insns.contains_key(insn),
            forall|u: UseId| #[trigger] old(self).has_use(u) ==> old(self).occ(u).user != insn,
            old(self).use_room(old(self).operands(insn).len() as int),
        ensures
            same_but_uses(*old(self), *final(self)),
            final(self).wf(),
            final(self)@ == old(self)@,
            final(self).uses@.len() <= old(self).uses@.len() + old(self).operands(insn).len(),
            old(self).uses.free@.len() == 0 ==> final(self).uses.free@.len() == 0,
            forall|u: UseId| #[trigger]
                old(self).has_use(u) ==> final(self).has_use(u) && final(self).occ(u) == old(
                    self,
                ).occ(u),
            forall|u: UseId| #[trigger]
                final(self).has_use(u) && !old(self).has_use(u) ==> final(self).occ(u).user == insn,
            forall|k: int|
                0 <= k < old(self).operands(insn).len() && old(self).has_home(
                    old(self).operands(insn)[k],
                ) ==> #[trigger] final(self).has_use_of(insn, k),
    {
        let ghost before = *self;
        let ghost ops = self.operands(insn);
        proof {
            lemma_uses_frame(before, before);
            assert(ops.len() <= 0x1_0000);
        }
        let args: Args = self.insns.get(insn.0).mnemonic.args();
        let n: usize = args.len();
        let mut k: usize = 0;
        while k < n
            invariant
                before.rest_wf(),
                before.has_insn(insn),
                args@ == ops,
                n == ops.len(),
                n <= 0x1_0000,
                k <= n,
                ops == before.operands(insn),
                before.use_room(ops.len() as int),
                same_but_uses(before, *self),
                self.rest_wf(),
                self@ == before@,
                self.use_lists_wf(None),
                self.uses_faithful(),
                self.uses@.len() <= before.uses@.len() + k,
                before.uses.free@.len() == 0 ==> self.uses.free@.len() == 0,
                forall|u: UseId| #[trigger]
                    before.has_use(u) ==> self.has_use(u) && self.occ(u) == before.occ(u)
                        && before.occ(u).user != insn,
                forall|u: UseId| #[trigger]
                    self.has_use(u) && !before.has_use(u) ==> self.occ(u).user == insn
                        && self.occ(u).index < k,
                forall|j: int|
                    0 <= j < k && before.has_home(ops[j]) ==> #[trigger] self.has_use_of(insn, j),
            decreases n - k,
        {
            let value: LocalValueId = args.get(k).unwrap();
            let ghost mid = *self;
            proof {
                lemma_uses_frame(before, mid);
                assert(mid.operands(insn) == ops);
            }
            let edge: Option<UseId> = self.add_use(value, insn, k);
            proof {
                lemma_uses_trans(before, mid, *self);
                lemma_uses_frame(mid, *self);
                assert(self.operands(insn) == ops);
                match edge {
                    None => {},
                    Some(e) => {
                        assert forall|u: UseId| self.has_use(u) implies #[trigger] self.use_faithful(
                            u,
                        ) by {
                            if u != e {
                                assert(mid.has_use(u));
                                assert(mid.use_faithful(u));
                                assert(self.occ(u) == mid.occ(u));
                                assert(self.operands(self.occ(u).user) == mid.operands(
                                    self.occ(u).user,
                                ));
                            } else {
                                assert(self.occ(e).value == value);
                            }
                        }
                        assert forall|u: UseId, w: UseId, i: LocalInsnId, j: int| #[trigger]
                            self.is_use_of(u, i, j) && #[trigger] self.is_use_of(
                                w,
                                i,
                                j,
                            ) implies u == w by {
                            assert(u != e ==> mid.has_use(u) && self.occ(u) == mid.occ(u));
                            assert(w != e ==> mid.has_use(w) && self.occ(w) == mid.occ(w));
                            if u != e && w != e {
                                assert(mid.is_use_of(u, i, j) && mid.is_use_of(w, i, j));
                            }
                        }
                        assert forall|j: int|
                            0 <= j <= k && before.has_home(ops[j]) implies #[trigger] self.has_use_of(
                            insn,
                            j,
                        ) by {
                            if j == k {
                                assert(self.occ(e).index == k);
                                assert(self.is_use_of(e, insn, j));
                            } else {
                                assert(mid.has_use_of(insn, j));
                                let u = choose|u: UseId| #[trigger] mid.is_use_of(u, insn, j);
                                assert(self.occ(u) == mid.occ(u));
                                assert(self.is_use_of(u, insn, j));
                            }
                        }
                        assert forall|u: UseId| #[trigger] before.has_use(u) implies self.has_use(u)
                            && self.occ(u) == before.occ(u) && before.occ(u).user != insn by {
                            assert(mid.has_use(u));
                            assert(self.occ(u) == mid.occ(u));
                        }
                        assert forall|u: UseId| #[trigger]
                            self.has_use(u) && !before.has_use(u) implies self.occ(u).user == insn
                            && self.occ(u).index < k + 1 by {
                            if u != e {
                                assert(mid.has_use(u));
                                assert(self.occ(u) == mid.occ(u));
                            }
                        }
                    },
                }
            }
            k = k + 1;
        }
    }

    /// Takes down the uses of every operand of `insn`.
    pub fn remove_operand_uses(&mut self, insn: LocalInsnId)
        requires
            old(self).wf(),
            old(self)@.insns.contains_key(insn),
        ensures
            same_but_uses(*old(self), *final(self)),
            final(self).wf(),
            final(self)@ == old(self)@,
            final(self).uses@.len() == old(self).uses@.len(),
            forall|u: UseId| #[trigger]
                final(self).has_use(u) <==> old(self).has_use(u) && old(self).occ(u).user != insn,
            forall|u: UseId|
                final(self).has_use(u) ==> #[trigger] final(self).occ(u) == old(self).occ(u),
    {
        let ghost before = *self;
        let ghost ops = self.operands(insn);
        proof {
            lemma_uses_frame(before, before);
            assert(ops.len() <= 0x1_0000);
        }
        let args: Args = self.insns.get(insn.0).mnemonic.args();
        let n: usize = args.len();
        let mut k: usize = 0;
        while k < n
            invariant
                before.wf(),
                before.has_insn(insn),
                args@ == ops,
                n == ops.len(),
                n <= 0x1_0000,
                k <= n,
                ops == before.operands(insn),
                same_but_uses(before, *self),
                self.rest_wf(),
                self@ == before@,
                self.use_lists_wf(None),
                self.uses@.len() == before.uses@.len(),
                forall|u: UseId| #[trigger]
                    self.has_use(u) <==> before.has_use(u) && !(before.occ(u).user == insn
                        && before.occ(u).index < k),
                forall|u: UseId|
                    self.has_use(u) ==> #[trigger] self.occ(u) == before.occ(u),
            decreases n - k,
        {
            let value: LocalValueId = args.get(k).unwrap();
            let ghost mid = *self;
            let removed: bool = self.remove_use(value, insn, k);
            proof {
                lemma_uses_trans(before, mid, *self);
                assert forall|u: UseId| before.is_use_of(u, insn, k as int) implies before.occ(u).value
                    == value by {
                    assert(before.use_faithful(u));
                }
                assert forall|u: UseId| #[trigger]
                    self.has_use(u) <==> before.has_use(u) && !(before.occ(u).user == insn
                        && before.occ(u).index < k + 1) by {
                    assert(self.has_use(u) ==> mid.has_use(u));
                    assert(mid.has_use(u) <==> before.has_use(u) && !(before.occ(u).user == insn
                        && before.occ(u).index < k));
                    if removed {
                        let e = choose|e: UseId|
                            {
                                &&& #[trigger] mid.is_use_of(e, insn, k as int)
                                &&& mid.occ(e).value == value
                                &&& !self.has_use(e)
                                &&& forall|w: UseId| #[trigger]
                                    mid.has_use(w) && w != e ==> self.has_use(w)
                            };
                        assert(mid.has_use(e));
                        assert(mid.occ(e) == before.occ(e));
                        assert(before.is_use_of(e, insn, k as int));
                        if before.has_use(u) && before.occ(u).user == insn && before.occ(u).index
                            == k {
                            assert(before.is_use_of(u, insn, k as int));
                            assert(u == e);
                        }
                    } else {
                        if before.has_use(u) && before.occ(u).user == insn && before.occ(u).index
                            == k {
                            assert(before.is_use_of(u, insn, k as int));
                            assert(before.occ(u).value == value);
                            assert(mid.has_use(u));
                            assert(mid.occ(u) == before.occ(u));
                            assert(mid.is_use_of(u, insn, k as int));
                        }
                    }
                }
                assert forall|u: UseId| self.has_use(u) implies #[trigger] self.occ(u)
                    == before.occ(u) by {
                    assert(mid.has_use(u));
                    assert(mid.occ(u) == before.occ(u));
                }
            }
            k = k + 1;
        }
        proof {
            assert forall|u: UseId| #[trigger]
                self.has_use(u) <==> before.has_use(u) && before.occ(u).user != insn by {
                if before.has_use(u) && before.occ(u).user == insn {
                    assert(before.use_faithful(u));
                }
            }
            lemma_fewer_uses(before, *self);
        }
    }

    /// Frees every use of `value`, which is about to lose its storage. Its
    /// users, if any are left, keep naming it.
    pub fn drop_uses_of(&mut self, value: LocalValueId)
        requires
            old(self).wf(),
        ensures
            same_but_uses(*old(self), *final(self)),
            final(self).wf(),
            final(self)@ == old(self)@,
            final(self).uses@.len() == old(self).uses@.len(),
            final(self).use_list(value).len() == 0,
            forall|u: UseId| #[trigger]
                final(self).has_use(u) <==> old(self).has_use(u) && old(self).occ(u).value != value,
            forall|u: UseId|
                final(self).has_use(u) ==> #[trigger] final(self).occ(u) == old(self).occ(u),
    {
        let ghost before = *self;
        proof {
            lemma_uses_frame(before, before);
        }
        let mut at: Option<UseId> = self.first_use_of(value);
        while at.is_some()
            invariant
                before.rest_wf(),
                same_but_uses(before, *self),
                self.rest_wf(),
                self@ == before@,
                self.use_lists_wf(None),
                self.uses@.len() == before.uses@.len(),
                at == self.head_of(value),
                forall|u: UseId| #[trigger]
                    self.has_use(u) ==> before.has_use(u) && self.occ(u) == before.occ(u),
                forall|u: UseId| #[trigger]
                    before.has_use(u) && before.occ(u).value != value ==> self.has_use(u),
            decreases self.use_list(value).len(),
        {
            let edge: UseId = at.unwrap();
            let ghost mid = *self;
            proof {
                assert(self.use_list_ok(value));
                assert(self.use_list(value)[0] == edge);
                assert(self.use_list(value).index_of(edge) == 0);
            }
            self.unlink_use(value, None, edge);
            let ghost loose = *self;
            self.free_use(edge);
            at = self.first_use_of(value);
            proof {
                lemma_uses_trans(before, mid, loose);
                lemma_uses_trans(before, loose, *self);
                assert(self.use_list(value) == loose.use_list(value));
                assert(loose.use_list(value) == mid.use_list(value).remove(0));
                assert forall|u: UseId| #[trigger] self.has_use(u) implies before.has_use(u)
                    && self.occ(u) == before.occ(u) by {
                    assert(loose.has_use(u));
                    assert(mid.has_use(u));
                    assert(self.occ(u) == loose.occ(u));
                    assert(loose.occ(u) == mid.occ(u));
                }
                assert forall|u: UseId| #[trigger]
                    before.has_use(u) && before.occ(u).value != value implies self.has_use(u) by {
                    assert(mid.has_use(u));
                    assert(mid.occ(u) == before.occ(u));
                    assert(loose.occ(u) == mid.occ(u));
                    assert(loose.has_use(u));
                }
            }
        }
        proof {
            assert(self.use_list_ok(value));
            assert forall|u: UseId| #[trigger]
                self.has_use(u) <==> before.has_use(u) && before.occ(u).value != value by {
                if self.has_use(u) {
                    assert(self.use_list(self.use_rec(u).value).contains(u));
                    assert(self.occ(u) == before.occ(u));
                }
            }
            lemma_fewer_uses(before, *self);
        }
    }
}

/// Taking uses down keeps the rest faithful.
pub proof fn lemma_fewer_uses(a: FunctionBody, b: FunctionBody)
    requires
        a.wf(),
        same_but_uses(a, b),
        b.use_lists_wf(None),
        forall|u: UseId| #[trigger] b.has_use(u) ==> a.has_use(u) && b.occ(u) == a.occ(u),
    ensures
        b.wf(),
        b@ == a@,
{
    lemma_uses_frame(a, b);
    assert forall|u: UseId| b.has_use(u) implies #[trigger] b.use_faithful(u) by {
        assert(a.use_faithful(u));
        assert(b.occ(u) == a.occ(u));
        assert(b.operands(a.occ(u).user) == a.operands(a.occ(u).user));
    }
    assert forall|u: UseId, w: UseId, i: LocalInsnId, j: int| #[trigger]
        b.is_use_of(u, i, j) && #[trigger] b.is_use_of(w, i, j) implies u == w by {
        assert(b.occ(u) == a.occ(u) && b.occ(w) == a.occ(w));
        assert(a.is_use_of(u, i, j) && a.is_use_of(w, i, j));
    }
}

} // verus!
