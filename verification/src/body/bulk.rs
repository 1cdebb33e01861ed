//! Removing many instructions at once.
//!
//! Where many instructions that share a few operands go together, each
//! operand's use list is walked once rather than once per instruction.

use super::cfg::{edges_not_from, edges_untouched, lemma_untouched_trans, lists_filtered};
use super::order::with_order;
use super::remove::{lemma_shrunk, shrunk};
use super::uses::{
    lemma_fewer_uses, lemma_uses_frame, lemma_uses_trans, lemma_value_key, pack_value,
    same_but_uses,
};
use super::{item_at, last_of, value_key, BlockView, BodyView, FunctionBody, Use};
use crate::block::without;
use crate::body::compose::operands_issued;
use crate::fx::{set_contains, set_insert, set_members, KeyMap};
use crate::ids::{BlockId, EdgeId, LocalBlockId, LocalInsnId, UseId};
use crate::insn::instruction::InsnView;
use crate::names::{Name, NamesView};
use crate::small::Args;
use crate::value::LocalValueId;
use rustc_hash::FxHashSet;
use vstd::prelude::*;

verus! {

/// Whether instruction `i` is in a set of instruction indices.
pub open spec fn is_dead(dead: Set<u32>, i: LocalInsnId) -> bool {
    dead.contains(i.0)
}

/// Whether a value is the result of an instruction in a set.
pub open spec fn is_dead_value(dead: Set<u32>, v: LocalValueId) -> bool {
    v matches LocalValueId::Instruction(i) && is_dead(dead, i)
}

impl FunctionBody {
    /// Takes down the uses of `value` by the instructions in `dead`, walking
    /// its list once.
    fn prune_uses(&mut self, value: LocalValueId, dead: &FxHashSet<u32>)
        requires
            old(self).wf(),
        ensures
            same_but_uses(*old(self), *final(self)),
            final(self).wf(),
            final(self)@ == old(self)@,
            final(self).uses@.len() == old(self).uses@.len(),
            forall|u: UseId| #[trigger]
                final(self).has_use(u) <==> old(self).has_use(u) && !(old(self).occ(u).value
                    == value && is_dead(dead@, old(self).occ(u).user)),
            forall|u: UseId|
                final(self).has_use(u) ==> #[trigger] final(self).occ(u) == old(self).occ(u),
    {
        let ghost start = *self;
        let ghost list = self.use_list(value);
        let ghost mut done: int = 0;
        let ghost mut kept: Seq<UseId> = Seq::empty();
        let mut prev: Option<UseId> = None;
        let mut at: Option<UseId> = self.first_use_of(value);
        proof {
            assert(self.use_list_ok(value));
            assert(kept + list.skip(0) =~= list);
            lemma_uses_frame(start, start);
        }
        while at.is_some()
            invariant
                start.wf(),
                list == start.use_list(value),
                start.use_list_ok(value),
                0 <= done <= list.len(),
                same_but_uses(start, *self),
                self.rest_wf(),
                self@ == start@,
                self.use_lists_wf(None),
                self.uses@.len() == start.uses@.len(),
                self.use_list(value) == kept + list.skip(done),
                at == item_at(list, done),
                prev == last_of(kept),
                forall|k: int|
                    0 <= k < kept.len() ==> !is_dead(dead@, start.occ(#[trigger] kept[k]).user),
                forall|u: UseId| #[trigger]
                    self.has_use(u) ==> start.has_use(u) && self.occ(u) == start.occ(u),
                forall|u: UseId| #[trigger]
                    start.has_use(u) && !(start.occ(u).value == value && is_dead(
                        dead@,
                        start.occ(u).user,
                    )) ==> self.has_use(u),
            decreases list.len() - done,
        {
            let edge: UseId = at.unwrap();
            let ghost mid = *self;
            proof {
                assert(self.use_list_ok(value));
                assert(self.use_list(value)[kept.len() as int] == edge);
                assert(self.use_linked_at(value, kept.len() as int));
                assert(item_at(self.use_list(value), kept.len() as int + 1) == item_at(
                    list,
                    done + 1,
                ));
                assert(self.occ(edge) == start.occ(edge));
            }
            let rec: Use = *self.uses.get(edge.0);
            at = rec.next;
            if set_contains(dead, rec.user.0) {
                proof {
                    assert(self.use_list(value).contains(edge));
                    assert(self.use_list(value).index_of(edge) == kept.len());
                }
                self.unlink_use(value, prev, edge);
                let ghost loose = *self;
                self.free_use(edge);
                proof {
                    lemma_uses_trans(start, mid, loose);
                    lemma_uses_trans(start, loose, *self);
                    assert(self.use_list(value) == loose.use_list(value));
                    assert(self.use_list(value) =~= kept + list.skip(done + 1));
                    assert forall|u: UseId| #[trigger] self.has_use(u) implies start.has_use(u)
                        && self.occ(u) == start.occ(u) by {
                        assert(loose.has_use(u));
                        assert(mid.has_use(u));
                        assert(self.occ(u) == loose.occ(u));
                        assert(loose.occ(u) == mid.occ(u));
                    }
                    assert forall|u: UseId| #[trigger]
                        start.has_use(u) && !(start.occ(u).value == value && is_dead(
                            dead@,
                            start.occ(u).user,
                        )) implies self.has_use(u) by {
                        assert(mid.has_use(u));
                        assert(loose.has_use(u));
                        assert(u != edge);
                    }
                    done = done + 1;
                }
            } else {
                prev = Some(edge);
                proof {
                    assert(kept.push(edge) + list.skip(done + 1) =~= kept + list.skip(done));
                    kept = kept.push(edge);
                    done = done + 1;
                }
            }
        }
        proof {
            assert(done == list.len());
            assert(self.use_list(value) =~= kept);
            assert forall|u: UseId| #[trigger]
                self.has_use(u) <==> start.has_use(u) && !(start.occ(u).value == value && is_dead(
                    dead@,
                    start.occ(u).user,
                )) by {
                if self.has_use(u) && start.occ(u).value == value {
                    assert(self.occ(u) == start.occ(u));
                    assert(self.use_list(self.use_rec(u).value).contains(u));
                    let k = kept.index_of(u);
                    assert(kept[k] == u);
                }
            }
            lemma_fewer_uses(start, *self);
        }
    }

    /// Takes down every use by and of the instructions in `dead`, which are
    /// about to be deleted.
    ///
    /// Each operand that any of them names is walked once. An operand that is
    /// itself one of them is not walked: its whole list goes with it.
    pub fn remove_uses_of_dead_instructions(&mut self, dead: &FxHashSet<u32>)
        requires
            old(self).wf(),
            forall|i: LocalInsnId| #[trigger]
                is_dead(dead@, i) ==> old(self)@.insns.contains_key(i),
        ensures
            same_but_uses(*old(self), *final(self)),
            final(self).wf(),
            final(self)@ == old(self)@,
            final(self).uses@.len() == old(self).uses@.len(),
            forall|u: UseId| #[trigger]
                final(self).has_use(u) <==> old(self).has_use(u) && !is_dead(
                    dead@,
                    old(self).occ(u).user,
                ) && !is_dead_value(dead@, old(self).occ(u).value),
            forall|u: UseId|
                final(self).has_use(u) ==> #[trigger] final(self).occ(u) == old(self).occ(u),
    {
        let ghost start = *self;
        let ids: Vec<u32> = set_members(dead);
        let n: usize = ids.len();
        let mut walked: KeyMap<()> = KeyMap::new();
        let mut j: usize = 0;
        proof {
            lemma_uses_frame(start, start);
        }
        while j < n
            invariant
                start.wf(),
                n == ids@.len(),
                j <= n,
                forall|id: u32| #[trigger] ids@.contains(id) <==> dead@.contains(id),
                forall|i: LocalInsnId| #[trigger] is_dead(dead@, i) ==> start.has_insn(i),
                same_but_uses(start, *self),
                self.wf(),
                self@ == start@,
                self.uses@.len() == start.uses@.len(),
                forall|u: UseId| #[trigger]
                    self.has_use(u) ==> start.has_use(u) && self.occ(u) == start.occ(u),
                forall|u: UseId| #[trigger]
                    start.has_use(u) && !is_dead(dead@, start.occ(u).user) ==> self.has_use(u),
                forall|u: UseId| #[trigger]
                    self.has_use(u) && walked@.contains_key(value_key(self.occ(u).value) as u128)
                        ==> !is_dead(dead@, self.occ(u).user),
                forall|m: int, k: int|
                    0 <= m < j && 0 <= k < start.operands(LocalInsnId(ids@[m])).len()
                        ==> #[trigger] is_walked(
                        walked@,
                        dead@,
                        start.operands(LocalInsnId(ids@[m]))[k],
                    ),
            decreases n - j,
        {
            let id: LocalInsnId = LocalInsnId(ids[j]);
            proof {
                assert(ids@.contains(ids@[j as int]));
                assert(is_dead(dead@, id));
                assert(start.has_insn(id));
                lemma_uses_frame(start, *self);
                assert(self.has_insn(id));
                assert(self.operands(id).len() <= 0x1_0000);
            }
            let args: Args = self.insns.get(id.0).mnemonic.args();
            let count: usize = args.len();
            let mut k: usize = 0;
            while k < count
                invariant
                    start.wf(),
                    n == ids@.len(),
                    j < n,
                    id == LocalInsnId(ids@[j as int]),
                    start.has_insn(id),
                    args@ == start.operands(id),
                    count == args@.len(),
                    k <= count,
                    forall|i: LocalInsnId| #[trigger] is_dead(dead@, i) ==> start.has_insn(i),
                    same_but_uses(start, *self),
                    self.wf(),
                    self@ == start@,
                    self.uses@.len() == start.uses@.len(),
                    forall|u: UseId| #[trigger]
                        self.has_use(u) ==> start.has_use(u) && self.occ(u) == start.occ(u),
                    forall|u: UseId| #[trigger]
                        start.has_use(u) && !is_dead(dead@, start.occ(u).user) ==> self.has_use(u),
                    forall|u: UseId| #[trigger]
                        self.has_use(u) && walked@.contains_key(
                            value_key(self.occ(u).value) as u128,
                        ) ==> !is_dead(dead@, self.occ(u).user),
                    forall|m: int, l: int|
                        0 <= m < j && 0 <= l < start.operands(LocalInsnId(ids@[m])).len()
                            ==> #[trigger] is_walked(
                            walked@,
                            dead@,
                            start.operands(LocalInsnId(ids@[m]))[l],
                        ),
                    forall|l: int|
                        0 <= l < k ==> #[trigger] is_walked(
                            walked@,
                            dead@,
                            start.operands(id)[l],
                        ),
                decreases count - k,
            {
                let value: LocalValueId = args.get(k).unwrap();
                let goes: bool = match value {
                    LocalValueId::Instruction(i) => set_contains(dead, i.0),
                    _ => false,
                };
                if !goes && !walked.contains_key(pack_value(value)) {
                    let ghost mid = *self;
                    let ghost known = walked@;
                    self.prune_uses(value, dead);
                    walked.insert(pack_value(value), ());
                    proof {
                        lemma_uses_trans(start, mid, *self);
                        assert forall|u: UseId| #[trigger] self.has_use(u) implies start.has_use(u)
                            && self.occ(u) == start.occ(u) by {
                            assert(mid.has_use(u));
                            assert(self.occ(u) == mid.occ(u));
                        }
                        assert forall|u: UseId| #[trigger]
                            start.has_use(u) && !is_dead(
                                dead@,
                                start.occ(u).user,
                            ) implies self.has_use(u) by {
                            assert(mid.has_use(u));
                            assert(mid.occ(u) == start.occ(u));
                        }
                        assert forall|u: UseId| #[trigger]
                            self.has_use(u) && walked@.contains_key(
                                value_key(self.occ(u).value) as u128,
                            ) implies !is_dead(dead@, self.occ(u).user) by {
                            assert(mid.has_use(u));
                            assert(self.occ(u) == mid.occ(u));
                            lemma_value_key(self.occ(u).value, value);
                            lemma_value_key(value, self.occ(u).value);
                        }
                        assert forall|v: LocalValueId| is_walked(known, dead@, v) implies #[trigger] is_walked(
                            walked@,
                            dead@,
                            v,
                        ) by {}
                    }
                }
                proof {
                    assert(is_walked(walked@, dead@, value));
                }
                k = k + 1;
            }
            j = j + 1;
        }
        let ghost pruned = *self;
        proof {
            assert forall|u: UseId| #[trigger]
                pruned.has_use(u) && is_dead(dead@, pruned.occ(u).user) implies is_dead_value(
                dead@,
                pruned.occ(u).value,
            ) by {
                assert(pruned.occ(u) == start.occ(u));
                assert(start.use_faithful(u));
                let i = start.occ(u).user;
                assert(ids@.contains(i.0));
                let m = ids@.index_of(i.0);
                assert(is_walked(
                    walked@,
                    dead@,
                    start.operands(LocalInsnId(ids@[m]))[start.occ(u).index as int],
                ));
            }
        }
        let mut d: usize = 0;
        while d < n
            invariant
                start.wf(),
                n == ids@.len(),
                d <= n,
                forall|id: u32| #[trigger] ids@.contains(id) <==> dead@.contains(id),
                same_but_uses(start, *self),
                self.wf(),
                self@ == start@,
                self.uses@.len() == start.uses@.len(),
                forall|u: UseId| #[trigger]
                    self.has_use(u) ==> pruned.has_use(u) && self.occ(u) == pruned.occ(u),
                forall|u: UseId| #[trigger]
                    pruned.has_use(u) && !is_dead_value(dead@, pruned.occ(u).value) ==> self.has_use(
                        u,
                    ),
                forall|u: UseId, m: int|
                    #![trigger self.has_use(u), ids@[m]]
                    0 <= m < d && self.has_use(u) ==> self.occ(u).value
                        != LocalValueId::Instruction(LocalInsnId(ids@[m])),
            decreases n - d,
        {
            let ghost mid = *self;
            let id: LocalInsnId = LocalInsnId(ids[d]);
            proof {
                assert(ids@.contains(ids@[d as int]));
            }
            self.drop_uses_of(LocalValueId::Instruction(id));
            proof {
                lemma_uses_trans(start, mid, *self);
                assert forall|u: UseId| #[trigger] self.has_use(u) implies pruned.has_use(u)
                    && self.occ(u) == pruned.occ(u) by {
                    assert(mid.has_use(u));
                    assert(self.occ(u) == mid.occ(u));
                }
                assert forall|u: UseId| #[trigger]
                    pruned.has_use(u) && !is_dead_value(
                        dead@,
                        pruned.occ(u).value,
                    ) implies self.has_use(u) by {
                    assert(mid.has_use(u));
                    assert(mid.occ(u) == pruned.occ(u));
                    assert(is_dead(dead@, id));
                }
                assert forall|u: UseId, m: int|
                    #![trigger self.has_use(u), ids@[m]]
                    0 <= m < d + 1 && self.has_use(u) implies self.occ(u).value
                    != LocalValueId::Instruction(LocalInsnId(ids@[m])) by {
                    assert(mid.has_use(u));
                    assert(self.occ(u) == mid.occ(u));
                }
            }
            d = d + 1;
        }
        proof {
            assert forall|u: UseId| #[trigger]
                self.has_use(u) <==> start.has_use(u) && !is_dead(dead@, start.occ(u).user)
                    && !is_dead_value(dead@, start.occ(u).value) by {
                if self.has_use(u) {
                    assert(pruned.has_use(u));
                    assert(self.occ(u) == pruned.occ(u));
                    assert(pruned.occ(u) == start.occ(u));
                    if is_dead_value(dead@, self.occ(u).value) {
                        let i = self.occ(u).value->Instruction_0;
                        assert(ids@.contains(i.0));
                        let m = ids@.index_of(i.0);
                        assert(ids@[m] == i.0);
                    }
                } else if start.has_use(u) && !is_dead(dead@, start.occ(u).user) {
                    assert(pruned.has_use(u));
                    assert(pruned.occ(u) == start.occ(u));
                }
            }
            assert forall|u: UseId| self.has_use(u) implies #[trigger] self.occ(u) == start.occ(
                u,
            ) by {
                assert(pruned.has_use(u));
            }
        }
    }
}

/// Whether the list of `v` has been walked or goes as a whole.
pub open spec fn is_walked(walked: Map<u128, ()>, dead: Set<u32>, v: LocalValueId) -> bool {
    is_dead_value(dead, v) || walked.contains_key(value_key(v) as u128)
}

/// `names` without the names of the instructions in `dead`.
pub open spec fn names_without(
    names: NamesView<LocalValueId>,
    insns: Map<LocalInsnId, InsnView>,
    dead: Set<u32>,
) -> NamesView<LocalValueId> {
    NamesView {
        held: Map::new(
            |n: Name| names.held.contains_key(n) && !names_dead(insns, dead, n),
            |n: Name| names.held[n],
        ),
        ..names
    }
}

/// Whether `n` is the name of an instruction in `dead`.
pub open spec fn names_dead(insns: Map<LocalInsnId, InsnView>, dead: Set<u32>, n: Name) -> bool {
    exists|i: LocalInsnId| #[trigger]
        is_dead(dead, i) && insns.contains_key(i) && insns[i].name == Some(n)
}

/// The instructions that are not in `dead`.
pub open spec fn insns_without(insns: Map<LocalInsnId, InsnView>, dead: Set<u32>) -> Map<
    LocalInsnId,
    InsnView,
> {
    Map::new(
        |i: LocalInsnId| insns.contains_key(i) && !is_dead(dead, i),
        |i: LocalInsnId| insns[i],
    )
}

impl FunctionBody {
    /// Removes a set of instructions after taking down their uses. They must
    /// be out of their blocks already.
    pub fn remove_instructions(&mut self, dead: &FxHashSet<u32>)
        requires
            old(self).wf(),
            forall|i: LocalInsnId| #[trigger]
                is_dead(dead@, i) ==> old(self)@.insns.contains_key(i) && !old(self).is_placed(i),
        ensures
            final(self).wf(),
            old(self).uses_complete() ==> final(self).uses_complete(),
            operands_issued(old(self)@) ==> operands_issued(final(self)@),
            final(self).uses@.len() <= old(self).uses@.len(),
            final(self)@ == (BodyView {
                insns: insns_without(old(self)@.insns, dead@),
                ..old(self)@
            }),
            edges_untouched(*old(self), *final(self)),
    {
        let ghost start = *self;
        proof {
            assert forall|i: LocalInsnId| #[trigger] is_dead(dead@, i) implies self.has_insn(i)
                && self.insn_rec(i).parent is None by {
                assert(self@.insns.contains_key(i));
                assert(self.placed_ok(i));
                if let Some(b) = self.insn_rec(i).parent {
                    assert(self@.blocks.contains_key(b));
                    assert(self@.blocks[b].insns.contains(i));
                }
            }
        }
        self.remove_uses_of_dead_instructions(dead);
        let ghost unused = *self;
        proof {
            lemma_uses_frame(start, unused);
        }
        let ids: Vec<u32> = set_members(dead);
        let n: usize = ids.len();
        let mut k: usize = 0;
        while k < n
            invariant
                n == ids@.len(),
                k <= n,
                ids@.no_duplicates(),
                forall|id: u32| #[trigger] ids@.contains(id) <==> dead@.contains(id),
                forall|i: LocalInsnId| #[trigger] is_dead(dead@, i) ==> unused.has_insn(i),
                *self == (FunctionBody { insns: self.insns, ..unused }),
                self.insns@.len() == unused.insns@.len(),
                forall|i: LocalInsnId| #[trigger]
                    self.has_insn(i) <==> unused.has_insn(i) && !ids@.take(k as int).contains(i.0),
                forall|i: LocalInsnId|
                    self.has_insn(i) ==> #[trigger] self.insn_rec(i) == unused.insn_rec(i),
            decreases n - k,
        {
            let id: u32 = ids[k];
            let ghost mid = *self;
            let ghost t = ids@.take(k as int);
            proof {
                assert(ids@.contains(ids@[k as int]));
                assert(is_dead(dead@, LocalInsnId(id)));
                assert(!t.contains(id)) by {
                    if t.contains(id) {
                        let j = t.index_of(id);
                        assert(ids@[j] == ids@[k as int]);
                    }
                }
                assert(self.has_insn(LocalInsnId(id)));
            }
            self.insns.remove(id);
            proof {
                assert(ids@.take(k + 1) =~= t.push(id));
                assert forall|i: LocalInsnId| #[trigger]
                    self.has_insn(i) <==> unused.has_insn(i) && !ids@.take(k + 1).contains(i.0) by {
                    super::order::lemma_push_contains(t, id, i.0);
                    assert(mid.has_insn(i) <==> unused.has_insn(i) && !t.contains(i.0));
                }
                assert forall|i: LocalInsnId| self.has_insn(i) implies #[trigger] self.insn_rec(i)
                    == unused.insn_rec(i) by {
                    assert(mid.has_insn(i));
                    assert(mid.insn_rec(i) == unused.insn_rec(i));
                }
            }
            k = k + 1;
        }
        proof {
            assert(ids@.take(n as int) =~= ids@);
            assert forall|i: LocalInsnId| #[trigger] self.has_insn(i) <==> unused.has_insn(i)
                && !is_dead(dead@, i) by {
                assert(ids@.contains(i.0) <==> dead@.contains(i.0));
            }
            assert(shrunk(unused, *self)) by {
                assert forall|i: LocalInsnId| #[trigger]
                    unused.has_insn(i) && !self.has_insn(i) implies unused.insn_rec(i).parent is None
                    && unused.use_list(LocalValueId::Instruction(i)).len() == 0 && (forall|u: UseId|
                    #[trigger] unused.has_use(u) ==> unused.occ(u).user != i) by {
                    assert(is_dead(dead@, i));
                    assert(unused.insn_rec(i).parent == start.insn_rec(i).parent);
                    let v = LocalValueId::Instruction(i);
                    let s = unused.use_list(v);
                    assert(unused.use_list_ok(v));
                    if s.len() > 0 {
                        assert(unused.use_linked_at(v, 0));
                        assert(unused.has_use(s[0]));
                        assert(unused.occ(s[0]) == start.occ(s[0]));
                        assert(is_dead_value(dead@, v));
                    }
                    assert forall|u: UseId| #[trigger] unused.has_use(u) implies unused.occ(u).user
                        != i by {
                        assert(unused.occ(u) == start.occ(u));
                    }
                }
            }
            lemma_shrunk(unused, *self);
            assert(self@.insns =~= insns_without(start@.insns, dead@));
            assert(self@.blocks =~= unused@.blocks);
            assert(self@.params =~= unused@.params);
            assert(self@.edges =~= unused@.edges);
            if start.uses_complete() {
                lemma_dead_complete(start, unused, *self, dead@);
            }
        }
    }
}

/// Removing instructions with their uses leaves the uses complete.
proof fn lemma_dead_complete(
    before: FunctionBody,
    unused: FunctionBody,
    after: FunctionBody,
    dead: Set<u32>,
)
    requires
        before.wf(),
        before.uses_complete(),
        same_but_uses(before, unused),
        shrunk(unused, after),
        forall|i: LocalInsnId| #[trigger]
            after.has_insn(i) <==> unused.has_insn(i) && !is_dead(dead, i),
        forall|u: UseId| #[trigger]
            unused.has_use(u) <==> before.has_use(u) && !is_dead(dead, before.occ(u).user)
                && !is_dead_value(dead, before.occ(u).value),
        forall|u: UseId| unused.has_use(u) ==> #[trigger] unused.occ(u) == before.occ(u),
    ensures
        after.uses_complete(),
{
    lemma_uses_frame(before, unused);
    assert forall|i: LocalInsnId, k: int|
        after.has_insn(i) && 0 <= k < after.operands(i).len() && after.has_home(
            after.operands(i)[k],
        ) implies #[trigger] after.has_use_of(i, k) by {
        assert(unused.has_insn(i));
        assert(before.has_insn(i));
        assert(after.operands(i) == before.operands(i)) by {
            assert(after.insn_rec(i) == unused.insn_rec(i));
            assert(unused.operands(i) == before.operands(i));
        }
        let v = before.operands(i)[k];
        assert(unused.has_home(v) && !is_dead_value(dead, v)) by {
            match v {
                LocalValueId::Instruction(j) => {
                    assert(after.has_insn(j));
                },
                LocalValueId::BasicBlock(x) => {
                    assert(after.has_block(x));
                },
                LocalValueId::BlockParam(p) => {
                    assert(after.has_param(p));
                },
                _ => {},
            }
        }
        assert(unused.has_home(v) == before.has_home(v));
        assert(before.has_use_of(i, k));
        let u = choose|u: UseId| #[trigger] before.is_use_of(u, i, k);
        assert(before.use_faithful(u));
        assert(before.has_use(u));
        assert(unused.has_use(u));
        assert(unused.occ(u) == before.occ(u));
        assert(after.is_use_of(u, i, k));
    }
}

impl FunctionBody {
    /// Forgets the names of the instructions in `dead`.
    fn forget_names(&mut self, dead: &FxHashSet<u32>)
        requires
            old(self).wf(),
            forall|i: LocalInsnId| #[trigger] is_dead(dead@, i) ==> old(self).has_insn(i),
        ensures
            final(self).wf(),
            old(self).uses_complete() ==> final(self).uses_complete(),
            edges_untouched(*old(self), *final(self)),
            final(self).uses@.len() <= old(self).uses@.len(),
            *final(self) == (FunctionBody { names: final(self).names, ..*old(self) }),
            final(self)@ == (BodyView {
                names: names_without(old(self)@.names, old(self)@.insns, dead@),
                ..old(self)@
            }),
    {
        let ghost start = *self;
        let ids: Vec<u32> = set_members(dead);
        let n: usize = ids.len();
        let mut k: usize = 0;
        proof {
            assert(names_without(start@.names, start@.insns, ids@.take(0).to_set()).held
                =~= start@.names.held) by {
                assert forall|m: Name| !names_dead(start@.insns, ids@.take(0).to_set(), m) by {}
            }
        }
        while k < n
            invariant
                start.wf(),
                n == ids@.len(),
                k <= n,
                forall|id: u32| #[trigger] ids@.contains(id) <==> dead@.contains(id),
                forall|i: LocalInsnId| #[trigger] is_dead(dead@, i) ==> start.has_insn(i),
                self.wf(),
                start.uses_complete() ==> self.uses_complete(),
                self.uses@.len() <= start.uses@.len(),
                *self == (FunctionBody { names: self.names, ..start }),
                self@ == (BodyView {
                    names: names_without(
                        start@.names,
                        start@.insns,
                        ids@.take(k as int).to_set(),
                    ),
                    ..start@
                }),
            decreases n - k,
        {
            let id: LocalInsnId = LocalInsnId(ids[k]);
            let ghost t = ids@.take(k as int);
            proof {
                assert(ids@.contains(ids@[k as int]));
                assert(is_dead(dead@, id));
                assert(start@.insns.contains_key(id));
                assert(super::name_known(start@, start@.insns[id].name));
            }
            let name: Option<Name> = self.insns.get(id.0).name;
            self.forget_name(name);
            proof {
                assert(ids@.take(k + 1) =~= t.push(id.0));
                assert forall|m: Name| #[trigger]
                    names_dead(start@.insns, ids@.take(k + 1).to_set(), m) <==> names_dead(
                        start@.insns,
                        t.to_set(),
                        m,
                    ) || start@.insns[id].name == Some(m) by {
                    assert forall|i: LocalInsnId| #[trigger]
                        is_dead(ids@.take(k + 1).to_set(), i) <==> is_dead(t.to_set(), i) || i
                            == id by {
                        super::order::lemma_push_contains(t, id.0, i.0);
                    }
                    if names_dead(start@.insns, t.to_set(), m) {
                        let i = choose|i: LocalInsnId| #[trigger]
                            is_dead(t.to_set(), i) && start@.insns.contains_key(i)
                                && start@.insns[i].name == Some(m);
                        assert(is_dead(ids@.take(k + 1).to_set(), i));
                    }
                    if start@.insns[id].name == Some(m) {
                        assert(is_dead(ids@.take(k + 1).to_set(), id));
                    }
                }
                assert(self@.names.held =~= names_without(
                    start@.names,
                    start@.insns,
                    ids@.take(k + 1).to_set(),
                ).held);
            }
            k = k + 1;
        }
        proof {
            assert(ids@.take(n as int) =~= ids@);
            assert forall|m: Name| #[trigger]
                names_dead(start@.insns, ids@.to_set(), m) <==> names_dead(
                    start@.insns,
                    dead@,
                    m,
                ) by {
                assert forall|i: LocalInsnId| #[trigger]
                    is_dead(ids@.to_set(), i) <==> is_dead(dead@, i) by {
                    assert(ids@.contains(i.0) <==> dead@.contains(i.0));
                }
                if names_dead(start@.insns, ids@.to_set(), m) {
                    let i = choose|i: LocalInsnId| #[trigger]
                        is_dead(ids@.to_set(), i) && start@.insns.contains_key(i)
                            && start@.insns[i].name == Some(m);
                    assert(is_dead(dead@, i));
                }
                if names_dead(start@.insns, dead@, m) {
                    let i = choose|i: LocalInsnId| #[trigger]
                        is_dead(dead@, i) && start@.insns.contains_key(i) && start@.insns[i].name
                            == Some(m);
                    assert(is_dead(ids@.to_set(), i));
                }
            }
            assert(self@.names.held =~= names_without(start@.names, start@.insns, dead@).held);
        }
    }

    /// Forgets the names of the instructions in `dead`, which are out of
    /// their blocks already, takes down their uses, and drops their payloads.
    fn purge_instructions(&mut self, dead: &FxHashSet<u32>)
        requires
            old(self).wf(),
            forall|i: LocalInsnId| #[trigger]
                is_dead(dead@, i) ==> old(self).has_insn(i) && old(self).insn_rec(i).parent is None,
        ensures
            final(self).wf(),
            old(self).uses_complete() ==> final(self).uses_complete(),
            final(self).uses@.len() <= old(self).uses@.len(),
            final(self)@ == (BodyView {
                names: names_without(old(self)@.names, old(self)@.insns, dead@),
                insns: insns_without(old(self)@.insns, dead@),
                ..old(self)@
            }),
            edges_untouched(*old(self), *final(self)),
    {
        let ghost start = *self;
        self.forget_names(dead);
        let ghost quiet = *self;
        proof {
            assert forall|i: LocalInsnId| #[trigger] is_dead(
                dead@,
                i,
            ) implies quiet@.insns.contains_key(i) && !quiet.is_placed(i) by {
                assert(start.has_insn(i));
                assert(start.insn_rec(i).parent is None);
                assert(quiet.insn_rec(i).parent is None);
                if quiet.is_placed(i) {
                    quiet.lemma_placed(i);
                }
            }
        }
        self.remove_instructions(dead);
    }

    /// Empties `block` of code, keeping the block itself. Its outgoing edges
    /// go with its terminator; the incoming ones stay, so that every branch to
    /// this block remains valid.
    pub fn clear_block_instructions(&mut self, block: BlockId)
        requires
            old(self).wf(),
            old(self).id == Some(block.func),
            old(self)@.blocks.contains_key(block.local),
        ensures
            final(self).wf(),
            old(self).uses_complete() ==> final(self).uses_complete(),
            operands_issued(old(self)@) ==> operands_issued(final(self)@),
            final(self).uses@.len() <= old(self).uses@.len(),
            ({
                let gone = Set::new(|raw: u32| old(self).order(block.local).contains(
                    LocalInsnId(raw),
                ));
                final(self)@ == (BodyView {
                    edges: edges_not_from(old(self)@.edges, block.local),
                    names: names_without(old(self)@.names, old(self)@.insns, gone),
                    insns: insns_without(old(self)@.insns, gone),
                    ..with_order(old(self)@, block.local, Seq::empty())
                })
            }),
            lists_filtered(
                *old(self),
                *final(self),
                |e: EdgeId| old(self)@.edges[e].from != block.local,
            ),
    {
        let ghost start = *self;
        let ghost gone = Set::new(|raw: u32| start.order(block.local).contains(LocalInsnId(raw)));
        self.remove_outgoing_edges(block.local);
        let ghost cut = *self;
        proof {
            assert(cut.has_block(block.local));
            assert(cut.order(block.local) == start.order(block.local)) by {
                assert(cut@.blocks[block.local] == start@.blocks[block.local]);
            }
        }
        let insns: Vec<LocalInsnId> = self.take_insns(block.local);
        let ghost taken = *self;
        let mut dead: FxHashSet<u32> = FxHashSet::default();
        let n: usize = insns.len();
        let mut k: usize = 0;
        while k < n
            invariant
                n == insns@.len(),
                k <= n,
                forall|raw: u32| #[trigger]
                    dead@.contains(raw) <==> insns@.take(k as int).contains(LocalInsnId(raw)),
            decreases n - k,
        {
            set_insert(&mut dead, insns[k].0);
            proof {
                let t = insns@.take(k as int);
                assert(insns@.take(k + 1) =~= t.push(insns@[k as int]));
                assert forall|raw: u32| #[trigger]
                    dead@.contains(raw) <==> insns@.take(k + 1).contains(LocalInsnId(raw)) by {
                    super::order::lemma_push_contains(t, insns@[k as int], LocalInsnId(raw));
                }
            }
            k = k + 1;
        }
        proof {
            assert(insns@.take(n as int) =~= insns@);
            assert(dead@ =~= gone);
            assert forall|i: LocalInsnId| #[trigger] is_dead(dead@, i) implies taken.has_insn(i)
                && taken.insn_rec(i).parent is None by {
                assert(insns@.contains(i));
                assert(cut.list_ok(block.local));
                let j = insns@.index_of(i);
                assert(cut.linked_at(block.local, j));
                assert(taken.has_insn(i));
                assert(taken.insn_rec(i).parent is None);
            }
        }
        self.purge_instructions(&dead);
        proof {
            assert forall|x: LocalBlockId|
                start.has_block(x) && self.has_block(x) implies #[trigger] self.block_rec(x).edges@
                == start.block_rec(x).edges@.filter(
                |e: EdgeId| start@.edges[e].from != block.local,
            ) by {
                assert(start@.blocks.contains_key(x));
                assert(cut@.blocks.contains_key(x) && taken@.blocks.contains_key(x));
                assert(taken.block_rec(x).edges == cut.block_rec(x).edges);
                assert(self.block_rec(x).edges == taken.block_rec(x).edges);
            }
        }
    }
}

/// The instructions of a sequence that are not in `dead`, in order.
pub open spec fn living(s: Seq<LocalInsnId>, dead: Set<u32>) -> Seq<LocalInsnId> {
    s.filter(|i: LocalInsnId| !is_dead(dead, i))
}

/// `body` with the instructions in `dead` taken out of their blocks.
pub open spec fn all_taken_out(body: BodyView, dead: Set<u32>) -> BodyView {
    BodyView {
        blocks: body.blocks.map_values(
            |b: BlockView| BlockView { insns: living(b.insns, dead), ..b },
        ),
        ..body
    }
}

/// Taking out one more instruction filters out one more.
proof fn lemma_living_push(s: Seq<LocalInsnId>, dead: Set<u32>, id: u32)
    ensures
        without(living(s, dead), LocalInsnId(id)) == living(s, dead.insert(id)),
    decreases s.len(),
{
    reveal(Seq::filter);
    let keep = |i: LocalInsnId| !is_dead(dead, i);
    let more = |i: LocalInsnId| !is_dead(dead.insert(id), i);
    if s.len() > 0 {
        let init = s.drop_last();
        lemma_living_push(init, dead, id);
        let f = living(init, dead);
        if keep(s.last()) {
            assert(living(s, dead) == f.push(s.last()));
            assert(f.push(s.last()).drop_last() =~= f);
        }
    }
}

/// A sequence without any of `dead` is kept whole.
proof fn lemma_living_all(s: Seq<LocalInsnId>, dead: Set<u32>)
    requires
        forall|k: int| 0 <= k < s.len() ==> !is_dead(dead, #[trigger] s[k]),
    ensures
        living(s, dead) == s,
    decreases s.len(),
{
    reveal(Seq::filter);
    if s.len() > 0 {
        let init = s.drop_last();
        assert forall|k: int| 0 <= k < init.len() implies !is_dead(dead, #[trigger] init[k]) by {
            assert(init[k] == s[k]);
        }
        lemma_living_all(init, dead);
        assert(!is_dead(dead, s[s.len() - 1]));
        assert(s =~= init.push(s.last()));
    }
}

impl FunctionBody {
    /// Takes the instructions in `dead` out of their blocks.
    fn unlink_all(&mut self, dead: &FxHashSet<u32>)
        requires
            old(self).wf(),
            forall|i: LocalInsnId| #[trigger] is_dead(dead@, i) ==> old(self).has_insn(i),
        ensures
            final(self).wf(),
            old(self).uses_complete() ==> final(self).uses_complete(),
            edges_untouched(*old(self), *final(self)),
            final(self).uses@.len() <= old(self).uses@.len(),
            final(self)@ == all_taken_out(old(self)@, dead@),
            forall|i: LocalInsnId| #[trigger]
                is_dead(dead@, i) ==> final(self).has_insn(i) && final(self).insn_rec(
                    i,
                ).parent is None,
    {
        let ghost start = *self;
        let ids: Vec<u32> = set_members(dead);
        let n: usize = ids.len();
        let mut k: usize = 0;
        let ghost mut done: Set<u32> = Set::empty();
        proof {
            assert forall|x: LocalBlockId| start@.blocks.contains_key(x) implies all_taken_out(
                start@,
                done,
            ).blocks[x] == start@.blocks[x] by {
                lemma_living_all(start@.blocks[x].insns, done);
            }
            assert(all_taken_out(start@, done).blocks =~= start@.blocks);
        }
        while k < n
            invariant
                n == ids@.len(),
                k <= n,
                forall|id: u32| #[trigger] ids@.contains(id) <==> dead@.contains(id),
                forall|i: LocalInsnId| #[trigger] is_dead(dead@, i) ==> start.has_insn(i),
                forall|id: u32| #[trigger] done.contains(id) <==> ids@.take(k as int).contains(id),
                start.wf(),
                self.wf(),
                start.uses_complete() ==> self.uses_complete(),
                edges_untouched(start, *self),
                self.uses@.len() <= start.uses@.len(),
                self@ == all_taken_out(start@, done),
                forall|i: LocalInsnId| #[trigger]
                    is_dead(done, i) ==> self.has_insn(i) && self.insn_rec(i).parent is None,
            decreases n - k,
        {
            let id: LocalInsnId = LocalInsnId(ids[k]);
            let ghost mid = *self;
            let ghost t = ids@.take(k as int);
            proof {
                assert(ids@.contains(ids@[k as int]));
                assert(is_dead(dead@, id));
                assert(start@.insns.contains_key(id));
                assert(self@.insns.contains_key(id));
                assert(self.placed_ok(id));
            }
            self.unlink(id);
            proof {
                assert forall|x: LocalBlockId| self@.blocks.contains_key(x) implies #[trigger]
                    mid@.blocks.contains_key(x) by {
                    assert(self.has_block(x));
                }
                lemma_untouched_trans(start, mid, *self);
                let more = done.insert(id.0);
                assert(ids@.take(k + 1) =~= t.push(id.0));
                assert forall|x: u32| #[trigger] more.contains(x) <==> ids@.take(k + 1).contains(
                    x,
                ) by {
                    super::order::lemma_push_contains(t, id.0, x);
                    assert(done.contains(x) <==> t.contains(x));
                }
                let want = all_taken_out(start@, more);
                assert forall|x: LocalBlockId| start@.blocks.contains_key(x) implies self@.blocks[x]
                    == want.blocks[x] by {
                    assert(mid@.blocks.contains_key(x));
                    assert(mid.has_block(x));
                    let s = start@.blocks[x].insns;
                    assert(mid@.blocks[x].insns == mid.order(x));
                    assert(all_taken_out(start@, done).blocks[x].insns == living(s, done));
                    lemma_living_push(s, done, id.0);
                    if mid.insn_rec(id).parent != Some(x) {
                        assert(!mid.order(x).contains(id)) by {
                            if mid.order(x).contains(id) {
                                assert(mid.list_ok(x));
                                let j = mid.order(x).index_of(id);
                                assert(mid.linked_at(x, j));
                            }
                        }
                        crate::block::lemma_filter_keeps_all(mid.order(x), id);
                    }
                }
                assert(self@.blocks =~= want.blocks);
                assert forall|i: LocalInsnId| #[trigger] is_dead(more, i) implies self.has_insn(i)
                    && self.insn_rec(i).parent is None by {
                    if i != id {
                        assert(is_dead(done, i));
                        assert(mid.has_insn(i));
                        assert(self.has_insn(i));
                        assert(self.insn_rec(i).parent == mid.insn_rec(i).parent);
                    }
                }
                done = more;
            }
            k = k + 1;
        }
        proof {
            assert(ids@.take(n as int) =~= ids@);
            assert(done =~= dead@);
        }
    }

    /// Removes several instructions at once. None of them may be a terminator,
    /// since removing one has to take down edges too.
    pub fn remove_block_instructions(&mut self, block_id: BlockId, dead: &FxHashSet<u32>)
        requires
            old(self).wf(),
            old(self).id == Some(block_id.func),
            forall|i: LocalInsnId| #[trigger]
                is_dead(dead@, i) ==> old(self)@.insns.contains_key(i)
                    && !old(self)@.insns[i].mnemonic.shape.terminates(),
        ensures
            final(self).wf(),
            old(self).uses_complete() ==> final(self).uses_complete(),
            operands_issued(old(self)@) ==> operands_issued(final(self)@),
            edges_untouched(*old(self), *final(self)),
            final(self).uses@.len() <= old(self).uses@.len(),
            final(self)@ == (BodyView {
                names: names_without(old(self)@.names, old(self)@.insns, dead@),
                insns: insns_without(old(self)@.insns, dead@),
                ..all_taken_out(old(self)@, dead@)
            }),
    {
        let ghost before = *self;
        self.unlink_all(dead);
        let ghost mid = *self;
        self.purge_instructions(dead);
        proof {
            assert forall|x: LocalBlockId| self@.blocks.contains_key(x) implies #[trigger]
                mid@.blocks.contains_key(x) by {}
            lemma_untouched_trans(before, mid, *self);
        }
    }
}

} // verus!
