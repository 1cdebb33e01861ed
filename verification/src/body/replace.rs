//! Rewriting operands.
//!
//! An installed instruction's operands change through these operations only,
//! which move its use edges along.

use super::uses::{lemma_uses_frame, Occurrence};
use super::{item_at, last_of, name_known, names_known, BodyView, FunctionBody, Use};
use crate::body::cfg::edges_untouched;
use crate::body::compose::{all_issued, issued_in, operands_issued};
use crate::ids::{FunctionId, InstructionId, LocalBlockId, LocalInsnId, UseId};
use crate::insn::instruction::{InsnView, Instruction};
use crate::insn::mnemonic::{substituted, Mnemonic, MnemonicView};
use crate::value::{LocalValueId, ValueId};
use vstd::prelude::*;

verus! {

/// `body` with the operation of instruction `i` replaced.
pub open spec fn with_mnemonic(body: BodyView, i: LocalInsnId, m: MnemonicView) -> BodyView {
    BodyView {
        insns: body.insns.insert(i, InsnView { mnemonic: m, ..body.insns[i] }),
        ..body
    }
}

/// `m` with operand `k` replaced.
pub open spec fn with_operand(m: MnemonicView, k: int, value: LocalValueId) -> MnemonicView {
    MnemonicView { operands: m.operands.update(k, value), ..m }
}

/// Changing the operation of one instruction touches nothing else.
pub proof fn lemma_mnemonic_frame(
    a: FunctionBody,
    b: FunctionBody,
    i: LocalInsnId,
    floating: Option<UseId>,
)
    requires
        a.rest_wf(),
        a.use_lists_wf(floating),
        a.has_insn(i),
        b == (FunctionBody { insns: b.insns, ..a }),
        b.insns@ == a.insns@.update(
            i.0 as int,
            Some(Instruction { mnemonic: b.insn_rec(i).mnemonic, ..a.insn_rec(i) }),
        ),
        b.operands(i).len() <= 0x1_0000,
    ensures
        b.rest_wf(),
        b.use_lists_wf(floating),
        b@ == with_mnemonic(a@, i, b.insn_rec(i).mnemonic@),
        forall|j: LocalInsnId| #[trigger] b.has_insn(j) <==> a.has_insn(j),
        forall|j: LocalInsnId|
            a.has_insn(j) && j != i ==> #[trigger] b.operands(j) == a.operands(j),
        forall|v: LocalValueId| #[trigger] b.has_home(v) == a.has_home(v),
        forall|u: UseId| #[trigger] b.has_use(u) == a.has_use(u),
        forall|u: UseId| #[trigger] b.occ(u) == a.occ(u),
{
    assert forall|j: LocalInsnId| #[trigger] b.has_insn(j) <==> a.has_insn(j) by {}
    assert forall|j: LocalInsnId| a.has_insn(j) && j != i implies #[trigger] b.insn_rec(j)
        == a.insn_rec(j) by {}
    assert(b@.insns =~= with_mnemonic(a@, i, b.insn_rec(i).mnemonic@).insns);
    assert(b@.blocks =~= a@.blocks);
    assert(b@.params =~= a@.params);
    assert(b@.edges =~= a@.edges);
    assert(names_known(b@)) by {
        assert forall|j: LocalInsnId| b@.insns.contains_key(j) implies name_known(
            b@,
            #[trigger] b@.insns[j].name,
        ) by {
            assert(a@.insns.contains_key(j));
            assert(name_known(a@, a@.insns[j].name));
        }
    }
    assert forall|x: LocalBlockId| b.has_block(x) implies #[trigger] b.list_ok(x) by {
        assert(a.list_ok(x));
        assert forall|k: int| 0 <= k < b.order(x).len() implies #[trigger] b.linked_at(x, k) by {
            assert(a.linked_at(x, k));
        }
    }
    assert forall|j: LocalInsnId| b.has_insn(j) implies #[trigger] b.placed_ok(j) by {
        assert(a.placed_ok(j));
    }
    assert(b.cfg_wf()) by {
        assert forall|x: LocalBlockId| b.has_block(x) implies #[trigger] b.incident_ok(x) by {
            assert(a.incident_ok(x));
        }
        assert forall|e: crate::ids::EdgeId| b.has_edge(e) implies #[trigger] b.edge_ok(e) by {
            assert(a.edge_ok(e));
        }
    }
    assert(b.operands_bounded()) by {
        assert forall|j: LocalInsnId| #[trigger] b.has_insn(j) implies b.operands(j).len()
            <= 0x1_0000 by {
            assert(a.has_insn(j));
        }
    }
    assert(b.roster_wf());
    assert forall|v: LocalValueId| b.has_home(v) == a.has_home(v) && b.head_of(v) == a.head_of(
        v,
    ) by {}
    assert(b.use_lists_wf(floating)) by {
        assert forall|v: LocalValueId| #[trigger] b.use_list_ok(v) by {
            assert(a.use_list_ok(v));
            assert forall|k: int| 0 <= k < b.use_list(v).len() implies #[trigger] b.use_linked_at(
                v,
                k,
            ) by {
                assert(a.use_linked_at(v, k));
            }
        }
        assert forall|u: UseId| b.has_use(u) && floating != Some(u) implies #[trigger] b.use_list(
            b.use_rec(u).value,
        ).contains(u) by {
            assert(a.use_list(a.use_rec(u).value).contains(u));
        }
        assert forall|u: UseId, v: LocalValueId|
            floating == Some(u) implies !#[trigger] b.use_list(v).contains(u) by {
            assert(!a.use_list(v).contains(u));
        }
    }
}

impl FunctionBody {
    /// Sets one operand of `user`, leaving the uses as they are.
    fn set_operand_only(
        &mut self,
        user: LocalInsnId,
        operand_index: usize,
        value: LocalValueId,
        floating: Ghost<Option<UseId>>,
    )
        requires
            old(self).rest_wf(),
            old(self).use_lists_wf(floating@),
            old(self).has_insn(user),
            operand_index < old(self).operands(user).len(),
        ensures
            final(self).rest_wf(),
            final(self).use_lists_wf(floating@),
            final(self).uses == old(self).uses,
            final(self).use_lists == old(self).use_lists,
            final(self).operands(user) == old(self).operands(user).update(
                operand_index as int,
                value,
            ),
            final(self)@ == with_mnemonic(
                old(self)@,
                user,
                with_operand(
                    old(self)@.insns[user].mnemonic,
                    operand_index as int,
                    value,
                ),
            ),
            *final(self) == (FunctionBody { insns: final(self).insns, ..*old(self) }),
            same_layout(*old(self), *final(self)),
            final(self).insns@ == old(self).insns@.update(
                user.0 as int,
                Some(
                    Instruction {
                        mnemonic: final(self).insn_rec(user).mnemonic,
                        ..old(self).insn_rec(user)
                    },
                ),
            ),
    {
        let ghost before = *self;
        self.insns.get_mut(user.0).mnemonic.set_operand(operand_index, value);
        proof {
            assert(before.operands(user).len() <= 0x1_0000);
            lemma_mnemonic_frame(before, *self, user, floating@);
        }
    }

    /// Rewrites the operand that `edge` stands for, a use of `from` after
    /// `prev` in `from`'s list, to `to`, and moves the use along.
    fn move_use(&mut self, from: LocalValueId, prev: Option<UseId>, edge: UseId, to: LocalValueId)
        requires
            old(self).wf(),
            from != to,
            old(self).use_list(from).contains(edge),
            prev == item_at(
                old(self).use_list(from),
                old(self).use_list(from).index_of(edge) - 1,
            ),
        ensures
            final(self).wf(),
            final(self).id == old(self).id,
            old(self).uses_complete() ==> final(self).uses_complete(),
            old(self).has_use(edge),
            final(self)@ == with_mnemonic(
                old(self)@,
                old(self).occ(edge).user,
                with_operand(
                    old(self)@.insns[old(self).occ(edge).user].mnemonic,
                    old(self).occ(edge).index as int,
                    to,
                ),
            ),
            final(self).uses@.len() == old(self).uses@.len(),
            same_layout(*old(self), *final(self)),
            forall|v: LocalValueId| #[trigger] final(self).has_home(v) == old(self).has_home(v),
            final(self).use_list(from) == old(self).use_list(from).remove(
                old(self).use_list(from).index_of(edge),
            ),
            forall|w: UseId| #[trigger]
                old(self).has_use(w) && w != edge ==> final(self).has_use(w) && final(self).occ(w)
                    == old(self).occ(w),
    {
        let ghost before = *self;
        let ghost user = before.occ(edge).user;
        let ghost k = before.occ(edge).index;
        let ghost ops = before.operands(user);
        proof {
            assert(before.use_list_ok(from));
            assert(before.use_linked_at(from, before.use_list(from).index_of(edge)));
            assert(before.use_faithful(edge));
        }
        self.unlink_use(from, prev, edge);
        let ghost loose = *self;
        proof {
            lemma_uses_frame(before, loose);
            assert(loose.has_insn(user));
            assert(loose.operands(user) == ops);
            assert(loose.occ(edge) == before.occ(edge));
        }
        let rec: Use = *self.uses.get(edge.0);
        self.set_operand_only(rec.user, rec.operand_index as usize, to, Ghost(Some(edge)));
        let ghost set = *self;
        proof {
            lemma_mnemonic_frame(loose, set, user, Some(edge));
        }
        self.relink_use(edge, to);
        proof {
            lemma_uses_frame(set, *self);
            assert forall|w: UseId| self.has_use(w) implies before.has_use(w) && self.occ(w) == (
            if w == edge {
                Occurrence { value: to, ..before.occ(w) }
            } else {
                before.occ(w)
            }) by {
                assert(set.has_use(w));
                assert(loose.has_use(w));
                assert(loose.occ(w) == before.occ(w));
                assert(set.occ(w) == loose.occ(w));
            }
            assert forall|w: UseId| before.has_use(w) && (w != edge || before.has_home(
                to,
            )) implies self.has_use(w) by {
                assert(loose.has_use(w));
                assert(set.has_use(w));
                assert(loose.has_home(to) == before.has_home(to));
                assert(set.has_home(to) == loose.has_home(to));
            }
            assert forall|i: LocalInsnId| before.has_insn(i) implies self.has_insn(i)
                && self.operands(i) == (if i == user {
                ops.update(k as int, to)
            } else {
                before.operands(i)
            }) by {
                assert(loose.operands(i) == before.operands(i));
                assert(loose.has_insn(i));
                assert(set.has_insn(i));
                assert(self.operands(i) == set.operands(i));
            }
            assert forall|v: LocalValueId| #[trigger] self.has_home(v) == before.has_home(v) by {
                assert(loose.has_home(v) == before.has_home(v));
                assert(set.has_home(v) == loose.has_home(v));
            }
            assert(self@.insns.dom() =~= before@.insns.dom());
            lemma_moved_use(before, *self, edge, user, k as int, to);
            assert(self.use_list(from) == set.use_list(from));
            assert(set.use_list(from) == loose.use_list(from));
            assert forall|i: LocalInsnId| before.has_insn(i) implies (#[trigger] self.insn_rec(
                i,
            )).parent == before.insn_rec(i).parent && self.insn_rec(i).prev == before.insn_rec(
                i,
            ).prev && self.insn_rec(i).next == before.insn_rec(i).next by {
                assert(loose.has_insn(i) && set.has_insn(i));
                assert(loose.insn_rec(i).parent == before.insn_rec(i).parent);
                assert(set.insn_rec(i).parent == loose.insn_rec(i).parent);
            }
            assert forall|x: LocalBlockId| before.has_block(x) implies #[trigger] self.block_rec(
                x,
            ).edges == before.block_rec(x).edges by {
                assert(loose.has_block(x) && set.has_block(x));
                assert(loose.block_rec(x).edges == before.block_rec(x).edges);
                assert(set.block_rec(x).edges == loose.block_rec(x).edges);
            }
        }
    }

    /// Rewrites operand `operand_index` of `user` from `from` to `to`, moving
    /// its use along. An operand that was dangling may have a use now, and the
    /// other way round.
    pub fn replace_use(
        &mut self,
        from: LocalValueId,
        user: LocalInsnId,
        operand_index: usize,
        to: LocalValueId,
    )
        requires
            old(self).wf(),
            old(self)@.insns.contains_key(user),
            operand_index < old(self)@.insns[user].mnemonic.operands.len(),
            old(self)@.insns[user].mnemonic.operands[operand_index as int] == from,
            old(self).use_room(1),
        ensures
            final(self).wf(),
            old(self).uses_complete() ==> final(self).uses_complete(),
            operands_issued(old(self)@) && issued_in(old(self)@, to)
                ==> operands_issued(final(self)@),
            final(self)@ == with_mnemonic(
                old(self)@,
                user,
                with_operand(old(self)@.insns[user].mnemonic, operand_index as int, to),
            ),
            edges_untouched(*old(self), *final(self)),
            final(self).uses@.len() <= old(self).uses@.len() + 1,
    {
        let ghost before = *self;
        let ghost ops = self.operands(user);
        proof {
            assert(ops.len() <= 0x1_0000);
        }
        if from == to {
            proof {
                assert(ops.update(operand_index as int, to) =~= ops);
                assert(with_mnemonic(
                    self@,
                    user,
                    with_operand(self@.insns[user].mnemonic, operand_index as int, to),
                ).insns =~= self@.insns);
            }
            return;
        }
        let found: Option<(Option<UseId>, UseId)> = self.find_use(from, user, operand_index);
        match found {
            Some((prev, edge)) => {
                proof {
                    assert(before.use_list_ok(from));
                    assert(before.use_linked_at(from, before.use_list(from).index_of(edge)));
                }
                self.move_use(from, prev, edge, to);
            },
            None => {
                self.set_operand_only(user, operand_index, to, Ghost(None));
                let ghost set = *self;
                proof {
                    lemma_mnemonic_frame(before, set, user, None);
                }
                let edge: Option<UseId> = self.add_use(to, user, operand_index);
                proof {
                    lemma_uses_frame(set, *self);
                    assert forall|w: UseId| before.is_use_of(w, user, operand_index as int) implies false by {
                        assert(before.use_faithful(w));
                    }
                    assert forall|w: UseId| self.has_use(w) && Some(w) != edge implies before.has_use(
                        w,
                    ) && self.occ(w) == before.occ(w) by {
                        assert(set.has_use(w));
                        assert(set.occ(w) == before.occ(w));
                    }
                    assert forall|w: UseId| before.has_use(w) implies self.has_use(w) by {
                        assert(set.has_use(w));
                    }
                    assert forall|i: LocalInsnId| before.has_insn(i) implies self.has_insn(i)
                        && self.operands(i) == (if i == user {
                        ops.update(operand_index as int, to)
                    } else {
                        before.operands(i)
                    }) by {
                        assert(set.has_insn(i));
                        assert(self.operands(i) == set.operands(i));
                    }
                    assert(self@.insns.dom() =~= before@.insns.dom());
                    lemma_new_use(before, *self, edge, user, operand_index as int, to);
                }
            },
        }
    }
}

/// Moving the use of a rewritten operand keeps the uses faithful and
/// complete.
proof fn lemma_moved_use(
    a: FunctionBody,
    b: FunctionBody,
    edge: UseId,
    user: LocalInsnId,
    k: int,
    to: LocalValueId,
)
    requires
        a.wf(),
        b.rest_wf(),
        b.use_lists_wf(None),
        a.has_insn(user),
        0 <= k < a.operands(user).len(),
        a.is_use_of(edge, user, k),
        b@.insns.dom() == a@.insns.dom(),
        forall|v: LocalValueId| #[trigger] b.has_home(v) == a.has_home(v),
        forall|w: UseId| #[trigger]
            b.has_use(w) ==> a.has_use(w) && b.occ(w) == (if w == edge {
                Occurrence { value: to, ..a.occ(w) }
            } else {
                a.occ(w)
            }),
        forall|w: UseId| #[trigger]
            a.has_use(w) && (w != edge || a.has_home(to)) ==> b.has_use(w),
        forall|i: LocalInsnId| #[trigger]
            a.has_insn(i) ==> b.has_insn(i) && b.operands(i) == (if i == user {
                a.operands(user).update(k, to)
            } else {
                a.operands(i)
            }),
    ensures
        b.wf(),
        a.uses_complete() ==> b.uses_complete(),
{
    assert forall|u: UseId| b.has_use(u) implies #[trigger] b.use_faithful(u) by {
        assert(a.use_faithful(u));
        assert(a.has_insn(a.occ(u).user));
        if u != edge && a.occ(u).user == user && a.occ(u).index == k {
            assert(a.is_use_of(u, user, k) && a.is_use_of(edge, user, k));
        }
    }
    assert forall|u: UseId, w: UseId, i: LocalInsnId, j: int| #[trigger]
        b.is_use_of(u, i, j) && #[trigger] b.is_use_of(w, i, j) implies u == w by {
        assert(a.has_use(u) && a.has_use(w));
        assert(a.is_use_of(u, i, j) && a.is_use_of(w, i, j));
    }
    if a.uses_complete() {
        assert forall|i: LocalInsnId, j: int|
            b.has_insn(i) && 0 <= j < b.operands(i).len() && b.has_home(
                b.operands(i)[j],
            ) implies #[trigger] b.has_use_of(i, j) by {
            assert(a@.insns.contains_key(i)) by {
                assert(b@.insns.contains_key(i));
            }
            assert(a.has_insn(i));
            if i == user && j == k {
                assert(b.has_use(edge));
                assert(b.is_use_of(edge, i, j));
            } else {
                assert(a.operands(i)[j] == b.operands(i)[j]);
                assert(a.has_use_of(i, j));
                let u = choose|u: UseId| #[trigger] a.is_use_of(u, i, j);
                assert(a.has_use(u));
                assert(b.has_use(u));
                assert(b.is_use_of(u, i, j));
            }
        }
    }
}

/// Adding the use of a rewritten operand that had none keeps the uses
/// faithful and complete.
proof fn lemma_new_use(
    a: FunctionBody,
    b: FunctionBody,
    edge: Option<UseId>,
    user: LocalInsnId,
    k: int,
    to: LocalValueId,
)
    requires
        a.wf(),
        b.rest_wf(),
        b.use_lists_wf(None),
        a.has_insn(user),
        0 <= k < a.operands(user).len(),
        k <= u16::MAX,
        forall|w: UseId| !#[trigger] a.is_use_of(w, user, k),
        b@.insns.dom() == a@.insns.dom(),
        forall|v: LocalValueId| #[trigger] b.has_home(v) == a.has_home(v),
        edge is Some <==> a.has_home(to),
        edge matches Some(e) ==> b.has_use(e) && b.occ(e) == (Occurrence {
            value: to,
            user,
            index: k as u16,
        }),
        forall|w: UseId| #[trigger]
            b.has_use(w) && Some(w) != edge ==> a.has_use(w) && b.occ(w) == a.occ(w),
        forall|w: UseId| #[trigger] a.has_use(w) ==> b.has_use(w) && Some(w) != edge,
        forall|i: LocalInsnId| #[trigger]
            a.has_insn(i) ==> b.has_insn(i) && b.operands(i) == (if i == user {
                a.operands(user).update(k, to)
            } else {
                a.operands(i)
            }),
    ensures
        b.wf(),
        a.uses_complete() ==> b.uses_complete(),
{
    assert forall|u: UseId| b.has_use(u) implies #[trigger] b.use_faithful(u) by {
        if Some(u) == edge {
            assert(b.has_insn(user));
        } else {
            assert(a.has_use(u));
            assert(a.use_faithful(u));
            assert(a.has_insn(a.occ(u).user));
            if a.occ(u).user == user && a.occ(u).index == k {
                assert(a.is_use_of(u, user, k));
            }
        }
    }
    assert forall|u: UseId, w: UseId, i: LocalInsnId, j: int| #[trigger]
        b.is_use_of(u, i, j) && #[trigger] b.is_use_of(w, i, j) implies u == w by {
        if Some(u) == edge && Some(w) != edge {
            assert(a.has_use(w));
            assert(a.is_use_of(w, user, k));
        } else if Some(w) == edge && Some(u) != edge {
            assert(a.has_use(u));
            assert(a.is_use_of(u, user, k));
        } else if Some(u) != edge {
            assert(a.has_use(u) && a.has_use(w));
            assert(a.is_use_of(u, i, j) && a.is_use_of(w, i, j));
        }
    }
    if a.uses_complete() {
        assert forall|i: LocalInsnId, j: int|
            b.has_insn(i) && 0 <= j < b.operands(i).len() && b.has_home(
                b.operands(i)[j],
            ) implies #[trigger] b.has_use_of(i, j) by {
            assert(a@.insns.contains_key(i)) by {
                assert(b@.insns.contains_key(i));
            }
            assert(a.has_insn(i));
            if i == user && j == k {
                assert(b.is_use_of(edge->0, i, j));
            } else {
                assert(a.operands(i)[j] == b.operands(i)[j]);
                assert(a.has_use_of(i, j));
                let u = choose|u: UseId| #[trigger] a.is_use_of(u, i, j);
                assert(a.has_use(u));
                assert(b.has_use(u));
                assert(b.is_use_of(u, i, j));
            }
        }
    }
}

/// Whether the occurrence at operand `k` of instruction `i` is one of the uses
/// of `from` that `picks` picks.
pub open spec fn picked(
    body: FunctionBody,
    from: LocalValueId,
    picks: Seq<bool>,
    i: LocalInsnId,
    k: int,
) -> bool {
    exists|j: int|
        0 <= j < picks.len() && #[trigger] picks[j] && body.occ(body.use_list(from)[j]).user == i
            && body.occ(body.use_list(from)[j]).index == k
}

/// `body` with `to` in place of the operands that `picks` picks among the uses
/// of `from`.
pub open spec fn with_picks(
    body: FunctionBody,
    from: LocalValueId,
    picks: Seq<bool>,
    to: LocalValueId,
) -> BodyView {
    BodyView {
        insns: Map::new(
            |i: LocalInsnId| body.has_insn(i),
            |i: LocalInsnId|
                InsnView {
                    mnemonic: MnemonicView {
                        shape: body.insn_rec(i).mnemonic.shape(),
                        operands: Seq::new(
                            body.operands(i).len(),
                            |k: int|
                                if picked(body, from, picks, i, k) {
                                    to
                                } else {
                                    body.operands(i)[k]
                                },
                        ),
                    },
                    ..body.insn_rec(i)@
                },
        ),
        ..body@
    }
}

/// Whether the instructions of `b` are where they are in `a`, and its blocks
/// list their edges as in `a`.
pub open spec fn same_layout(a: FunctionBody, b: FunctionBody) -> bool {
    &&& forall|i: LocalInsnId|
        a.has_insn(i) ==> (#[trigger] b.insn_rec(i)).parent == a.insn_rec(i).parent
            && b.insn_rec(i).prev == a.insn_rec(i).prev && b.insn_rec(i).next == a.insn_rec(i).next
    &&& forall|x: LocalBlockId|
        a.has_block(x) ==> #[trigger] b.block_rec(x).edges == a.block_rec(x).edges
}

pub(crate) proof fn lemma_layout_trans(a: FunctionBody, b: FunctionBody, c: FunctionBody)
    requires
        same_layout(a, b),
        same_layout(b, c),
        b@.insns.dom() == a@.insns.dom(),
        b@.blocks == a@.blocks,
    ensures
        same_layout(a, c),
{
    assert forall|i: LocalInsnId| a.has_insn(i) implies (#[trigger] c.insn_rec(i)).parent
        == a.insn_rec(i).parent && c.insn_rec(i).prev == a.insn_rec(i).prev && c.insn_rec(i).next
        == a.insn_rec(i).next by {
        assert(a@.insns.contains_key(i));
        assert(b@.insns.contains_key(i));
        assert(b.insn_rec(i).parent == a.insn_rec(i).parent);
    }
    assert forall|x: LocalBlockId| a.has_block(x) implies #[trigger] c.block_rec(x).edges
        == a.block_rec(x).edges by {
        assert(a@.blocks.contains_key(x));
        assert(b@.blocks.contains_key(x));
        assert(b.block_rec(x).edges == a.block_rec(x).edges);
    }
}

/// Whether `body` is `start` as it is once the first of the uses of `from` were
/// asked about, with the answers `picks`.
pub open spec fn asked_so_far(
    start: FunctionBody,
    body: FunctionBody,
    from: LocalValueId,
    picks: Seq<bool>,
    to: LocalValueId,
) -> bool {
    &&& body.wf()
    &&& body.id == start.id
    &&& body@ == with_picks(start, from, picks, to)
    &&& same_layout(start, body)
}

/// Whether `picks[j]` is an answer of `select` about the use number `j` of
/// `from`, on the body as it is after the answers before.
pub open spec fn answers<F: Fn(&FunctionBody, InstructionId, usize) -> bool>(
    select: F,
    start: FunctionBody,
    from: LocalValueId,
    picks: Seq<bool>,
    to: LocalValueId,
    j: int,
) -> bool {
    let o = start.occ(start.use_list(from)[j]);
    exists|body: &FunctionBody|
        asked_so_far(start, *body, from, picks.take(j), to) && #[trigger] select.ensures(
            (body, InstructionId { func: start.id->0, local: o.user }, o.index as usize),
            picks[j],
        )
}

impl FunctionBody {
    /// Replaces the uses of `from` in this body that `select` picks with `to`,
    /// moving their use edges along. `select` sees the using instruction and
    /// the operand's index in it, so it can keep to a block, or to one of two
    /// occurrences in one instruction. Each use is asked about once, in the
    /// order of `from`'s list, on the body as it is then.
    ///
    /// `from` and `to` must each be a value this body owns or a shared value.
    pub fn replace_uses_where<F: Fn(&FunctionBody, InstructionId, usize) -> bool>(
        &mut self,
        from: ValueId,
        to: ValueId,
        select: F,
    )
        requires
            old(self).wf(),
            old(self).id is Some,
            from.is_local_to(old(self).id->0),
            to.is_local_to(old(self).id->0),
            forall|body: &FunctionBody, user: InstructionId, k: usize|
                body.wf() && body.id == Some(user.func) && body.has_insn(user.local) && k
                    < body.operands(user.local).len() ==> #[trigger] select.requires(
                    (body, user, k),
                ),
        ensures
            final(self).wf(),
            final(self).id == old(self).id,
            old(self).uses_complete() ==> final(self).uses_complete(),
            operands_issued(old(self)@) && issued_in(old(self)@, to.stripped())
                ==> operands_issued(final(self)@),
            final(self).uses@.len() <= old(self).uses@.len(),
            same_layout(*old(self), *final(self)),
            from == to ==> *final(self) == *old(self),
            from != to ==> exists|picks: Seq<bool>|
                {
                    let list = old(self).use_list(from.stripped());
                    &&& picks.len() == list.len()
                    &&& #[trigger] with_picks(*old(self), from.stripped(), picks, to.stripped())
                        == final(self)@
                    &&& forall|j: int|
                        0 <= j < list.len() ==> #[trigger] answers(
                            select,
                            *old(self),
                            from.stripped(),
                            picks,
                            to.stripped(),
                            j,
                        )
                    &&& (forall|j: int| 0 <= j < picks.len() ==> #[trigger] picks[j])
                        ==> final(self).use_list(from.stripped()).len() == 0
                },
    {
        if from == to {
            return;
        }
        let func: FunctionId = self.id.unwrap();
        let ghost start = *self;
        let from: LocalValueId = from.localize(func);
        let to: LocalValueId = to.localize(func);
        let ghost list = self.use_list(from);
        let ghost mut picks: Seq<bool> = Seq::empty();
        let ghost mut kept: Seq<UseId> = Seq::empty();
        let mut prev: Option<UseId> = None;
        let mut at: Option<UseId> = self.first_use_of(from);
        proof {
            assert(self.use_list_ok(from));
            assert(kept + list.skip(0) =~= list);
            assert forall|j: int| 0 <= j < list.len() implies self.has_use(#[trigger] list[j]) by {
                assert(self.use_linked_at(from, j));
            }
            lemma_no_picks(start, from, to);
        }
        while at.is_some()
            invariant
                start.wf(),
                start.id == Some(func),
                from != to,
                list == start.use_list(from),
                start.use_list_ok(from),
                picks.len() <= list.len(),
                self.wf(),
                self.id == start.id,
                start.uses_complete() ==> self.uses_complete(),
                operands_issued(start@) && issued_in(start@, to) ==> operands_issued(self@),
                self.uses@.len() <= start.uses@.len(),
                self.use_list(from) == kept + list.skip(picks.len() as int),
                at == item_at(list, picks.len() as int),
                prev == last_of(kept),
                forall|j: int|
                    picks.len() <= j < list.len() ==> self.has_use(#[trigger] list[j]) && self.occ(
                        list[j],
                    ) == start.occ(list[j]),
                self@ == with_picks(start, from, picks, to),
                same_layout(start, *self),
                forall|j: int|
                    0 <= j < picks.len() ==> #[trigger] answers(select, start, from, picks, to, j),
                (forall|j: int| 0 <= j < picks.len() ==> #[trigger] picks[j]) ==> kept.len() == 0,
                forall|body: &FunctionBody, user: InstructionId, k: usize|
                    body.wf() && body.id == Some(user.func) && body.has_insn(user.local) && k
                        < body.operands(user.local).len() ==> #[trigger] select.requires(
                        (body, user, k),
                    ),
            decreases list.len() - picks.len(),
        {
            let edge: UseId = at.unwrap();
            let ghost n = picks.len() as int;
            let ghost mid = *self;
            proof {
                assert(list[n] == edge);
                assert(self.use_faithful(edge));
                assert(start.use_linked_at(from, n));
                assert(self.use_list_ok(from));
                assert(self.use_list(from)[kept.len() as int] == edge);
                assert(self.use_linked_at(from, kept.len() as int));
                assert(item_at(self.use_list(from), kept.len() as int + 1) == item_at(
                    list,
                    n + 1,
                ));
            }
            let rec: Use = *self.uses.get(edge.0);
            at = rec.next;
            let pick: bool = select(
                self,
                InstructionId::new(func, rec.user),
                rec.operand_index as usize,
            );
            proof {
                let witness: &FunctionBody = &mid;
                let more = picks.push(pick);
                assert(more[n] == pick);
                assert(select.ensures(
                    (
                        witness,
                        InstructionId { func: start.id->0, local: start.occ(list[n]).user },
                        start.occ(list[n]).index as usize,
                    ),
                    more[n],
                ));
                assert(more.take(n) =~= picks);
                assert(asked_so_far(start, *witness, from, more.take(n), to));
                assert(answers(select, start, from, more, to, n));
                assert forall|j: int| 0 <= j < n + 1 implies #[trigger] answers(
                    select,
                    start,
                    from,
                    more,
                    to,
                    j,
                ) by {
                    if j < n {
                        assert(answers(select, start, from, picks, to, j));
                        assert(more.take(j) =~= picks.take(j));
                    }
                }
            }
            if pick {
                proof {
                    assert(self.use_list(from).contains(edge));
                    assert(self.use_list(from).index_of(edge) == kept.len());
                }
                self.move_use(from, prev, edge, to);
                proof {
                    assert(self.use_list(from) =~= kept + list.skip(n + 1));
                    lemma_layout_trans(start, mid, *self);
                    lemma_one_more_pick(start, from, picks, pick, to, mid@, self@);
                    assert forall|j: int| n + 1 <= j < list.len() implies self.has_use(
                        #[trigger] list[j],
                    ) && self.occ(list[j]) == start.occ(list[j]) by {
                        assert(mid.has_use(list[j]));
                        assert(list[j] != list[n]);
                    }
                    let asked = picks;
                    picks = picks.push(pick);
                    if forall|j: int| 0 <= j < picks.len() ==> #[trigger] picks[j] {
                        assert forall|j: int| 0 <= j < asked.len() implies #[trigger] asked[j] by {
                            assert(picks[j]);
                        }
                    }
                }
            } else {
                prev = Some(edge);
                proof {
                    lemma_one_more_pick(start, from, picks, pick, to, mid@, self@);
                    picks = picks.push(pick);
                    assert(kept.push(edge) + list.skip(n + 1) =~= kept + list.skip(n));
                    kept = kept.push(edge);
                    assert(!picks[n]);
                }
            }
        }
        proof {
            assert(picks.len() == list.len());
            assert(kept + list.skip(list.len() as int) =~= kept);
            assert(with_picks(start, from, picks, to) == self@);
        }
    }
}

/// With no use picked nothing is replaced.
proof fn lemma_no_picks(body: FunctionBody, from: LocalValueId, to: LocalValueId)
    ensures
        with_picks(body, from, Seq::empty(), to) == body@,
{
    let v = with_picks(body, from, Seq::empty(), to);
    assert forall|i: LocalInsnId| body.has_insn(i) implies v.insns[i] == body@.insns[i] by {
        assert(v.insns[i].mnemonic.operands =~= body.operands(i));
    }
    assert(v.insns =~= body@.insns);
}

/// Asking about one more use replaces at most its operand.
proof fn lemma_one_more_pick(
    body: FunctionBody,
    from: LocalValueId,
    picks: Seq<bool>,
    pick: bool,
    to: LocalValueId,
    before: BodyView,
    after: BodyView,
)
    requires
        picks.len() < body.use_list(from).len(),
        before == with_picks(body, from, picks, to),
        body.has_use(body.use_list(from)[picks.len() as int]),
        body.use_faithful(body.use_list(from)[picks.len() as int]),
        after == (if pick {
            let o = body.occ(body.use_list(from)[picks.len() as int]);
            with_mnemonic(
                before,
                o.user,
                with_operand(before.insns[o.user].mnemonic, o.index as int, to),
            )
        } else {
            before
        }),
    ensures
        after == with_picks(body, from, picks.push(pick), to),
{
    let n = picks.len() as int;
    let list = body.use_list(from);
    let more = picks.push(pick);
    let v = with_picks(body, from, more, to);
    let o = body.occ(list[n]);
    assert forall|i: LocalInsnId, k: int| #[trigger]
        picked(body, from, more, i, k) <==> picked(body, from, picks, i, k) || (pick && o.user == i
            && o.index == k) by {
        if picked(body, from, picks, i, k) {
            let j = choose|j: int|
                0 <= j < picks.len() && #[trigger] picks[j] && body.occ(list[j]).user == i
                    && body.occ(list[j]).index == k;
            assert(more[j]);
        }
        if picked(body, from, more, i, k) {
            let j = choose|j: int|
                0 <= j < more.len() && #[trigger] more[j] && body.occ(list[j]).user == i
                    && body.occ(list[j]).index == k;
            if j < n {
                assert(picks[j]);
            }
        }
        if pick {
            assert(more[n]);
        }
    }
    assert forall|i: LocalInsnId| body.has_insn(i) implies v.insns[i] == after.insns[i] by {
        assert(v.insns[i].mnemonic.operands =~= after.insns[i].mnemonic.operands);
    }
    assert(v.insns =~= after.insns);
}

/// `body` with `to` in place of every operand `from` that has a use edge.
pub open spec fn with_uses_moved(
    body: FunctionBody,
    from: LocalValueId,
    to: LocalValueId,
) -> BodyView {
    BodyView {
        insns: Map::new(
            |i: LocalInsnId| body.has_insn(i),
            |i: LocalInsnId|
                InsnView {
                    mnemonic: MnemonicView {
                        shape: body.insn_rec(i).mnemonic.shape(),
                        operands: Seq::new(
                            body.operands(i).len(),
                            |k: int|
                                if body.operands(i)[k] == from && body.has_use_of(i, k) {
                                    to
                                } else {
                                    body.operands(i)[k]
                                },
                        ),
                    },
                    ..body.insn_rec(i)@
                },
        ),
        ..body@
    }
}

/// `body` with `to` in place of every operand `from`.
pub open spec fn with_substitution(
    body: BodyView,
    from: LocalValueId,
    to: LocalValueId,
) -> BodyView {
    BodyView {
        insns: body.insns.map_values(
            |insn: InsnView|
                InsnView {
                    mnemonic: MnemonicView {
                        operands: insn.mnemonic.operands.map_values(
                            |v: LocalValueId| substituted(v, from, to),
                        ),
                        ..insn.mnemonic
                    },
                    ..insn
                },
        ),
        ..body
    }
}

/// Where every operand with storage has its use edge, moving the uses of a
/// value that has storage substitutes it everywhere.
pub proof fn lemma_moving_substitutes(body: FunctionBody, from: LocalValueId, to: LocalValueId)
    requires
        body.uses_complete(),
        body.has_home(from),
    ensures
        with_uses_moved(body, from, to) == with_substitution(body@, from, to),
{
    let a = with_uses_moved(body, from, to);
    let b = with_substitution(body@, from, to);
    assert forall|i: LocalInsnId| body.has_insn(i) implies a.insns[i] == b.insns[i] by {
        assert(body@.insns.contains_key(i));
        assert forall|k: int|
            0 <= k < body.operands(i).len() && body.operands(i)[k]
                == from implies #[trigger] body.has_use_of(i, k) by {}
        assert(a.insns[i].mnemonic.operands =~= b.insns[i].mnemonic.operands);
    }
    assert(a.insns =~= b.insns);
}

impl FunctionBody {
    /// Replaces every use of `from` in this body with `to`, moving the use
    /// edges along. For a value this body owns that is every use there is; for
    /// a shared value it is this body's uses of it.
    pub fn replace_all_uses_with(&mut self, from: ValueId, to: ValueId)
        requires
            old(self).wf(),
            old(self).id is Some,
            from.is_local_to(old(self).id->0),
            to.is_local_to(old(self).id->0),
        ensures
            final(self).wf(),
            final(self).id == old(self).id,
            old(self).uses_complete() ==> final(self).uses_complete(),
            operands_issued(old(self)@) && issued_in(old(self)@, to.stripped())
                ==> operands_issued(final(self)@),
            final(self).uses@.len() <= old(self).uses@.len(),
            final(self)@ == (if from == to {
                old(self)@
            } else {
                with_uses_moved(*old(self), from.stripped(), to.stripped())
            }),
            old(self).uses_complete() && old(self).has_home(from.stripped()) ==> final(self)@
                == with_substitution(old(self)@, from.stripped(), to.stripped()),
            from != to ==> final(self).use_list(from.stripped()).len() == 0,
            same_layout(*old(self), *final(self)),
    {
        let ghost start = *self;
        let ghost list = self.use_list(from.stripped());
        proof {
            if start.uses_complete() && start.has_home(from.stripped()) {
                lemma_moving_substitutes(start, from.stripped(), to.stripped());
                if from == to {
                    let v = with_substitution(start@, from.stripped(), to.stripped());
                    assert forall|i: LocalInsnId| start.has_insn(i) implies v.insns[i]
                        == start@.insns[i] by {
                        assert(start@.insns.contains_key(i));
                        assert(v.insns[i].mnemonic.operands
                            =~= start@.insns[i].mnemonic.operands);
                    }
                    assert(v.insns =~= start@.insns);
                }
            }
        }
        let every = |body: &FunctionBody, user: InstructionId, k: usize| -> (b: bool)
            ensures
                b,
            { true };
        self.replace_uses_where(from, to, every);
        proof {
            if from != to {
                let f = from.stripped();
                let t = to.stripped();
                let picks = choose|picks: Seq<bool>|
                    {
                        &&& picks.len() == list.len()
                        &&& #[trigger] with_picks(start, f, picks, t) == self@
                        &&& forall|j: int|
                            0 <= j < list.len() ==> #[trigger] answers(
                                every,
                                start,
                                f,
                                picks,
                                t,
                                j,
                            )
                        &&& (forall|j: int| 0 <= j < picks.len() ==> #[trigger] picks[j])
                            ==> self.use_list(f).len() == 0
                    };
                assert forall|j: int| 0 <= j < picks.len() implies #[trigger] picks[j] by {
                    assert(answers(every, start, f, picks, t, j));
                }
                assert(start.use_list_ok(f));
                assert forall|i: LocalInsnId, k: int|
                    start.has_insn(i) && 0 <= k < start.operands(i).len() implies (#[trigger] picked(
                    start,
                    f,
                    picks,
                    i,
                    k,
                ) <==> start.operands(i)[k] == f && start.has_use_of(i, k)) by {
                    if picked(start, f, picks, i, k) {
                        let j = choose|j: int|
                            0 <= j < picks.len() && #[trigger] picks[j] && start.occ(
                                start.use_list(f)[j],
                            ).user == i && start.occ(start.use_list(f)[j]).index == k;
                        assert(start.use_linked_at(f, j));
                        assert(start.use_faithful(list[j]));
                        assert(start.is_use_of(list[j], i, k));
                    }
                    if start.operands(i)[k] == f && start.has_use_of(i, k) {
                        let u = choose|u: UseId| #[trigger] start.is_use_of(u, i, k);
                        assert(start.use_faithful(u));
                        assert(start.use_list(start.use_rec(u).value).contains(u));
                        let j = list.index_of(u);
                        assert(picks[j]);
                    }
                }
                let a = with_uses_moved(start, f, t);
                assert forall|i: LocalInsnId| start.has_insn(i) implies a.insns[i]
                    == self@.insns[i] by {
                    assert(a.insns[i].mnemonic.operands =~= self@.insns[i].mnemonic.operands);
                }
                assert(a.insns =~= self@.insns);
            }
        }
    }

    /// Sets operand `index` of instruction `id` to `to`, moving its use along.
    /// `to` must be a value this body owns or a shared value.
    pub fn replace_operand(&mut self, id: InstructionId, index: usize, to: ValueId)
        requires
            old(self).wf(),
            old(self).id == Some(id.func),
            to.is_local_to(id.func),
            old(self)@.insns.contains_key(id.local),
            index < old(self)@.insns[id.local].mnemonic.operands.len(),
            old(self).use_room(1),
        ensures
            final(self).wf(),
            old(self).uses_complete() ==> final(self).uses_complete(),
            operands_issued(old(self)@) && issued_in(old(self)@, to.stripped())
                ==> operands_issued(final(self)@),
            edges_untouched(*old(self), *final(self)),
            final(self).uses@.len() <= old(self).uses@.len() + 1,
            final(self)@ == with_mnemonic(
                old(self)@,
                id.local,
                with_operand(
                    old(self)@.insns[id.local].mnemonic,
                    index as int,
                    to.stripped(),
                ),
            ),
    {
        let from: LocalValueId = self.insns.get(id.local.0).mnemonic.operand(index).unwrap();
        self.replace_use(from, id.local, index, to.strip_func());
    }

    /// Replaces an instruction's operation, taking the old operands' uses down
    /// and recording the new operands'.
    pub fn replace_instruction_mnemonic_local(&mut self, id: LocalInsnId, mnemonic: Mnemonic)
        requires
            old(self).wf(),
            old(self)@.insns.contains_key(id),
            mnemonic.operands().len() <= 0x1_0000,
            old(self).use_room(mnemonic.operands().len() as int),
        ensures
            final(self).wf(),
            old(self).uses_complete() ==> final(self).uses_complete(),
            operands_issued(old(self)@) && all_issued(old(self)@, mnemonic@.operands)
                ==> operands_issued(final(self)@),
            final(self)@ == with_mnemonic(old(self)@, id, mnemonic@),
            edges_untouched(*old(self), *final(self)),
            final(self).uses@.len() <= old(self).uses@.len() + mnemonic.operands().len(),
    {
        let ghost before = *self;
        self.remove_operand_uses(id);
        let ghost bare = *self;
        proof {
            lemma_uses_frame(before, bare);
            assert(bare.has_insn(id));
        }
        self.insns.get_mut(id.0).mnemonic = mnemonic;
        let ghost set = *self;
        proof {
            lemma_mnemonic_frame(bare, set, id, None);
            assert forall|u: UseId| set.has_use(u) implies #[trigger] set.use_faithful(u) by {
                assert(bare.has_use(u));
                assert(bare.use_faithful(u));
                assert(bare.occ(u) == before.occ(u));
                assert(set.occ(u) == bare.occ(u));
                assert(set.operands(bare.occ(u).user) == bare.operands(bare.occ(u).user));
            }
            assert forall|u: UseId, w: UseId, i: LocalInsnId, j: int| #[trigger]
                set.is_use_of(u, i, j) && #[trigger] set.is_use_of(w, i, j) implies u == w by {
                assert(bare.is_use_of(u, i, j) && bare.is_use_of(w, i, j));
            }
            assert forall|u: UseId| #[trigger] set.has_use(u) implies set.occ(u).user != id by {
                assert(bare.has_use(u));
                assert(bare.occ(u) == before.occ(u));
                assert(set.occ(u) == bare.occ(u));
            }
        }
        self.add_operand_uses(id);
        proof {
            assert(edges_untouched(before, bare));
            assert(edges_untouched(set, *self));
            assert forall|x: LocalBlockId|
                before.has_block(x) && self.has_block(x) implies #[trigger] self.block_rec(x).edges
                == before.block_rec(x).edges by {
                assert(bare.has_block(x) && set.block_rec(x) == bare.block_rec(x));
                assert(bare.block_rec(x).edges == before.block_rec(x).edges);
                assert(set.has_block(x));
            }
            if before.uses_complete() {
                lemma_uses_frame(set, *self);
                assert forall|i: LocalInsnId, k: int|
                    self.has_insn(i) && 0 <= k < self.operands(i).len() && self.has_home(
                        self.operands(i)[k],
                    ) implies #[trigger] self.has_use_of(i, k) by {
                    assert(set.has_insn(i));
                    assert(self.operands(i) == set.operands(i));
                    if i != id {
                        assert(bare.has_insn(i));
                        assert(set.operands(i) == bare.operands(i));
                        assert(bare.operands(i) == before.operands(i));
                        let v = before.operands(i)[k];
                        assert(set.has_home(v) == bare.has_home(v));
                        assert(bare.has_home(v) == before.has_home(v));
                        assert(before.has_use_of(i, k));
                        let u = choose|u: UseId| #[trigger] before.is_use_of(u, i, k);
                        assert(before.has_use(u));
                        assert(bare.has_use(u));
                        assert(bare.occ(u) == before.occ(u));
                        assert(set.has_use(u));
                        assert(set.occ(u) == bare.occ(u));
                        assert(self.occ(u) == set.occ(u));
                        assert(self.is_use_of(u, i, k));
                    } else {
                        assert(set.has_home(set.operands(id)[k]));
                    }
                }
            }
        }
    }

    /// Replaces an instruction's operation.
    pub fn replace_instruction_mnemonic(&mut self, id: InstructionId, mnemonic: Mnemonic)
        requires
            old(self).wf(),
            old(self).id == Some(id.func),
            old(self)@.insns.contains_key(id.local),
            mnemonic.operands().len() <= 0x1_0000,
            old(self).use_room(mnemonic.operands().len() as int),
        ensures
            final(self).wf(),
            old(self).uses_complete() ==> final(self).uses_complete(),
            operands_issued(old(self)@) && all_issued(old(self)@, mnemonic@.operands)
                ==> operands_issued(final(self)@),
            edges_untouched(*old(self), *final(self)),
            final(self).uses@.len() <= old(self).uses@.len() + mnemonic.operands().len(),
            final(self)@ == with_mnemonic(old(self)@, id.local, mnemonic@),
    {
        self.replace_instruction_mnemonic_local(id.local, mnemonic);
    }
}

} // verus!
