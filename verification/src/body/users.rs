//! Who uses a value.

use super::uses::{lemma_uses_frame, lemma_uses_trans, same_but_uses};
use super::{item_at, FunctionBody, Use};
use crate::body::cfg::edges_untouched;
use crate::ids::{FunctionId, InstructionId, LocalBlockId, LocalInsnId, LocalParamId, UseId};
use crate::insn::instruction::Instruction;
use crate::value::{LocalValueId, ValueId};
use vstd::prelude::*;

verus! {

/// In a body whose uses are complete, the use list of a value the body has
/// storage for holds exactly the operand occurrences of the value, each once:
/// the operand relation read backwards.
pub proof fn law_users_are_the_occurrences(
    body: FunctionBody,
    value: LocalValueId,
    i: LocalInsnId,
    k: int,
)
    requires
        body.wf(),
        body.uses_complete(),
        body.has_home(value),
        body.has_insn(i),
        0 <= k < body.operands(i).len(),
    ensures
        body.operands(i)[k] == value <==> exists|p: int|
            0 <= p < body.use_list(value).len() && #[trigger] body.is_use_of(
                body.use_list(value)[p],
                i,
                k,
            ),
        forall|p: int, q: int|
            0 <= p < body.use_list(value).len() && 0 <= q < body.use_list(value).len()
                && #[trigger] body.is_use_of(body.use_list(value)[p], i, k)
                && #[trigger] body.is_use_of(body.use_list(value)[q], i, k) ==> p == q,
{
    let s = body.use_list(value);
    assert(body.use_list_ok(value));
    if body.operands(i)[k] == value {
        assert(body.has_use_of(i, k));
        let u = choose|u: UseId| #[trigger] body.is_use_of(u, i, k);
        assert(body.use_faithful(u));
        assert(body.use_list(body.use_rec(u).value).contains(u));
        let p = s.index_of(u);
        assert(body.is_use_of(s[p], i, k));
    }
    if exists|p: int| 0 <= p < s.len() && #[trigger] body.is_use_of(s[p], i, k) {
        let p = choose|p: int| 0 <= p < s.len() && #[trigger] body.is_use_of(s[p], i, k);
        assert(body.use_linked_at(value, p));
        assert(body.use_faithful(s[p]));
    }
}

/// In a body whose uses are complete, the users of a value that the body has
/// storage for are the instructions with an operand that names it.
pub proof fn law_users_name_the_value(body: FunctionBody, value: LocalValueId, i: LocalInsnId)
    requires
        body.wf(),
        body.uses_complete(),
        body.has_home(value),
    ensures
        body.use_list(value).map_values(|u: UseId| body.use_rec(u).user).contains(i)
            <==> body@.insns.contains_key(i) && body@.insns[i].mnemonic.operands.contains(value),
{
    let s = body.use_list(value);
    let users = s.map_values(|u: UseId| body.use_rec(u).user);
    assert(body.use_list_ok(value));
    if users.contains(i) {
        let p = choose|p: int| 0 <= p < users.len() && users[p] == i;
        assert(body.use_linked_at(value, p));
        assert(body.use_faithful(s[p]));
        assert(body@.insns.contains_key(i));
        let k = body.use_rec(s[p]).operand_index as int;
        assert(body@.insns[i].mnemonic.operands[k] == value);
    }
    if body@.insns.contains_key(i) && body@.insns[i].mnemonic.operands.contains(value) {
        let k = choose|k: int|
            0 <= k < body@.insns[i].mnemonic.operands.len()
                && body@.insns[i].mnemonic.operands[k] == value;
        assert(body.operands(i)[k] == value);
        law_users_are_the_occurrences(body, value, i, k);
        let p = choose|p: int| 0 <= p < s.len() && #[trigger] body.is_use_of(s[p], i, k);
        assert(users[p] == i);
    }
}

/// The positions of `x` in `s`.
pub open spec fn positions<T>(s: Seq<T>, x: T) -> Set<int> {
    Set::new(|p: int| 0 <= p < s.len() && s[p] == x)
}

/// An item is in a sequence as often as it has positions there.
proof fn lemma_count_positions<T>(s: Seq<T>, x: T)
    ensures
        positions(s, x).finite(),
        s.to_multiset().count(x) == positions(s, x).len(),
    decreases s.len(),
{
    broadcast use vstd::seq_lib::group_to_multiset_ensures;

    if s.len() == 0 {
        assert(positions(s, x) =~= Set::<int>::empty());
    } else {
        let init = s.drop_last();
        let last = s.len() - 1;
        lemma_count_positions(init, x);
        assert(s =~= init.push(s.last()));
        if s.last() == x {
            assert(positions(s, x) =~= positions(init, x).insert(last));
        } else {
            assert(positions(s, x) =~= positions(init, x));
        }
    }
}

/// In a body whose uses are complete, each instruction is among the users of a
/// value that the body has storage for as often as the value is among its
/// operands.
pub proof fn law_users_count_the_occurrences(
    body: FunctionBody,
    value: LocalValueId,
    i: LocalInsnId,
)
    requires
        body.wf(),
        body.uses_complete(),
        body.has_home(value),
    ensures
        body.use_list(value).map_values(|u: UseId| body.use_rec(u).user).to_multiset().count(i)
            == (if body@.insns.contains_key(i) {
            body@.insns[i].mnemonic.operands.to_multiset().count(value)
        } else {
            0
        }),
{
    let s = body.use_list(value);
    let users = s.map_values(|u: UseId| body.use_rec(u).user);
    lemma_count_positions(users, i);
    law_users_name_the_value(body, value, i);
    if body@.insns.contains_key(i) {
        let ops = body@.insns[i].mnemonic.operands;
        assert(ops == body.operands(i));
        lemma_count_positions(ops, value);
        let at = |p: int| body.use_rec(s[p]).operand_index as int;
        let from = positions(users, i);
        let to = positions(ops, value);
        assert(body.use_list_ok(value));
        assert forall|p: int| from.contains(p) implies to.contains(#[trigger] at(p)) && body.is_use_of(
            s[p],
            i,
            at(p),
        ) by {
            assert(body.use_linked_at(value, p));
            assert(body.use_faithful(s[p]));
        }
        assert(vstd::relations::injective_on(at, from)) by {
            assert forall|p: int, q: int|
                from.contains(p) && from.contains(q) && #[trigger] at(p) == #[trigger] at(
                    q,
                ) implies p == q by {
                assert(to.contains(at(p)));
                law_users_are_the_occurrences(body, value, i, at(p));
                assert(body.is_use_of(s[p], i, at(p)));
                assert(body.is_use_of(s[q], i, at(p)));
            }
        }
        assert(from.map(at) =~= to) by {
            assert forall|k: int| to.contains(k) implies from.map(at).contains(k) by {
                law_users_are_the_occurrences(body, value, i, k);
                let p = choose|p: int| 0 <= p < s.len() && #[trigger] body.is_use_of(s[p], i, k);
                assert(users[p] == i);
                assert(from.contains(p) && at(p) == k);
            }
            assert forall|k: int| from.map(at).contains(k) implies to.contains(k) by {
                let p = choose|p: int| from.contains(p) && k == at(p);
                assert(to.contains(at(p)));
            }
        }
        vstd::set_lib::lemma_map_size(from, to, at);
    } else {
        assert(positions(users, i) =~= Set::<int>::empty()) by {
            if exists|p: int| positions(users, i).contains(p) {
                let p = choose|p: int| positions(users, i).contains(p);
                assert(users.contains(users[p]));
            }
        }
    }
}

/// A value that the body has no storage for has no users, whatever names it.
pub proof fn law_dangling_values_have_no_users(body: FunctionBody, value: LocalValueId)
    requires
        body.wf(),
        !body.has_home(value),
    ensures
        body.use_list(value).len() == 0,
        forall|u: UseId| #[trigger] body.has_use(u) ==> body.occ(u).value != value,
{
    assert(body.use_list_ok(value));
    assert forall|u: UseId| #[trigger] body.has_use(u) implies body.occ(u).value != value by {
        assert(body.use_list(body.use_rec(u).value).contains(u));
    }
}

/// The users of a value, walked along its use list.
pub struct Users<'a> {
    pub body: &'a FunctionBody,
    pub at: Option<UseId>,
    /// The value and how far its list has been walked.
    pub value: Ghost<LocalValueId>,
    pub from: Ghost<int>,
}

impl<'a> Users<'a> {
    pub open spec fn wf(&self) -> bool {
        &&& self.body.wf()
        &&& 0 <= self.from@ <= self.body.use_list(self.value@).len()
        &&& self.at == item_at(self.body.use_list(self.value@), self.from@)
    }

    /// The uses still to come.
    pub open spec fn rest(&self) -> Seq<UseId> {
        self.body.use_list(self.value@).skip(self.from@)
    }

    /// The next user.
    pub fn next(&mut self) -> (user: Option<LocalInsnId>)
        requires
            old(self).wf(),
        ensures
            final(self).wf(),
            final(self).body == old(self).body,
            user == (if old(self).rest().len() == 0 {
                None
            } else {
                Some(old(self).body.use_rec(old(self).rest()[0]).user)
            }),
            final(self).rest() == (if old(self).rest().len() == 0 {
                old(self).rest()
            } else {
                old(self).rest().drop_first()
            }),
    {
        match self.at {
            None => None,
            Some(edge) => {
                proof {
                    assert(self.body.use_list_ok(self.value@));
                    assert(self.body.use_linked_at(self.value@, self.from@));
                }
                let rec: Use = *self.body.uses.get(edge.0);
                self.at = rec.next;
                self.from = Ghost(self.from@ + 1);
                proof {
                    assert(self.rest() =~= old(self).rest().drop_first());
                }
                Some(rec.user)
            },
        }
    }
}

impl FunctionBody {
    /// The users of `value` in this body, in the order of its use list: none
    /// for a value that another function owns.
    pub open spec fn users(&self, value: ValueId) -> Seq<LocalInsnId> {
        if value.arena_function() is Some && !(value is BasicBlock) && value.arena_function()
            != self.id {
            Seq::empty()
        } else {
            self.use_list(value.stripped()).map_values(|u: UseId| self.use_rec(u).user)
        }
    }

    /// This body's instructions that use `value` as an operand, in no
    /// particular order; one that uses it twice is yielded twice. Empty for a
    /// value owned by another function.
    pub fn local_users_of(&self, value: ValueId) -> (users: Users<'_>)
        requires
            self.wf(),
            self.id is Some,
        ensures
            users.wf(),
            users.body == self,
            users.rest().map_values(|u: UseId| self.use_rec(u).user) == self.users(value),
    {
        let local: LocalValueId = value.strip_func();
        let foreign: bool = match value.owning_function() {
            Some(owner) => owner != self.id(),
            None => false,
        };
        proof {
            assert(self.use_list_ok(local));
            let s = self.use_list(local);
            assert(s.skip(0) =~= s);
            assert(s.skip(s.len() as int) =~= Seq::<UseId>::empty());
            assert(Seq::<UseId>::empty().map_values(|u: UseId| self.use_rec(u).user) =~= Seq::<
                LocalInsnId,
            >::empty());
        }
        if foreign {
            Users {
                body: self,
                at: None,
                value: Ghost(local),
                from: Ghost(self.use_list(local).len() as int),
            }
        } else {
            Users { body: self, at: self.first_use_of(local), value: Ghost(local), from: Ghost(0) }
        }
    }

    /// Whether any instruction in this body uses `value`.
    pub fn has_users(&self, value: ValueId) -> (b: bool)
        requires
            self.wf(),
            self.id is Some,
        ensures
            b == (self.users(value).len() > 0),
    {
        if let Some(owner) = value.owning_function() {
            if owner != self.id() {
                return false;
            }
        }
        let local: LocalValueId = value.strip_func();
        proof {
            assert(self.use_list_ok(local));
        }
        self.first_use_of(local).is_some()
    }

    /// This body's instructions that use `value`, in no particular order.
    pub fn users_of(&self, value: ValueId) -> (users: Vec<InstructionId>)
        requires
            self.wf(),
            self.id is Some,
        ensures
            users@ == self.users(value).map_values(
                |local: LocalInsnId| InstructionId { func: self.id->0, local },
            ),
            value.arena_function() is Some && !(value is BasicBlock) && value.arena_function()
                != self.id ==> users@.len() == 0,
            self.uses_complete() && value.is_local_to(self.id->0) && self.has_home(
                value.stripped(),
            ) ==> forall|i: LocalInsnId|
                #![trigger self@.insns.contains_key(i)]
                users@.to_multiset().count(InstructionId { func: self.id->0, local: i }) == (
                if self@.insns.contains_key(i) {
                    self@.insns[i].mnemonic.operands.to_multiset().count(value.stripped())
                } else {
                    0
                }),
            self.uses_complete() && value.is_local_to(self.id->0) && self.has_home(
                value.stripped(),
            ) ==> forall|i: InstructionId| #[trigger]
                users@.contains(i) <==> i.func == self.id->0 && self@.insns.contains_key(i.local)
                    && self@.insns[i.local].mnemonic.operands.contains(value.stripped()),
    {
        let func: FunctionId = self.id();
        let mut walk: Users<'_> = self.local_users_of(value);
        let ghost all = walk.rest();
        let mut users: Vec<InstructionId> = Vec::new();
        let ghost qualify = |u: UseId| InstructionId { func, local: self.use_rec(u).user };
        proof {
            assert(users@ =~= all.take(0).map_values(qualify));
            assert(all.skip(0) =~= all);
        }
        let mut more: bool = true;
        while more
            invariant
                walk.wf(),
                walk.body == self,
                qualify == (|u: UseId| InstructionId { func, local: self.use_rec(u).user }),
                users@.len() <= all.len(),
                users@ == all.take(users@.len() as int).map_values(qualify),
                walk.rest() == all.skip(users@.len() as int),
                !more ==> users@.len() == all.len(),
            decreases all.len() - users@.len() + (if more {
                1int
            } else {
                0
            }),
        {
            let ghost before = users@;
            match walk.next() {
                Some(local) => {
                    users.push(InstructionId::new(func, local));
                    proof {
                        let n = before.len() as int;
                        assert(all.skip(n).len() > 0);
                        assert(all.skip(n).drop_first() =~= all.skip(n + 1));
                        assert(users@ =~= all.take(n + 1).map_values(qualify));
                    }
                },
                None => {
                    proof {
                        assert(all.skip(before.len() as int).len() == 0);
                    }
                    more = false;
                },
            }
        }
        proof {
            assert(all.take(all.len() as int) =~= all);
            assert(users@ =~= self.users(value).map_values(
                |local: LocalInsnId| InstructionId { func: self.id->0, local },
            )) by {
                assert(self.users(value).len() == all.len());
                assert forall|j: int| 0 <= j < all.len() implies self.users(value)[j]
                    == self.use_rec(all[j]).user by {
                    assert(all.map_values(|u: UseId| self.use_rec(u).user)[j] == self.use_rec(
                        all[j],
                    ).user);
                }
            }
            let v = value.stripped();
            if self.uses_complete() && value.is_local_to(func) && self.has_home(v) {
                let locals = self.use_list(v).map_values(|u: UseId| self.use_rec(u).user);
                assert(self.users(value) == locals);
                assert forall|i: InstructionId| #[trigger]
                    users@.contains(i) <==> i.func == func && self@.insns.contains_key(i.local)
                        && self@.insns[i.local].mnemonic.operands.contains(v) by {
                    law_users_name_the_value(*self, v, i.local);
                    if users@.contains(i) {
                        let j = choose|j: int| 0 <= j < users@.len() && users@[j] == i;
                        assert(locals[j] == i.local);
                    }
                    if i.func == func && locals.contains(i.local) {
                        let j = choose|j: int| 0 <= j < locals.len() && locals[j] == i.local;
                        assert(users@[j] == i);
                    }
                }
                assert forall|i: LocalInsnId|
                    #![trigger self@.insns.contains_key(i)]
                    users@.to_multiset().count(InstructionId { func, local: i }) == (
                    if self@.insns.contains_key(i) {
                        self@.insns[i].mnemonic.operands.to_multiset().count(v)
                    } else {
                        0
                    }) by {
                    law_users_count_the_occurrences(*self, v, i);
                    lemma_count_positions(users@, InstructionId { func, local: i });
                    lemma_count_positions(locals, i);
                    assert(positions(users@, InstructionId { func, local: i }) =~= positions(
                        locals,
                        i,
                    ));
                }
            }
        }
        users
    }
}

/// The number of operands of the instructions in a sequence of slots.
pub open spec fn operand_total(slots: Seq<Option<Instruction>>) -> nat
    decreases slots.len(),
{
    if slots.len() == 0 {
        0
    } else {
        operand_total(slots.drop_last()) + (match slots.last() {
            Some(insn) => insn.mnemonic.operands().len(),
            None => 0,
        })
    }
}

/// More slots have no fewer operands.
proof fn lemma_operand_total(slots: Seq<Option<Instruction>>, n: int)
    requires
        0 <= n <= slots.len(),
    ensures
        operand_total(slots.take(n)) <= operand_total(slots),
    decreases slots.len() - n,
{
    if n < slots.len() {
        lemma_operand_total(slots, n + 1);
        assert(slots.take(n + 1).drop_last() =~= slots.take(n));
    } else {
        assert(slots.take(n) =~= slots);
    }
}

impl FunctionBody {
    /// Forgets every use, in the values' records and in the tables.
    fn clear_uses(&mut self)
        requires
            old(self).rest_wf(),
        ensures
            same_but_uses(*old(self), *final(self)),
            final(self).wf(),
            final(self)@ == old(self)@,
            final(self).uses@.len() == 0,
            final(self).uses.free@.len() == 0,
    {
        let ghost start = *self;
        self.uses.clear();
        self.shared_first_use.clear();
        self.use_lists = Ghost(Map::empty());
        let n: u32 = self.insns.issued() as u32;
        let mut i: u32 = 0;
        while i < n
            invariant
                n == self.insns@.len(),
                i <= n,
                same_but_uses(start, *self),
                self.uses.wf(),
                self.uses@.len() == 0,
                self.uses.free@.len() == 0,
                self.shared_first_use@ == Map::<u128, UseId>::empty(),
                self.use_lists@ == Map::<LocalValueId, Seq<UseId>>::empty(),
                forall|j: LocalInsnId|
                    j.0 < i && self.has_insn(j) ==> (#[trigger] self.insn_rec(j)).first_use is None,
            decreases n - i,
        {
            if self.insns.contains(i) {
                let ghost mid = *self;
                self.insns.get_mut(i).first_use = None;
                proof {
                    assert(same_but_uses(mid, *self));
                    lemma_uses_trans(start, mid, *self);
                    assert forall|j: LocalInsnId| j.0 < i + 1 && self.has_insn(j) implies (
                    #[trigger] self.insn_rec(j)).first_use is None by {
                        assert(mid.has_insn(j));
                        if j.0 < i {
                            assert(self.insn_rec(j) == mid.insn_rec(j));
                        }
                    }
                }
            }
            i = i + 1;
        }
        let n: u32 = self.params.issued() as u32;
        let mut i: u32 = 0;
        while i < n
            invariant
                n == self.params@.len(),
                i <= n,
                same_but_uses(start, *self),
                self.uses.wf(),
                self.uses@.len() == 0,
                self.uses.free@.len() == 0,
                self.shared_first_use@ == Map::<u128, UseId>::empty(),
                self.use_lists@ == Map::<LocalValueId, Seq<UseId>>::empty(),
                forall|j: LocalInsnId|
                    self.has_insn(j) ==> (#[trigger] self.insn_rec(j)).first_use is None,
                forall|j: LocalParamId|
                    j.0 < i && self.has_param(j) ==> (#[trigger] self.param_rec(j)).first_use is None,
            decreases n - i,
        {
            if self.params.contains(i) {
                let ghost mid = *self;
                self.params.get_mut(i).first_use = None;
                proof {
                    assert(same_but_uses(mid, *self));
                    lemma_uses_trans(start, mid, *self);
                    assert forall|j: LocalInsnId| self.has_insn(j) implies (#[trigger] self.insn_rec(
                        j,
                    )).first_use is None by {
                        assert(mid.has_insn(j));
                        assert(self.insn_rec(j) == mid.insn_rec(j));
                    }
                    assert forall|j: LocalParamId| j.0 < i + 1 && self.has_param(j) implies (
                    #[trigger] self.param_rec(j)).first_use is None by {
                        assert(mid.has_param(j));
                        if j.0 < i {
                            assert(self.param_rec(j) == mid.param_rec(j));
                        }
                    }
                }
            }
            i = i + 1;
        }
        let n: u32 = self.blocks.issued() as u32;
        let mut i: u32 = 0;
        while i < n
            invariant
                n == self.blocks@.len(),
                i <= n,
                same_but_uses(start, *self),
                self.uses.wf(),
                self.uses@.len() == 0,
                self.uses.free@.len() == 0,
                self.shared_first_use@ == Map::<u128, UseId>::empty(),
                self.use_lists@ == Map::<LocalValueId, Seq<UseId>>::empty(),
                forall|j: LocalInsnId|
                    self.has_insn(j) ==> (#[trigger] self.insn_rec(j)).first_use is None,
                forall|j: LocalParamId|
                    self.has_param(j) ==> (#[trigger] self.param_rec(j)).first_use is None,
                forall|j: LocalBlockId|
                    j.0 < i && self.has_block(j) ==> (#[trigger] self.block_rec(j)).first_use is None,
            decreases n - i,
        {
            if self.blocks.contains(i) {
                let ghost mid = *self;
                self.blocks.get_mut(i).first_use = None;
                proof {
                    assert(same_but_uses(mid, *self));
                    lemma_uses_trans(start, mid, *self);
                    assert forall|j: LocalInsnId| self.has_insn(j) implies (#[trigger] self.insn_rec(
                        j,
                    )).first_use is None by {
                        assert(mid.has_insn(j));
                        assert(self.insn_rec(j) == mid.insn_rec(j));
                    }
                    assert forall|j: LocalParamId| self.has_param(j) implies (
                    #[trigger] self.param_rec(j)).first_use is None by {
                        assert(mid.has_param(j));
                        assert(self.param_rec(j) == mid.param_rec(j));
                    }
                    assert forall|j: LocalBlockId| j.0 < i + 1 && self.has_block(j) implies (
                    #[trigger] self.block_rec(j)).first_use is None by {
                        assert(mid.has_block(j));
                        if j.0 < i {
                            assert(self.block_rec(j) == mid.block_rec(j));
                        }
                    }
                }
            }
            i = i + 1;
        }
        let n: usize = self.temps.len();
        let mut i: usize = 0;
        while i < n
            invariant
                n == self.temps@.len(),
                i <= n,
                same_but_uses(start, *self),
                self.uses.wf(),
                self.uses@.len() == 0,
                self.uses.free@.len() == 0,
                self.shared_first_use@ == Map::<u128, UseId>::empty(),
                self.use_lists@ == Map::<LocalValueId, Seq<UseId>>::empty(),
                forall|j: LocalInsnId|
                    self.has_insn(j) ==> (#[trigger] self.insn_rec(j)).first_use is None,
                forall|j: LocalParamId|
                    self.has_param(j) ==> (#[trigger] self.param_rec(j)).first_use is None,
                forall|j: LocalBlockId|
                    self.has_block(j) ==> (#[trigger] self.block_rec(j)).first_use is None,
                forall|j: int| 0 <= j < i ==> (#[trigger] self.temps@[j]).first_use is None,
            decreases n - i,
        {
            let ghost mid = *self;
            self.temps[i].first_use = None;
            proof {
                assert(same_but_uses(mid, *self));
                lemma_uses_trans(start, mid, *self);
                assert forall|j: LocalInsnId| self.has_insn(j) implies (#[trigger] self.insn_rec(
                    j,
                )).first_use is None by {
                    assert(mid.has_insn(j));
                    assert(self.insn_rec(j) == mid.insn_rec(j));
                }
                assert forall|j: LocalParamId| self.has_param(j) implies (#[trigger] self.param_rec(
                    j,
                )).first_use is None by {
                    assert(mid.has_param(j));
                    assert(self.param_rec(j) == mid.param_rec(j));
                }
                assert forall|j: LocalBlockId| self.has_block(j) implies (#[trigger] self.block_rec(
                    j,
                )).first_use is None by {
                    assert(mid.has_block(j));
                    assert(self.block_rec(j) == mid.block_rec(j));
                }
            }
            i = i + 1;
        }
        proof {
            lemma_uses_frame(start, *self);
            assert forall|v: LocalValueId| #[trigger] self.use_list_ok(v) by {
                match v {
                    LocalValueId::Instruction(j) => {
                        let rec = self.insn_rec(j);
                    },
                    LocalValueId::BlockParam(j) => {
                        let rec = self.param_rec(j);
                    },
                    LocalValueId::BasicBlock(j) => {
                        let rec = self.block_rec(j);
                    },
                    LocalValueId::Temp(j) => {
                        let rec = self.temps@[j.0 as int];
                    },
                    _ => {},
                }
            }
        }
    }

    /// Rebuilds every use from the operands of this body's instructions, after
    /// something rewrote operands wholesale. What the uses were before does
    /// not matter.
    pub fn rebuild_uses(&mut self)
        requires
            old(self).rest_wf(),
            operand_total(old(self).insns@) <= u32::MAX,
        ensures
            final(self).wf(),
            final(self).uses_complete(),
            edges_untouched(*old(self), *final(self)),
            final(self)@ == old(self)@,
            final(self).uses.free@.len() == 0,
    {
        let ghost start = *self;
        self.clear_uses();
        let ghost cleared = *self;
        let n: u32 = self.insns.issued() as u32;
        let mut i: u32 = 0;
        proof {
            lemma_uses_frame(start, cleared);
            assert(start.insns@.take(0) =~= Seq::<Option<Instruction>>::empty());
        }
        while i < n
            invariant
                start.rest_wf(),
                operand_total(start.insns@) <= u32::MAX,
                n == start.insns@.len(),
                i <= n,
                same_but_uses(start, *self),
                self.wf(),
                self@ == start@,
                self.uses.free@.len() == 0,
                self.uses@.len() <= operand_total(start.insns@.take(i as int)),
                forall|u: UseId| #[trigger] self.has_use(u) ==> self.occ(u).user.0 < i,
                forall|j: LocalInsnId, k: int|
                    j.0 < i && start.has_insn(j) && 0 <= k < start.operands(j).len()
                        && start.has_home(start.operands(j)[k]) ==> #[trigger] self.has_use_of(j, k),
            decreases n - i,
        {
            proof {
                lemma_operand_total(start.insns@, i + 1);
                assert(start.insns@.take(i + 1).drop_last() =~= start.insns@.take(i as int));
                lemma_uses_frame(start, *self);
            }
            if self.insns.contains(i) {
                let id: LocalInsnId = LocalInsnId(i);
                let ghost mid = *self;
                proof {
                    assert(self.has_insn(id));
                    assert(start.has_insn(id));
                    assert(self.operands(id) == start.operands(id));
                    assert(operand_total(start.insns@.take(i + 1)) == operand_total(
                        start.insns@.take(i as int),
                    ) + start.operands(id).len());
                }
                self.add_operand_uses(id);
                proof {
                    lemma_uses_trans(start, mid, *self);
                    assert forall|u: UseId| #[trigger] self.has_use(u) implies self.occ(u).user.0
                        < i + 1 by {
                        if mid.has_use(u) {
                            assert(self.occ(u) == mid.occ(u));
                        }
                    }
                    assert forall|j: LocalInsnId, k: int|
                        j.0 < i + 1 && start.has_insn(j) && 0 <= k < start.operands(j).len()
                            && start.has_home(
                            start.operands(j)[k],
                        ) implies #[trigger] self.has_use_of(j, k) by {
                        if j == id {
                            assert(mid.has_home(mid.operands(id)[k])
                                == start.has_home(mid.operands(id)[k]));
                        } else {
                            assert(mid.has_use_of(j, k));
                            let u = choose|u: UseId| #[trigger] mid.is_use_of(u, j, k);
                            assert(mid.has_use(u));
                            assert(self.occ(u) == mid.occ(u));
                            assert(self.is_use_of(u, j, k));
                        }
                    }
                }
            } else {
                proof {
                    assert(!self.has_insn(LocalInsnId(i)));
                    assert(!start.has_insn(LocalInsnId(i)));
                    assert forall|j: LocalInsnId| j.0 < i + 1 && start.has_insn(j) implies j.0 < i by {
                        assert(j.0 == i ==> j == LocalInsnId(i));
                    }
                }
            }
            i = i + 1;
        }
        proof {
            lemma_uses_frame(start, *self);
            assert forall|j: LocalInsnId, k: int|
                self.has_insn(j) && 0 <= k < self.operands(j).len() && self.has_home(
                    self.operands(j)[k],
                ) implies #[trigger] self.has_use_of(j, k) by {
                assert(start.has_insn(j));
                assert(self.operands(j) == start.operands(j));
                assert(self.has_home(self.operands(j)[k]) == start.has_home(start.operands(j)[k]));
            }
        }
    }
}

} // verus!
