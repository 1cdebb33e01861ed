//! Basic blocks, their instruction lists and their control-flow edges.

use crate::ids::{EdgeId, LocalBlockId, LocalInsnId, LocalParamId, UseId};
use crate::names::Name;
use crate::small::{id_items, small_limit, IdVec};
use vstd::prelude::*;

verus! {

/// The edges incident to one block, as a small set in insertion order: a
/// lookup is a scan.
pub struct EdgeSet {
    pub ids: IdVec,
}

impl View for EdgeSet {
    type V = Seq<EdgeId>;

    open spec fn view(&self) -> Seq<EdgeId> {
        id_items(self.ids).map_values(|raw: u32| EdgeId(raw))
    }
}

impl EdgeSet {
    /// No edge is in the set twice.
    pub open spec fn wf(&self) -> bool {
        self@.no_duplicates()
    }

    pub fn new() -> (set: Self)
        ensures
            set.wf(),
            set@ == Seq::<EdgeId>::empty(),
    {
        let set = EdgeSet { ids: IdVec::empty() };
        proof {
            assert(set@ =~= Seq::<EdgeId>::empty());
        }
        set
    }

    pub fn len(&self) -> (n: usize)
        ensures
            n == self@.len(),
    {
        self.ids.count()
    }

    pub fn is_empty(&self) -> (b: bool)
        ensures
            b == (self@.len() == 0),
    {
        self.ids.count() == 0
    }

    /// Where `edge` is in the set, if it is there.
    fn position(&self, edge: EdgeId) -> (at: Option<usize>)
        ensures
            match at {
                Some(k) => k < self@.len() && self@[k as int] == edge,
                None => !self@.contains(edge),
            },
    {
        let n: usize = self.ids.count();
        let mut k: usize = 0;
        while k < n
            invariant
                n == self@.len(),
                k <= n,
                forall|j: int| 0 <= j < k ==> self@[j] != edge,
            decreases n - k,
        {
            if self.ids.item(k) == edge.0 {
                return Some(k);
            }
            proof {
                assert(self@[k as int] == EdgeId(id_items(self.ids)[k as int]));
            }
            k = k + 1;
        }
        None
    }

    pub fn contains(&self, edge: &EdgeId) -> (b: bool)
        ensures
            b == self@.contains(*edge),
    {
        self.position(*edge).is_some()
    }

    /// Adds `edge` at the end; whether it was not there already.
    pub fn insert(&mut self, edge: EdgeId) -> (added: bool)
        requires
            old(self).wf(),
            old(self)@.contains(edge) || old(self)@.len() < small_limit(),
        ensures
            final(self).wf(),
            added == !old(self)@.contains(edge),
            final(self)@ == (if added {
                old(self)@.push(edge)
            } else {
                old(self)@
            }),
    {
        if self.contains(&edge) {
            return false;
        }
        self.ids.append(edge.0);
        proof {
            assert(self@ =~= old(self)@.push(edge));
        }
        true
    }

    /// Removes `edge`; whether it was there.
    pub fn remove(&mut self, edge: &EdgeId) -> (removed: bool)
        requires
            old(self).wf(),
        ensures
            final(self).wf(),
            removed == old(self)@.contains(*edge),
            final(self)@ == without(old(self)@, *edge),
    {
        match self.position(*edge) {
            Some(at) => {
                self.ids.take_out(at);
                proof {
                    assert(self@ =~= old(self)@.remove(at as int));
                    lemma_remove_is_filter(old(self)@, at as int);
                }
                true
            },
            None => {
                proof {
                    lemma_filter_keeps_all(self@, *edge);
                }
                false
            },
        }
    }

    /// The edges in insertion order.
    pub fn to_vec(&self) -> (edges: Vec<EdgeId>)
        ensures
            edges@ == self@,
    {
        let mut edges: Vec<EdgeId> = Vec::new();
        let n: usize = self.ids.count();
        let mut k: usize = 0;
        while k < n
            invariant
                n == self@.len(),
                k <= n,
                edges@ == self@.take(k as int),
            decreases n - k,
        {
            edges.push(EdgeId(self.ids.item(k)));
            k = k + 1;
            proof {
                assert(edges@ =~= self@.take(k as int));
            }
        }
        proof {
            assert(self@.take(n as int) =~= self@);
        }
        edges
    }

    pub fn shrink_to_fit(&mut self)
        ensures
            final(self)@ == old(self)@,
    {
        self.ids.shrink();
    }
}

/// `s` without the item `x`.
pub open spec fn without<T>(s: Seq<T>, x: T) -> Seq<T> {
    s.filter(|e: T| e != x)
}

/// Filters that agree on the items of a sequence give the same.
pub proof fn lemma_filter_same<T>(s: Seq<T>, p: spec_fn(T) -> bool, q: spec_fn(T) -> bool)
    requires
        forall|x: T| s.contains(x) ==> p(x) == q(x),
    ensures
        s.filter(p) == s.filter(q),
    decreases s.len(),
{
    reveal(Seq::filter);
    if s.len() > 0 {
        let init = s.drop_last();
        assert forall|x: T| init.contains(x) implies p(x) == q(x) by {
            let k = choose|k: int| 0 <= k < init.len() && init[k] == x;
            assert(s[k] == x);
            assert(s.contains(x));
        }
        lemma_filter_same(init, p, q);
        assert(s.contains(s.last()));
    }
}

/// Taking an item out is filtering by what differs from it.
pub proof fn lemma_without_filters<T>(s: Seq<T>, x: T, q: spec_fn(T) -> bool)
    requires
        forall|y: T| s.contains(y) ==> q(y) == (y != x),
    ensures
        without(s, x) == s.filter(q),
{
    lemma_filter_same(s, |e: T| e != x, q);
}

/// Filtering twice is filtering by both.
pub proof fn lemma_filter_twice<T>(s: Seq<T>, p: spec_fn(T) -> bool, q: spec_fn(T) -> bool)
    ensures
        s.filter(p).filter(q) == s.filter(|x: T| p(x) && q(x)),
    decreases s.len(),
{
    reveal(Seq::filter);
    if s.len() > 0 {
        lemma_filter_twice(s.drop_last(), p, q);
        if p(s.last()) {
            assert(s.drop_last().filter(p).push(s.last()).drop_last() =~= s.drop_last().filter(p));
        }
    }
}

/// What a filter leaves.
pub proof fn lemma_filter_leaves<T>(s: Seq<T>, p: spec_fn(T) -> bool)
    ensures
        forall|x: T| #[trigger] s.filter(p).contains(x) <==> s.contains(x) && p(x),
    decreases s.len(),
{
    reveal(Seq::filter);
    if s.len() > 0 {
        let init = s.drop_last();
        lemma_filter_leaves(init, p);
        assert forall|x: T| #[trigger] s.filter(p).contains(x) <==> s.contains(x) && p(x) by {
            assert(s =~= init.push(s.last()));
            crate::body::order::lemma_push_contains(init, s.last(), x);
            crate::body::order::lemma_push_contains(init.filter(p), s.last(), x);
        }
    }
}

/// In a sequence without repetition, taking out one position filters out one
/// item.
pub proof fn lemma_remove_is_filter<T>(s: Seq<T>, at: int)
    requires
        0 <= at < s.len(),
        s.no_duplicates(),
    ensures
        s.remove(at) == without(s, s[at]),
        s.remove(at).no_duplicates(),
    decreases s.len(),
{
    let keep = |e: T| e != s[at];
    reveal(Seq::filter);
    let init = s.drop_last();
    if at == s.len() - 1 {
        lemma_filter_keeps_all(init, s[at]);
        assert(s.remove(at) =~= init);
        assert(s.filter(keep) =~= init.filter(keep));
    } else {
        lemma_remove_is_filter(init, at);
        assert(init[at] == s[at]);
        assert(s.remove(at) =~= init.remove(at).push(s.last()));
        assert(s.filter(keep) =~= init.filter(keep).push(s.last()));
    }
}

/// Filtering out an item that is not there changes nothing.
pub proof fn lemma_filter_keeps_all<T>(s: Seq<T>, x: T)
    requires
        !s.contains(x),
    ensures
        without(s, x) == s,
    decreases s.len(),
{
    reveal(Seq::filter);
    if s.len() > 0 {
        let init = s.drop_last();
        assert forall|k: int| 0 <= k < init.len() implies init[k] != x by {
            assert(init[k] == s[k]);
        }
        lemma_filter_keeps_all(init, x);
        assert(s.last() == s[s.len() - 1]);
        assert(s =~= init.push(s.last()));
    }
}

/// What filtering out one item leaves.
pub proof fn lemma_filter_contains<T>(s: Seq<T>, x: T)
    ensures
        forall|y: T|
            #[trigger] without(s, x).contains(y) <==> s.contains(y) && y != x,
        s.no_duplicates() ==> without(s, x).no_duplicates(),
    decreases s.len(),
{
    reveal(Seq::filter);
    let keep = |e: T| e != x;
    if s.len() > 0 {
        let init = s.drop_last();
        lemma_filter_contains(init, x);
        let f = init.filter(keep);
        assert(f == without(init, x));
        assert forall|y: T| #[trigger] s.contains(y) <==> init.contains(y) || y == s.last() by {
            if s.contains(y) {
                let k = choose|k: int| 0 <= k < s.len() && s[k] == y;
                if k < init.len() {
                    assert(init[k] == y);
                }
            }
            if init.contains(y) {
                let k = choose|k: int| 0 <= k < init.len() && init[k] == y;
                assert(s[k] == y);
            }
            if y == s.last() {
                assert(s[s.len() - 1] == y);
            }
        }
        if s.last() != x {
            assert(s.filter(keep) == f.push(s.last()));
            assert(without(s, x) == s.filter(keep));
            assert forall|y: T| #[trigger] s.filter(keep).contains(y) <==> f.contains(y) || y
                == s.last() by {
                if f.contains(y) {
                    let k = choose|k: int| 0 <= k < f.len() && f[k] == y;
                    assert(f.push(s.last())[k] == y);
                }
                if y == s.last() {
                    assert(f.push(s.last())[f.len() as int] == y);
                }
            }
            if s.no_duplicates() {
                assert(init.no_duplicates());
                assert(!init.contains(s.last()));
                assert forall|k: int| 0 <= k < f.len() implies f[k] != s.last() by {
                    assert(f.contains(f[k]));
                }
                assert(without(s, x) == f.push(s.last()));
            }
        } else {
            assert(s.filter(keep) == f);
            if s.no_duplicates() {
                assert(init.no_duplicates());
            }
        }
    }
}

/// A directed control-flow edge.
#[derive(Clone, Copy, Debug, PartialEq, Eq, Structural, Hash)]
pub struct EdgeData {
    pub from: LocalBlockId,
    pub to: LocalBlockId,
}

/// The ends and length of a block's instruction list. The list itself is
/// threaded through the instructions; `order` is the list in full, for
/// reasoning.
pub struct InsnList {
    pub first: Option<LocalInsnId>,
    pub last: Option<LocalInsnId>,
    pub len: usize,
    pub order: Ghost<Seq<LocalInsnId>>,
}

impl InsnList {
    pub fn empty() -> (list: Self)
        ensures
            list.first is None,
            list.last is None,
            list.len == 0,
            list.order@ == Seq::<LocalInsnId>::empty(),
    {
        InsnList { first: None, last: None, len: 0, order: Ghost(Seq::empty()) }
    }
}

/// A block of instructions.
pub struct BasicBlock {
    /// The block's own name. A block at an address with none is labelled with
    /// the address.
    pub name: Option<Name>,
    /// A note rendered under the block's label.
    pub comment: Option<String>,
    /// Typed parameters declared at block entry. They are not part of the
    /// instructions.
    pub params: Vec<LocalParamId>,
    /// The instructions of this block, in order.
    pub instructions: InsnList,
    /// The edges that this block is incident to.
    pub edges: EdgeSet,
    /// The machine address of this block, if it has one.
    pub address: Option<u64>,
    /// Further addresses that map to this block, from blocks merged into it.
    pub extra_addresses: Vec<u64>,
    /// Head of the list of this block's uses as a value.
    pub first_use: Option<UseId>,
}

impl BasicBlock {
    /// Whether the block has no code, no edges and no uses yet.
    pub open spec fn is_fresh(&self) -> bool {
        &&& self.instructions.first is None
        &&& self.instructions.last is None
        &&& self.instructions.len == 0
        &&& self.instructions.order@ == Seq::<LocalInsnId>::empty()
        &&& self.edges@ == Seq::<EdgeId>::empty()
    }

    /// A block that is in no body yet.
    pub fn detached() -> (block: Self)
        ensures
            block.is_fresh(),
            block.name is None,
            block.comment is None,
            block.params@ == Seq::<LocalParamId>::empty(),
            block.address is None,
            block.extra_addresses@ == Seq::<u64>::empty(),
            block.first_use is None,
    {
        BasicBlock {
            name: None,
            comment: None,
            params: Vec::new(),
            instructions: InsnList::empty(),
            edges: EdgeSet::new(),
            address: None,
            extra_addresses: Vec::new(),
            first_use: None,
        }
    }

    /// The machine address of this block, if it has one.
    pub fn address(&self) -> (address: Option<u64>)
        ensures
            address == self.address,
    {
        self.address
    }

    /// The addresses of the blocks merged into this one.
    pub fn extra_addresses(&self) -> (addresses: &Vec<u64>)
        ensures
            addresses@ == self.extra_addresses@,
    {
        &self.extra_addresses
    }

    /// The first instruction, if there is one.
    pub fn first_insn(&self) -> (insn: Option<LocalInsnId>)
        ensures
            insn == self.instructions.first,
    {
        self.instructions.first
    }

    /// The last instruction, if there is one.
    pub fn last_insn(&self) -> (insn: Option<LocalInsnId>)
        ensures
            insn == self.instructions.last,
    {
        self.instructions.last
    }

    /// How many instructions the block has.
    pub fn insn_count(&self) -> (n: usize)
        ensures
            n == self.instructions.len,
    {
        self.instructions.len
    }

    /// Whether the block has instructions.
    pub fn has_insns(&self) -> (b: bool)
        ensures
            b == (self.instructions.len > 0),
    {
        self.instructions.len > 0
    }

    /// The parameters, in order.
    pub fn param_ids(&self) -> (params: &Vec<LocalParamId>)
        ensures
            params@ == self.params@,
    {
        &self.params
    }
}

} // verus!
