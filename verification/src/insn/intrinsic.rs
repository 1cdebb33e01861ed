//! Pure operations with names, such as rotations.
//!
//! An intrinsic has no effect on memory. Which ones there are is settled when
//! the table of them is built; from then on an intrinsic is named by its place
//! in the table, which is in the order of the names.

use crate::fx::TextIndex;
use crate::insn::binop::IntBinop;
use crate::insn::mnemonic::Mnemonic;
use crate::sort::{
    in_order, law_sorted_is_an_ordered_rearrangement, law_sorting_forgets_the_order, sort, sorted,
    Lettered,
};
use crate::value::{LocalValueId, ValueId};
use vstd::prelude::*;
use vstd::string::*;

verus! {

/// An intrinsic, by its place in the table.
#[derive(Clone, Copy, Debug, PartialEq, Eq, Structural, Hash)]
pub struct IntrinsicId(pub usize);

/// An intrinsic applied to its operands.
#[derive(Debug)]
pub struct IntrinsicApp {
    pub id: IntrinsicId,
    pub args: Vec<LocalValueId>,
}

/// The operation at the root of the idiom that an intrinsic stands for.
#[derive(Clone, Copy, Debug, PartialEq, Eq, Structural, Hash)]
pub enum RootOp {
    IntBinop(IntBinop),
}

/// What an intrinsic simplifies to.
pub enum Simplified {
    /// A value that is there already.
    Value(ValueId),
    /// Another operation of the same width.
    Expression(Mnemonic),
}

/// The description of an intrinsic.
#[derive(Debug)]
pub struct IntrinsicDesc {
    pub name: String,
    /// How many operands it takes.
    pub arity: usize,
    pub root_op: Option<RootOp>,
}

impl Lettered for IntrinsicDesc {
    open spec fn text(&self) -> Seq<char> {
        self.name@
    }

    fn letters(&self) -> (text: &str) {
        self.name.as_str()
    }
}

/// The intrinsics there are, in the order of their names.
pub struct IntrinsicTable {
    pub descs: Vec<IntrinsicDesc>,
    pub by_name: TextIndex,
}

impl View for IntrinsicTable {
    type V = Seq<IntrinsicDesc>;

    open spec fn view(&self) -> Seq<IntrinsicDesc> {
        self.descs@
    }
}

/// Whether no two intrinsics have one name.
pub open spec fn names_distinct(descs: Seq<IntrinsicDesc>) -> bool {
    forall|i: int, j: int|
        0 <= i < descs.len() && 0 <= j < descs.len() && i != j ==> (#[trigger] descs[i]).name@ != (
        #[trigger] descs[j]).name@
}

/// Whether the intrinsic at `i` is rooted at `root`.
pub open spec fn rooted_at(descs: Seq<IntrinsicDesc>, i: int, root: RootOp) -> bool {
    0 <= i < descs.len() && descs[i].root_op == Some(root)
}

/// The places below `n` of the intrinsics rooted at `root`, in order.
pub open spec fn rooted(descs: Seq<IntrinsicDesc>, n: int, root: RootOp) -> Seq<IntrinsicId>
    decreases n,
{
    if n <= 0 {
        Seq::empty()
    } else if rooted_at(descs, n - 1, root) {
        rooted(descs, n - 1, root).push(IntrinsicId((n - 1) as usize))
    } else {
        rooted(descs, n - 1, root)
    }
}

/// Rearranging keeps names distinct.
proof fn lemma_rearranged(a: Seq<IntrinsicDesc>, b: Seq<IntrinsicDesc>)
    requires
        names_distinct(a),
        a.to_multiset() == b.to_multiset(),
    ensures
        names_distinct(b),
{
    a.to_multiset_ensures();
    b.to_multiset_ensures();
    assert forall|i: int, j: int|
        0 <= i < b.len() && 0 <= j < b.len() && i != j implies (#[trigger] b[i]).name@ != (
    #[trigger] b[j]).name@ by {
        if b[i].name@ == b[j].name@ {
            assert(b.contains(b[i]) && b.contains(b[j]));
            assert(a.to_multiset().count(b[i]) > 0 && a.to_multiset().count(b[j]) > 0);
            assert(a.contains(b[i]) && a.contains(b[j]));
            let p = choose|p: int| 0 <= p < a.len() && a[p] == b[i];
            let q = choose|q: int| 0 <= q < a.len() && a[q] == b[j];
            if p == q {
                // One description twice in `b` is twice in `a`.
                lemma_twice(b, i, j);
                lemma_once(a, b[i]);
            }
        }
    }
}

/// What stands at two places counts twice.
proof fn lemma_twice(s: Seq<IntrinsicDesc>, i: int, j: int)
    requires
        0 <= i < s.len(),
        0 <= j < s.len(),
        i != j,
        s[i] == s[j],
    ensures
        s.to_multiset().count(s[i]) >= 2,
{
    let a = if i < j {
        i
    } else {
        j
    };
    let b = if i < j {
        j
    } else {
        i
    };
    s.to_multiset_ensures();
    let t = s.remove(b);
    t.to_multiset_ensures();
    assert(t.to_multiset() =~= s.to_multiset().remove(s[b]));
    assert(t[a] == s[a]);
    assert(t.contains(s[a]));
    assert(s.contains(s[b]));
    assert(t.to_multiset().count(s[a]) >= 1);
}

/// With distinct names nothing counts twice.
proof fn lemma_once(s: Seq<IntrinsicDesc>, x: IntrinsicDesc)
    requires
        names_distinct(s),
    ensures
        s.to_multiset().count(x) <= 1,
{
    s.to_multiset_ensures();
    if s.to_multiset().count(x) >= 2 {
        assert(s.contains(x));
        let p = choose|p: int| 0 <= p < s.len() && s[p] == x;
        let t = s.remove(p);
        t.to_multiset_ensures();
        assert(t.to_multiset() =~= s.to_multiset().remove(x));
        assert(t.to_multiset().count(x) >= 1);
        assert(t.contains(x));
        let q = choose|q: int| 0 <= q < t.len() && t[q] == x;
        if q < p {
            assert(s[q] == x);
        } else {
            assert(s[q + 1] == x);
        }
    }
}

impl IntrinsicTable {
    pub open spec fn wf(&self) -> bool {
        &&& names_distinct(self@)
        &&& in_order(self@)
        &&& self@.len() <= u32::MAX
        &&& forall|n: Seq<char>| #[trigger]
            self.by_name@.contains_key(n) ==> self.by_name@[n] < self@.len()
                && self@[self.by_name@[n] as int].name@ == n
        &&& forall|i: int|
            0 <= i < self@.len() ==> self.by_name@.contains_key((#[trigger] self@[i]).name@)
                && self.by_name@[self@[i].name@] == i
    }

    /// Whether `id` names an intrinsic of this table.
    pub open spec fn has(&self, id: IntrinsicId) -> bool {
        id.0 < self@.len()
    }

    /// The table of the given intrinsics, no two of one name. The places do
    /// not depend on the order they are given in.
    pub fn build(descs: Vec<IntrinsicDesc>) -> (table: Self)
        requires
            names_distinct(descs@),
            descs@.len() <= u32::MAX,
        ensures
            table.wf(),
            table@ == sorted(descs@, descs@.len() as int),
            table@.to_multiset() == descs@.to_multiset(),
    {
        let ghost given = descs@;
        let descs = sort(descs);
        proof {
            lemma_rearranged(given, descs@);
            law_sorted_is_an_ordered_rearrangement(given, given.len() as int);
        }
        let mut by_name = TextIndex::new();
        let mut i: usize = 0;
        while i < descs.len()
            invariant
                i <= descs.len(),
                descs@.len() <= u32::MAX,
                names_distinct(descs@),
                forall|n: Seq<char>| #[trigger]
                    by_name@.contains_key(n) ==> by_name@[n] < i
                        && descs@[by_name@[n] as int].name@ == n,
                forall|k: int|
                    0 <= k < i ==> by_name@.contains_key((#[trigger] descs@[k]).name@)
                        && by_name@[descs@[k].name@] == k,
            decreases descs.len() - i,
        {
            by_name.insert(String::from_str(descs[i].name.as_str()), i as u32);
            i = i + 1;
        }
        IntrinsicTable { descs, by_name }
    }
}

/// The intrinsics rooted at `root`, in order.
pub fn recognizers_for(table: &IntrinsicTable, root: RootOp) -> (ids: Vec<IntrinsicId>)
    ensures
        ids@ == rooted(table@, table@.len() as int, root),
        forall|i: int|
            #[trigger] rooted_at(table@, i, root) ==> ids@.contains(IntrinsicId(i as usize)),
{
    let mut ids: Vec<IntrinsicId> = Vec::new();
    let mut i: usize = 0;
    while i < table.descs.len()
        invariant
            i <= table.descs.len(),
            ids@ == rooted(table@, i as int, root),
            forall|k: int|
                k < i && #[trigger] rooted_at(table@, k, root) ==> ids@.contains(
                    IntrinsicId(k as usize),
                ),
        decreases table.descs.len() - i,
    {
        let here = match table.descs[i].root_op {
            Some(op) => op == root,
            None => false,
        };
        if here {
            let ghost before = ids@;
            ids.push(IntrinsicId(i));
            proof {
                assert(ids@[before.len() as int] == IntrinsicId(i));
                assert forall|k: int| k < i + 1 && #[trigger] rooted_at(
                    table@,
                    k,
                    root,
                ) implies ids@.contains(IntrinsicId(k as usize)) by {
                    if k < i {
                        let w = choose|w: int|
                            0 <= w < before.len() && before[w] == IntrinsicId(k as usize);
                        assert(ids@[w] == IntrinsicId(k as usize));
                    }
                }
            }
        }
        i = i + 1;
    }
    ids
}

impl IntrinsicId {
    /// The intrinsic called `name`.
    pub fn from_name(table: &IntrinsicTable, name: &str) -> (id: Option<Self>)
        requires
            table.wf(),
        ensures
            match id {
                Some(id) => table.has(id) && table@[id.0 as int].name@ == name@,
                None => forall|i: int|
                    0 <= i < table@.len() ==> (#[trigger] table@[i]).name@ != name@,
            },
    {
        match table.by_name.get(name) {
            Some(i) => Some(IntrinsicId(i as usize)),
            None => None,
        }
    }

    /// The name of the intrinsic.
    pub fn name<'a>(self, table: &'a IntrinsicTable) -> (name: &'a String)
        requires
            table.has(self),
        ensures
            name@ == table@[self.0 as int].name@,
    {
        &table.descs[self.0].name
    }

    /// The description of the intrinsic.
    pub fn desc<'a>(self, table: &'a IntrinsicTable) -> (desc: &'a IntrinsicDesc)
        requires
            table.has(self),
        ensures
            *desc == table@[self.0 as int],
    {
        &table.descs[self.0]
    }
}

/// An intrinsic is found by its name.
pub proof fn law_names_find_their_intrinsic(table: IntrinsicTable, a: IntrinsicId, b: IntrinsicId)
    requires
        table.wf(),
        table.has(a),
        table.has(b),
        table@[a.0 as int].name@ == table@[b.0 as int].name@,
    ensures
        a == b,
{
}

/// The place of an intrinsic does not depend on the order in which they were
/// described.
pub proof fn law_places_do_not_depend_on_the_order(a: Seq<IntrinsicDesc>, b: Seq<IntrinsicDesc>)
    requires
        names_distinct(a),
        a.to_multiset() == b.to_multiset(),
    ensures
        sorted(a, a.len() as int) == sorted(b, b.len() as int),
{
    law_sorting_forgets_the_order(a, b);
}

/// The intrinsics that are listed for a root are those that have it, each once
/// and in the order of the table.
pub proof fn law_the_listed_intrinsics_have_the_root(
    descs: Seq<IntrinsicDesc>,
    n: int,
    root: RootOp,
    i: int,
    j: int,
)
    requires
        0 <= n <= descs.len() <= usize::MAX,
    ensures
        ({
            let ids = rooted(descs, n, root);
            &&& 0 <= i < n ==> (ids.contains(IntrinsicId(i as usize)) <==> descs[i].root_op == Some(
                root,
            ))
            &&& 0 <= i < j < ids.len() ==> ids[i].0 < ids[j].0
            &&& 0 <= j < ids.len() ==> ids[j].0 < n
        }),
    decreases n,
{
    if n > 0 {
        let before = rooted(descs, n - 1, root);
        law_the_listed_intrinsics_have_the_root(descs, n - 1, root, i, j);
        law_the_listed_intrinsics_have_the_root(descs, n - 1, root, i, i);
        let last = IntrinsicId((n - 1) as usize);
        let ids = rooted(descs, n, root);
        if rooted_at(descs, n - 1, root) {
            if 0 <= i < n {
                crate::body::order::lemma_push_contains(before, last, IntrinsicId(i as usize));
            }
        }
        if i == n - 1 && before.contains(last) {
            let k = choose|k: int| 0 <= k < before.len() && before[k] == last;
            law_the_listed_intrinsics_have_the_root(descs, n - 1, root, 0, k);
        }
    }
}

} // verus!
