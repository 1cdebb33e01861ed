//! The memory that a function may touch, address by address.
//!
//! A footprint is compared between analyses and written out, so its sets are
//! kept in ascending order: equal sets are equal sequences.

use vstd::prelude::*;

verus! {

/// What the offsets of an entry are relative to.
#[derive(Clone, Copy, Debug, PartialEq, Eq, Structural, PartialOrd, Ord, Hash)]
pub enum RamBase {
    /// The pointer passed as this argument.
    Param(u32),
    /// The function's own frame.
    Frame(i64),
    /// An absolute address.
    Global(u64),
    /// A space private to the function.
    Private,
}

/// `size` bytes at `base + offset`.
#[derive(Clone, Copy, Debug, PartialEq, Eq, Structural, PartialOrd, Ord, Hash)]
pub struct RamField {
    pub base: RamBase,
    pub offset: i64,
    pub size: usize,
}

/// The bytes from `base + lo` up to, but not with, `base + hi`.
#[derive(Clone, Copy, Debug, PartialEq, Eq, Structural, PartialOrd, Ord, Hash)]
pub struct RamRegion {
    pub base: RamBase,
    pub lo: i64,
    pub hi: i64,
}

/// The whole object at `base`.
#[derive(Clone, Copy, Debug, PartialEq, Eq, Structural, PartialOrd, Ord, Hash)]
pub struct RamObject {
    pub base: RamBase,
}

impl RamBase {
    /// The place of the kind of base in the order, and that within the kind.
    pub open spec fn rank(self) -> (int, int) {
        match self {
            RamBase::Param(i) => (0, i as int),
            RamBase::Frame(offset) => (1, offset as int),
            RamBase::Global(address) => (2, address as int),
            RamBase::Private => (3, 0),
        }
    }

    /// Whether `self` comes before `other`.
    pub open spec fn precedes(self, other: RamBase) -> bool {
        self.rank().0 < other.rank().0 || (self.rank().0 == other.rank().0 && self.rank().1
            < other.rank().1)
    }

    fn before(self, other: RamBase) -> (b: bool)
        ensures
            b == self.precedes(other),
    {
        match (self, other) {
            (RamBase::Param(a), RamBase::Param(b)) => a < b,
            (RamBase::Param(_), _) => true,
            (RamBase::Frame(_), RamBase::Param(_)) => false,
            (RamBase::Frame(a), RamBase::Frame(b)) => a < b,
            (RamBase::Frame(_), _) => true,
            (RamBase::Global(a), RamBase::Global(b)) => a < b,
            (RamBase::Global(_), RamBase::Private) => true,
            (RamBase::Global(_), _) => false,
            (RamBase::Private, _) => false,
        }
    }
}

/// An entry of a footprint.
pub trait Location: Sized + Copy {
    /// What the entry is relative to.
    spec fn place(self) -> RamBase;

    /// Whether `self` comes before `other`.
    spec fn below(self, other: Self) -> bool;

    fn base(self) -> (base: RamBase)
        ensures
            base == self.place(),
    ;

    fn before(self, other: Self) -> (b: bool)
        ensures
            b == self.below(other),
    ;

    /// The order is total, and no entry is before itself.
    proof fn lemma_order(a: Self, b: Self, c: Self)
        ensures
            !a.below(a),
            a.below(b) || b.below(a) || a == b,
            a.below(b) && b.below(c) ==> a.below(c),
    ;
}

impl Location for RamField {
    open spec fn place(self) -> RamBase {
        self.base
    }

    open spec fn below(self, other: Self) -> bool {
        self.base.precedes(other.base) || (self.base == other.base && (self.offset < other.offset
            || (self.offset == other.offset && self.size < other.size)))
    }

    fn base(self) -> (base: RamBase) {
        self.base
    }

    fn before(self, other: Self) -> (b: bool) {
        self.base.before(other.base) || (self.base == other.base && (self.offset < other.offset
            || (self.offset == other.offset && self.size < other.size)))
    }

    proof fn lemma_order(a: Self, b: Self, c: Self) {
    }
}

impl Location for RamRegion {
    open spec fn place(self) -> RamBase {
        self.base
    }

    open spec fn below(self, other: Self) -> bool {
        self.base.precedes(other.base) || (self.base == other.base && (self.lo < other.lo || (
        self.lo == other.lo && self.hi < other.hi)))
    }

    fn base(self) -> (base: RamBase) {
        self.base
    }

    fn before(self, other: Self) -> (b: bool) {
        self.base.before(other.base) || (self.base == other.base && (self.lo < other.lo || (self.lo
            == other.lo && self.hi < other.hi)))
    }

    proof fn lemma_order(a: Self, b: Self, c: Self) {
    }
}

impl Location for RamObject {
    open spec fn place(self) -> RamBase {
        self.base
    }

    open spec fn below(self, other: Self) -> bool {
        self.base.precedes(other.base)
    }

    fn base(self) -> (base: RamBase) {
        self.base
    }

    fn before(self, other: Self) -> (b: bool) {
        self.base.before(other.base)
    }

    proof fn lemma_order(a: Self, b: Self, c: Self) {
    }
}

/// A set of entries, in ascending order.
#[derive(Clone, Debug, PartialEq, Eq)]
pub struct Locations<T> {
    pub entries: Vec<T>,
}

impl<T: Location> View for Locations<T> {
    type V = Set<T>;

    open spec fn view(&self) -> Set<T> {
        self.entries@.to_set()
    }
}

/// Whether `s` is in strictly ascending order.
pub open spec fn ascending<T: Location>(s: Seq<T>) -> bool {
    forall|i: int, j: int| 0 <= i < j < s.len() ==> (#[trigger] s[i]).below(#[trigger] s[j])
}

impl<T: Location> Locations<T> {
    pub open spec fn wf(&self) -> bool {
        ascending(self.entries@)
    }

    pub fn new() -> (set: Self)
        ensures
            set.wf(),
            set@ == Set::<T>::empty(),
    {
        let set = Locations { entries: Vec::new() };
        proof {
            assert(set@ =~= Set::<T>::empty());
        }
        set
    }

    /// How many entries there are.
    pub fn len(&self) -> (n: usize)
        requires
            self.wf(),
        ensures
            n == self@.len(),
    {
        proof {
            let s = self.entries@;
            assert forall|i: int, j: int| 0 <= i < s.len() && 0 <= j < s.len() && i != j implies s[i]
                != s[j] by {
                T::lemma_order(s[i], s[j], s[i]);
                T::lemma_order(s[j], s[i], s[j]);
                if i < j {
                    assert(s[i].below(s[j]));
                } else {
                    assert(s[j].below(s[i]));
                }
            }
            s.unique_seq_to_set();
        }
        self.entries.len()
    }

    /// Adds an entry; whether it was new.
    pub fn insert(&mut self, entry: T) -> (new: bool)
        requires
            old(self).wf(),
        ensures
            final(self).wf(),
            final(self)@ == old(self)@.insert(entry),
            new == !old(self)@.contains(entry),
    {
        let ghost s = self.entries@;
        let mut i: usize = 0;
        while i < self.entries.len() && self.entries[i].before(entry)
            invariant
                self.entries@ == s,
                ascending(s),
                i <= s.len(),
                forall|k: int| 0 <= k < i ==> (#[trigger] s[k]).below(entry),
            decreases s.len() - i,
        {
            i = i + 1;
        }
        proof {
            assert forall|k: int| 0 <= k < i implies (#[trigger] s[k]) != entry by {
                T::lemma_order(entry, entry, entry);
            }
        }
        if i < self.entries.len() && !entry.before(self.entries[i]) {
            proof {
                T::lemma_order(s[i as int], entry, entry);
                assert(s[i as int] == entry);
                assert(self@ =~= old(self)@.insert(entry));
                assert(s.contains(entry));
            }
            return false;
        }
        self.entries.insert(i, entry);
        proof {
            let t = self.entries@;
            assert(t =~= s.insert(i as int, entry));
            assert forall|a: int, b: int| 0 <= a < b < t.len() implies (#[trigger] t[a]).below(
                #[trigger] t[b],
            ) by {
                if a < i && b > i {
                    assert(t[a] == s[a] && t[b] == s[b - 1]);
                } else if a == i {
                    assert(t[b] == s[b - 1]);
                    if b - 1 > i {
                        T::lemma_order(entry, s[i as int], s[b - 1]);
                    }
                } else if a > i {
                    assert(t[a] == s[a - 1] && t[b] == s[b - 1]);
                }
            }
            assert forall|k: int| i <= k < s.len() implies s[k] != entry by {
                T::lemma_order(entry, s[i as int], s[k]);
                T::lemma_order(entry, entry, entry);
                if k > i {
                    assert(s[i as int].below(s[k]));
                }
            }
            assert(!s.contains(entry));
            assert forall|x: T| t.contains(x) <==> s.contains(x) || x == entry by {
                if t.contains(x) {
                    let k = choose|k: int| 0 <= k < t.len() && t[k] == x;
                    if k < i {
                        assert(s[k] == x);
                    } else if k > i {
                        assert(s[k - 1] == x);
                    }
                }
                if s.contains(x) {
                    let k = choose|k: int| 0 <= k < s.len() && s[k] == x;
                    if k < i {
                        assert(t[k] == x);
                    } else {
                        assert(t[k + 1] == x);
                    }
                }
                assert(t[i as int] == entry);
            }
            assert(self@ =~= old(self)@.insert(entry));
        }
        true
    }

    /// Whether all entries are relative to a base out of callers' sight: a
    /// private space or, where `frame` says so, the function's own frame.
    fn all_hidden(&self, frame: bool) -> (b: bool)
        ensures
            b == (forall|x: T| #[trigger]
                self@.contains(x) ==> x.place() is Private || (frame && x.place() is Frame)),
    {
        let mut i: usize = 0;
        while i < self.entries.len()
            invariant
                i <= self.entries.len(),
                forall|k: int|
                    0 <= k < i ==> (#[trigger] self.entries@[k]).place() is Private || (frame
                        && self.entries@[k].place() is Frame),
            decreases self.entries.len() - i,
        {
            let hidden = match self.entries[i].base() {
                RamBase::Private => true,
                RamBase::Frame(_) => frame,
                _ => false,
            };
            if !hidden {
                proof {
                    assert(self@.contains(self.entries@[i as int]));
                }
                return false;
            }
            i = i + 1;
        }
        true
    }
}

/// Sets in ascending order that hold the same entries are the same sequence.
pub proof fn law_equal_sets_are_written_alike<T: Location>(a: Locations<T>, b: Locations<T>)
    requires
        a.wf(),
        b.wf(),
        a@ == b@,
    ensures
        a.entries@ == b.entries@,
{
    lemma_ascending_unique(a.entries@, b.entries@);
}

proof fn lemma_ascending_unique<T: Location>(s: Seq<T>, t: Seq<T>)
    requires
        ascending(s),
        ascending(t),
        s.to_set() == t.to_set(),
    ensures
        s == t,
    decreases s.len(),
{
    if s.len() == 0 {
        if t.len() > 0 {
            assert(t.to_set().contains(t[0]));
            assert(s.contains(t[0]));
        }
        assert(s =~= t);
    } else {
        assert(s.to_set().contains(s.last()));
        assert(t.contains(s.last()));
        let n = t.len() - 1;
        let k = choose|k: int| 0 <= k < t.len() && t[k] == s.last();
        assert(t.to_set().contains(t[n]));
        assert(s.contains(t[n]));
        let m = choose|m: int| 0 <= m < s.len() && s[m] == t[n];
        T::lemma_order(s.last(), t[n], s.last());
        T::lemma_order(s.last(), s.last(), s.last());
        if k < n {
            assert(t[k].below(t[n]));
            assert(s.last().below(s[m]));
            if m < s.len() - 1 {
                assert(s[m].below(s.last()));
                T::lemma_order(s[m], s.last(), s[m]);
                T::lemma_order(s[m], s[m], s[m]);
            }
        }
        assert(t.last() == s.last());
        let s0 = s.drop_last();
        let t0 = t.drop_last();
        assert forall|x: T| s0.to_set().contains(x) <==> t0.to_set().contains(x) by {
            lemma_front_lacks_last(s, t, x);
            lemma_front_lacks_last(t, s, x);
        }
        assert(s0.to_set() =~= t0.to_set());
        lemma_ascending_unique(s0, t0);
        assert(s =~= s0.push(s.last()));
        assert(t =~= t0.push(t.last()));
    }
}

proof fn lemma_front_lacks_last<T: Location>(s: Seq<T>, t: Seq<T>, x: T)
    requires
        ascending(s),
        ascending(t),
        s.len() > 0,
        t.len() > 0,
        s.last() == t.last(),
        s.to_set() == t.to_set(),
    ensures
        s.drop_last().to_set().contains(x) ==> t.drop_last().to_set().contains(x),
{
    if s.drop_last().to_set().contains(x) {
        let k = choose|k: int| 0 <= k < s.drop_last().len() && s.drop_last()[k] == x;
        assert(s[k] == x);
        assert(s[k].below(s[s.len() - 1]));
        T::lemma_order(x, s.last(), x);
        T::lemma_order(s.last(), s.last(), s.last());
        assert(s.to_set().contains(x));
        assert(t.contains(x));
        let j = choose|j: int| 0 <= j < t.len() && t[j] == x;
        assert(j < t.len() - 1);
        assert(t.drop_last()[j] == x);
    }
}

/// One direction of a footprint: what is read, or what is written.
#[derive(Clone, Debug, PartialEq, Eq)]
pub struct RamLocations {
    pub fields: Locations<RamField>,
    pub regions: Locations<RamRegion>,
    pub objects: Locations<RamObject>,
}

impl RamLocations {
    pub open spec fn wf(&self) -> bool {
        self.fields.wf() && self.regions.wf() && self.objects.wf()
    }

    /// How many entries there are.
    pub open spec fn count(&self) -> nat {
        self.fields@.len() + self.regions@.len() + self.objects@.len()
    }

    /// Whether every entry is at a private space or, where `frame` says so, in
    /// the function's own frame.
    pub open spec fn all_at(&self, frame: bool) -> bool {
        &&& forall|x: RamField| #[trigger]
            self.fields@.contains(x) ==> x.base is Private || (frame && x.base is Frame)
        &&& forall|x: RamRegion| #[trigger]
            self.regions@.contains(x) ==> x.base is Private || (frame && x.base is Frame)
        &&& forall|x: RamObject| #[trigger]
            self.objects@.contains(x) ==> x.base is Private || (frame && x.base is Frame)
    }

    pub fn new() -> (locations: Self)
        ensures
            locations.wf(),
            locations.count() == 0,
    {
        RamLocations {
            fields: Locations::new(),
            regions: Locations::new(),
            objects: Locations::new(),
        }
    }

    /// How many entries there are.
    pub fn len(&self) -> (n: usize)
        requires
            self.wf(),
            self.count() <= usize::MAX,
        ensures
            n == self.count(),
    {
        self.fields.len() + self.regions.len() + self.objects.len()
    }

    pub fn is_empty(&self) -> (b: bool)
        requires
            self.wf(),
        ensures
            b == (self.count() == 0),
    {
        self.fields.len() == 0 && self.regions.len() == 0 && self.objects.len() == 0
    }

    /// Whether no caller can observe any of it: every entry is in the
    /// function's own frame or in a private space.
    pub fn bases_invisible(&self) -> (b: bool)
        ensures
            b == self.all_at(true),
    {
        self.fields.all_hidden(true) && self.regions.all_hidden(true) && self.objects.all_hidden(
            true,
        )
    }
}

/// The memory that a function may read and write.
#[derive(Clone, Debug, PartialEq, Eq)]
pub struct Footprint {
    pub reads: RamLocations,
    pub writes: RamLocations,
}

impl Footprint {
    pub open spec fn wf(&self) -> bool {
        self.reads.wf() && self.writes.wf()
    }

    pub fn new() -> (footprint: Self)
        ensures
            footprint.wf(),
            footprint.reads.count() == 0,
            footprint.writes.count() == 0,
    {
        Footprint { reads: RamLocations::new(), writes: RamLocations::new() }
    }

    pub fn len(&self) -> (n: usize)
        requires
            self.wf(),
            self.reads.count() + self.writes.count() <= usize::MAX,
        ensures
            n == self.reads.count() + self.writes.count(),
    {
        self.reads.len() + self.writes.len()
    }

    pub fn is_empty(&self) -> (b: bool)
        requires
            self.wf(),
        ensures
            b == (self.reads.count() == 0 && self.writes.count() == 0),
    {
        self.reads.is_empty() && self.writes.is_empty()
    }

    /// Whether it reads private spaces alone, and writes those and its own frame
    /// alone.
    pub open spec fn hidden(&self) -> bool {
        self.reads.all_at(false) && self.writes.all_at(true)
    }

    /// Whether no caller can observe any of it: it reads private spaces alone,
    /// and writes those and its own frame alone.
    pub fn invisible(&self) -> (b: bool)
        ensures
            b == (self.reads.all_at(false) && self.writes.all_at(true)),
            b == self.hidden(),
    {
        self.reads.fields.all_hidden(false) && self.reads.regions.all_hidden(false)
            && self.reads.objects.all_hidden(false) && self.writes.bases_invisible()
    }
}

/// Locations are in order of their bases: those at arguments by position, then
/// those of the frame by offset, those at addresses by address, and the private
/// ones; at one base by where they start.
pub proof fn law_locations_are_ordered_by_base(
    i: u32,
    j: u32,
    x: i64,
    y: i64,
    a: u64,
    b: u64,
    f: RamField,
    g: RamField,
)
    ensures
        i < j ==> RamBase::Param(i).precedes(RamBase::Param(j)),
        x < y ==> RamBase::Frame(x).precedes(RamBase::Frame(y)),
        a < b ==> RamBase::Global(a).precedes(RamBase::Global(b)),
        RamBase::Param(i).precedes(RamBase::Frame(x)),
        RamBase::Frame(x).precedes(RamBase::Global(a)),
        RamBase::Global(a).precedes(RamBase::Private),
        f.base.precedes(g.base) ==> f.below(g) && !g.below(f),
        f.base == g.base && f.offset < g.offset ==> f.below(g) && !g.below(f),
        f.base == g.base && f.offset == g.offset && f.size < g.size ==> f.below(g),
{
}

} // verus!
