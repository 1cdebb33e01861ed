//! Short sequences kept inline.
//!
//! Most instructions have one or two operands and most blocks two or three
//! edges, so both are kept in a [`smallvec::SmallVec`], which needs no
//! allocation until it grows past its inline capacity. The sequences here
//! wrap it; what they hold is named by [`args_items`] and [`id_items`].

use crate::value::LocalValueId;
use smallvec::SmallVec;
use vstd::prelude::*;

verus! {

/// How many items a short sequence may hold: the capacity of a `SmallVec` is
/// a power of two and its size in bytes must fit in an `isize`.
pub open spec fn small_limit() -> int {
    usize::MAX as int / 64
}

/// The operands of an instruction, in order: a `SmallVec` with room for two
/// inline.
#[verifier::external_body]
pub struct Args {
    items: SmallVec<[LocalValueId; 2]>,
}

/// What an operand list holds, in order.
pub uninterp spec fn args_items(args: Args) -> Seq<LocalValueId>;

impl View for Args {
    type V = Seq<LocalValueId>;

    open spec fn view(&self) -> Seq<LocalValueId> {
        args_items(*self)
    }
}

impl Args {
    /// `SmallVec::new`: an empty list.
    #[verifier::external_body]
    pub(crate) fn empty() -> (args: Args)
        ensures
            args_items(args) == Seq::<LocalValueId>::empty(),
    {
        Args { items: SmallVec::new() }
    }

    /// `SmallVec::push`: appends one item. `SmallVec` panics when its doubled
    /// capacity cannot be allocated, hence the limit.
    #[verifier::external_body]
    pub(crate) fn append(&mut self, value: LocalValueId)
        requires
            args_items(*old(self)).len() < small_limit(),
        ensures
            args_items(*final(self)) == args_items(*old(self)).push(value),
    {
        self.items.push(value)
    }

    /// `SmallVec::len`: the number of items.
    #[verifier::external_body]
    fn count(&self) -> (n: usize)
        ensures
            n == args_items(*self).len(),
    {
        self.items.len()
    }

    /// `SmallVec`'s indexing: the item at a position, which must exist.
    #[verifier::external_body]
    fn item(&self, index: usize) -> (value: LocalValueId)
        requires
            index < args_items(*self).len(),
        ensures
            value == args_items(*self)[index as int],
    {
        self.items[index]
    }

    pub fn len(&self) -> (n: usize)
        ensures
            n == self@.len(),
    {
        self.count()
    }

    pub fn is_empty(&self) -> (b: bool)
        ensures
            b == (self@.len() == 0),
    {
        self.count() == 0
    }

    /// The operand at `index`, if there is one.
    pub fn get(&self, index: usize) -> (value: Option<LocalValueId>)
        ensures
            value == (if index < self@.len() {
                Some(self@[index as int])
            } else {
                None
            }),
    {
        if index < self.count() {
            Some(self.item(index))
        } else {
            None
        }
    }

    /// The operands as a vector.
    pub fn to_vec(&self) -> (values: Vec<LocalValueId>)
        ensures
            values@ == self@,
    {
        let mut values: Vec<LocalValueId> = Vec::new();
        let n: usize = self.count();
        let mut k: usize = 0;
        while k < n
            invariant
                n == self@.len(),
                k <= n,
                values@ == self@.take(k as int),
            decreases n - k,
        {
            values.push(self.item(k));
            k = k + 1;
            proof {
                assert(self@.take(k as int) =~= self@.take(k - 1).push(self@[k - 1]));
            }
        }
        proof {
            assert(self@.take(n as int) =~= self@);
        }
        values
    }
}

/// A short list of indices: a `SmallVec` with room for three inline.
#[verifier::external_body]
pub struct IdVec {
    items: SmallVec<[u32; 3]>,
}

/// What a list of indices holds, in order.
pub uninterp spec fn id_items(ids: IdVec) -> Seq<u32>;

impl IdVec {
    /// `SmallVec::new`: an empty list.
    #[verifier::external_body]
    pub(crate) fn empty() -> (ids: IdVec)
        ensures
            id_items(ids) == Seq::<u32>::empty(),
    {
        IdVec { items: SmallVec::new() }
    }

    /// `SmallVec::push`: appends one item. `SmallVec` panics when its doubled
    /// capacity cannot be allocated, hence the limit.
    #[verifier::external_body]
    pub(crate) fn append(&mut self, id: u32)
        requires
            id_items(*old(self)).len() < small_limit(),
        ensures
            id_items(*final(self)) == id_items(*old(self)).push(id),
    {
        self.items.push(id)
    }

    /// `SmallVec::len`: the number of items.
    #[verifier::external_body]
    pub(crate) fn count(&self) -> (n: usize)
        ensures
            n == id_items(*self).len(),
    {
        self.items.len()
    }

    /// `SmallVec`'s indexing: the item at a position, which must exist.
    #[verifier::external_body]
    pub(crate) fn item(&self, index: usize) -> (id: u32)
        requires
            index < id_items(*self).len(),
        ensures
            id == id_items(*self)[index as int],
    {
        self.items[index]
    }

    /// `SmallVec::remove`: takes out the item at a position, which must
    /// exist, and closes the gap, keeping the order of the others.
    #[verifier::external_body]
    pub(crate) fn take_out(&mut self, index: usize) -> (id: u32)
        requires
            index < id_items(*old(self)).len(),
        ensures
            id == id_items(*old(self))[index as int],
            id_items(*final(self)) == id_items(*old(self)).remove(index as int),
    {
        self.items.remove(index)
    }

    /// `SmallVec::shrink_to_fit`: gives spare capacity back; the items stay.
    /// How much capacity is left is not stated.
    #[verifier::external_body]
    pub(crate) fn shrink(&mut self)
        ensures
            id_items(*final(self)) == id_items(*old(self)),
    {
        self.items.shrink_to_fit()
    }

    /// How many items there are.
    pub fn len(&self) -> (n: usize)
        ensures
            n == id_items(*self).len(),
    {
        self.count()
    }

    /// The items, in order.
    pub fn to_vec(&self) -> (ids: Vec<u32>)
        ensures
            ids@ == id_items(*self),
    {
        let n: usize = self.count();
        let mut ids: Vec<u32> = Vec::new();
        let mut i: usize = 0;
        while i < n
            invariant
                n == id_items(*self).len(),
                i <= n,
                ids@ == id_items(*self).take(i as int),
            decreases n - i,
        {
            ids.push(self.item(i));
            proof {
                assert(ids@ =~= id_items(*self).take(i + 1));
            }
            i = i + 1;
        }
        proof {
            assert(ids@ =~= id_items(*self));
        }
        ids
    }
}

} // verus!
