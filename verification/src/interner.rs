//! Tables of constants, which only grow.

use crate::ids::Identifier;
use std::marker::PhantomData;
use vstd::prelude::*;

verus! {

/// A table of values, named by the order they came in.
pub struct Interner<Id, T> {
    pub items: Vec<T>,
    pub id: PhantomData<Id>,
}

impl<Id, T> View for Interner<Id, T> {
    type V = Seq<T>;

    open spec fn view(&self) -> Seq<T> {
        self.items@
    }
}

impl<Id: Identifier, T> Interner<Id, T> {
    /// Whether `id` names a value.
    pub open spec fn has(&self, id: Id) -> bool {
        0 <= id.spec_index() < self@.len()
    }

    /// The value `id` names.
    pub open spec fn at(&self, id: Id) -> T {
        self@[id.spec_index()]
    }

    pub fn new() -> (table: Self)
        ensures
            table@ == Seq::<T>::empty(),
    {
        Interner { items: Vec::new(), id: PhantomData }
    }

    /// Appends a value and names it; values that are there are not looked for.
    pub fn push(&mut self, value: T) -> (id: Id)
        requires
            Id::covers(old(self)@.len() as int),
        ensures
            final(self)@ == old(self)@.push(value),
            id.spec_index() == old(self)@.len(),
    {
        let i: usize = self.items.len();
        self.items.push(value);
        Id::from_index(i)
    }

    pub fn len(&self) -> (n: usize)
        ensures
            n == self@.len(),
    {
        self.items.len()
    }

    pub fn is_empty(&self) -> (b: bool)
        ensures
            b == (self@.len() == 0),
    {
        self.items.len() == 0
    }

    /// Whether `id` names a value.
    pub fn contains(&self, id: Id) -> (b: bool)
        ensures
            b == self.has(id),
    {
        id.to_index() < self.items.len()
    }

    /// The value `id` names.
    pub fn get(&self, id: Id) -> (value: &T)
        requires
            self.has(id),
        ensures
            *value == self.at(id),
    {
        &self.items[id.to_index()]
    }

    /// The values with their names, in the order they came in.
    pub fn iter(&self) -> (pairs: Vec<(Id, &T)>)
        requires
            forall|i: int| 0 <= i < self@.len() ==> #[trigger] Id::covers(i),
        ensures
            pairs@.len() == self@.len(),
            forall|i: int|
                0 <= i < pairs@.len() ==> (#[trigger] pairs@[i]).0.spec_index() == i
                    && *pairs@[i].1 == self@[i],
    {
        let n: usize = self.items.len();
        let mut pairs: Vec<(Id, &T)> = Vec::new();
        let mut i: usize = 0;
        while i < n
            invariant
                n == self@.len(),
                forall|j: int| 0 <= j < n ==> #[trigger] Id::covers(j),
                i <= n,
                pairs@.len() == i,
                forall|j: int|
                    0 <= j < i ==> (#[trigger] pairs@[j]).0.spec_index() == j && *pairs@[j].1
                        == self@[j],
            decreases n - i,
        {
            pairs.push((Id::from_index(i), &self.items[i]));
            i = i + 1;
        }
        pairs
    }

    /// Replaces the value `id` names.
    pub fn set(&mut self, id: Id, value: T)
        requires
            old(self).has(id),
        ensures
            final(self)@ == old(self)@.update(id.spec_index(), value),
    {
        let i: usize = id.to_index();
        self.items.set(i, value);
    }
}

/// Values pushed one after the other have different names.
pub proof fn law_pushed_values_are_distinct<Id: Identifier, T>(
    a: Interner<Id, T>,
    first: Id,
    b: Interner<Id, T>,
    second: Id,
)
    requires
        first.spec_index() == a@.len(),
        b@.len() > a@.len(),
        second.spec_index() == b@.len(),
    ensures
        first != second,
{
}

} // verus!
