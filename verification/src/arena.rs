//! Storage with stable indices.
//!
//! An [`Arena`] hands out indices in order and never reuses one: an index
//! names the same payload until that is removed, and nothing afterwards. A
//! [`Slab`] does reuse the index of a removed payload, the most recently
//! freed first.

use vstd::prelude::*;

verus! {

/// Whether index `i` is live in a sequence of slots.
pub open spec fn has<T>(slots: Seq<Option<T>>, i: int) -> bool {
    0 <= i < slots.len() && slots[i] is Some
}

/// The indices of the slots that hold something, in order.
fn live_ids<T>(slots: &Vec<Option<T>>) -> (ids: Vec<u32>)
    requires
        slots@.len() <= u32::MAX,
    ensures
        ids@.no_duplicates(),
        forall|i: u32| #[trigger] ids@.contains(i) <==> has(slots@, i as int),
        forall|j: int, k: int| 0 <= j < k < ids@.len() ==> ids@[j] < ids@[k],
{
    let mut ids: Vec<u32> = Vec::new();
    let n: u32 = slots.len() as u32;
    let mut i: u32 = 0;
    while i < n
        invariant
            n == slots@.len(),
            i <= n,
            forall|j: int, k: int| 0 <= j < k < ids@.len() ==> ids@[j] < ids@[k],
            forall|k: int| 0 <= k < ids@.len() ==> #[trigger] ids@[k] < i && has(
                slots@,
                ids@[k] as int,
            ),
            forall|id: u32| id < i && #[trigger] has(slots@, id as int) ==> ids@.contains(id),
        decreases n - i,
    {
        if slots[i as usize].is_some() {
            let ghost before = ids@;
            ids.push(i);
            proof {
                assert(ids@[before.len() as int] == i);
                assert forall|id: u32| id < i && #[trigger] has(
                slots@,
                    id as int,
                ) implies ids@.contains(id) by {
                    let k = choose|k: int| 0 <= k < before.len() && before[k] == id;
                    assert(ids@[k] == id);
                }
            }
        }
        i = i + 1;
    }
    ids
}

/// `Vec::shrink_to_fit`: gives spare capacity back; the items stay. How much
/// capacity is left is not stated.
#[verifier::external_body]
pub(crate) fn release<T>(items: &mut Vec<T>)
    ensures
        final(items)@ == old(items)@,
{
    items.shrink_to_fit()
}

/// Payloads by index; removed ones leave a hole.
pub struct Arena<T> {
    pub slots: Vec<Option<T>>,
}

impl<T> View for Arena<T> {
    type V = Seq<Option<T>>;

    open spec fn view(&self) -> Seq<Option<T>> {
        self.slots@
    }
}

impl<T> Arena<T> {
    /// Whether index `i` names a payload.
    pub open spec fn has(&self, i: int) -> bool {
        has(self.slots@, i)
    }

    /// The payload at index `i`.
    pub open spec fn at(&self, i: int) -> T {
        self.slots@[i]->0
    }

    /// Whether another index can be handed out.
    pub open spec fn has_room(&self) -> bool {
        self.slots@.len() < u32::MAX
    }

    pub fn new() -> (arena: Self)
        ensures
            arena@ == Seq::<Option<T>>::empty(),
    {
        Arena { slots: Vec::new() }
    }

    /// How many indices have been handed out.
    pub fn issued(&self) -> (n: usize)
        ensures
            n == self@.len(),
    {
        self.slots.len()
    }

    pub fn contains(&self, i: u32) -> (b: bool)
        ensures
            b == self.has(i as int),
    {
        (i as usize) < self.slots.len() && self.slots[i as usize].is_some()
    }

    pub fn get(&self, i: u32) -> (payload: &T)
        requires
            self.has(i as int),
        ensures
            *payload == self.at(i as int),
    {
        self.slots[i as usize].as_ref().unwrap()
    }

    pub fn get_mut(&mut self, i: u32) -> (payload: &mut T)
        requires
            old(self).has(i as int),
        ensures
            *payload == old(self).at(i as int),
            final(self)@ == old(self)@.update(i as int, Some(*final(payload))),
    {
        self.slots[i as usize].as_mut().unwrap()
    }

    /// Gives spare memory back.
    pub fn shrink_to_fit(&mut self)
        ensures
            final(self)@ == old(self)@,
    {
        release(&mut self.slots);
    }

    /// Stores a payload under the next index.
    pub fn push(&mut self, payload: T) -> (i: u32)
        requires
            old(self).has_room(),
        ensures
            i == old(self)@.len(),
            final(self)@ == old(self)@.push(Some(payload)),
    {
        let i: u32 = self.slots.len() as u32;
        self.slots.push(Some(payload));
        i
    }

    /// Removes the payload at `i`; the index is never handed out again.
    pub fn remove(&mut self, i: u32) -> (payload: T)
        requires
            old(self).has(i as int),
        ensures
            payload == old(self).at(i as int),
            final(self)@ == old(self)@.update(i as int, None),
    {
        self.slots[i as usize].take().unwrap()
    }

    /// Removes everything and starts handing out indices from zero again.
    pub fn clear(&mut self)
        ensures
            final(self)@ == Seq::<Option<T>>::empty(),
    {
        self.slots.clear();
    }

    /// The live indices, in order.
    pub fn ids(&self) -> (ids: Vec<u32>)
        requires
            self@.len() <= u32::MAX,
        ensures
            ids@.no_duplicates(),
            forall|i: u32| #[trigger] ids@.contains(i) <==> self.has(i as int),
            forall|j: int, k: int| 0 <= j < k < ids@.len() ==> ids@[j] < ids@[k],
    {
        let ids = live_ids(&self.slots);
        proof {
            assert forall|i: u32| #[trigger] ids@.contains(i) <==> self.has(i as int) by {
                assert(has(self.slots@, i as int) == self.has(i as int));
            }
        }
        ids
    }
}

/// Payloads by index; the index of a removed one is used again.
pub struct Slab<T> {
    pub slots: Vec<Option<T>>,
    pub free: Vec<u32>,
}

impl<T> View for Slab<T> {
    type V = Seq<Option<T>>;

    open spec fn view(&self) -> Seq<Option<T>> {
        self.slots@
    }
}

impl<T> Slab<T> {
    /// Gives spare memory back.
    pub fn shrink_to_fit(&mut self)
        ensures
            final(self)@ == old(self)@,
            final(self).free@ == old(self).free@,
    {
        release(&mut self.slots);
        release(&mut self.free);
    }

    /// Whether index `i` names a payload.
    pub open spec fn has(&self, i: int) -> bool {
        has(self.slots@, i)
    }

    /// The payload at index `i`.
    pub open spec fn at(&self, i: int) -> T {
        self.slots@[i]->0
    }

    /// The free list holds each hole once, and nothing else.
    pub open spec fn wf(&self) -> bool {
        &&& self.slots@.len() <= u32::MAX
        &&& self.free@.no_duplicates()
        &&& forall|k: int|
            0 <= k < self.free@.len() ==> #[trigger] self.free@[k] < self.slots@.len()
                && self.slots@[self.free@[k] as int] is None
        &&& forall|i: u32|
            i < self.slots@.len() && self.slots@[i as int] is None ==> #[trigger] self.free@.contains(
                i,
            )
    }

    /// Whether another payload can be stored.
    pub open spec fn has_room(&self) -> bool {
        self.slots@.len() < u32::MAX
    }

    pub fn new() -> (slab: Self)
        ensures
            slab.wf(),
            slab@ == Seq::<Option<T>>::empty(),
    {
        Slab { slots: Vec::new(), free: Vec::new() }
    }

    /// How many payloads are live.
    pub fn len(&self) -> (n: usize)
        requires
            self.wf(),
        ensures
            n == self@.len() - self.free@.len(),
    {
        proof {
            lemma_free_fits(*self);
        }
        self.slots.len() - self.free.len()
    }

    pub fn contains(&self, i: u32) -> (b: bool)
        ensures
            b == self.has(i as int),
    {
        (i as usize) < self.slots.len() && self.slots[i as usize].is_some()
    }

    pub fn get(&self, i: u32) -> (payload: &T)
        requires
            self.has(i as int),
        ensures
            *payload == self.at(i as int),
    {
        self.slots[i as usize].as_ref().unwrap()
    }

    /// Replaces the payload at `i`.
    pub fn set(&mut self, i: u32, payload: T)
        requires
            old(self).wf(),
            old(self).has(i as int),
        ensures
            final(self).wf(),
            final(self)@ == old(self)@.update(i as int, Some(payload)),
            final(self).free@ == old(self).free@,
    {
        self.slots.set(i as usize, Some(payload));
    }

    /// Stores a payload, under the most recently freed index if there is one.
    pub fn push(&mut self, payload: T) -> (i: u32)
        requires
            old(self).wf(),
            old(self).has_room(),
        ensures
            final(self).wf(),
            !old(self).has(i as int),
            if old(self).free@.len() > 0 {
                &&& i == old(self).free@.last()
                &&& i < old(self)@.len()
                &&& final(self)@ == old(self)@.update(i as int, Some(payload))
                &&& final(self).free@ == old(self).free@.drop_last()
            } else {
                &&& i == old(self)@.len()
                &&& final(self)@ == old(self)@.push(Some(payload))
                &&& final(self).free@ == old(self).free@
            },
    {
        match self.free.pop() {
            Some(i) => {
                self.slots.set(i as usize, Some(payload));
                proof {
                    let last = old(self).free@.len() - 1;
                    assert(old(self).free@[last] == i);
                    assert forall|j: u32|
                        j < self.slots@.len()
                            && self.slots@[j as int] is None implies #[trigger] self.free@.contains(
                        j,
                    ) by {
                        assert(old(self).free@.contains(j));
                        let k = choose|k: int|
                            0 <= k < old(self).free@.len() && old(self).free@[k] == j;
                        assert(self.free@[k] == j);
                    }
                }
                i
            },
            None => {
                let i: u32 = self.slots.len() as u32;
                self.slots.push(Some(payload));
                proof {
                    assert forall|j: u32|
                        j < self.slots@.len()
                            && self.slots@[j as int] is None implies #[trigger] self.free@.contains(
                        j,
                    ) by {
                        assert(old(self).free@.contains(j));
                    }
                }
                i
            },
        }
    }

    /// Removes the payload at `i` and puts the index on the free list.
    pub fn remove(&mut self, i: u32) -> (payload: T)
        requires
            old(self).wf(),
            old(self).has(i as int),
        ensures
            final(self).wf(),
            payload == old(self).at(i as int),
            final(self)@ == old(self)@.update(i as int, None),
            final(self).free@ == old(self).free@.push(i),
    {
        let payload: T = self.slots[i as usize].take().unwrap();
        self.free.push(i);
        proof {
            let n = old(self).free@.len() as int;
            assert(self.free@[n] == i);
            assert forall|j: u32|
                j < self.slots@.len()
                    && self.slots@[j as int] is None implies #[trigger] self.free@.contains(j) by {
                if j != i {
                    assert(old(self).free@.contains(j));
                    let k = choose|k: int| 0 <= k < n && old(self).free@[k] == j;
                    assert(self.free@[k] == j);
                }
            }
        }
        payload
    }

    pub fn clear(&mut self)
        ensures
            final(self).wf(),
            final(self)@ == Seq::<Option<T>>::empty(),
            final(self).free@ == Seq::<u32>::empty(),
    {
        self.slots.clear();
        self.free.clear();
    }

    /// The live indices, in order.
    pub fn ids(&self) -> (ids: Vec<u32>)
        requires
            self@.len() <= u32::MAX,
        ensures
            ids@.no_duplicates(),
            forall|i: u32| #[trigger] ids@.contains(i) <==> self.has(i as int),
            forall|j: int, k: int| 0 <= j < k < ids@.len() ==> ids@[j] < ids@[k],
    {
        let ids = live_ids(&self.slots);
        proof {
            assert forall|i: u32| #[trigger] ids@.contains(i) <==> self.has(i as int) by {
                assert(has(self.slots@, i as int) == self.has(i as int));
            }
        }
        ids
    }
}

/// A free list is no longer than the slots it frees.
proof fn lemma_free_fits<T>(slab: Slab<T>)
    requires
        slab.wf(),
    ensures
        slab.free@.len() <= slab@.len(),
{
    let n = slab@.len() as int;
    let free = slab.free@.map_values(|i: u32| i as int);
    assert(free.no_duplicates());
    free.unique_seq_to_set();
    let all = vstd::set_lib::set_int_range(0, n);
    vstd::set_lib::lemma_int_range(0, n);
    assert(free.to_set().subset_of(all)) by {
        assert forall|x: int| free.to_set().contains(x) implies all.contains(x) by {
            let k = choose|k: int| 0 <= k < free.len() && free[k] == x;
            assert(slab.free@[k] < n);
        }
    }
    vstd::set_lib::lemma_len_subset(free.to_set(), all);
}

} // verus!
