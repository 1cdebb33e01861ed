//! Hash tables.
//!
//! The tables are `std`'s, hashing with [`rustc_hash`]. A [`KeyMap`] is keyed
//! by a packed integer and a [`TextIndex`] by a string. The operations below
//! are the only ones that reach the tables.

use rustc_hash::{FxBuildHasher, FxHashMap, FxHashSet};
use std::collections::{hash_map, hash_set};
use vstd::prelude::*;
use vstd::std_specs::iter::IteratorSpec;

verus! {

/// The hasher of every table. It has no state and no seed.
#[verifier::external_type_specification]
#[verifier::external_body]
pub struct ExFxBuildHasher(FxBuildHasher);

/// Nothing under any key.
pub open spec fn no_entries<V>() -> Map<u128, V> {
    Map::empty()
}

/// Nothing under any string.
pub open spec fn no_texts() -> Map<Seq<char>, u32> {
    Map::empty()
}

/// A table from packed integer keys to small values.
pub struct KeyMap<V> {
    map: FxHashMap<u128, V>,
}

impl<V> View for KeyMap<V> {
    type V = Map<u128, V>;

    closed spec fn view(&self) -> Map<u128, V> {
        self.map@
    }
}

/// `HashMap::get`: the value under a key, if there is one.
#[verifier::external_body]
fn table_get<V: Copy>(map: &FxHashMap<u128, V>, key: u128) -> (value: Option<V>)
    ensures
        value == (if map@.contains_key(key) {
            Some(map@[key])
        } else {
            None
        }),
{
    map.get(&key).copied()
}

/// `HashMap::insert`: puts a value under a key, over any that was there, and
/// returns the one that was there.
#[verifier::external_body]
fn table_insert<V>(map: &mut FxHashMap<u128, V>, key: u128, value: V) -> (previous: Option<V>)
    ensures
        final(map)@ == old(map)@.insert(key, value),
        previous == (if old(map)@.contains_key(key) {
            Some(old(map)@[key])
        } else {
            None
        }),
{
    map.insert(key, value)
}

/// `HashMap::remove`: takes out the value under a key, if there is one.
#[verifier::external_body]
fn table_remove<V>(map: &mut FxHashMap<u128, V>, key: u128) -> (removed: Option<V>)
    ensures
        final(map)@ == old(map)@.remove(key),
        removed == (if old(map)@.contains_key(key) {
            Some(old(map)@[key])
        } else {
            None
        }),
{
    map.remove(&key)
}

/// `HashMap::iter`: hands out every key once, with its value, in an order that
/// the table decides, and comes to an end.
#[verifier::external_body]
fn table_iter<'a, V>(map: &'a FxHashMap<u128, V>) -> (iter: hash_map::Iter<'a, u128, V>)
    ensures
        iter.remaining().unref().to_set() == map@.kv_pairs(),
        iter.remaining().no_duplicates(),
        iter.decrease() is Some,
        iter.initial_value_relation(&iter),
{
    map.iter()
}

/// `HashMap::shrink_to_fit`: gives spare capacity back; the entries stay. How
/// much capacity is left is not stated.
#[verifier::external_body]
fn table_shrink<V>(map: &mut FxHashMap<u128, V>)
    ensures
        final(map)@ == old(map)@,
{
    map.shrink_to_fit()
}

impl<V: Copy> KeyMap<V> {
    /// Gives spare memory back.
    pub fn shrink_to_fit(&mut self)
        ensures
            final(self)@ == old(self)@,
    {
        table_shrink(&mut self.map)
    }

    pub fn new() -> (map: Self)
        ensures
            map@ == no_entries::<V>(),
    {
        KeyMap { map: FxHashMap::default() }
    }

    pub fn get(&self, key: u128) -> (value: Option<V>)
        ensures
            value == (if self@.contains_key(key) {
                Some(self@[key])
            } else {
                None
            }),
    {
        table_get(&self.map, key)
    }

    pub fn contains_key(&self, key: u128) -> (b: bool)
        ensures
            b == self@.contains_key(key),
    {
        table_get(&self.map, key).is_some()
    }

    pub fn insert(&mut self, key: u128, value: V) -> (previous: Option<V>)
        ensures
            final(self)@ == old(self)@.insert(key, value),
            previous == (if old(self)@.contains_key(key) {
                Some(old(self)@[key])
            } else {
                None
            }),
    {
        table_insert(&mut self.map, key, value)
    }

    pub fn remove(&mut self, key: u128) -> (removed: Option<V>)
        ensures
            final(self)@ == old(self)@.remove(key),
            removed == (if old(self)@.contains_key(key) {
                Some(old(self)@[key])
            } else {
                None
            }),
    {
        table_remove(&mut self.map, key)
    }

    pub fn clear(&mut self)
        ensures
            final(self)@ == no_entries::<V>(),
    {
        self.map.clear()
    }

    /// Every key once, with its value, in no particular order.
    pub fn pairs(&self) -> (pairs: Vec<(u128, V)>)
        ensures
            forall|i: int|
                0 <= i < pairs@.len() ==> self@.contains_key((#[trigger] pairs@[i]).0)
                    && self@[pairs@[i].0] == pairs@[i].1,
            forall|i: int, j: int|
                0 <= i < pairs@.len() && 0 <= j < pairs@.len() && i != j ==> (
                #[trigger] pairs@[i]).0 != (#[trigger] pairs@[j]).0,
            forall|key: u128|
                self@.contains_key(key) ==> exists|i: int|
                    0 <= i < pairs@.len() && (#[trigger] pairs@[i]).0 == key,
    {
        let mut pairs: Vec<(u128, V)> = Vec::new();
        let iter = table_iter(&self.map);
        let ghost all = iter.remaining();
        for (key, value) in it: iter
            invariant
                it.seq() == all,
                pairs@.len() == it.index(),
                forall|i: int| 0 <= i < it.index() ==> #[trigger] pairs@[i] == all.unref()[i],
        {
            pairs.push((*key, *value));
        }
        proof {
            assert(pairs@ =~= all.unref());
            assert forall|i: int| 0 <= i < pairs@.len() implies self@.contains_key(
                (#[trigger] pairs@[i]).0,
            ) && self@[pairs@[i].0] == pairs@[i].1 by {
                assert(all.unref().to_set().contains(pairs@[i]));
            }
            assert forall|i: int, j: int|
                0 <= i < pairs@.len() && 0 <= j < pairs@.len() && i != j implies (
            #[trigger] pairs@[i]).0 != (#[trigger] pairs@[j]).0 by {
                assert(all[i] != all[j]);
                assert(all.unref().to_set().contains(pairs@[i]));
                assert(all.unref().to_set().contains(pairs@[j]));
            }
            assert forall|key: u128| self@.contains_key(key) implies exists|i: int|
                0 <= i < pairs@.len() && (#[trigger] pairs@[i]).0 == key by {
                assert(all.unref().to_set().contains((key, self@[key])));
                let i = choose|i: int| 0 <= i < pairs@.len() && pairs@[i] == (key, self@[key]);
                assert(pairs@[i].0 == key);
            }
        }
        pairs
    }
}

/// A table from strings to indices.
pub struct TextIndex {
    map: FxHashMap<String, u32>,
}

/// What a table keyed by strings holds, by the characters of the keys.
pub uninterp spec fn text_entries(map: FxHashMap<String, u32>) -> Map<Seq<char>, u32>;

impl View for TextIndex {
    type V = Map<Seq<char>, u32>;

    closed spec fn view(&self) -> Map<Seq<char>, u32> {
        text_entries(self.map)
    }
}

/// `FxHashMap::default`: an empty table.
#[verifier::external_body]
fn new_text_table() -> (map: FxHashMap<String, u32>)
    ensures
        text_entries(map) == no_texts(),
{
    FxHashMap::default()
}

/// `HashMap::get`: the index under a string, if there is one.
#[verifier::external_body]
fn text_table_get(map: &FxHashMap<String, u32>, key: &str) -> (value: Option<u32>)
    ensures
        value == (if text_entries(*map).contains_key(key@) {
            Some(text_entries(*map)[key@])
        } else {
            None
        }),
{
    map.get(key).copied()
}

/// `HashMap::insert`: puts an index under a string, over any that was there.
#[verifier::external_body]
fn text_table_insert(map: &mut FxHashMap<String, u32>, key: String, value: u32)
    ensures
        text_entries(*final(map)) == text_entries(*old(map)).insert(key@, value),
{
    map.insert(key, value);
}

impl TextIndex {
    pub fn new() -> (index: Self)
        ensures
            index@ == no_texts(),
    {
        TextIndex { map: new_text_table() }
    }

    pub fn get(&self, key: &str) -> (value: Option<u32>)
        ensures
            value == (if self@.contains_key(key@) {
                Some(self@[key@])
            } else {
                None
            }),
    {
        text_table_get(&self.map, key)
    }

    pub fn insert(&mut self, key: String, value: u32)
        ensures
            final(self)@ == old(self)@.insert(key@, value),
    {
        text_table_insert(&mut self.map, key, value)
    }
}

/// `HashSet::insert`: puts an index into the set.
#[verifier::external_body]
pub(crate) fn set_insert(set: &mut FxHashSet<u32>, id: u32)
    ensures
        final(set)@ == old(set)@.insert(id),
{
    set.insert(id);
}

/// `HashSet::contains`: whether an index is in the set.
#[verifier::external_body]
pub(crate) fn set_contains(set: &FxHashSet<u32>, id: u32) -> (b: bool)
    ensures
        b == set@.contains(id),
{
    set.contains(&id)
}

/// `HashSet::iter`: hands out every member once, in an order that the set
/// decides, and comes to an end.
#[verifier::external_body]
fn set_iter<'a>(set: &'a FxHashSet<u32>) -> (iter: hash_set::Iter<'a, u32>)
    ensures
        iter.remaining().unref().to_set() == set@,
        iter.remaining().no_duplicates(),
        iter.decrease() is Some,
        iter.initial_value_relation(&iter),
{
    set.iter()
}

/// Every member of the set once, in no particular order.
pub(crate) fn set_members(set: &FxHashSet<u32>) -> (ids: Vec<u32>)
    ensures
        ids@.no_duplicates(),
        forall|id: u32| #[trigger] ids@.contains(id) <==> set@.contains(id),
{
    let mut ids: Vec<u32> = Vec::new();
    let iter = set_iter(set);
    let ghost all = iter.remaining();
    for id in it: iter
        invariant
            it.seq() == all,
            ids@.len() == it.index(),
            forall|i: int| 0 <= i < it.index() ==> #[trigger] ids@[i] == *all[i],
    {
        ids.push(*id);
    }
    proof {
        assert(ids@ =~= all.unref());
        assert forall|id: u32| #[trigger] ids@.contains(id) == set@.contains(id) by {
            assert(all.unref().to_set().contains(id) == ids@.contains(id));
        }
    }
    ids
}

} // verus!
