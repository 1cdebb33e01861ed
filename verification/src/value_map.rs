//! A map from values to values.

use crate::fx::KeyMap;
use crate::value::ValueId;
use vstd::prelude::*;

verus! {

/// The number under which a value is kept.
pub open spec fn packed(id: ValueId) -> int {
    match id {
        ValueId::Literal(id) => id.0 as int,
        ValueId::Bytes(id) => 0x1_0000_0000_0000_0000_0000_0000 + id.0,
        ValueId::Varnode(id) => 0x2_0000_0000_0000_0000_0000_0000 + id.0,
        ValueId::Poison(id) => 0x3_0000_0000_0000_0000_0000_0000 + id.0,
        ValueId::Function(id) => 0x4_0000_0000_0000_0000_0000_0000 + id.0,
        ValueId::Instruction(id) => 0x5_0000_0000_0000_0000_0000_0000 + id.func.0
            * 0x1_0000_0000_0000_0000 + id.local.0,
        ValueId::BasicBlock(id) => 0x6_0000_0000_0000_0000_0000_0000 + id.func.0
            * 0x1_0000_0000_0000_0000 + id.local.0,
        ValueId::BlockParam(id) => 0x7_0000_0000_0000_0000_0000_0000 + id.func.0
            * 0x1_0000_0000_0000_0000 + id.local.0,
        ValueId::Temp(id) => 0x8_0000_0000_0000_0000_0000_0000 + id.func.0
            * 0x1_0000_0000_0000_0000 + id.local.0,
    }
}

/// A number is that of one value.
proof fn lemma_packed(a: ValueId, b: ValueId)
    ensures
        0 <= packed(a) <= u128::MAX,
        packed(a) == packed(b) ==> a == b,
{
}

fn pack(id: ValueId) -> (key: u128)
    ensures
        key == packed(id),
{
    match id {
        ValueId::Literal(id) => id.0 as u128,
        ValueId::Bytes(id) => 0x1_0000_0000_0000_0000_0000_0000 + id.0 as u128,
        ValueId::Varnode(id) => 0x2_0000_0000_0000_0000_0000_0000 + id.0 as u128,
        ValueId::Poison(id) => 0x3_0000_0000_0000_0000_0000_0000 + id.0 as u128,
        ValueId::Function(id) => 0x4_0000_0000_0000_0000_0000_0000 + id.0 as u128,
        ValueId::Instruction(id) => 0x5_0000_0000_0000_0000_0000_0000 + id.func.0 as u128
            * 0x1_0000_0000_0000_0000 + id.local.0 as u128,
        ValueId::BasicBlock(id) => 0x6_0000_0000_0000_0000_0000_0000 + id.func.0 as u128
            * 0x1_0000_0000_0000_0000 + id.local.0 as u128,
        ValueId::BlockParam(id) => 0x7_0000_0000_0000_0000_0000_0000 + id.func.0 as u128
            * 0x1_0000_0000_0000_0000 + id.local.0 as u128,
        ValueId::Temp(id) => 0x8_0000_0000_0000_0000_0000_0000 + id.func.0 as u128
            * 0x1_0000_0000_0000_0000 + id.local.0 as u128,
    }
}

/// A map from values to values.
pub struct ValueMap {
    pub map: KeyMap<ValueId>,
}

impl View for ValueMap {
    type V = Map<ValueId, ValueId>;

    open spec fn view(&self) -> Map<ValueId, ValueId> {
        Map::new(
            |id: ValueId| self.map@.contains_key(packed(id) as u128),
            |id: ValueId| self.map@[packed(id) as u128],
        )
    }
}

impl ValueMap {
    pub fn new() -> (map: Self)
        ensures
            map@ == Map::<ValueId, ValueId>::empty(),
    {
        let map = ValueMap { map: KeyMap::new() };
        proof {
            assert(map@ =~= Map::<ValueId, ValueId>::empty());
        }
        map
    }

    /// What `id` is mapped to.
    pub fn get(&self, id: ValueId) -> (value: Option<ValueId>)
        ensures
            value == (if self@.contains_key(id) {
                Some(self@[id])
            } else {
                None
            }),
    {
        proof {
            lemma_packed(id, id);
        }
        self.map.get(pack(id))
    }

    /// Maps `id` to `value`, whatever it was mapped to before.
    pub fn insert(&mut self, id: ValueId, value: ValueId)
        ensures
            final(self)@ == old(self)@.insert(id, value),
    {
        self.map.insert(pack(id), value);
        proof {
            lemma_packed(id, id);
            assert forall|other: ValueId| packed(other) as u128 == packed(id) as u128 implies other
                == id by {
                lemma_packed(other, id);
                lemma_packed(id, other);
            }
            assert(self@ =~= old(self)@.insert(id, value));
        }
    }
}

} // verus!
