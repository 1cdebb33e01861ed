//! Registering types.

use crate::ids::TypeId;
use crate::types::{
    admissible, field_views, fields_size, lemma_fields_stable, lemma_key, lemma_size_in,
    lemma_size_stable, size_in, type_size, AggregateField, FieldView, TypeEntry, TypeManager,
    TypeRepr, TypeView,
};
use vstd::prelude::*;
use vstd::string::*;

verus! {

/// Whether two lists of fields are equal.
fn same_fields(a: &Vec<AggregateField>, b: &Vec<AggregateField>) -> (same: bool)
    ensures
        same == (field_views(a@) == field_views(b@)),
{
    let ghost x = field_views(a@);
    let ghost y = field_views(b@);
    if a.len() != b.len() {
        proof {
            assert(x.len() != y.len());
        }
        return false;
    }
    let mut i: usize = 0;
    while i < a.len()
        invariant
            i <= a.len(),
            a.len() == b.len(),
            x == field_views(a@),
            y == field_views(b@),
            forall|k: int| 0 <= k < i ==> x[k] == y[k],
        decreases a.len() - i,
    {
        proof {
            assert(x[i as int] == a@[i as int]@);
            assert(y[i as int] == b@[i as int]@);
        }
        if a[i].type_id != b[i].type_id || a[i].offset != b[i].offset || !(a[i].name == b[i].name) {
            return false;
        }
        i = i + 1;
    }
    proof {
        assert(x =~= y);
    }
    true
}

impl TypeRepr {
    /// The number that identifies the type, where a number can.
    fn exec_key(&self) -> (key: Option<u128>)
        ensures
            match self@.key() {
                Some(k) => key == Some(k as u128),
                None => key is None,
            },
    {
        proof {
            lemma_key(self@, self@);
        }
        match self {
            TypeRepr::Int { size } => Some(*size as u128),
            TypeRepr::Bool => Some(0x1_0000_0000_0000_0000_0000_0000_0000),
            TypeRepr::StructPointer { size, pointee } => Some(
                0x2_0000_0000_0000_0000_0000_0000_0000 + *size as u128 * 0x1_0000_0000
                    + pointee.0 as u128,
            ),
            TypeRepr::Array { elem, count } => Some(
                0x3_0000_0000_0000_0000_0000_0000_0000 + elem.0 as u128 * 0x1_0000_0000_0000_0000
                    + *count as u128,
            ),
            TypeRepr::List { elem, bound } => {
                let low: u128 = match bound {
                    Some(b) => *b as u128,
                    None => 0x1_0000_0000_0000_0000,
                };
                Some(
                    0x4_0000_0000_0000_0000_0000_0000_0000 + elem.0 as u128
                        * 0x4_0000_0000_0000_0000 + low,
                )
            },
            _ => None,
        }
    }
}

impl TypeManager {
    /// The id of `wanted`, if it was registered.
    pub fn find(&self, wanted: &TypeRepr) -> (id: Option<TypeId>)
        requires
            self.wf(),
        ensures
            match id {
                Some(id) => self.has(id) && self@[id.0 as int].same_as(wanted@),
                None => forall|i: int|
                    0 <= i < self@.len() ==> !(#[trigger] self@[i]).same_as(wanted@),
            },
    {
        if let Some(key) = wanted.exec_key() {
            proof {
                assert forall|i: int|
                    0 <= i < self@.len() && self@[i].key() == wanted@.key() implies self@[i]
                    == wanted@ by {
                    lemma_key(self@[i], wanted@);
                    lemma_key(wanted@, wanted@);
                }
            }
            return match self.by_key.get(key) {
                Some(id) => Some(TypeId(id)),
                None => None,
            };
        }
        if let TypeRepr::Struct { name, .. } = wanted {
            return match self.by_name.get(name.as_str()) {
                Some(id) => Some(TypeId(id)),
                None => None,
            };
        }
        let mut i: usize = 0;
        while i < self.entries.len()
            invariant
                self.wf(),
                i <= self.entries.len(),
                wanted@ is SpaceAddress || wanted@ is Aggregate,
                forall|k: int| 0 <= k < i ==> !(#[trigger] self@[k]).same_as(wanted@),
            decreases self.entries.len() - i,
        {
            proof {
                assert(self@[i as int] == self.entries@[i as int].repr@);
            }
            let same = match (&self.entries[i].repr, wanted) {
                (
                    TypeRepr::SpaceAddress { size, space },
                    TypeRepr::SpaceAddress { size: wanted_size, space: wanted_space },
                ) => *size == *wanted_size && *space == *wanted_space,
                (
                    TypeRepr::Aggregate { fields },
                    TypeRepr::Aggregate { fields: wanted_fields },
                ) => same_fields(fields, wanted_fields),
                _ => false,
            };
            if same {
                return Some(TypeId(i as u32));
            }
            i = i + 1;
        }
        None
    }

    /// The width in bytes that a new type would have, if it can be built over
    /// this table.
    pub fn measure(&self, repr: &TypeRepr) -> (size: Option<usize>)
        requires
            self.wf(),
        ensures
            size is Some <==> admissible(self@, repr@),
            size matches Some(size) ==> size == size_in(self@, repr@),
    {
        let ghost t = self@;
        let ghost u = self@.push(repr@);
        let ghost n = self@.len() as int;
        proof {
            assert forall|i: int| 0 <= i < n implies type_size(u, i) == #[trigger] type_size(t, i)
                && type_size(t, i) >= 0 by {
                lemma_size_stable(t, u, i);
            }
            assert(u[n] == repr@);
        }
        match repr {
            TypeRepr::Int { size } => Some(*size),
            TypeRepr::Bool => Some(1),
            TypeRepr::SpaceAddress { size, .. } => Some(*size),
            TypeRepr::Struct { size, .. } => Some(*size),
            TypeRepr::StructPointer { size, .. } => Some(*size),
            TypeRepr::Array { elem, count } => {
                if elem.0 as usize >= self.entries.len() {
                    return None;
                }
                let width: usize = self.size_of(*elem);
                width.checked_mul(*count)
            },
            TypeRepr::List { elem, bound } => {
                match bound {
                    Some(b) => {
                        if elem.0 as usize >= self.entries.len() {
                            return None;
                        }
                        let width: usize = self.size_of(*elem);
                        width.checked_mul(*b)
                    },
                    None => Some(0),
                }
            },
            TypeRepr::Aggregate { fields } => self.measure_fields(fields),
        }
    }

    /// The sum of the widths of `fields`, if an aggregate of them can be built
    /// over this table.
    fn measure_fields(&self, fields: &Vec<AggregateField>) -> (size: Option<usize>)
        requires
            self.wf(),
        ensures
            size is Some <==> admissible(
                self@,
                (TypeView::Aggregate { fields: field_views(fields@) }),
            ),
            size matches Some(size) ==> size == size_in(
                self@,
                (TypeView::Aggregate { fields: field_views(fields@) }),
            ),
    {
        let ghost f = field_views(fields@);
        let ghost v = TypeView::Aggregate { fields: f };
        let ghost t = self@;
        let ghost u = self@.push(v);
        let ghost n = self@.len() as int;
        proof {
            assert forall|i: int| 0 <= i < n implies type_size(u, i) == #[trigger] type_size(t, i)
                && type_size(t, i) >= 0 by {
                lemma_size_stable(t, u, i);
            }
            assert(u[n] == v);
            lemma_size_in(t, v);
        }
        let mut total: usize = 0;
        let mut i: usize = 0;
        while i < fields.len()
            invariant
                self.wf(),
                t == self@,
                u == t.push(v),
                n == t.len(),
                type_size(u, n) == size_in(t, v),
                v == (TypeView::Aggregate { fields: f }),
                f == field_views(fields@),
                i <= fields.len(),
                total == fields_size(u, f, i as int, n),
                forall|k: int| 0 <= k < i ==> (#[trigger] f[k]).type_id.0 < n,
                forall|a: int, b: int|
                    0 <= a < b < i ==> (#[trigger] f[a]).name != (#[trigger] f[b]).name,
                forall|k: int|
                    0 <= k < n ==> type_size(u, k) == #[trigger] type_size(t, k) && type_size(t, k)
                        >= 0,
            decreases fields.len() - i,
        {
            proof {
                assert(f[i as int] == fields@[i as int]@);
                lemma_partial_size(u, f, i as int + 1, f.len() as int, n);
            }
            if fields[i].type_id.0 as usize >= self.entries.len() {
                return None;
            }
            let mut j: usize = 0;
            while j < i
                invariant
                    j <= i < fields.len(),
                    f == field_views(fields@),
                    f[i as int] == fields@[i as int]@,
                    v == (TypeView::Aggregate { fields: f }),
                    forall|a: int| 0 <= a < j ==> (#[trigger] f[a]).name != f[i as int].name,
                decreases i - j,
            {
                proof {
                    assert(f[j as int] == fields@[j as int]@);
                }
                if fields[j].name == fields[i].name {
                    return None;
                }
                j = j + 1;
            }
            let width: usize = self.size_of(fields[i].type_id);
            match total.checked_add(width) {
                Some(sum) => {
                    total = sum;
                },
                None => {
                    return None;
                },
            }
            i = i + 1;
        }
        Some(total)
    }

    /// Registers a type, or finds it: the id of the type `repr`.
    pub fn intern(&mut self, repr: TypeRepr) -> (id: TypeId)
        requires
            old(self).wf(),
            room_for(old(self)@, repr@),
            admissible(old(self)@, repr@),
        ensures
            final(self).wf(),
            registered(old(self)@, repr@, final(self)@, id),
    {
        if let Some(id) = self.find(&repr) {
            return id;
        }
        let measured = self.measure(&repr);
        let size: usize = match measured {
            Some(size) => size,
            None => 0,
        };
        let ghost before = *self;
        let ghost v = repr@;
        let index: u32 = self.entries.len() as u32;
        if let Some(key) = repr.exec_key() {
            proof {
                lemma_key(v, v);
            }
            self.by_key.insert(key, index);
        }
        if let TypeRepr::Struct { name, .. } = &repr {
            self.by_name.insert(String::from_str(name.as_str()), index);
        }
        self.entries.push(TypeEntry { repr, size });
        proof {
            let t = before@;
            let u = self@;
            assert(u =~= t.push(v));
            lemma_size_in(t, v);
            assert forall|i: int| 0 <= i < u.len() implies admissible(u.take(i), #[trigger] u[i]) by {
                if i < t.len() {
                    assert(u.take(i) =~= t.take(i));
                    assert(admissible(t.take(i), t[i]));
                } else {
                    assert(u.take(i) =~= t);
                }
            }
            assert forall|i: int| 0 <= i < self.entries@.len() implies (
            #[trigger] self.entries@[i]).size == type_size(u, i) by {
                if i < t.len() {
                    lemma_size_stable(t, u, i);
                    assert(self.entries@[i] == before.entries@[i]);
                }
            }
            assert forall|i: int| 0 <= i < u.len() implies ((#[trigger] u[i]).key() matches Some(k)
                ==> self.by_key@.contains_key(k as u128) && self.by_key@[k as u128] == i) by {
                lemma_key(u[i], v);
                lemma_key(v, v);
                if i < t.len() {
                    assert(u[i] == t[i]);
                    assert(!t[i].same_as(v));
                }
            }
            assert forall|i: int| 0 <= i < t.len() implies #[trigger] u[i] == t[i] by {}
        }
        TypeId(index)
    }
}

/// Whether the type `v` is in the table `t`.
pub open spec fn known(t: Seq<TypeView>, v: TypeView) -> bool {
    exists|i: int| 0 <= i < t.len() && (#[trigger] t[i]).same_as(v)
}

/// Whether the type `v` is in the table `t`, or there is room for it.
pub open spec fn room_for(t: Seq<TypeView>, v: TypeView) -> bool {
    t.len() < u32::MAX || known(t, v)
}

/// `u` is the table `t` once the type `v` is asked for, and `id` the type's
/// id in it.
pub open spec fn registered(t: Seq<TypeView>, v: TypeView, u: Seq<TypeView>, id: TypeId) -> bool {
    &&& u == (if known(t, v) {
        t
    } else {
        t.push(v)
    })
    &&& id.0 < u.len()
    &&& u[id.0 as int].same_as(v)
}

/// A part of the fields is no wider than all of them.
proof fn lemma_partial_size(
    u: Seq<TypeView>,
    f: Seq<FieldView>,
    a: int,
    b: int,
    limit: int,
)
    requires
        0 <= a <= b,
        0 <= limit < u.len(),
    ensures
        0 <= fields_size(u, f, a, limit) <= fields_size(u, f, b, limit) || b > f.len(),
    decreases b - a,
{
    lemma_fields_stable(u, u, f, a, limit);
    if a < b && b <= f.len() {
        lemma_partial_size(u, f, a, b - 1, limit);
        if f[b - 1].type_id.0 < limit {
            lemma_size_stable(u, u, f[b - 1].type_id.0 as int);
        }
    }
}

} // verus!
