//! The constructors of types.

use crate::ids::TypeId;
use crate::insn::binop::Binop;
use crate::space::MemorySpaceId;
use crate::text::{dec, decimal, law_digits_are_unique};
use crate::types::intern::{known, registered, room_for};
use crate::types::{
    admissible, field_views, names_differ, table_ok, AggregateField, FieldView, TypeManager,
    TypeRepr, TypeView,
};
use vstd::prelude::*;
use vstd::string::*;

verus! {

/// The fields `field1`, `field2` and so on, of the given types.
pub open spec fn default_fields(types: Seq<TypeId>) -> Seq<FieldView> {
    Seq::new(
        types.len(),
        |i: int|
            FieldView { name: "field"@ + dec((i + 1) as nat), type_id: types[i], offset: 0 },
    )
}

fn default_named_fields(types: &Vec<TypeId>) -> (fields: Vec<AggregateField>)
    ensures
        field_views(fields@) == default_fields(types@),
{
    let mut fields: Vec<AggregateField> = Vec::new();
    let mut i: usize = 0;
    while i < types.len()
        invariant
            i <= types.len(),
            fields.len() == i,
            forall|k: int|
                0 <= k < i ==> (#[trigger] fields@[k])@ == default_fields(types@)[k],
        decreases types.len() - i,
    {
        let mut name = String::from_str("field");
        let number = decimal(i as u64 + 1);
        name.append(number.as_str());
        fields.push(AggregateField::new(name, types[i]));
        i = i + 1;
    }
    proof {
        assert(field_views(fields@) =~= default_fields(types@));
    }
    fields
}

/// The default names differ.
pub proof fn law_default_field_names_differ(types: Seq<TypeId>)
    ensures
        names_differ(default_fields(types)),
{
    let f = default_fields(types);
    assert forall|i: int, j: int| 0 <= i < j < f.len() implies (#[trigger] f[i]).name != (
    #[trigger] f[j]).name by {
        let p = "field"@;
        let a = dec((i + 1) as nat);
        let b = dec((j + 1) as nat);
        if f[i].name == f[j].name {
            assert((p + a).skip(p.len() as int) =~= a);
            assert((p + b).skip(p.len() as int) =~= b);
            law_digits_are_unique((i + 1) as nat, (j + 1) as nat, 10);
        }
    }
}

/// A type has one id: two ids of types that are one are equal.
pub proof fn law_a_type_has_one_id(types: TypeManager, a: TypeId, b: TypeId)
    requires
        types.wf(),
        types.has(a),
        types.has(b),
        types@[a.0 as int].same_as(types@[b.0 as int]),
    ensures
        a == b,
{
    let x = types@[a.0 as int];
    let y = types@[b.0 as int];
    assert(y.same_as(x));
}

/// Asking for a type twice gives one id, and the second time changes nothing.
pub proof fn law_a_second_request_changes_nothing(
    t: Seq<TypeView>,
    v: TypeView,
    u: Seq<TypeView>,
    first: TypeId,
    w: Seq<TypeView>,
    second: TypeId,
)
    requires
        registered(t, v, u, first),
        registered(u, v, w, second),
        table_ok(u),
    ensures
        w == u,
        first == second,
{
    assert(u[first.0 as int].same_as(v));
    assert(known(u, v));
    let x = u[first.0 as int];
    let y = u[second.0 as int];
    assert(x.same_as(y) && y.same_as(x));
}

/// What was registered stays: every id keeps its type.
pub proof fn law_ids_keep_their_types(
    t: Seq<TypeView>,
    v: TypeView,
    u: Seq<TypeView>,
    id: TypeId,
    other: TypeId,
)
    requires
        registered(t, v, u, id),
        other.0 < t.len(),
    ensures
        other.0 < u.len(),
        u[other.0 as int] == t[other.0 as int],
{
}

impl TypeManager {
    /// The integer type of `size` bytes.
    pub fn get_or_make_int(&mut self, size: usize) -> (id: TypeId)
        requires
            old(self).wf(),
            room_for(old(self)@, (TypeView::Int { size })),
        ensures
            final(self).wf(),
            registered(old(self)@, (TypeView::Int { size }), final(self)@, id),
    {
        self.intern(TypeRepr::Int { size })
    }

    /// The boolean type.
    pub fn get_or_make_bool(&mut self) -> (id: TypeId)
        requires
            old(self).wf(),
            room_for(old(self)@, TypeView::Bool),
        ensures
            final(self).wf(),
            registered(old(self)@, TypeView::Bool, final(self)@, id),
    {
        self.intern(TypeRepr::Bool)
    }

    /// The type of addresses of `size` bytes in `space`.
    pub fn get_or_make_space_address(&mut self, size: usize, space: MemorySpaceId) -> (id: TypeId)
        requires
            old(self).wf(),
            room_for(old(self)@, (TypeView::SpaceAddress { size, space })),
        ensures
            final(self).wf(),
            registered(old(self)@, (TypeView::SpaceAddress { size, space }), final(self)@, id),
    {
        self.intern(TypeRepr::SpaceAddress { size, space })
    }

    /// The aggregate of `fields`, whose names differ.
    pub fn get_or_make_named_aggregate(&mut self, fields: Vec<AggregateField>) -> (id: TypeId)
        requires
            old(self).wf(),
            room_for(old(self)@, (TypeView::Aggregate { fields: field_views(fields@) })),
            admissible(old(self)@, (TypeView::Aggregate { fields: field_views(fields@) })),
        ensures
            final(self).wf(),
            registered(
                old(self)@,
                (TypeView::Aggregate { fields: field_views(fields@) }),
                final(self)@,
                id,
            ),
    {
        self.intern(TypeRepr::Aggregate { fields })
    }

    /// The aggregate of fields of the given types, under their default names.
    pub fn get_or_make_aggregate(&mut self, types: Vec<TypeId>) -> (id: TypeId)
        requires
            old(self).wf(),
            room_for(old(self)@, (TypeView::Aggregate { fields: default_fields(types@) })),
            forall|k: int| 0 <= k < types@.len() ==> old(self).has(#[trigger] types@[k]),
            crate::types::size_in(
                old(self)@,
                (TypeView::Aggregate { fields: default_fields(types@) }),
            ) <= usize::MAX,
        ensures
            final(self).wf(),
            registered(
                old(self)@,
                (TypeView::Aggregate { fields: default_fields(types@) }),
                final(self)@,
                id,
            ),
    {
        let fields = default_named_fields(&types);
        proof {
            law_default_field_names_differ(types@);
            let f = default_fields(types@);
            assert forall|k: int| 0 <= k < f.len() implies (#[trigger] f[k]).type_id.0
                < self@.len() by {
                assert(f[k].type_id == types@[k]);
            }
        }
        self.get_or_make_named_aggregate(fields)
    }

    /// The struct called `name`; where there is one, its size and its fields
    /// stay what they are.
    pub fn get_or_make_struct(
        &mut self,
        name: String,
        size: usize,
        fields: Vec<AggregateField>,
    ) -> (id: TypeId)
        requires
            old(self).wf(),
            room_for(old(self)@, (TypeView::Struct { name: name@, size, fields: field_views(fields@) })),
        ensures
            final(self).wf(),
            registered(
                old(self)@,
                (TypeView::Struct { name: name@, size, fields: field_views(fields@) }),
                final(self)@,
                id,
            ),
    {
        self.intern(TypeRepr::Struct { name, size, fields })
    }

    /// The type of pointers of `size` bytes to `pointee`.
    pub fn get_or_make_struct_pointer(&mut self, size: usize, pointee: TypeId) -> (id: TypeId)
        requires
            old(self).wf(),
            room_for(old(self)@, (TypeView::StructPointer { size, pointee })),
        ensures
            final(self).wf(),
            registered(old(self)@, (TypeView::StructPointer { size, pointee }), final(self)@, id),
    {
        self.intern(TypeRepr::StructPointer { size, pointee })
    }

    /// The type of sequences of exactly `count` elements.
    pub fn get_or_make_array(&mut self, elem: TypeId, count: usize) -> (id: TypeId)
        requires
            old(self).wf(),
            room_for(old(self)@, (TypeView::Array { elem, count })),
            admissible(old(self)@, (TypeView::Array { elem, count })),
        ensures
            final(self).wf(),
            registered(old(self)@, (TypeView::Array { elem, count }), final(self)@, id),
    {
        self.intern(TypeRepr::Array { elem, count })
    }

    /// The type of sequences of at most `bound` elements.
    pub fn get_or_make_list(&mut self, elem: TypeId, bound: usize) -> (id: TypeId)
        requires
            old(self).wf(),
            room_for(old(self)@, (TypeView::List { elem, bound: Some(bound) })),
            admissible(old(self)@, (TypeView::List { elem, bound: Some(bound) })),
        ensures
            final(self).wf(),
            registered(
                old(self)@,
                (TypeView::List { elem, bound: Some(bound) }),
                final(self)@,
                id,
            ),
    {
        self.intern(TypeRepr::List { elem, bound: Some(bound) })
    }

    /// The type of sequences of any number of elements.
    pub fn get_or_make_unbounded_list(&mut self, elem: TypeId) -> (id: TypeId)
        requires
            old(self).wf(),
            room_for(old(self)@, (TypeView::List { elem, bound: None })),
        ensures
            final(self).wf(),
            registered(old(self)@, (TypeView::List { elem, bound: None }), final(self)@, id),
    {
        self.intern(TypeRepr::List { elem, bound: None })
    }

    /// The array or, where `is_list` says so, the bounded list of `len`
    /// elements.
    pub fn get_or_make_seq(&mut self, elem: TypeId, len: usize, is_list: bool) -> (id: TypeId)
        requires
            old(self).wf(),
            room_for(old(self)@, seq_view(elem, len, is_list)),
            admissible(old(self)@, seq_view(elem, len, is_list)),
        ensures
            final(self).wf(),
            registered(old(self)@, seq_view(elem, len, is_list), final(self)@, id),
    {
        if is_list {
            self.get_or_make_list(elem, len)
        } else {
            self.get_or_make_array(elem, len)
        }
    }

    /// The type of the result of `lhs op rhs`: a boolean, registered if need
    /// be, for a comparison; the type of `lhs` otherwise.
    pub fn binop_result(&mut self, lhs: TypeId, op: Binop, rhs: TypeId) -> (id: TypeId)
        requires
            old(self).wf(),
            op.compares() ==> room_for(old(self)@, TypeView::Bool),
        ensures
            final(self).wf(),
            if op.compares() {
                registered(old(self)@, TypeView::Bool, final(self)@, id)
            } else {
                final(self)@ == old(self)@ && id == lhs
            },
    {
        match self.binop_result_probe(lhs, op) {
            Some(id) => {
                proof {
                    if op.compares() {
                        assert(self@[id.0 as int].same_as(TypeView::Bool));
                    }
                }
                id
            },
            None => self.get_or_make_bool(),
        }
    }
}

/// The array or the bounded list of `len` elements.
pub open spec fn seq_view(elem: TypeId, len: usize, is_list: bool) -> TypeView {
    if is_list {
        TypeView::List { elem, bound: Some(len) }
    } else {
        TypeView::Array { elem, count: len }
    }
}

} // verus!
