//! What the type table says of a type.

use crate::ids::TypeId;
use crate::insn::binop::Binop;
use crate::space::MemorySpaceId;
use crate::text::{dec, decimal};
use crate::types::{
    field_views, type_size, AggregateField, FieldView, TypeManager, TypeRepr, TypeView,
};
use vstd::prelude::*;
use vstd::string::*;

verus! {

impl TypeView {
    /// The fields of an aggregate or a struct; no other type has any.
    pub open spec fn fields(self) -> Option<Seq<FieldView>> {
        match self {
            TypeView::Aggregate { fields } => Some(fields),
            TypeView::Struct { name, size, fields } => Some(fields),
            _ => None,
        }
    }

    /// The element type of an array or a list.
    pub open spec fn element(self) -> Option<TypeId> {
        match self {
            TypeView::Array { elem, count } => Some(elem),
            TypeView::List { elem, bound } => Some(elem),
            _ => None,
        }
    }
}

/// Whether the display name of type `i` can be made from at most `d` types: all
/// of them are there, and the bit width of the innermost fits in 64 bits.
pub open spec fn nameable_within(t: Seq<TypeView>, i: int, d: nat) -> bool
    decreases d,
{
    if d == 0 || i < 0 || i >= t.len() {
        false
    } else {
        match t[i] {
            TypeView::Bool => true,
            TypeView::Struct { name, size, fields } => true,
            TypeView::StructPointer { size, pointee } => nameable_within(
                t,
                pointee.0 as int,
                (d - 1) as nat,
            ),
            TypeView::Array { elem, count } => nameable_within(t, elem.0 as int, (d - 1) as nat),
            TypeView::List { elem, bound } => nameable_within(t, elem.0 as int, (d - 1) as nat),
            _ => type_size(t, i) * 8 <= u64::MAX,
        }
    }
}

/// Whether the display name of type `i` can be made: it is not a part of
/// itself, so that no more types than the table has go into it.
pub open spec fn nameable(t: Seq<TypeView>, i: int) -> bool {
    nameable_within(t, i, t.len())
}

/// The display name of type `i`, made from at most `d` types.
pub open spec fn type_text_within(t: Seq<TypeView>, i: int, d: nat) -> Seq<char>
    decreases d,
{
    if d == 0 || i < 0 || i >= t.len() {
        Seq::empty()
    } else {
        match t[i] {
            TypeView::Bool => "bool"@,
            TypeView::Struct { name, size, fields } => name,
            TypeView::StructPointer { size, pointee } => type_text_within(
                t,
                pointee.0 as int,
                (d - 1) as nat,
            ) + "*"@,
            TypeView::Array { elem, count } => "["@ + type_text_within(
                t,
                elem.0 as int,
                (d - 1) as nat,
            ) + ";"@ + dec(count as nat) + "]"@,
            TypeView::List { elem, bound } => "["@ + type_text_within(
                t,
                elem.0 as int,
                (d - 1) as nat,
            ) + match bound {
                Some(b) => ";<="@ + dec(b as nat) + "]"@,
                None => ";*]"@,
            },
            _ => "i"@ + dec((type_size(t, i) * 8) as nat),
        }
    }
}

/// The display name of type `i`: `bool`, a struct's name, `Name*` for a
/// pointer, `[e;n]` for an array, `[e;<=n]` and `[e;*]` for a list, and
/// otherwise `i` with the width in bits.
pub open spec fn type_text(t: Seq<TypeView>, i: int) -> Seq<char> {
    type_text_within(t, i, t.len())
}

/// A name made within some number of types is made within any larger one.
proof fn lemma_named_further(t: Seq<TypeView>, i: int, d: nat, e: nat)
    requires
        nameable_within(t, i, d),
        d <= e,
    ensures
        nameable_within(t, i, e),
        type_text_within(t, i, e) == type_text_within(t, i, d),
    decreases d,
{
    match t[i] {
        TypeView::StructPointer { size, pointee } => {
            lemma_named_further(t, pointee.0 as int, (d - 1) as nat, (e - 1) as nat);
        },
        TypeView::Array { elem, count } => {
            lemma_named_further(t, elem.0 as int, (d - 1) as nat, (e - 1) as nat);
        },
        TypeView::List { elem, bound } => {
            lemma_named_further(t, elem.0 as int, (d - 1) as nat, (e - 1) as nat);
        },
        _ => {},
    }
}

/// As many types as a name needs, none of which needs more.
proof fn lemma_types_of_name(t: Seq<TypeView>, i: int, d: nat) -> (parts: Set<int>)
    requires
        nameable_within(t, i, d),
        d > 0 ==> !nameable_within(t, i, (d - 1) as nat),
    ensures
        parts.finite(),
        parts.len() == d,
        forall|k: int| #[trigger]
            parts.contains(k) ==> 0 <= k < t.len() && nameable_within(t, k, d),
    decreases d,
{
    let part = match t[i] {
        TypeView::StructPointer { size, pointee } => Some(pointee),
        TypeView::Array { elem, count } => Some(elem),
        TypeView::List { elem, bound } => Some(elem),
        _ => None,
    };
    match part {
        Some(part) => {
            let rest = lemma_types_of_name(t, part.0 as int, (d - 1) as nat);
            assert forall|k: int| #[trigger] rest.contains(k) implies nameable_within(t, k, d) by {
                lemma_named_further(t, k, (d - 1) as nat, d);
            }
            rest.insert(i)
        },
        None => {
            assert(nameable_within(t, i, 1));
            assert(d == 1) by {
                if d > 1 {
                    lemma_named_further(t, i, 1, (d - 1) as nat);
                }
            }
            Set::empty().insert(i)
        },
    }
}

/// The least number of types a name is made within.
proof fn lemma_least(t: Seq<TypeView>, i: int, d: nat) -> (least: nat)
    requires
        nameable_within(t, i, d),
    ensures
        least <= d,
        nameable_within(t, i, least),
        !nameable_within(t, i, (least - 1) as nat),
    decreases d,
{
    if nameable_within(t, i, (d - 1) as nat) {
        lemma_least(t, i, (d - 1) as nat)
    } else {
        d
    }
}

/// A name that can be made at all is made within as many types as the table
/// has, and does not depend on how many more there might have been.
pub proof fn law_a_name_needs_no_more_than_the_table(t: Seq<TypeView>, i: int, d: nat)
    requires
        nameable_within(t, i, d),
    ensures
        nameable(t, i),
        type_text(t, i) == type_text_within(t, i, d),
{
    let least = lemma_least(t, i, d);
    let parts = lemma_types_of_name(t, i, least);
    let all = vstd::set_lib::set_int_range(0, t.len() as int);
    vstd::set_lib::lemma_int_range(0, t.len() as int);
    assert(parts.subset_of(all));
    vstd::set_lib::lemma_len_subset(parts, all);
    lemma_named_further(t, i, least, t.len());
    lemma_named_further(t, i, least, d);
}

impl TypeManager {
    /// The boolean type's id, if it was registered.
    pub fn bool_id(&self) -> (id: Option<TypeId>)
        requires
            self.wf(),
        ensures
            id matches Some(id) ==> self.has(id) && self@[id.0 as int] == TypeView::Bool,
            id is None ==> !self@.contains(TypeView::Bool),
    {
        self.find(&TypeRepr::Bool)
    }

    /// The id of the struct called `name`.
    pub fn struct_by_name(&self, name: &str) -> (id: Option<TypeId>)
        requires
            self.wf(),
        ensures
            id matches Some(id) ==> self.has(id) && (self@[id.0 as int] matches TypeView::Struct {
                name: n,
                size,
                fields,
            } && n == name@),
            id is None ==> forall|i: int|
                0 <= i < self@.len() ==> !(#[trigger] self@[i] matches TypeView::Struct {
                    name: n,
                    size,
                    fields,
                } && n == name@),
    {
        match self.by_name.get(name) {
            Some(id) => Some(TypeId(id)),
            None => None,
        }
    }

    /// Whether `id` is the boolean type.
    pub fn is_bool(&self, id: TypeId) -> (b: bool)
        requires
            self.has(id),
        ensures
            b == (self@[id.0 as int] == TypeView::Bool),
    {
        match self.get(id) {
            TypeRepr::Bool => true,
            _ => false,
        }
    }

    /// The space that addresses of type `id` point into.
    pub fn space_of(&self, id: TypeId) -> (space: Option<MemorySpaceId>)
        requires
            self.has(id),
        ensures
            space == (match self@[id.0 as int] {
                TypeView::SpaceAddress { size, space } => Some(space),
                _ => None,
            }),
    {
        match self.get(id) {
            TypeRepr::SpaceAddress { space, .. } => Some(*space),
            _ => None,
        }
    }

    /// The type that pointers of type `id` point to.
    pub fn pointee_of(&self, id: TypeId) -> (pointee: Option<TypeId>)
        requires
            self.has(id),
        ensures
            pointee == (match self@[id.0 as int] {
                TypeView::StructPointer { size, pointee } => Some(pointee),
                _ => None,
            }),
    {
        match self.get(id) {
            TypeRepr::StructPointer { pointee, .. } => Some(*pointee),
            _ => None,
        }
    }

    /// The element type and the count of an array.
    pub fn array_of(&self, id: TypeId) -> (parts: Option<(TypeId, usize)>)
        requires
            self.has(id),
        ensures
            parts == (match self@[id.0 as int] {
                TypeView::Array { elem, count } => Some((elem, count)),
                _ => None,
            }),
    {
        match self.get(id) {
            TypeRepr::Array { elem, count } => Some((*elem, *count)),
            _ => None,
        }
    }

    /// The element type and the bound of a list.
    pub fn list_of(&self, id: TypeId) -> (parts: Option<(TypeId, Option<usize>)>)
        requires
            self.has(id),
        ensures
            parts == (match self@[id.0 as int] {
                TypeView::List { elem, bound } => Some((elem, bound)),
                _ => None,
            }),
    {
        match self.get(id) {
            TypeRepr::List { elem, bound } => Some((*elem, *bound)),
            _ => None,
        }
    }

    /// The element type of a sequence whose length is bounded, the bound, and
    /// whether it is a list.
    pub fn seq_of(&self, id: TypeId) -> (parts: Option<(TypeId, usize, bool)>)
        requires
            self.has(id),
        ensures
            parts == (match self@[id.0 as int] {
                TypeView::Array { elem, count } => Some((elem, count, false)),
                TypeView::List { elem, bound: Some(bound) } => Some((elem, bound, true)),
                _ => None,
            }),
    {
        match self.get(id) {
            TypeRepr::Array { elem, count } => Some((*elem, *count, false)),
            TypeRepr::List { elem, bound: Some(bound) } => Some((*elem, *bound, true)),
            _ => None,
        }
    }

    /// The element type of any sequence.
    pub fn seq_elem_of(&self, id: TypeId) -> (elem: Option<TypeId>)
        requires
            self.has(id),
        ensures
            elem == self@[id.0 as int].element(),
    {
        match self.get(id) {
            TypeRepr::Array { elem, .. } => Some(*elem),
            TypeRepr::List { elem, .. } => Some(*elem),
            _ => None,
        }
    }

    /// The name of a struct.
    pub fn struct_name_of(&self, id: TypeId) -> (name: Option<&String>)
        requires
            self.has(id),
        ensures
            match self@[id.0 as int] {
                TypeView::Struct { name: n, size, fields } => name matches Some(name) && name@ == n,
                _ => name is None,
            },
    {
        match self.get(id) {
            TypeRepr::Struct { name, .. } => Some(name),
            _ => None,
        }
    }

    /// The fields of an aggregate or a struct.
    pub fn aggregate_fields(&self, id: TypeId) -> (fields: Option<&Vec<AggregateField>>)
        requires
            self.has(id),
        ensures
            fields is Some <==> self@[id.0 as int].fields() is Some,
            fields matches Some(f) ==> self@[id.0 as int].fields() == Some(field_views(f@)),
    {
        match self.get(id) {
            TypeRepr::Aggregate { fields } => Some(fields),
            TypeRepr::Struct { fields, .. } => Some(fields),
            _ => None,
        }
    }

    /// The type of field `index`.
    pub fn field_type(&self, id: TypeId, index: usize) -> (field: Option<TypeId>)
        requires
            self.has(id),
        ensures
            field == (match self@[id.0 as int].fields() {
                Some(fields) if index < fields.len() => Some(fields[index as int].type_id),
                _ => None,
            }),
    {
        match self.aggregate_fields(id) {
            Some(fields) => {
                if index < fields.len() {
                    Some(fields[index].type_id)
                } else {
                    None
                }
            },
            None => None,
        }
    }

    /// The name of field `index`.
    pub fn field_name(&self, id: TypeId, index: usize) -> (name: Option<&String>)
        requires
            self.has(id),
        ensures
            match self@[id.0 as int].fields() {
                Some(fields) if index < fields.len() => name matches Some(name) && name@
                    == fields[index as int].name,
                _ => name is None,
            },
    {
        match self.aggregate_fields(id) {
            Some(fields) => {
                if index < fields.len() {
                    Some(&fields[index].name)
                } else {
                    None
                }
            },
            None => None,
        }
    }

    /// The position of the first field called `name`.
    pub fn field_index(&self, id: TypeId, name: &str) -> (index: Option<usize>)
        requires
            self.has(id),
        ensures
            match self@[id.0 as int].fields() {
                Some(fields) => match index {
                    Some(i) => i < fields.len() && fields[i as int].name == name@ && forall|k: int|
                        0 <= k < i ==> (#[trigger] fields[k]).name != name@,
                    None => forall|k: int|
                        0 <= k < fields.len() ==> (#[trigger] fields[k]).name != name@,
                },
                None => index is None,
            },
    {
        match self.aggregate_fields(id) {
            Some(fields) => {
                let wanted = String::from_str(name);
                let ghost views = field_views(fields@);
                let mut i: usize = 0;
                while i < fields.len()
                    invariant
                        i <= fields.len(),
                        self@[id.0 as int].fields() == Some(views),
                        views == field_views(fields@),
                        wanted@ == name@,
                        forall|k: int| 0 <= k < i ==> (#[trigger] views[k]).name != name@,
                    decreases fields.len() - i,
                {
                    proof {
                        assert(views[i as int] == fields@[i as int]@);
                    }
                    if fields[i].name == wanted {
                        return Some(i);
                    }
                    i = i + 1;
                }
                None
            },
            None => None,
        }
    }

    /// The first field at byte `offset`, with its position.
    pub fn field_by_offset(&self, id: TypeId, offset: usize) -> (found: Option<
        (usize, &AggregateField),
    >)
        requires
            self.has(id),
        ensures
            match self@[id.0 as int].fields() {
                Some(fields) => match found {
                    Some((i, field)) => i < fields.len() && field@ == fields[i as int]
                        && field.offset == offset && forall|k: int|
                        0 <= k < i ==> (#[trigger] fields[k]).offset != offset,
                    None => forall|k: int|
                        0 <= k < fields.len() ==> (#[trigger] fields[k]).offset != offset,
                },
                None => found is None,
            },
    {
        match self.aggregate_fields(id) {
            Some(fields) => {
                let ghost views = field_views(fields@);
                let mut i: usize = 0;
                while i < fields.len()
                    invariant
                        i <= fields.len(),
                        self@[id.0 as int].fields() == Some(views),
                        views == field_views(fields@),
                        forall|k: int| 0 <= k < i ==> (#[trigger] views[k]).offset != offset,
                    decreases fields.len() - i,
                {
                    proof {
                        assert(views[i as int] == fields@[i as int]@);
                    }
                    if fields[i].offset == offset {
                        return Some((i, &fields[i]));
                    }
                    i = i + 1;
                }
                None
            },
            None => None,
        }
    }

    /// The display name of type `id`.
    pub fn display_name(&self, id: TypeId) -> (text: String)
        requires
            self.wf(),
            nameable(self@, id.0 as int),
        ensures
            text@ == type_text(self@, id.0 as int),
    {
        self.name_within(id, Ghost(self@.len()))
    }

    /// The display name of type `id`, made from at most `d` types.
    fn name_within(&self, id: TypeId, Ghost(d): Ghost<nat>) -> (text: String)
        requires
            self.wf(),
            nameable_within(self@, id.0 as int, d),
        ensures
            text@ == type_text_within(self@, id.0 as int, d),
        decreases d,
    {
        match self.get(id) {
            TypeRepr::Bool => String::from_str("bool"),
            TypeRepr::Struct { name, .. } => String::from_str(name.as_str()),
            TypeRepr::StructPointer { pointee, .. } => {
                let mut text = self.name_within(*pointee, Ghost((d - 1) as nat));
                text.append("*");
                text
            },
            TypeRepr::Array { elem, count } => {
                let inner = self.name_within(*elem, Ghost((d - 1) as nat));
                let n = decimal(*count as u64);
                let mut text = String::from_str("[");
                text.append(inner.as_str());
                text.append(";");
                text.append(n.as_str());
                text.append("]");
                text
            },
            TypeRepr::List { elem, bound } => {
                let inner = self.name_within(*elem, Ghost((d - 1) as nat));
                let mut text = String::from_str("[");
                text.append(inner.as_str());
                match bound {
                    Some(b) => {
                        let n = decimal(*b as u64);
                        text.append(";<=");
                        text.append(n.as_str());
                        text.append("]");
                        proof {
                            assert(text@ =~= type_text_within(self@, id.0 as int, d));
                        }
                    },
                    None => {
                        text.append(";*]");
                    },
                }
                text
            },
            _ => {
                let size: usize = self.size_of(id);
                let n = decimal((size as u64) * 8);
                let mut text = String::from_str("i");
                text.append(n.as_str());
                text
            },
        }
    }

    /// The type of the result of `lhs op rhs`: a boolean for a comparison, the
    /// type of `lhs` otherwise; `None` where that is a boolean and none was
    /// registered yet.
    pub fn binop_result_probe(&self, lhs: TypeId, op: Binop) -> (id: Option<TypeId>)
        requires
            self.wf(),
        ensures
            !op.compares() ==> id == Some(lhs),
            op.compares() ==> match id {
                Some(id) => self.has(id) && self@[id.0 as int] == TypeView::Bool,
                None => !self@.contains(TypeView::Bool),
            },
    {
        if op.is_comparison() {
            self.bool_id()
        } else {
            Some(lhs)
        }
    }
}

} // verus!
