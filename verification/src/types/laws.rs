//! What the widths and the names of types come to.

use crate::ids::TypeId;
use crate::text::dec;
use crate::types::intern::registered;
use crate::types::query::{
    law_a_name_needs_no_more_than_the_table, nameable, nameable_within, type_text,
};
use crate::types::{fields_size, size_in, type_size, FieldView, TypeView};
use vstd::prelude::*;

verus! {

/// A type is as wide as was asked for; a sequence is as wide as its elements
/// together, one without a bound has no width.
pub proof fn law_a_type_is_as_wide_as_its_parts(t: Seq<TypeView>, i: int)
    requires
        0 <= i < t.len(),
    ensures
        ({
            let w = type_size(t, i);
            &&& t[i] matches TypeView::Int { size } ==> w == size
            &&& t[i] matches TypeView::SpaceAddress { size, space } ==> w == size
            &&& t[i] matches TypeView::Struct { name, size, fields } ==> w == size
            &&& t[i] matches TypeView::StructPointer { size, pointee } ==> w == size
            &&& t[i] is Bool ==> w == 1
            &&& t[i] matches TypeView::Array { elem, count } ==> elem.0 < i ==> w == type_size(
                t,
                elem.0 as int,
            ) * count
            &&& t[i] matches TypeView::List { elem, bound } ==> elem.0 < i ==> (match bound {
                Some(n) => w == type_size(t, elem.0 as int) * n,
                None => w == 0,
            })
        }),
{
}

/// One more field makes an aggregate wider by the width of the field; one
/// without fields has no width.
pub proof fn law_an_aggregate_is_as_wide_as_its_fields(
    t: Seq<TypeView>,
    fields: Seq<FieldView>,
    field: FieldView,
)
    requires
        field.type_id.0 < t.len(),
    ensures
        size_in(t, (TypeView::Aggregate { fields: fields.push(field) })) == size_in(
            t,
            (TypeView::Aggregate { fields }),
        ) + type_size(t, field.type_id.0 as int),
        size_in(t, (TypeView::Aggregate { fields: Seq::empty() })) == 0,
{
    lemma_prefix_size(t, fields, field, fields.len() as int);
}

proof fn lemma_prefix_size(t: Seq<TypeView>, fields: Seq<FieldView>, field: FieldView, n: int)
    requires
        0 <= n <= fields.len(),
    ensures
        fields_size(t, fields.push(field), n, t.len() as int) == fields_size(
            t,
            fields,
            n,
            t.len() as int,
        ),
    decreases n,
{
    if n > 0 {
        lemma_prefix_size(t, fields, field, n - 1);
        assert(fields.push(field)[n - 1] == fields[n - 1]);
    }
}

/// Structs are one where they have one name, other types where nothing differs;
/// that is symmetric, and carries over.
pub proof fn law_types_are_one_by_name_or_by_all(a: TypeView, b: TypeView, c: TypeView)
    ensures
        a.same_as(a),
        a.same_as(b) ==> b.same_as(a),
        a.same_as(b) && b.same_as(c) ==> a.same_as(c),
        a is Struct && b is Struct ==> (a.same_as(b) <==> a->Struct_name == b->Struct_name),
        !(a is Struct && b is Struct) ==> (a.same_as(b) <==> a == b),
{
}

/// A type that was asked for is there under its id, and the table has grown by
/// at most that one.
pub proof fn law_a_registered_type_is_there(
    t: Seq<TypeView>,
    v: TypeView,
    u: Seq<TypeView>,
    id: TypeId,
    i: int,
)
    requires
        registered(t, v, u, id),
    ensures
        id.0 < u.len(),
        u[id.0 as int].same_as(v),
        !(v is Struct) ==> u[id.0 as int] == v,
        t.len() <= u.len() <= t.len() + 1,
        0 <= i < t.len() ==> u[i] == t[i],
        0 <= i < t.len() && t[i].same_as(v) ==> u == t,
{
}

/// A pointer is called like what it points to, with a star; a sequence like its
/// element, in brackets, with its bound; a struct by its name, and everything
/// else by its width in bits.
pub proof fn law_a_type_is_called_after_its_parts(t: Seq<TypeView>, i: int)
    requires
        nameable(t, i),
    ensures
        ({
            let s = type_text(t, i);
            &&& t[i] matches TypeView::Struct { name, size, fields } ==> s == name
            &&& t[i] matches TypeView::StructPointer { size, pointee } ==> s == type_text(
                t,
                pointee.0 as int,
            ) + seq!['*']
            &&& t[i] matches TypeView::Array { elem, count } ==> s == seq!['['] + type_text(
                t,
                elem.0 as int,
            ) + seq![';'] + dec(count as nat) + seq![']']
            &&& t[i] matches TypeView::List { elem, bound: Some(n) } ==> s == seq!['['] + type_text(
                t,
                elem.0 as int,
            ) + (seq![';', '<', '='] + dec(n as nat) + seq![']'])
            &&& t[i] matches TypeView::List { elem, bound: None } ==> s == seq!['['] + type_text(
                t,
                elem.0 as int,
            ) + seq![';', '*', ']']
            &&& t[i] is Int || t[i] is SpaceAddress || t[i] is Aggregate ==> s == seq!['i'] + dec(
                (type_size(t, i) * 8) as nat,
            )
            &&& t[i] is Bool ==> s == seq!['b', 'o', 'o', 'l']
        }),
{
    reveal_strlit("*");
    reveal_strlit("[");
    reveal_strlit(";");
    reveal_strlit("]");
    reveal_strlit(";<=");
    reveal_strlit(";*]");
    reveal_strlit("i");
    reveal_strlit("bool");
    assert("*"@ =~= seq!['*']);
    assert("["@ =~= seq!['[']);
    assert(";"@ =~= seq![';']);
    assert("]"@ =~= seq![']']);
    assert(";<="@ =~= seq![';', '<', '=']);
    assert(";*]"@ =~= seq![';', '*', ']']);
    assert("i"@ =~= seq!['i']);
    assert("bool"@ =~= seq!['b', 'o', 'o', 'l']);
    let part = match t[i] {
        TypeView::StructPointer { size, pointee } => Some(pointee),
        TypeView::Array { elem, count } => Some(elem),
        TypeView::List { elem, bound } => Some(elem),
        _ => None,
    };
    if let Some(part) = part {
        assert(nameable_within(t, part.0 as int, (t.len() - 1) as nat));
        law_a_name_needs_no_more_than_the_table(t, part.0 as int, (t.len() - 1) as nat);
    }
}

} // verus!
