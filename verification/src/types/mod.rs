//! The type table.
//!
//! A type is registered once and named by a [`TypeId`] from then on; the table
//! only grows, and asking for a type that is there gives the id it has. A
//! nominal struct is identified by its name; every other type by what it is.
//! A type's parts come before it in the table.

pub mod intern;
pub mod laws;
pub mod make;
pub mod query;
pub mod replay;

use crate::fx::{KeyMap, TextIndex};
use crate::ids::TypeId;
use crate::space::MemorySpaceId;
use vstd::prelude::*;
use vstd::string::*;

verus! {

/// A named, typed field of an aggregate or struct.
#[derive(Clone, Debug, PartialEq, Eq)]
pub struct AggregateField {
    pub name: String,
    pub type_id: TypeId,
    /// The byte offset within a struct; 0 in an aggregate.
    pub offset: usize,
}

/// What a field is.
pub struct FieldView {
    pub name: Seq<char>,
    pub type_id: TypeId,
    pub offset: usize,
}

impl View for AggregateField {
    type V = FieldView;

    open spec fn view(&self) -> FieldView {
        FieldView { name: self.name@, type_id: self.type_id, offset: self.offset }
    }
}

impl AggregateField {
    /// A field without an offset.
    pub fn new(name: String, type_id: TypeId) -> (field: Self)
        ensures
            field@ == (FieldView { name: name@, type_id, offset: 0 }),
    {
        AggregateField { name, type_id, offset: 0 }
    }

    /// A field at a byte offset.
    pub fn new_at(name: String, type_id: TypeId, offset: usize) -> (field: Self)
        ensures
            field@ == (FieldView { name: name@, type_id, offset }),
    {
        AggregateField { name, type_id, offset }
    }

    pub(crate) fn copy(&self) -> (field: Self)
        ensures
            field@ == self@,
    {
        AggregateField {
            name: String::from_str(self.name.as_str()),
            type_id: self.type_id,
            offset: self.offset,
        }
    }
}

/// A type.
#[derive(Debug)]
pub enum TypeRepr {
    /// A sized integer.
    Int { size: usize },
    /// A byte whose value is 0 or 1.
    Bool,
    /// A pointer into a memory space.
    SpaceAddress { size: usize, space: MemorySpaceId },
    /// An ordered group of named fields.
    Aggregate { fields: Vec<AggregateField> },
    /// A nominal struct.
    Struct { name: String, size: usize, fields: Vec<AggregateField> },
    /// A pointer to a type.
    StructPointer { size: usize, pointee: TypeId },
    /// A sequence of a fixed number of elements.
    Array { elem: TypeId, count: usize },
    /// A sequence of at most so many elements, or of any number.
    List { elem: TypeId, bound: Option<usize> },
}

/// What a type is.
pub enum TypeView {
    Int { size: usize },
    Bool,
    SpaceAddress { size: usize, space: MemorySpaceId },
    Aggregate { fields: Seq<FieldView> },
    Struct { name: Seq<char>, size: usize, fields: Seq<FieldView> },
    StructPointer { size: usize, pointee: TypeId },
    Array { elem: TypeId, count: usize },
    List { elem: TypeId, bound: Option<usize> },
}

/// What a list of fields is.
pub open spec fn field_views(fields: Seq<AggregateField>) -> Seq<FieldView> {
    fields.map_values(|f: AggregateField| f@)
}

impl View for TypeRepr {
    type V = TypeView;

    open spec fn view(&self) -> TypeView {
        match self {
            TypeRepr::Int { size } => TypeView::Int { size: *size },
            TypeRepr::Bool => TypeView::Bool,
            TypeRepr::SpaceAddress { size, space } => TypeView::SpaceAddress {
                size: *size,
                space: *space,
            },
            TypeRepr::Aggregate { fields } => TypeView::Aggregate { fields: field_views(fields@) },
            TypeRepr::Struct { name, size, fields } => TypeView::Struct {
                name: name@,
                size: *size,
                fields: field_views(fields@),
            },
            TypeRepr::StructPointer { size, pointee } => TypeView::StructPointer {
                size: *size,
                pointee: *pointee,
            },
            TypeRepr::Array { elem, count } => TypeView::Array { elem: *elem, count: *count },
            TypeRepr::List { elem, bound } => TypeView::List { elem: *elem, bound: *bound },
        }
    }
}

impl TypeView {
    /// Whether two types are one: structs by name, others by what they are.
    pub open spec fn same_as(self, other: TypeView) -> bool {
        match (self, other) {
            (
                TypeView::Struct { name, size, fields },
                TypeView::Struct { name: other_name, size: s, fields: f },
            ) => name == other_name,
            _ => self == other,
        }
    }

    /// Whether two types are of one kind, whatever their widths and parts are.
    pub open spec fn same_kind(self, other: TypeView) -> bool {
        match self {
            TypeView::Int { size } => other is Int,
            TypeView::Bool => other is Bool,
            TypeView::SpaceAddress { size, space } => other is SpaceAddress,
            TypeView::Aggregate { fields } => other is Aggregate,
            TypeView::Struct { name, size, fields } => other is Struct,
            TypeView::StructPointer { size, pointee } => other is StructPointer,
            TypeView::Array { elem, count } => other is Array,
            TypeView::List { elem, bound } => other is List,
        }
    }

    /// The number that identifies the type, where a number can.
    pub open spec fn key(self) -> Option<int> {
        match self {
            TypeView::Int { size } => Some(size as int),
            TypeView::Bool => Some(0x1_0000_0000_0000_0000_0000_0000_0000),
            TypeView::StructPointer { size, pointee } => Some(
                0x2_0000_0000_0000_0000_0000_0000_0000 + size * 0x1_0000_0000 + pointee.0,
            ),
            TypeView::Array { elem, count } => Some(
                0x3_0000_0000_0000_0000_0000_0000_0000 + elem.0 * 0x1_0000_0000_0000_0000 + count,
            ),
            TypeView::List { elem, bound } => Some(
                0x4_0000_0000_0000_0000_0000_0000_0000 + elem.0 * 0x4_0000_0000_0000_0000 + (
                match bound {
                    Some(b) => b as int,
                    None => 0x1_0000_0000_0000_0000,
                }),
            ),
            _ => None,
        }
    }
}

/// A number identifies one type.
pub(crate) proof fn lemma_key(a: TypeView, b: TypeView)
    ensures
        a.key() matches Some(k) ==> 0 <= k < 0x10_0000_0000_0000_0000_0000_0000_0000,
        a.key() is Some && a.key() == b.key() ==> a == b,
{
}

/// The sum of the sizes of the first `n` of `fields`, whose types stand below
/// `limit` in the table `t`.
pub open spec fn fields_size(t: Seq<TypeView>, fields: Seq<FieldView>, n: int, limit: int) -> int
    decreases limit, 0int, n,
{
    if n <= 0 || n > fields.len() {
        0
    } else {
        fields_size(t, fields, n - 1, limit) + (if fields[n - 1].type_id.0 < limit {
            type_size(t, fields[n - 1].type_id.0 as int)
        } else {
            0
        })
    }
}

/// The width in bytes of values of the type at `i`.
pub open spec fn type_size(t: Seq<TypeView>, i: int) -> int
    decreases i, 1int, 0int,
{
    if i < 0 || i >= t.len() {
        0
    } else {
        match t[i] {
            TypeView::Int { size } => size as int,
            TypeView::Bool => 1,
            TypeView::SpaceAddress { size, space } => size as int,
            TypeView::Aggregate { fields } => fields_size(t, fields, fields.len() as int, i),
            TypeView::Struct { name, size, fields } => size as int,
            TypeView::StructPointer { size, pointee } => size as int,
            TypeView::Array { elem, count } => if elem.0 < i {
                type_size(t, elem.0 as int) * count
            } else {
                0
            },
            TypeView::List { elem, bound } => match bound {
                Some(b) => if elem.0 < i {
                    type_size(t, elem.0 as int) * b
                } else {
                    0
                },
                None => 0,
            },
        }
    }
}

/// The width of values of the type `v` over the table `t`.
pub open spec fn size_in(t: Seq<TypeView>, v: TypeView) -> int {
    match v {
        TypeView::Int { size } => size as int,
        TypeView::Bool => 1,
        TypeView::SpaceAddress { size, space } => size as int,
        TypeView::Aggregate { fields } => fields_size(
            t,
            fields,
            fields.len() as int,
            t.len() as int,
        ),
        TypeView::Struct { name, size, fields } => size as int,
        TypeView::StructPointer { size, pointee } => size as int,
        TypeView::Array { elem, count } => type_size(t, elem.0 as int) * count,
        TypeView::List { elem, bound } => match bound {
            Some(b) => type_size(t, elem.0 as int) * b,
            None => 0,
        },
    }
}

/// A type has this width at the end of the table.
pub proof fn lemma_size_in(t: Seq<TypeView>, v: TypeView)
    ensures
        type_size(t.push(v), t.len() as int) == size_in(t, v),
{
    let u = t.push(v);
    let n = t.len() as int;
    assert(u[n] == v);
    match v {
        TypeView::Aggregate { fields } => {
            lemma_fields_below(t, v, fields, fields.len() as int);
        },
        TypeView::Array { elem, count } => {
            if elem.0 < n {
                lemma_size_stable(t, u, elem.0 as int);
            }
        },
        TypeView::List { elem, bound } => {
            if elem.0 < n {
                lemma_size_stable(t, u, elem.0 as int);
            }
        },
        _ => {},
    }
}

proof fn lemma_fields_below(t: Seq<TypeView>, v: TypeView, fields: Seq<FieldView>, n: int)
    ensures
        fields_size(t.push(v), fields, n, t.len() as int) == fields_size(
            t,
            fields,
            n,
            t.len() as int,
        ),
    decreases n,
{
    if 0 < n <= fields.len() {
        lemma_fields_below(t, v, fields, n - 1);
        if fields[n - 1].type_id.0 < t.len() {
            lemma_size_stable(t, t.push(v), fields[n - 1].type_id.0 as int);
        }
    }
}

/// Whether all names of `fields` differ.
pub open spec fn names_differ(fields: Seq<FieldView>) -> bool {
    forall|i: int, j: int|
        0 <= i < j < fields.len() ==> (#[trigger] fields[i]).name != (#[trigger] fields[j]).name
}

/// Whether the type `v` can be built over the table `t`: the parts that make
/// up its width are there, the fields of an aggregate have different names, and
/// its width fits in a `usize`. What a pointer points to and what an unbounded
/// list holds need not be there.
pub open spec fn admissible(t: Seq<TypeView>, v: TypeView) -> bool {
    &&& size_in(t, v) <= usize::MAX
    &&& match v {
        TypeView::Aggregate { fields } => names_differ(fields) && forall|k: int|
            0 <= k < fields.len() ==> (#[trigger] fields[k]).type_id.0 < t.len(),
        TypeView::Array { elem, count } => elem.0 < t.len(),
        TypeView::List { elem, bound: Some(_) } => elem.0 < t.len(),
        _ => true,
    }
}

/// Whether every type of a table was admissible where it stands, and none is
/// there twice.
pub open spec fn table_ok(t: Seq<TypeView>) -> bool {
    &&& forall|i: int| 0 <= i < t.len() ==> admissible(t.take(i), #[trigger] t[i])
    &&& forall|i: int, j: int|
        0 <= i < j < t.len() ==> !(#[trigger] t[i]).same_as(#[trigger] t[j])
}

/// Widths do not depend on what comes later in the table.
pub proof fn lemma_size_stable(t: Seq<TypeView>, u: Seq<TypeView>, i: int)
    requires
        0 <= i < t.len() <= u.len(),
        forall|k: int| 0 <= k <= i ==> t[k] == u[k],
    ensures
        type_size(t, i) == type_size(u, i),
        type_size(t, i) >= 0,
    decreases i, 1int, 0int,
{
    match t[i] {
        TypeView::Aggregate { fields } => {
            lemma_fields_stable(t, u, fields, fields.len() as int, i);
        },
        TypeView::Array { elem, count } => {
            if elem.0 < i {
                lemma_size_stable(t, u, elem.0 as int);
                assert(type_size(t, elem.0 as int) * count >= 0) by (nonlinear_arith)
                    requires
                        type_size(t, elem.0 as int) >= 0,
                ;
            }
        },
        TypeView::List { elem, bound } => {
            if elem.0 < i {
                lemma_size_stable(t, u, elem.0 as int);
                if let Some(b) = bound {
                    assert(type_size(t, elem.0 as int) * b >= 0) by (nonlinear_arith)
                        requires
                            type_size(t, elem.0 as int) >= 0,
                    ;
                }
            }
        },
        _ => {},
    }
}

pub(crate) proof fn lemma_fields_stable(
    t: Seq<TypeView>,
    u: Seq<TypeView>,
    fields: Seq<FieldView>,
    n: int,
    limit: int,
)
    requires
        0 <= limit < t.len() <= u.len(),
        forall|k: int| 0 <= k <= limit ==> t[k] == u[k],
    ensures
        fields_size(t, fields, n, limit) == fields_size(u, fields, n, limit),
        fields_size(t, fields, n, limit) >= 0,
    decreases limit, 0int, n,
{
    if 0 < n <= fields.len() {
        lemma_fields_stable(t, u, fields, n - 1, limit);
        if fields[n - 1].type_id.0 < limit {
            lemma_size_stable(t, u, fields[n - 1].type_id.0 as int);
        }
    }
}

/// A registered type and its width.
#[derive(Debug)]
pub struct TypeEntry {
    pub repr: TypeRepr,
    pub size: usize,
}

/// The type table.
pub struct TypeManager {
    pub entries: Vec<TypeEntry>,
    /// The types that a number identifies, by it.
    pub by_key: KeyMap<u32>,
    /// The nominal structs, by name.
    pub by_name: TextIndex,
}

impl View for TypeManager {
    type V = Seq<TypeView>;

    open spec fn view(&self) -> Seq<TypeView> {
        self.entries@.map_values(|e: TypeEntry| e.repr@)
    }
}

impl TypeManager {
    /// The lookup tables list exactly the types they are for.
    pub open spec fn lookups_ok(&self) -> bool {
        &&& forall|k: u128| #[trigger]
            self.by_key@.contains_key(k) ==> self.by_key@[k] < self@.len()
                && self@[self.by_key@[k] as int].key() == Some(k as int)
        &&& forall|i: int|
            0 <= i < self@.len() ==> ((#[trigger] self@[i]).key() matches Some(k)
                ==> self.by_key@.contains_key(k as u128) && self.by_key@[k as u128] == i)
        &&& forall|n: Seq<char>| #[trigger]
            self.by_name@.contains_key(n) ==> self.by_name@[n] < self@.len() && (
            self@[self.by_name@[n] as int] matches TypeView::Struct { name, size, fields } && name
                == n)
        &&& forall|i: int|
            0 <= i < self@.len() ==> (#[trigger] self@[i] matches TypeView::Struct {
                name,
                size,
                fields,
            } ==> self.by_name@.contains_key(name) && self.by_name@[name] == i)
    }

    pub open spec fn wf(&self) -> bool {
        &&& table_ok(self@)
        &&& self@.len() <= u32::MAX
        &&& forall|i: int|
            0 <= i < self.entries@.len() ==> (#[trigger] self.entries@[i]).size == type_size(
                self@,
                i,
            )
        &&& self.lookups_ok()
    }

    /// Whether `id` is in the table.
    pub open spec fn has(&self, id: TypeId) -> bool {
        id.0 < self@.len()
    }

    /// An empty table.
    pub fn new() -> (types: Self)
        ensures
            types.wf(),
            types@ == Seq::<TypeView>::empty(),
    {
        let types = TypeManager {
            entries: Vec::new(),
            by_key: KeyMap::new(),
            by_name: TextIndex::new(),
        };
        proof {
            assert(types@ =~= Seq::<TypeView>::empty());
        }
        types
    }

    /// How many types there are.
    pub fn len(&self) -> (n: usize)
        ensures
            n == self@.len(),
    {
        self.entries.len()
    }

    pub fn is_empty(&self) -> (b: bool)
        ensures
            b == (self@.len() == 0),
    {
        self.entries.len() == 0
    }

    /// The type `id`.
    pub fn get(&self, id: TypeId) -> (repr: &TypeRepr)
        requires
            self.has(id),
        ensures
            repr@ == self@[id.0 as int],
    {
        &self.entries[id.0 as usize].repr
    }

    /// The width in bytes of values of type `id`.
    pub fn size_of(&self, id: TypeId) -> (size: usize)
        requires
            self.wf(),
            self.has(id),
        ensures
            size == type_size(self@, id.0 as int),
    {
        self.entries[id.0 as usize].size
    }
}

} // verus!
