//! The type table.

use qcode::ids::{FunctionId, LocalTempSpaceId, SpaceId, TempSpaceId, TypeId};
use qcode::insn::binop::{Binop, FloatBinop, IntBinop};
use qcode::space::MemorySpaceId;
use qcode::types::{AggregateField, TypeManager, TypeRepr};

fn replayed(tm: &TypeManager) -> TypeManager {
    TypeManager::from_reprs(&tm.reprs()).expect("a table replays")
}

#[test]
fn binop_result_bool_rules() {
    let mut tm = TypeManager::new();
    let i32 = tm.get_or_make_int(4);
    let boolt = tm.get_or_make_bool();

    // Comparisons over ints yield bool.
    assert_eq!(tm.binop_result(i32, Binop::Int(IntBinop::Less), i32), boolt);
    assert_eq!(tm.binop_result(i32, Binop::Int(IntBinop::Equal), i32), boolt);
    // Float comparisons yield bool.
    assert_eq!(tm.binop_result(i32, Binop::Float(FloatBinop::Less), i32), boolt);
    // Bitwise over bool operands stays bool (logical and/or/xor).
    assert_eq!(tm.binop_result(boolt, Binop::Int(IntBinop::And), boolt), boolt);
    assert_eq!(tm.binop_result(boolt, Binop::Int(IntBinop::Or), boolt), boolt);
    // Bitwise over ints preserves the int type.
    assert_eq!(tm.binop_result(i32, Binop::Int(IntBinop::And), i32), i32);
    // Arithmetic preserves the left type.
    assert_eq!(tm.binop_result(i32, Binop::Int(IntBinop::Add), i32), i32);
}

#[test]
fn a_comparison_registers_the_boolean_type() {
    let mut tm = TypeManager::new();
    let i32 = tm.get_or_make_int(4);
    assert_eq!(tm.bool_id(), None);
    assert_eq!(tm.binop_result_probe(i32, Binop::Int(IntBinop::SLess)), None);
    let b = tm.binop_result(i32, Binop::Int(IntBinop::SLess), i32);
    assert_eq!(tm.bool_id(), Some(b));
    assert_eq!(tm.binop_result_probe(i32, Binop::Int(IntBinop::SLess)), Some(b));
    assert_eq!(tm.len(), 2);
}

#[test]
fn bool_is_byte_stored_and_interned() {
    let mut tm = TypeManager::new();
    let b = tm.get_or_make_bool();
    assert_eq!(tm.size_of(b), 1);
    assert!(tm.is_bool(b));
    assert_eq!(tm.get_or_make_bool(), b);
    assert_eq!(tm.display_name(b), "bool");
    let i8 = tm.get_or_make_int(1);
    assert!(!tm.is_bool(i8));
}

#[test]
fn bool_round_trips_through_serde() {
    let mut tm = TypeManager::new();
    let _i8 = tm.get_or_make_int(1);
    let b = tm.get_or_make_bool();
    let back = replayed(&tm);
    assert!(back.is_bool(b));
    assert_eq!(back.size_of(b), 1);
}

#[test]
fn array_is_a_disguised_width_n_scalar() {
    let mut tm = TypeManager::new();
    let i8 = tm.get_or_make_int(1);
    let arr = tm.get_or_make_array(i8, 20);

    // Width is count * sizeof(elem): structural passes see a 20-byte scalar.
    assert_eq!(tm.size_of(arr), 20);
    // Disguise: no aggregate fields, so tuple/struct machinery skips it.
    assert!(tm.aggregate_fields(arr).is_none());
    // Element-aware sites recover (elem, count).
    assert_eq!(tm.array_of(arr), Some((i8, 20)));
    // Interned: same (elem, count) gives the same TypeId.
    assert_eq!(tm.get_or_make_array(i8, 20), arr);
    assert_ne!(tm.get_or_make_array(i8, 21), arr);
    // Pretty name for dumps.
    assert_eq!(tm.display_name(arr), "[i8;20]");
}

#[test]
fn array_round_trips_through_serde() {
    let mut tm = TypeManager::new();
    let i8 = tm.get_or_make_int(1);
    let arr = tm.get_or_make_array(i8, 20);
    let back = replayed(&tm);
    // Replaying constructors in TypeId order reproduces the same handles.
    assert_eq!(back.array_of(arr), Some((i8, 20)));
    assert_eq!(back.size_of(arr), 20);
}

#[test]
fn list_round_trips_through_serde() {
    let mut tm = TypeManager::new();
    let i8 = tm.get_or_make_int(1);
    let list = tm.get_or_make_list(i8, 20);
    let back = replayed(&tm);
    // The list survives as a list (not a fixed array) with its bound and
    // footprint intact.
    assert_eq!(back.list_of(list), Some((i8, Some(20))));
    assert_eq!(back.array_of(list), None);
    assert_eq!(back.size_of(list), 20);
}

#[test]
fn unbounded_list_round_trips_and_has_no_footprint() {
    let mut tm = TypeManager::new();
    let i8 = tm.get_or_make_int(1);
    let list = tm.get_or_make_unbounded_list(i8);
    // Unbounded: a list with no static bound and no materialized footprint.
    assert_eq!(tm.list_of(list), Some((i8, None)));
    assert_eq!(tm.size_of(list), 0);
    // Distinct from any bounded list of the same element.
    assert_ne!(list, tm.get_or_make_list(i8, 20));
    let back = replayed(&tm);
    assert_eq!(back.list_of(list), Some((i8, None)));
    assert_eq!(back.array_of(list), None);
}

#[test]
fn newly_minted_type_is_published_before_return() {
    let mut types = TypeManager::new();
    for width in 1..=128 {
        let id = types.get_or_make_int(width);
        assert_eq!(types.size_of(id), width);
    }
}

#[test]
fn types_have_names_and_widths() {
    let mut tm = TypeManager::new();
    let i16 = tm.get_or_make_int(2);
    let i64 = tm.get_or_make_int(8);
    let pair = tm.get_or_make_aggregate(vec![i16, i64]);
    assert_eq!(tm.size_of(pair), 10);
    assert_eq!(tm.display_name(pair), "i80");
    assert_eq!(tm.field_name(pair, 0).unwrap(), "field1");
    assert_eq!(tm.field_name(pair, 1).unwrap(), "field2");
    assert_eq!(tm.field_name(pair, 2), None);
    assert_eq!(tm.field_type(pair, 1), Some(i64));
    assert_eq!(tm.field_index(pair, "field2"), Some(1));
    assert_eq!(tm.field_index(pair, "field3"), None);

    let point = tm.get_or_make_struct(
        "Point".to_string(),
        16,
        vec![
            AggregateField::new_at("x".to_string(), i64, 0),
            AggregateField::new_at("y".to_string(), i64, 8),
        ],
    );
    assert_eq!(tm.size_of(point), 16);
    assert_eq!(tm.display_name(point), "Point");
    let (at, field) = tm.field_by_offset(point, 8).unwrap();
    assert_eq!((at, field.name.as_str()), (1, "y"));
    assert!(tm.field_by_offset(point, 4).is_none());
    assert_eq!(tm.struct_by_name("Point"), Some(point));
    assert_eq!(tm.struct_by_name("Line"), None);
    // A struct is found by its name, whatever else is asked for.
    assert_eq!(tm.get_or_make_struct("Point".to_string(), 99, vec![]), point);
    assert_eq!(tm.size_of(point), 16);

    let pointer = tm.get_or_make_struct_pointer(8, point);
    assert_eq!(tm.display_name(pointer), "Point*");
    assert_eq!(tm.pointee_of(pointer), Some(point));
    assert_eq!(tm.struct_name_of(point).unwrap(), "Point");
    assert_eq!(tm.struct_name_of(pointer), None);

    let list = tm.get_or_make_list(pointer, 3);
    assert_eq!(tm.display_name(list), "[Point*;<=3]");
    assert_eq!(tm.size_of(list), 24);
    let any = tm.get_or_make_unbounded_list(i16);
    assert_eq!(tm.display_name(any), "[i16;*]");
    assert_eq!(tm.seq_elem_of(any), Some(i16));
    assert_eq!(tm.seq_of(any), None);
    assert_eq!(tm.seq_of(list), Some((pointer, 3, true)));
    let arr = tm.get_or_make_seq(i16, 5, false);
    assert_eq!(tm.seq_of(arr), Some((i16, 5, false)));
    assert_eq!(tm.get_or_make_seq(pointer, 3, true), list);
}

#[test]
fn addresses_are_told_apart_by_space_and_width() {
    let mut tm = TypeManager::new();
    let shared = MemorySpaceId::Shared(SpaceId(1));
    let scratch = MemorySpaceId::Temp(TempSpaceId::new(FunctionId(0), LocalTempSpaceId(1)));
    let a = tm.get_or_make_space_address(8, shared);
    let b = tm.get_or_make_space_address(8, scratch);
    let c = tm.get_or_make_space_address(4, shared);
    assert_ne!(a, b);
    assert_ne!(a, c);
    assert_eq!(tm.get_or_make_space_address(8, shared), a);
    assert_eq!(tm.get_or_make_space_address(8, scratch), b);
    assert_eq!(tm.space_of(b), Some(scratch));
    assert_eq!(tm.size_of(c), 4);
    let int = tm.get_or_make_int(8);
    assert_eq!(tm.space_of(int), None);
}

#[test]
fn a_second_request_gives_the_same_id() {
    let mut tm = TypeManager::new();
    let i8 = tm.get_or_make_int(1);
    let named = || {
        vec![
            AggregateField::new("a".to_string(), i8),
            AggregateField::new("b".to_string(), i8),
        ]
    };
    let first = tm.get_or_make_named_aggregate(named());
    let n = tm.len();
    assert_eq!(tm.get_or_make_named_aggregate(named()), first);
    assert_eq!(tm.len(), n);
    let other = tm.get_or_make_named_aggregate(vec![AggregateField::new("a".to_string(), i8)]);
    assert_ne!(other, first);
    // What was registered stays where it is.
    assert_eq!(tm.size_of(i8), 1);
    assert_eq!(tm.size_of(first), 2);
}

#[test]
fn a_table_that_cannot_be_built_is_refused() {
    let i8 = || TypeRepr::Int { size: 1 };
    // An element that comes later.
    assert!(
        TypeManager::from_reprs(&vec![TypeRepr::Array { elem: TypeId(1), count: 2 }, i8()])
            .is_none()
    );
    // Two fields of one name.
    let twice = TypeRepr::Aggregate {
        fields: vec![
            AggregateField::new("x".to_string(), TypeId(0)),
            AggregateField::new("x".to_string(), TypeId(0)),
        ],
    };
    assert!(TypeManager::from_reprs(&vec![i8(), twice]).is_none());
    // A width that does not fit.
    let wide = TypeRepr::Int { size: usize::MAX };
    let pair = TypeRepr::Array { elem: TypeId(0), count: 2 };
    assert!(TypeManager::from_reprs(&vec![wide, pair]).is_none());
    // One type twice is there once.
    let once = TypeManager::from_reprs(&vec![i8(), i8(), TypeRepr::Bool]).unwrap();
    assert_eq!(once.len(), 2);
    assert!(once.is_bool(TypeId(1)));
}

#[test]
fn a_whole_table_replays_to_itself() {
    let mut tm = TypeManager::new();
    let i8 = tm.get_or_make_int(1);
    let s = tm.get_or_make_struct(
        "S".to_string(),
        4,
        vec![AggregateField::new_at("f".to_string(), i8, 3)],
    );
    let p = tm.get_or_make_struct_pointer(8, s);
    let t = tm.get_or_make_aggregate(vec![p, i8]);
    let b = tm.get_or_make_bool();
    let a = tm.get_or_make_space_address(8, MemorySpaceId::Shared(SpaceId(0)));
    let back = replayed(&tm);
    assert_eq!(back.len(), tm.len());
    assert_eq!(back.struct_by_name("S"), Some(s));
    assert_eq!(back.pointee_of(p), Some(s));
    assert_eq!(back.size_of(t), 9);
    assert_eq!(back.field_by_offset(s, 3).unwrap().1.name, "f");
    assert!(back.is_bool(b));
    assert_eq!(back.space_of(a), Some(MemorySpaceId::Shared(SpaceId(0))));
}

#[test]
fn a_pointer_may_come_before_what_it_points_to() {
    let node = TypeRepr::Struct { name: "Node".to_string(), size: 16, fields: vec![] };
    let reprs = vec![
        TypeRepr::StructPointer { size: 8, pointee: TypeId(2) },
        TypeRepr::List { elem: TypeId(0), bound: None },
        node,
        TypeRepr::StructPointer { size: 8, pointee: TypeId(9) },
    ];
    let tm = TypeManager::from_reprs(&reprs).expect("the parts may come later");
    assert_eq!(tm.len(), 4);
    assert_eq!(tm.size_of(TypeId(0)), 8);
    assert_eq!(tm.size_of(TypeId(1)), 0);
    assert_eq!(tm.display_name(TypeId(0)), "Node*");
    assert_eq!(tm.display_name(TypeId(1)), "[Node*;*]");
    // What makes up the width of a type has to be there.
    let early = TypeRepr::List { elem: TypeId(1), bound: Some(2) };
    assert!(TypeManager::from_reprs(&vec![early, TypeRepr::Bool]).is_none());
}
