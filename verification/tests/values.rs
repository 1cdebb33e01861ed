//! Identifiers, links, names and constants.

use qcode::constants::{Bytes, Poison};
use qcode::context::Context;
use qcode::ids::{
    BlockId, BlockParamId, BytesId, FunctionId, InstructionId, LiteralId, LocalBlockId,
    LocalInsnId, LocalParamId, PoisonId, TypeId, VarnodeId,
};
use qcode::interner::Interner;
use qcode::link::{Link, PackedAddress};
use qcode::literal::{mask_of_size, mask_to_size, Literal, LiteralInterner, SymbolicRef};
use qcode::refs::value::{LiteralRef, ValueRef};
use qcode::value::ValueId;

#[test]
fn qualify_localize_round_trips_every_variant() {
    let func = FunctionId::from(7u32);
    let other = FunctionId::from(3u32);

    let arena: [ValueId; 3] = [
        ValueId::Instruction(InstructionId::new(func, LocalInsnId::from(2u32))),
        ValueId::BasicBlock(BlockId::new(func, LocalBlockId::from(5u32))),
        ValueId::BlockParam(BlockParamId::new(func, LocalParamId::from(1u32))),
    ];
    for id in arena {
        assert_eq!(id.localize(func).qualify(func), id, "{id:?}");
    }

    // Shared/module arms pass through regardless of the ambient func.
    let shared: [ValueId; 4] = [
        ValueId::Literal(LiteralId::from(0usize)),
        ValueId::Bytes(BytesId::from(0usize)),
        ValueId::Varnode(VarnodeId::from(0usize)),
        ValueId::Function(other),
    ];
    for id in shared {
        assert_eq!(id.localize(func).qualify(func), id, "{id:?}");
        // Any func requalifies a shared arm to itself: it carries no func.
        assert_eq!(id.localize(func).qualify(other), id, "{id:?}");
    }
}

#[test]
fn a_link_round_trips_and_is_four_bytes() {
    assert_eq!(std::mem::size_of::<Link<LocalInsnId>>(), 4);
    let mut link: Link<LocalInsnId> = Link::none();
    assert_eq!(link.get(), None);
    link.set(Some(LocalInsnId::from(7u32)));
    assert_eq!(link.get(), Some(LocalInsnId::from(7u32)));
    assert_eq!(link.take(), Some(LocalInsnId::from(7u32)));
    assert_eq!(link.get(), None);
    assert_eq!(std::mem::size_of::<PackedAddress>(), 8);
    assert_eq!(PackedAddress::of(Some(0)).get(), Some(0));
    assert_eq!(PackedAddress::none().get(), None);
}

#[test]
fn a_packed_address_is_replaced() {
    let mut address = PackedAddress::none();
    address.set(Some(0x1000));
    assert_eq!(address.get(), Some(0x1000));
    address.set(None);
    assert_eq!(address.get(), None);
}

#[test]
fn poison_interns_and_round_trips() {
    let mut ctx = Context::new();
    let i32_ty = ctx.shared.types.get_or_make_int(4);
    let p = ctx.get_poison(i32_ty);
    assert!(p.is_poison());
    assert_eq!(ctx.stored_type_of(p), Some(i32_ty));
    match ValueRef::new(p, &ctx) {
        ValueRef::Poison(r) => {
            assert_eq!(r.type_id(), i32_ty);
            assert_eq!(ctx.size_of_value(p), 4);
        }
        _ => panic!("expected a poison ref"),
    }
}

#[test]
fn same_type_poisons_are_distinct() {
    let mut ctx = Context::new();
    let i64_ty = ctx.shared.types.get_or_make_int(8);
    let a = ctx.get_poison(i64_ty);
    let b = ctx.get_poison(i64_ty);
    assert_ne!(a, b, "each poison must be its own interned value");
    assert!(matches!(a, ValueId::Poison(_)));
    assert!(matches!(b, ValueId::Poison(_)));
}

#[test]
fn numbers_are_there_once_for_each_type() {
    let mut table = LiteralInterner::new();
    let t = TypeId(0);
    let a = table.get_or_make_typed_literal(0x1ff, t, 1);
    assert_eq!(table.get(a).value, 0xff);
    // What is above the width does not matter.
    assert_eq!(table.get_or_make_typed_literal(0xff, t, 1), a);
    assert_ne!(table.get_or_make_typed_literal(0xff, TypeId(1), 1), a);
    assert_ne!(table.get_or_make_typed_literal(0xfe, t, 1), a);
    // A literal that is pushed is not found by its number.
    let pushed = table.push_literal(Literal { value: 3, type_id: t, symbolic: None });
    assert_ne!(table.get_or_make_typed_literal(3, t, 8), pushed);
    // A meaning that is attached does not change what finds the number.
    table.set_symbolic(a, Some(SymbolicRef::Function(FunctionId(2))));
    assert_eq!(table.get_or_make_typed_literal(0xff, t, 1), a);
    assert_eq!(table.len(), 5);
}

#[test]
fn a_rebuilt_table_finds_the_first_plain_literal() {
    let t = TypeId(0);
    let plain = |value| Literal { value, type_id: t, symbolic: None };
    let named = Literal {
        value: 7,
        type_id: t,
        symbolic: Some(SymbolicRef::String("seven".to_string())),
    };
    let mut table = LiteralInterner::from_literals(vec![named, plain(7), plain(7), plain(8)]);
    assert_eq!(table.get_or_make_typed_literal(7, t, 8), LiteralId(1));
    assert_eq!(table.get_or_make_typed_literal(8, t, 8), LiteralId(3));
    assert_eq!(table.get_or_make_typed_literal(9, t, 8), LiteralId(4));
}

#[test]
fn masks_are_as_wide_as_the_value() {
    assert_eq!(mask_of_size(0), 0);
    assert_eq!(mask_of_size(1), 0xff);
    assert_eq!(mask_of_size(7), 0x00ff_ffff_ffff_ffff);
    assert_eq!(mask_of_size(8), u64::MAX);
    assert_eq!(mask_of_size(16), u64::MAX);
    assert_eq!(mask_to_size(0x1234, 1), 0x34);
    assert_eq!(mask_to_size(0x1234, 8), 0x1234);
}

#[test]
fn a_literal_is_read_at_its_width() {
    let mut ctx = Context::new();
    let i16 = ctx.shared.types.get_or_make_int(2);
    let id = ctx.shared.literals.push_literal(Literal {
        value: 0x12345,
        type_id: i16,
        symbolic: None,
    });
    let r = LiteralRef::from_id(&ctx.shared, id);
    assert_eq!(r.mask(), 0xffff);
    assert_eq!(r.value(), 0x2345);
    assert_eq!(r.type_id(), i16);
    assert_eq!(ctx.const_u64(ValueId::Literal(id)), Some(0x2345));
}

#[test]
fn a_literal_with_a_meaning_is_no_constant() {
    let mut ctx = Context::new();
    let i64 = ctx.shared.types.get_or_make_int(8);
    let id = ctx.shared.literals.push_literal(Literal {
        value: 5,
        type_id: i64,
        symbolic: Some(SymbolicRef::String("five".to_string())),
    });
    assert_eq!(ctx.const_u64(ValueId::Literal(id)), None);
}

#[test]
fn bytes_render_as_a_literal() {
    let bytes = Bytes { data: vec![0x00, 0x7f, 0xff, 0x0a], type_id: TypeId(0) };
    assert_eq!(bytes.render(), "b\"\\x00\\x7f\\xff\\x0a\"");
    assert_eq!(bytes.size(), 4);
    assert_eq!(Bytes { data: vec![], type_id: TypeId(0) }.render(), "b\"\"");
}

#[test]
fn a_table_names_values_in_order() {
    let mut table: Interner<PoisonId, Poison> = Interner::new();
    assert!(table.is_empty());
    let a = table.push(Poison { type_id: TypeId(3) });
    let b = table.push(Poison { type_id: TypeId(3) });
    assert_ne!(a, b);
    assert_eq!(table.len(), 2);
    assert!(table.contains(b));
    assert!(!table.contains(PoisonId(2)));
    table.set(a, Poison { type_id: TypeId(4) });
    assert_eq!(table.get(a).type_id(), TypeId(4));
    assert_eq!(table.get(b).type_id(), TypeId(3));
}

#[test]
fn every_id_is_a_value() {
    let func = FunctionId(1);
    assert_eq!(ValueId::from(LiteralId(2)), ValueId::Literal(LiteralId(2)));
    assert_eq!(ValueId::from(func), ValueId::Function(func));
    let insn = InstructionId::new(func, LocalInsnId(4));
    assert_eq!(ValueId::from(insn), ValueId::Instruction(insn));
}
