//! What operations compute.

use qcode::ids::{LiteralId, SpaceId, VarnodeId};
use qcode::insn::binop::{Binop, FloatBinop, IntBinop};
use qcode::insn::bits::{as_signed, as_unsigned, mask_for_size, signed_value};
use qcode::insn::casting::{Range, Sext, Zext};
use qcode::insn::flags::{Carry, LzCount, PopCount, SBorrow, SCarry};
use qcode::insn::intrinsic::{recognizers_for, IntrinsicDesc, IntrinsicId, IntrinsicTable, RootOp};
use qcode::insn::memory::Store;
use qcode::insn::unop::Unop;
use qcode::space::LocalMemorySpaceId;
use qcode::value::LocalValueId;

#[test]
fn shift_amount_is_not_masked_to_the_operand_width() {
    // A count that only looks small once truncated to input0's width.
    // MMX shift-by-register relies on this: PSRLW's count is the whole
    // 64-bit source, so 0xc000_0000_0000_0001 must empty each 16-bit lane
    // rather than shift it by one.
    let wide = 0xc000_0000_0000_0001u128;
    assert_eq!(IntBinop::ShiftRight.eval(0x8000, wide, 2), 0);
    assert_eq!(IntBinop::ShiftLeft.eval(0x8000, wide, 2), 0);
    assert_eq!(IntBinop::SShiftRight.eval(0x8000, wide, 2), 0xffff);
    assert_eq!(IntBinop::SShiftRight.eval(0x7fff, wide, 2), 0);

    // Exactly at the width every bit is still shifted out.
    assert_eq!(IntBinop::ShiftRight.eval(0xffff, 16, 2), 0);
    assert_eq!(IntBinop::ShiftLeft.eval(0xffff, 16, 2), 0);
    assert_eq!(IntBinop::SShiftRight.eval(0x8000, 16, 2), 0xffff);

    // Ordinary in-range counts are unaffected.
    assert_eq!(IntBinop::ShiftRight.eval(0x8000, 1, 2), 0x4000);
    assert_eq!(IntBinop::ShiftLeft.eval(0x0001, 15, 2), 0x8000);
    assert_eq!(IntBinop::SShiftRight.eval(0x8000, 1, 2), 0xc000);
    assert_eq!(IntBinop::ShiftRight.eval(0x8000, 0, 2), 0x8000);

    // A full-width 128-bit operand has no count that fits in u32 alone.
    assert_eq!(IntBinop::ShiftLeft.eval(1, 127, 16), 1u128 << 127);
    assert_eq!(IntBinop::ShiftLeft.eval(1, 128, 16), 0);
}

#[test]
fn test_zext_eval() {
    // zero-extend preserves low bytes, masks off anything above dst_size
    assert_eq!(Zext::eval(0xFF, 4), 0xFF);
    assert_eq!(Zext::eval(0xDEAD_BEEF_FFFF_FFFF, 4), 0xFFFF_FFFF);
    assert_eq!(Zext::eval(0, 8), 0);
}

#[test]
fn test_sext_eval() {
    // positive value (sign bit clear): unchanged
    assert_eq!(Sext::eval(0x7F, 1, 4), 0x7F);
    // negative value (sign bit set): sign-extended
    assert_eq!(Sext::eval(0xFF, 1, 4), 0xFFFF_FFFF);
    assert_eq!(Sext::eval(0x80, 1, 4), 0xFFFF_FF80);
    // zero: zero
    assert_eq!(Sext::eval(0, 1, 4), 0);
}

#[test]
fn test_range_eval() {
    // extract 2 bytes starting at byte offset 1 from 0xDEAD_BEEF
    // bytes: EF BE AD DE; bytes 1..3 = BE AD, value 0xADBE
    assert_eq!(Range::eval(0xDEAD_BEEF, 1, 2), 0xADBE);
    // extract first byte
    assert_eq!(Range::eval(0xDEAD_BEEF, 0, 1), 0xEF);
    // extract from offset beyond value: 0
    assert_eq!(Range::eval(0xFF, 16, 1), 0);
}

#[test]
fn test_matching_load() {
    let store = Store {
        space: LocalMemorySpaceId::Shared(SpaceId::from(0usize)),
        ptr: LocalValueId::Varnode(VarnodeId::from(1usize)),
        src: LocalValueId::Literal(LiteralId::from(2usize)),
        size: 4,
    };

    let load = store.get_matching_load();
    assert_eq!(load.space, store.space);
    assert_eq!(load.ptr, store.ptr);
    assert_eq!(load.size, store.size);
}

#[test]
fn arithmetic_wraps_at_the_width() {
    assert_eq!(IntBinop::Add.eval(0xff, 1, 1), 0);
    assert_eq!(IntBinop::Add.eval(u128::MAX, 1, 16), 0);
    assert_eq!(IntBinop::Sub.eval(0, 1, 2), 0xffff);
    assert_eq!(IntBinop::Mul.eval(0x80, 2, 1), 0);
    assert_eq!(IntBinop::And.eval(0xf0, 0x3c, 1), 0x30);
    assert_eq!(IntBinop::Or.eval(0xf0, 0x0c, 1), 0xfc);
    assert_eq!(IntBinop::Xor.eval(0xf0, 0x3c, 1), 0xcc);
}

#[test]
fn comparisons_are_one_or_zero() {
    assert_eq!(IntBinop::Equal.eval(0x1_05, 0x05, 1), IntBinop::Equal.eval(5, 5, 1));
    assert_eq!(IntBinop::NotEqual.eval(1, 2, 4), 1);
    assert_eq!(IntBinop::Less.eval(0xff, 1, 1), 0);
    assert_eq!(IntBinop::SLess.eval(0xff, 1, 1), 1);
    assert_eq!(IntBinop::LessEqual.eval(3, 3, 4), 1);
    assert_eq!(IntBinop::SLessEqual.eval(0x80, 0x7f, 1), 1);
}

#[test]
fn division_goes_toward_zero() {
    assert_eq!(IntBinop::Div.eval(7, 2, 4), 3);
    assert_eq!(IntBinop::Rem.eval(7, 2, 4), 1);
    // -7 / 2 = -3, remainder -1.
    assert_eq!(IntBinop::Sdiv.eval(0xf9, 2, 1), 0xfd);
    assert_eq!(IntBinop::Srem.eval(0xf9, 2, 1), 0xff);
}

#[test]
fn unary_operations() {
    assert_eq!(Unop::IntNegate.eval_int(1, 1), Some(0xff));
    assert_eq!(Unop::IntNegate.eval_int(0, 4), Some(0));
    assert_eq!(Unop::IntNot.eval_int(0x0f, 1), Some(0xf0));
    assert_eq!(Unop::FloatSqrt.eval_int(4, 8), None);
}

#[test]
fn flags_and_counts() {
    assert_eq!(Carry::eval(0xff, 1, 1), 1);
    assert_eq!(Carry::eval(0xfe, 1, 1), 0);
    assert_eq!(SCarry::eval(0x7f, 1, 1), 1);
    assert_eq!(SCarry::eval(0xff, 1, 1), 0);
    assert_eq!(SBorrow::eval(0x80, 1, 1), 1);
    assert_eq!(SBorrow::eval(0x00, 1, 1), 0);
    assert_eq!(PopCount::eval(0xf1, 1), 5);
    assert_eq!(LzCount::eval(1, 2), 15);
    assert_eq!(LzCount::eval(0, 2), 16);
}

#[test]
fn patterns_and_numbers() {
    assert_eq!(mask_for_size(2), 0xffff);
    assert_eq!(mask_for_size(16), u128::MAX);
    assert_eq!(as_signed(u128::MAX), -1);
    assert_eq!(as_signed(0x7f), 127);
    assert_eq!(as_unsigned(-1), u128::MAX);
    assert_eq!(signed_value(0x80, 1), -128);
}

#[test]
fn operators_have_symbols() {
    assert_eq!(Binop::Int(IntBinop::Add).symbol(), "+");
    assert!(Binop::Float(FloatBinop::Less).is_comparison());
    assert!(!Binop::Int(IntBinop::Sub).is_comparison());
}

fn desc(name: &str, root: Option<IntBinop>) -> IntrinsicDesc {
    IntrinsicDesc {
        name: name.to_string(),
        arity: 2,
        root_op: root.map(RootOp::IntBinop),
    }
}

#[test]
fn intrinsic_id_serializes_by_name() {
    let table = IntrinsicTable::build(vec![
        desc("ror", Some(IntBinop::Or)),
        desc("bswap", None),
        desc("rol", Some(IntBinop::Or)),
    ]);
    let rol = IntrinsicId::from_name(&table, "rol").unwrap();
    // An id is written as its name, and read back from it.
    let name = rol.name(&table).clone();
    assert_eq!(name, "rol");
    assert_eq!(IntrinsicId::from_name(&table, &name), Some(rol));
    // An unknown name is a clean error, not a corrupt id.
    assert_eq!(IntrinsicId::from_name(&table, "nope"), None);
}

#[test]
fn intrinsics_are_in_the_order_of_their_names() {
    let table = IntrinsicTable::build(vec![
        desc("ror", Some(IntBinop::Or)),
        desc("bswap", None),
        desc("rol", Some(IntBinop::Or)),
    ]);
    assert_eq!(IntrinsicId(0).name(&table), "bswap");
    assert_eq!(IntrinsicId(1).name(&table), "rol");
    assert_eq!(IntrinsicId(2).name(&table), "ror");
    assert_eq!(IntrinsicId(2).desc(&table).arity, 2);
    let rotations = recognizers_for(&table, RootOp::IntBinop(IntBinop::Or));
    assert_eq!(rotations, vec![IntrinsicId(1), IntrinsicId(2)]);
    assert!(recognizers_for(&table, RootOp::IntBinop(IntBinop::Add)).is_empty());
}
