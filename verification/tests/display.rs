//! Instructions and blocks as text.

use qcode::block::BasicBlock;
use qcode::body::{BlockParam, FunctionBody};
use qcode::context::{Context, Shared, Space, Varnode};
use qcode::function::signature::{ExternArg, ExternInterface, ExternSlot, ParamAttrs};
use qcode::ids::{
    BlockId, BlockParamId, FunctionId, InstructionId, PCodeOpId, SpaceId, TypeId, VarnodeId,
};
use qcode::insn::aggregate::{Extract, Gep, Tuple};
use qcode::insn::assertion::Assert;
use qcode::insn::binop::{Binary, Binop, FloatBinop, IntBinop};
use qcode::insn::casting::{FloatToFloat, FloatToInt, IntToFloat, Range, Sext, Zext};
use qcode::insn::flags::{Carry, IsFloatNaN, LzCount, PopCount, SBorrow, SCarry};
use qcode::insn::instruction::Instruction;
use qcode::insn::intrinsic::{IntrinsicApp, IntrinsicDesc, IntrinsicId, IntrinsicTable};
use qcode::insn::memory::{Load, Store};
use qcode::insn::mnemonic::Mnemonic;
use qcode::insn::pcode_op::PCodeOp;
use qcode::insn::sequence::{ArrayMap, Scan};
use qcode::insn::terminator::{
    Apply, BadInsn, Branch, BranchInd, CBranch, Call, CallInd, CallTag, Callee, Return,
    ReturnValue, Switch, SwitchArm, TailCall,
};
use qcode::insn::unop::{Unary, Unop};
use qcode::literal::{Literal, SymbolicRef};
use qcode::refs::insn::InstructionRef;
use qcode::segment::render::{
    block_display, function_display, instruction_segments, literal_atom, value_tokens,
    value_tokens_shared, value_tokens_view,
};
use qcode::segment::{join, Link, TokenKind};
use qcode::space::{LocalMemorySpaceId, MemorySpaceId};
use qcode::types::AggregateField;
use qcode::value::{LocalValueId, ValueId};

fn konst(ctx: &mut Context, value: u64, size: usize) -> LocalValueId {
    let ty = ctx.shared.types.get_or_make_int(size);
    LocalValueId::Literal(ctx.shared.literals.get_or_make_typed_literal(value, ty, size))
}

fn local(id: InstructionId) -> LocalValueId {
    LocalValueId::Instruction(id.local)
}

fn push_typed(
    ctx: &mut Context,
    block: BlockId,
    mnemonic: Mnemonic,
    ty: TypeId,
) -> InstructionId {
    let id = InstructionRef::from_mnemonic_with_type(ctx, block.func, mnemonic, ty);
    BasicBlock::from_id_mut(ctx, block).push_insn(id);
    id
}

fn push(ctx: &mut Context, block: BlockId, mnemonic: Mnemonic, size: usize) -> InstructionId {
    let ty = ctx.shared.types.get_or_make_int(size);
    push_typed(ctx, block, mnemonic, ty)
}

fn named(
    ctx: &mut Context,
    block: BlockId,
    name: &str,
    mnemonic: Mnemonic,
    size: usize,
) -> InstructionId {
    let id = push(ctx, block, mnemonic, size);
    ctx.bodies[block.func.index()].rename(local(id), name).unwrap();
    id
}

fn function(ctx: &mut Context, name: &str) -> FunctionId {
    FunctionBody::make(ctx, name.to_string()).ok().unwrap().id
}

fn block(ctx: &mut Context, f: FunctionId, name: &str) -> BlockId {
    let id = BasicBlock::make(ctx, f).id;
    BasicBlock::from_id_mut(ctx, id).rename_local(name).unwrap();
    id
}

fn param(ctx: &mut Context, block: BlockId, name: &str, size: usize) -> BlockParamId {
    let p = BasicBlock::from_id_mut(ctx, block).push_param(size);
    ctx.bodies[block.func.index()].rename(LocalValueId::BlockParam(p.local), name).unwrap();
    p
}

fn space(ctx: &mut Context, name: &str) -> SpaceId {
    ctx.shared.spaces.push(Space {
        name: Some(name.to_string()),
        is_register: false,
        word_size: 1,
        addr_size: 8,
    })
}

fn varnode(ctx: &mut Context, name: &str, size: usize) -> (SpaceId, VarnodeId) {
    let space = space(ctx, name);
    let id = ctx.shared.varnodes.push(Varnode {
        name: name.to_string(),
        space,
        size,
        type_id: None,
    });
    (space, id)
}

fn load(ctx: &mut Context, block: BlockId, name: &str, from: &str, size: usize) -> InstructionId {
    let (space, v) = varnode(ctx, from, size);
    named(
        ctx,
        block,
        name,
        Mnemonic::Load(Load {
            space: LocalMemorySpaceId::Shared(space),
            ptr: LocalValueId::Varnode(v),
            size,
        }),
        size,
    )
}

/// A function `f` with a block `block`.
fn fixture() -> (Context, FunctionId, BlockId) {
    let mut ctx = Context::new();
    let f = function(&mut ctx, "f");
    let b = block(&mut ctx, f, "block");
    (ctx, f, b)
}

fn text(ctx: &Context, id: InstructionId) -> String {
    let statement = InstructionRef::from_id(ctx, id).as_statement();
    // The text is that of the tokens, one after the other.
    assert_eq!(join(&instruction_segments(ctx, None, id)), statement);
    statement
}

/// The text and the width of `%v = %v0 <op> 0x2`, with the operands swapped
/// where `swap` says so.
fn binop(op: IntBinop, swap: bool) -> (String, usize) {
    let (mut ctx, f, block) = fixture();
    let v0 = load(&mut ctx, block, "v0", "V0", 4);
    let two = konst(&mut ctx, 2, 4);
    let (lhs, rhs) = if swap { (two, local(v0)) } else { (local(v0), two) };
    let op = Binop::Int(op);
    let i32 = ctx.shared.types.get_or_make_int(4);
    let ty = ctx.shared.types.binop_result(i32, op, i32);
    let v = push_typed(&mut ctx, block, Mnemonic::Binop(Binary { op, lhs, rhs }), ty);
    ctx.bodies[f.index()].rename(local(v), "v").unwrap();
    (text(&ctx, v), InstructionRef::from_id(&ctx, v).size())
}

#[test]
fn test_add_display() {
    let (text, size) = binop(IntBinop::Add, false);
    assert_eq!(size, 4);
    assert_eq!(text, "i32 %v = i32 %v0 + i32 0x2;");
}

#[test]
fn test_sub_display() {
    let (text, size) = binop(IntBinop::Sub, false);
    assert_eq!(size, 4);
    assert_eq!(text, "i32 %v = i32 %v0 - i32 0x2;");
}

#[test]
fn test_mul_display() {
    let (text, size) = binop(IntBinop::Mul, false);
    assert_eq!(size, 4);
    assert_eq!(text, "i32 %v = i32 %v0 * i32 0x2;");
}

#[test]
fn test_div_display() {
    let (text, size) = binop(IntBinop::Div, false);
    assert_eq!(size, 4);
    assert_eq!(text, "i32 %v = i32 %v0 / i32 0x2;");
}

#[test]
fn test_bit_and_display() {
    let (text, size) = binop(IntBinop::And, false);
    assert_eq!(size, 4);
    assert_eq!(text, "i32 %v = i32 %v0 & i32 0x2;");
}

#[test]
fn test_bit_or_display() {
    let (text, size) = binop(IntBinop::Or, false);
    assert_eq!(size, 4);
    assert_eq!(text, "i32 %v = i32 %v0 | i32 0x2;");
}

#[test]
fn test_bit_xor_display() {
    let (text, size) = binop(IntBinop::Xor, false);
    assert_eq!(size, 4);
    assert_eq!(text, "i32 %v = i32 %v0 ^ i32 0x2;");
}

#[test]
fn test_shl_display() {
    let (text, size) = binop(IntBinop::ShiftLeft, false);
    assert_eq!(size, 4);
    assert_eq!(text, "i32 %v = i32 %v0 << i32 0x2;");
}

#[test]
fn test_shr_display() {
    let (text, size) = binop(IntBinop::ShiftRight, false);
    assert_eq!(size, 4);
    assert_eq!(text, "i32 %v = i32 %v0 >> i32 0x2;");
}

#[test]
fn test_eq_display() {
    let (text, size) = binop(IntBinop::Equal, false);
    assert_eq!(size, 1);
    assert_eq!(text, "bool %v = i32 %v0 == i32 0x2;");
}

#[test]
fn test_ne_display() {
    let (text, size) = binop(IntBinop::NotEqual, false);
    assert_eq!(size, 1);
    assert_eq!(text, "bool %v = i32 %v0 != i32 0x2;");
}

#[test]
fn test_lt_display() {
    let (text, size) = binop(IntBinop::Less, false);
    assert_eq!(size, 1);
    assert_eq!(text, "bool %v = i32 %v0 < i32 0x2;");
}

#[test]
fn test_le_display() {
    let (text, size) = binop(IntBinop::LessEqual, false);
    assert_eq!(size, 1);
    assert_eq!(text, "bool %v = i32 %v0 <= i32 0x2;");
}

#[test]
fn test_gt_display() {
    let (text, size) = binop(IntBinop::Less, true);
    assert_eq!(size, 1);
    assert_eq!(text, "bool %v = i32 0x2 < i32 %v0;");
}

#[test]
fn test_ge_display() {
    let (text, size) = binop(IntBinop::LessEqual, true);
    assert_eq!(size, 1);
    assert_eq!(text, "bool %v = i32 0x2 <= i32 %v0;");
}

/// The text of `%v`, of `size` bytes, made from `%v0`.
fn unary(make: fn(LocalValueId) -> Mnemonic, size: usize) -> (String, usize) {
    let (mut ctx, _, block) = fixture();
    let v0 = load(&mut ctx, block, "v0", "V0", 4);
    let v = named(&mut ctx, block, "v", make(local(v0)), size);
    (text(&ctx, v), InstructionRef::from_id(&ctx, v).size())
}

#[test]
fn test_zext_display() {
    let (text, _) = unary(|src| Mnemonic::Zext(Zext { src, size: 8 }), 8);
    assert_eq!(text, "i64 %v = zext(i64, i32 %v0);");
}

#[test]
fn test_sext_display() {
    let (text, _) = unary(|src| Mnemonic::Sext(Sext { src, size: 8 }), 8);
    assert_eq!(text, "i64 %v = sext(i64, i32 %v0);");
}

#[test]
fn test_int2float_display() {
    let (text, _) = unary(|src| Mnemonic::IntToFloat(IntToFloat { src, size: 4 }), 4);
    assert_eq!(text, "i32 %v = int2float(f32, i32 %v0);");
}

#[test]
fn test_float2float_display() {
    let (text, _) = unary(|src| Mnemonic::FloatToFloat(FloatToFloat { src, size: 8 }), 8);
    assert_eq!(text, "i64 %v = float2float(f64, i32 %v0);");
}

#[test]
fn test_trunc_display() {
    let (text, _) = unary(|src| Mnemonic::FloatToInt(FloatToInt { src, size: 2 }), 2);
    assert_eq!(text, "i16 %v = trunc(i16, i32 %v0);");
}

#[test]
fn test_nan_display() {
    let (text, size) = unary(|src| Mnemonic::IsFloatNaN(IsFloatNaN { src }), 1);
    assert_eq!(size, 1);
    assert_eq!(text, "i8 %v = nan(i32 %v0);");
}

#[test]
fn test_popcount_display() {
    let (text, size) = unary(|src| Mnemonic::PopCount(PopCount { src }), 1);
    assert_eq!(size, 1);
    assert_eq!(text, "i8 %v = popcount(i32 %v0);");
}

#[test]
fn test_lzcount_display() {
    let (text, size) = unary(|src| Mnemonic::LzCount(LzCount { src }), 1);
    assert_eq!(size, 1);
    assert_eq!(text, "i8 %v = lzcount(i32 %v0);");
}

#[test]
fn test_carry_display() {
    let (mut ctx, _, block) = fixture();
    let v0 = load(&mut ctx, block, "v0", "V0", 4);
    let v1 = load(&mut ctx, block, "v1", "V1", 4);
    let m = Mnemonic::Carry(Carry { lhs: local(v0), rhs: local(v1) });
    let v = named(&mut ctx, block, "v", m, 1);
    assert_eq!(InstructionRef::from_id(&ctx, v).size(), 1);
    assert_eq!(text(&ctx, v), "i8 %v = carry(i32 %v0, i32 %v1);");
}

#[test]
fn test_scarry_display() {
    let (mut ctx, _, block) = fixture();
    let v0 = load(&mut ctx, block, "v0", "V0", 4);
    let v1 = load(&mut ctx, block, "v1", "V1", 4);
    let m = Mnemonic::SCarry(SCarry { lhs: local(v0), rhs: local(v1) });
    let v = named(&mut ctx, block, "v", m, 1);
    assert_eq!(InstructionRef::from_id(&ctx, v).size(), 1);
    assert_eq!(text(&ctx, v), "i8 %v = scarry(i32 %v0, i32 %v1);");
}

#[test]
fn test_sborrow_display() {
    let (mut ctx, _, block) = fixture();
    let v0 = load(&mut ctx, block, "v0", "V0", 4);
    let v1 = load(&mut ctx, block, "v1", "V1", 4);
    let m = Mnemonic::SBorrow(SBorrow { lhs: local(v0), rhs: local(v1) });
    let v = named(&mut ctx, block, "v", m, 1);
    assert_eq!(InstructionRef::from_id(&ctx, v).size(), 1);
    assert_eq!(text(&ctx, v), "i8 %v = sborrow(i32 %v0, i32 %v1);");
}

#[test]
fn test_assert_macro_and_display() {
    let (mut ctx, _, block) = fixture();
    let cond = load(&mut ctx, block, "cond", "COND", 1);
    let id = push(&mut ctx, block, Mnemonic::Assert(Assert { condition: local(cond) }), 0);
    assert_eq!(InstructionRef::from_id(&ctx, id).size(), 0);
    assert_eq!(text(&ctx, id), "assert i8 %cond;");
}

#[test]
fn tuple_and_extract_roundtrip() {
    let (mut ctx, f, block) = fixture();
    let (five, zero4) = (konst(&mut ctx, 5, 4), konst(&mut ctx, 0, 4));
    let (seven, zero8) = (konst(&mut ctx, 7, 8), konst(&mut ctx, 0, 8));
    let sum = |lhs, rhs| Mnemonic::Binop(Binary { op: Binop::Int(IntBinop::Add), lhs, rhs });
    let a = named(&mut ctx, block, "a", sum(five, zero4), 4);
    let b = named(&mut ctx, block, "b", sum(seven, zero8), 8);
    let i32 = ctx.shared.types.get_or_make_int(4);
    let i64 = ctx.shared.types.get_or_make_int(8);
    let ty = ctx.shared.types.get_or_make_named_aggregate(vec![
        AggregateField::new("lhs".to_string(), i32),
        AggregateField::new("rhs".to_string(), i64),
    ]);
    let t = push_typed(
        &mut ctx,
        block,
        Mnemonic::Tuple(Tuple { fields: vec![local(a), local(b)] }),
        ty,
    );
    ctx.bodies[f.index()].rename(local(t), "t").unwrap();
    let extract = Extract { agg: local(t), index: 1 };
    let x = named(&mut ctx, block, "x", Mnemonic::Extract(extract), 8);

    assert_eq!(text(&ctx, t), "i96 %t = pack(lhs=i32 %a, rhs=i64 %b);");
    let fields = ctx.shared.types.aggregate_fields(ty).expect("tuple result is an aggregate");
    assert_eq!(fields.len(), 2);
    assert_eq!(fields[0].name, "lhs");
    assert_eq!(fields[1].name, "rhs");
    assert_eq!(ctx.shared.types.size_of(fields[0].type_id), 4);
    assert_eq!(ctx.shared.types.size_of(fields[1].type_id), 8);

    assert_eq!(text(&ctx, x), "i64 %x = extract(%t.rhs);");
    assert_eq!(extract.field_name(&ctx, f).unwrap(), "rhs");
    assert_eq!(Extract { agg: local(t), index: 2 }.field_name(&ctx, f), None);
    assert_eq!(InstructionRef::from_id(&ctx, x).size(), 8);
}

#[test]
fn gep_via_qcode_resolves_field_name_and_pointer_type() {
    let (mut ctx, f, block) = fixture();
    let i32 = ctx.shared.types.get_or_make_int(4);
    let inner = ctx.shared.types.get_or_make_struct(
        "Inner".to_string(),
        12,
        vec![AggregateField::new_at("val".to_string(), i32, 8)],
    );
    let inner_ptr = ctx.shared.types.get_or_make_struct_pointer(8, inner);
    let field_ptr = ctx.shared.types.get_or_make_struct_pointer(8, i32);
    let p = load(&mut ctx, block, "p", "base", 8);
    Instruction::from_id_mut(&mut ctx, p).set_type_resized(inner_ptr);
    let gep = Gep { base: local(p), offset: 8 };
    let g = push_typed(&mut ctx, block, Mnemonic::Gep(gep), field_ptr);
    ctx.bodies[f.index()].rename(local(g), "f").unwrap();
    // Prints by field name, not the raw 0x8 offset.
    assert!(text(&ctx, g).contains("gep(%p.val)"), "got: {}", text(&ctx, g));
    assert_eq!(gep.field_name(&ctx, f).unwrap(), "val");

    // Result type is a pointer (width 8) to the i32 field.
    let gep_ty = ctx.stored_type_of(ValueId::Instruction(g)).unwrap();
    assert_eq!(ctx.shared.types.size_of(gep_ty), 8);
    let pointee = ctx.shared.types.pointee_of(gep_ty).expect("gep result is a pointer");
    assert_eq!(ctx.shared.types.size_of(pointee), 4);
    // Where no field is at the offset, the offset is printed.
    let odd = push(&mut ctx, block, Mnemonic::Gep(Gep { base: local(p), offset: 0x1c }), 0);
    assert_eq!(text(&ctx, odd), "gep(%p + 0x1c);");
}

/// `%ptr = v + 0x2`, of `size` bytes.
fn computed_pointer(ctx: &mut Context, block: BlockId, v: VarnodeId, size: usize) -> InstructionId {
    let two = konst(ctx, 2, 8);
    let op = Binop::Int(IntBinop::Add);
    let sum = Binary { op, lhs: LocalValueId::Varnode(v), rhs: two };
    named(ctx, block, "ptr", Mnemonic::Binop(sum), size)
}

#[test]
fn test_load_display() {
    let (mut ctx, _, block) = fixture();
    let (space, v0) = varnode(&mut ctx, "v0", 4);
    let ptr = computed_pointer(&mut ctx, block, v0, 4);
    let m = Mnemonic::Load(Load {
        space: LocalMemorySpaceId::Shared(space),
        ptr: local(ptr),
        size: 4,
    });
    let v = named(&mut ctx, block, "v", m, 4);
    let insn = InstructionRef::from_id(&ctx, v);
    assert!(matches!(insn.mnemonic(), Mnemonic::Load(_)));
    assert_eq!(insn.size(), 4);
    assert!(insn.space().is_none());
    assert_eq!(text(&ctx, v), "i32 %v = load(v0:4, i32 %ptr);");
}

#[test]
fn test_store_display() {
    let (mut ctx, _, block) = fixture();
    let ram = space(&mut ctx, "ram");
    let v0 = load(&mut ctx, block, "v0", "V0", 4);
    let two = konst(&mut ctx, 2, 4);
    let sum = Binary { op: Binop::Int(IntBinop::Add), lhs: local(v0), rhs: two };
    let ptr = named(&mut ctx, block, "ptr", Mnemonic::Binop(sum), 4);
    let seven = konst(&mut ctx, 7, 4);
    let m = Mnemonic::Store(Store {
        space: LocalMemorySpaceId::Shared(ram),
        ptr: local(ptr),
        src: seven,
        size: 4,
    });
    let store = push(&mut ctx, block, m, 0);
    assert_eq!(BasicBlock::from_id(&ctx, block).instructions()[2], store);
    let insn = InstructionRef::from_id(&ctx, store);
    assert!(matches!(insn.mnemonic(), Mnemonic::Store(_)));
    assert_eq!(insn.size(), 0);
    assert!(insn.space().is_none());
    assert_eq!(text(&ctx, store), "store(ram:4, i32 %ptr <- i32 0x7);");
}

#[test]
fn test_computed_pointer_load_inherits_instruction_space() {
    let (mut ctx, _, block) = fixture();
    let (space, a) = varnode(&mut ctx, "A", 8);
    let ptr = computed_pointer(&mut ctx, block, a, 8);
    Instruction::from_id_mut(&mut ctx, ptr).set_space(space);
    let m = Mnemonic::Load(Load {
        space: LocalMemorySpaceId::Shared(space),
        ptr: local(ptr),
        size: 8,
    });
    let value = named(&mut ctx, block, "value", m, 8);
    let Some(MemorySpaceId::Shared(found)) = InstructionRef::from_id(&ctx, ptr).space() else {
        panic!("expected pointer arithmetic");
    };
    assert_eq!(ctx.shared.spaces.get(found).name.as_deref(), Some("A"));
    let Mnemonic::Load(load) = InstructionRef::from_id(&ctx, value).mnemonic() else {
        panic!("expected load instruction");
    };
    assert_eq!(load.space, LocalMemorySpaceId::Shared(ctx.shared.varnodes.get(a).space));
    assert_eq!(text(&ctx, value), "i64 %value = load(A:8, i64 %ptr);");
}

#[test]
fn test_computed_pointer_store_inherits_instruction_space() {
    let (mut ctx, _, block) = fixture();
    let (space, a) = varnode(&mut ctx, "A", 8);
    let ptr = computed_pointer(&mut ctx, block, a, 8);
    let seven = konst(&mut ctx, 7, 8);
    let m = Mnemonic::Store(Store {
        space: LocalMemorySpaceId::Shared(space),
        ptr: local(ptr),
        src: seven,
        size: 8,
    });
    let store = push(&mut ctx, block, m, 0);
    let Mnemonic::Store(found) = InstructionRef::from_id(&ctx, store).mnemonic() else {
        panic!("expected store instruction");
    };
    assert_eq!(found.space, LocalMemorySpaceId::Shared(ctx.shared.varnodes.get(a).space));
    assert_eq!(text(&ctx, store), "store(A:8, i64 %ptr <- i64 0x7);");
}

#[test]
fn test_computed_pointer_without_provenance_falls_back_to_default_space() {
    let (mut ctx, _, block) = fixture();
    let ram = space(&mut ctx, "ram");
    let (lhs, rhs) = (konst(&mut ctx, 0x10, 8), konst(&mut ctx, 2, 8));
    let sum = Binary { op: Binop::Int(IntBinop::Add), lhs, rhs };
    let ptr = named(&mut ctx, block, "ptr", Mnemonic::Binop(sum), 8);
    Instruction::from_id_mut(&mut ctx, ptr).set_space(ram);
    let m = Mnemonic::Load(Load {
        space: LocalMemorySpaceId::Shared(ram),
        ptr: local(ptr),
        size: 8,
    });
    let v = named(&mut ctx, block, "v", m, 8);
    assert_eq!(
        InstructionRef::from_id(&ctx, ptr).space(),
        Some(MemorySpaceId::Shared(ram)),
        "expected default space for pointer arithmetic without provenance"
    );
    let Mnemonic::Load(load) = InstructionRef::from_id(&ctx, v).mnemonic() else {
        panic!("expected load instruction");
    };
    assert_eq!(load.space, LocalMemorySpaceId::Shared(ram));
    assert_eq!(text(&ctx, v), "i64 %v = load(ram:8, i64 %ptr);");
}

#[test]
fn a_result_that_points_into_a_space_says_so() {
    let (mut ctx, _, block) = fixture();
    let ram = space(&mut ctx, "ram");
    let registers = ctx.shared.spaces.push(Space {
        name: Some("register".to_string()),
        is_register: true,
        word_size: 1,
        addr_size: 8,
    });
    let ptr = load(&mut ctx, block, "ptr", "A", 8);
    let mut insn = Instruction::from_id_mut(&mut ctx, ptr);
    insn.set_space(registers);
    assert_eq!(insn.as_ref().space(), None);
    insn.set_space(ram);
    assert_eq!(insn.as_ref().space(), Some(MemorySpaceId::Shared(ram)));
    assert_eq!(insn.as_ref().size(), 8);
    assert_eq!(
        ctx.space_of_value(ValueId::Instruction(ptr)),
        Some(MemorySpaceId::Shared(ram))
    );
}

fn call(target: Callee, args: Vec<LocalValueId>) -> Mnemonic {
    Mnemonic::Call(Call { target, args, clobbers: vec![], tag: CallTag::default() })
}

#[test]
fn minted_callee_is_not_a_call_graph_target_and_renders_explicitly() {
    let (mut ctx, func, _) = fixture();
    let id = InstructionRef::from_mnemonic(&mut ctx, func, call(Callee::Minted(7), vec![]), 0);
    let insn = InstructionRef::from_id(&ctx, id);
    assert_eq!(insn.mnemonic().call_target(), None);
    assert_eq!(text(&ctx, id), "call fn <minted:7>();");
    assert_eq!(Callee::Minted(7).as_real(), None);
    assert_eq!(Callee::Minted(7).minted(), Some(7));
    assert_eq!(Callee::from(func).as_real(), Some(func));
}

#[test]
fn tail_call_is_a_function_level_terminator() {
    let (mut ctx, _, block) = fixture();
    let callee = FunctionBody::make_at_addr(&mut ctx, 0x2000, None).id;
    let m = Mnemonic::TailCall(TailCall { target: Callee::Real(callee), args: vec![] });
    let id = push(&mut ctx, block, m, 0);
    let insn = InstructionRef::from_id(&ctx, id);
    assert!(insn.is_terminator());
    // A tail call carries a function, is a call-graph edge, and exposes no
    // static block target.
    assert_eq!(insn.mnemonic().call_target(), Some(callee));
    assert_eq!(insn.mnemonic().target_blocks().len(), 0);
    assert_eq!(text(&ctx, id), "tailcall fn fn_2000();");
}

#[test]
fn qcode_emits_branch() {
    let (mut ctx, f, src) = fixture();
    let done = block(&mut ctx, f, "done");
    let m = Mnemonic::Branch(Branch { target: done.local, args: vec![] });
    let id = push(&mut ctx, src, m, 0);
    assert_eq!(text(&ctx, id), "goto <done>;");
    let mnemonic = InstructionRef::from_id(&ctx, id).mnemonic();
    assert_eq!(mnemonic.target_blocks().to_vec(), vec![done.local.0]);
}

#[test]
fn qcode_emits_branchind() {
    let (mut ctx, _, block) = fixture();
    let (_, ptr) = varnode(&mut ctx, "ptr", 8);
    let m = Mnemonic::BranchInd(BranchInd { ptr: LocalValueId::Varnode(ptr) });
    let id = push(&mut ctx, block, m, 0);
    assert_eq!(text(&ctx, id), "goto [i64 ptr];");
}

#[test]
fn qcode_emits_cbranch() {
    let (mut ctx, f, src) = fixture();
    let c = load(&mut ctx, src, "c", "cond", 1);
    let then_lbl = block(&mut ctx, f, "then_lbl");
    let else_lbl = block(&mut ctx, f, "else_lbl");
    let m = Mnemonic::CBranch(CBranch {
        condition: local(c),
        success_block: then_lbl.local,
        success_args: vec![],
        failure_block: else_lbl.local,
        failure_args: vec![],
    });
    let id = push(&mut ctx, src, m, 0);
    assert!(InstructionRef::from_id(&ctx, id).is_terminator());
    assert_eq!(text(&ctx, id), "if i8 %c goto <then_lbl> else goto <else_lbl>;");
}

#[test]
fn qcode_emits_call() {
    let (mut ctx, _, block) = fixture();
    let target = function(&mut ctx, "target");
    let id = push(&mut ctx, block, call(Callee::Real(target), vec![]), 0);
    let last = BasicBlock::from_id(&ctx, block).last_instruction().unwrap();
    assert_eq!(last, id);
    assert_eq!(text(&ctx, id), "call fn target();");
}

fn extern_arg(slot: ExternSlot, name: &str) -> ExternArg {
    ExternArg { slot, name: Some(name.to_string()), attrs: ParamAttrs::default() }
}

#[test]
fn call_display_shows_named_args_with_fallbacks() {
    let (mut ctx, _, block) = fixture();
    let callee = function(&mut ctx, "callee");
    let (_, r0) = varnode(&mut ctx, "r0", 8);
    FunctionBody::from_id_mut(&mut ctx, callee).set_extern_interface(ExternInterface {
        args: vec![extern_arg(ExternSlot::Reg(r0, 8), "r0")],
    });
    let (first, second) = (konst(&mut ctx, 1, 8), konst(&mut ctx, 2, 8));
    let id = push(&mut ctx, block, call(Callee::Real(callee), vec![first, second]), 0);
    assert_eq!(text(&ctx, id), "call fn callee(@r0=i64 0x1, @arg1=i64 0x2);");
    // A view of the caller alone sees the interface, and says the same.
    assert_eq!(
        join(&instruction_segments(&ctx, Some(block.func), id)),
        "call fn callee(@r0=i64 0x1, @arg1=i64 0x2);"
    );
}

#[test]
fn call_display_names_stack_passed_arg() {
    let (mut ctx, _, block) = fixture();
    let callee = function(&mut ctx, "callee");
    FunctionBody::from_id_mut(&mut ctx, callee).set_extern_interface(ExternInterface {
        args: vec![extern_arg(ExternSlot::Stack { offset: 4, size: 4 }, "stack_4")],
    });
    let arg = konst(&mut ctx, 7, 4);
    let id = push(&mut ctx, block, call(Callee::Real(callee), vec![arg]), 0);
    assert_eq!(text(&ctx, id), "call fn callee(@stack_4=i32 0x7);");
}

#[test]
fn a_call_prefers_the_names_of_the_entry_block() {
    let (mut ctx, _, src) = fixture();
    let callee = function(&mut ctx, "callee");
    let root = block(&mut ctx, callee, "root");
    param(&mut ctx, root, "rdi", 8);
    FunctionBody::from_id_mut(&mut ctx, callee).set_root(root).unwrap();
    let arg = konst(&mut ctx, 1, 8);
    let id = push(&mut ctx, src, call(Callee::Real(callee), vec![arg]), 0);
    assert_eq!(text(&ctx, id), "call fn callee(@rdi=i64 0x1);");
    // A view of the caller alone does not see the callee's blocks.
    assert_eq!(
        join(&instruction_segments(&ctx, Some(src.func), id)),
        "call fn callee(@arg0=i64 0x1);"
    );
}

#[test]
fn qcode_emits_callind() {
    let (mut ctx, _, block) = fixture();
    let (_, v) = varnode(&mut ctx, "ptr", 8);
    let ptr = LocalValueId::Varnode(v);
    let one = konst(&mut ctx, 1, 4);
    let bare = push(&mut ctx, block, Mnemonic::CallInd(CallInd { ptr, args: vec![] }), 0);
    assert_eq!(text(&ctx, bare), "call [i64 ptr];");
    let with = Mnemonic::CallInd(CallInd { ptr, args: vec![one, one] });
    let id = push(&mut ctx, block, with, 0);
    assert_eq!(text(&ctx, id), "call [i64 ptr](i32 0x1, i32 0x1);");
}

#[test]
fn qcode_emits_return() {
    let (mut ctx, _, block) = fixture();
    let (_, v) = varnode(&mut ctx, "ptr", 8);
    let ptr = LocalValueId::Varnode(v);
    let id = push(&mut ctx, block, Mnemonic::Return(Return { ptr, value: None }), 0);
    assert_eq!(text(&ctx, id), "return at i64 ptr;");
    let one = konst(&mut ctx, 1, 4);
    let with = push(&mut ctx, block, Mnemonic::Return(Return { ptr, value: Some(one) }), 0);
    assert_eq!(text(&ctx, with), "return i32 0x1 at i64 ptr;");
}

#[test]
fn qcode_emits_lambda_apply_and_value_return() {
    let mut ctx = Context::new();
    let rec = FunctionBody::make_lambda(&mut ctx, "rec".to_string()).ok().unwrap().id;
    let entry = block(&mut ctx, rec, "entry");
    FunctionBody::from_id_mut(&mut ctx, rec).set_root(entry).unwrap();
    let s = param(&mut ctx, entry, "s", 8);
    let one = konst(&mut ctx, 1, 8);
    let sum = Binary {
        op: Binop::Int(IntBinop::Add),
        lhs: LocalValueId::BlockParam(s.local),
        rhs: one,
    };
    let next = named(&mut ctx, entry, "next", Mnemonic::Binop(sum), 8);
    let m = Mnemonic::Apply(Apply { target: Callee::Real(rec), args: vec![local(next)] });
    let apply = named(&mut ctx, entry, "out", m, 8);
    let last = push(
        &mut ctx,
        entry,
        Mnemonic::ReturnValue(ReturnValue { value: local(apply) }),
        0,
    );

    let r = FunctionBody::from_name(&ctx, "rec").expect("lambda exists");
    assert!(r.is_lambda());
    assert_eq!(r.root(), Some(entry));
    assert!(!InstructionRef::from_id(&ctx, apply).is_terminator(), "apply is a value");
    assert!(text(&ctx, apply).contains("apply rec("));
    assert_eq!(text(&ctx, last), "return i64 %out;");
    assert_eq!(
        function_display(&ctx, rec),
        "lambda rec:\n<entry @s:i64>\n\ti64 %next = i64 @s + i64 0x1;\n\
         \ti64 %out = apply rec(i64 %next);\n\treturn i64 %out;\n"
    );
}

#[test]
fn qcode_multi_block_with_label() {
    let (mut ctx, f, entry) = fixture();
    let body = block(&mut ctx, f, "body");
    let id = push(
        &mut ctx,
        entry,
        Mnemonic::Branch(Branch { target: body.local, args: vec![] }),
        0,
    );
    let one = konst(&mut ctx, 1, 8);
    let sum = Binary { op: Binop::Int(IntBinop::Add), lhs: one, rhs: one };
    push(&mut ctx, body, Mnemonic::Binop(sum), 8);
    // "body" block contains the add instruction.
    let Mnemonic::Branch(branch) = InstructionRef::from_id(&ctx, id).mnemonic() else {
        panic!("expected branch");
    };
    let target = BlockId::new(entry.func, branch.target);
    assert!(!BasicBlock::from_id(&ctx, target).is_empty());
}

#[test]
fn qcode_cbranch_target_and_fallthrough_are_distinct_blocks() {
    let (mut ctx, f, src) = fixture();
    let c = load(&mut ctx, src, "c", "cond", 1);
    let a = block(&mut ctx, f, "then_lbl");
    let b = block(&mut ctx, f, "else_lbl");
    let m = Mnemonic::CBranch(CBranch {
        condition: local(c),
        success_block: a.local,
        success_args: vec![],
        failure_block: b.local,
        failure_args: vec![],
    });
    let id = push(&mut ctx, src, m, 0);
    let mnemonic = InstructionRef::from_id(&ctx, id).mnemonic();
    let targets = mnemonic.target_blocks().to_vec();
    assert_eq!(targets, vec![a.local.0, b.local.0]);
    assert_ne!(targets[0], targets[1], "target and fallthrough must be distinct");
}

fn with_params(ctx: &mut Context, f: FunctionId, name: &str, params: &[(&str, usize)]) -> BlockId {
    let b = block(ctx, f, name);
    for (name, size) in params {
        param(ctx, b, name, *size);
    }
    b
}

fn operand(ctx: &Context, block: BlockId, k: usize) -> LocalValueId {
    LocalValueId::BlockParam(BasicBlock::from_id(ctx, block).params()[k].local)
}

#[test]
fn branch_with_args_stores_args() {
    let (mut ctx, f, _) = fixture();
    let src = with_params(&mut ctx, f, "src", &[("a", 0)]);
    let dst = with_params(&mut ctx, f, "dst", &[("x", 0)]);
    let a = operand(&ctx, src, 0);
    let id = push(
        &mut ctx,
        src,
        Mnemonic::Branch(Branch { target: dst.local, args: vec![a] }),
        0,
    );
    let Mnemonic::Branch(branch) = InstructionRef::from_id(&ctx, id).mnemonic() else {
        panic!("expected branch");
    };
    assert_eq!(branch.target, dst.local);
    assert_eq!(branch.args.len(), 1);
    assert_eq!(branch.args[0], a);
}

#[test]
fn cbranch_with_per_target_args_are_independent() {
    let (mut ctx, f, _) = fixture();
    let src = with_params(&mut ctx, f, "src", &[("cond", 1), ("then_arg", 8), ("else_arg", 8)]);
    let a = with_params(&mut ctx, f, "then_lbl", &[("x", 8)]);
    let b = with_params(&mut ctx, f, "else_lbl", &[("y", 8)]);
    let m = Mnemonic::CBranch(CBranch {
        condition: operand(&ctx, src, 0),
        success_block: a.local,
        success_args: vec![operand(&ctx, src, 1)],
        failure_block: b.local,
        failure_args: vec![operand(&ctx, src, 2)],
    });
    let id = push(&mut ctx, src, m, 0);
    assert_eq!(
        text(&ctx, id),
        "if i8 @cond goto <then_lbl @x=i64 @then_arg> else goto <else_lbl @y=i64 @else_arg>;"
    );
    let Mnemonic::CBranch(cbranch) = InstructionRef::from_id(&ctx, id).mnemonic() else {
        panic!("expected cbranch");
    };
    assert_eq!(cbranch.success_args, [operand(&ctx, src, 1)]);
    assert_eq!(cbranch.failure_args, [operand(&ctx, src, 2)]);
    assert_ne!(cbranch.success_block, cbranch.failure_block);
}

#[test]
fn branch_args_display() {
    let (mut ctx, f, _) = fixture();
    let src = with_params(&mut ctx, f, "src", &[("a", 0)]);
    let done = with_params(&mut ctx, f, "done", &[("x", 0)]);
    let args = vec![operand(&ctx, src, 0)];
    let id = push(&mut ctx, src, Mnemonic::Branch(Branch { target: done.local, args }), 0);
    assert_eq!(text(&ctx, id), "goto <done @x=i0 @a>;");
}

#[test]
fn branch_args_are_ordered_by_target_params() {
    let (mut ctx, f, _) = fixture();
    let src = with_params(&mut ctx, f, "src", &[("a", 0), ("b", 0)]);
    let done = with_params(&mut ctx, f, "done", &[("x", 0), ("y", 0)]);
    let args = vec![operand(&ctx, src, 1), operand(&ctx, src, 0)];
    let id = push(&mut ctx, src, Mnemonic::Branch(Branch { target: done.local, args }), 0);
    assert_eq!(text(&ctx, id), "goto <done @x=i0 @b @y=i0 @a>;");
}

#[test]
fn map_renders_as_fmap() {
    let mut ctx = Context::new();
    let body = function(&mut ctx, "foo");
    let host = function(&mut ctx, "host");
    let entry = BasicBlock::make(&mut ctx, host).with_address(0x2000).id;
    FunctionBody::from_id_mut(&mut ctx, host).set_root(entry).unwrap();
    let i8 = ctx.shared.types.get_or_make_int(1);
    let array_ty = ctx.shared.types.get_or_make_array(i8, 8);
    let src = param(&mut ctx, entry, "src", 8);
    let cap = param(&mut ctx, entry, "cap", 4);
    let map = |captures| {
        Mnemonic::ArrayMap(ArrayMap {
            body: Callee::Real(body),
            src: LocalValueId::BlockParam(src.local),
            captures,
        })
    };
    let plain = push_typed(&mut ctx, entry, map(vec![]), array_ty);
    let rendered = text(&ctx, plain);
    assert!(rendered.contains("foo <$>"), "map renders as fmap, got: {rendered}");

    let with = map(vec![LocalValueId::BlockParam(cap.local)]);
    let capturing = push_typed(&mut ctx, entry, with, array_ty);
    let rendered = text(&ctx, capturing);
    assert!(
        rendered.contains("(foo ") && rendered.contains(") <$>"),
        "a capturing map renders as a partial application, got: {rendered}"
    );
    assert!(FunctionBody::from_id(&ctx, host).has_map());
    assert!(!FunctionBody::from_id(&ctx, host).has_scan());
}

#[test]
fn map_builds_with_array_result_and_symbol_body() {
    let (mut ctx, _, entry) = fixture();
    let body = function(&mut ctx, "body");
    let (src, cap) = (param(&mut ctx, entry, "src", 20), param(&mut ctx, entry, "cap", 4));
    let (src, cap) = (LocalValueId::BlockParam(src.local), LocalValueId::BlockParam(cap.local));
    let new_src = param(&mut ctx, entry, "new_src", 20);
    let new_src = LocalValueId::BlockParam(new_src.local);
    let i8 = ctx.shared.types.get_or_make_int(1);
    let array_ty = ctx.shared.types.get_or_make_array(i8, 20);
    let m = ArrayMap { body: Callee::Real(body), src, captures: vec![cap] };
    let id = push_typed(&mut ctx, entry, Mnemonic::ArrayMap(m), array_ty);
    // `body` is a symbol; `src` + captures are the value operands.
    let mnemonic = InstructionRef::from_id(&ctx, id).mnemonic().clone();
    assert_eq!(mnemonic.args().to_vec(), vec![src, cap], "src then captures are the operands");
    assert!(!mnemonic.args().to_vec().contains(&LocalValueId::Function(body)));
    // Result type is the array type of `src`.
    assert_eq!(ctx.stored_type_of(ValueId::Instruction(id)), Some(array_ty));
    // replace_value rewrites operands but never the body symbol.
    let mut rewritten = mnemonic;
    rewritten.replace_value(src, new_src);
    let Mnemonic::ArrayMap(r) = rewritten else {
        unreachable!();
    };
    assert_eq!(r.src, new_src);
    assert_eq!(r.body, Callee::Real(body), "body symbol is untouched by replace_value");
    assert_eq!(r.captures, vec![cap]);
}

#[test]
fn scan_renders_as_scanl() {
    let (mut ctx, f, entry) = fixture();
    let body = function(&mut ctx, "foo");
    let i32 = ctx.shared.types.get_or_make_int(4);
    let array_ty = ctx.shared.types.get_or_make_array(i32, 8);
    let init = LocalValueId::BlockParam(param(&mut ctx, entry, "init", 4).local);
    let src = LocalValueId::BlockParam(param(&mut ctx, entry, "src", 32).local);
    let cap = LocalValueId::BlockParam(param(&mut ctx, entry, "cap", 4).local);
    let scan = |captures| {
        Mnemonic::Scan(Scan { body: Callee::Real(body), init, src, captures })
    };
    let plain = push_typed(&mut ctx, entry, scan(vec![]), array_ty);
    let rendered = text(&ctx, plain);
    assert!(rendered.contains("scanl @foo"), "scan renders as scanl, got: {rendered}");
    let capturing = push_typed(&mut ctx, entry, scan(vec![cap]), array_ty);
    let rendered = text(&ctx, capturing);
    assert!(
        rendered.contains("scanl (@foo "),
        "a capturing scan renders as a partial application, got: {rendered}"
    );
    assert!(FunctionBody::from_id(&ctx, f).has_scan());
}

#[test]
fn scan_builds_with_array_result_and_symbol_body() {
    let (mut ctx, _, entry) = fixture();
    let body = function(&mut ctx, "body");
    let init = LocalValueId::BlockParam(param(&mut ctx, entry, "init", 4).local);
    let src = LocalValueId::BlockParam(param(&mut ctx, entry, "src", 80).local);
    let cap = LocalValueId::BlockParam(param(&mut ctx, entry, "cap", 4).local);
    let new_src = LocalValueId::BlockParam(param(&mut ctx, entry, "new_src", 80).local);
    let i32 = ctx.shared.types.get_or_make_int(4);
    let array_ty = ctx.shared.types.get_or_make_array(i32, 20);
    let m = Scan { body: Callee::Real(body), init, src, captures: vec![cap] };
    let id = push_typed(&mut ctx, entry, Mnemonic::Scan(m), array_ty);
    let mnemonic = InstructionRef::from_id(&ctx, id).mnemonic().clone();
    assert_eq!(
        mnemonic.args().to_vec(),
        vec![init, src, cap],
        "init, src, then captures are the operands"
    );
    assert!(!mnemonic.args().to_vec().contains(&LocalValueId::Function(body)));
    assert_eq!(ctx.stored_type_of(ValueId::Instruction(id)), Some(array_ty));
    let mut rewritten = mnemonic;
    rewritten.replace_value(src, new_src);
    let Mnemonic::Scan(r) = rewritten else {
        unreachable!();
    };
    assert_eq!(r.src, new_src);
    assert_eq!(r.body, Callee::Real(body), "body symbol is untouched by replace_value");
    assert_eq!(r.init, init);
    assert_eq!(r.captures, vec![cap]);
}

#[test]
fn the_other_operations_have_their_syntax() {
    let table = IntrinsicTable::build(vec![IntrinsicDesc {
        name: "rol".to_string(),
        arity: 2,
        root_op: None,
    }]);
    let mut ctx = Context::with_shared(Shared::new(table));
    ctx.shared.pcode_ops.push("syscall".to_string());
    let f = function(&mut ctx, "f");
    let b = block(&mut ctx, f, "b");
    let next = block(&mut ctx, f, "next");
    let (x, y) = (konst(&mut ctx, 1, 4), konst(&mut ctx, 2, 4));
    let mut check = |m: Mnemonic, size: usize, expected: &str| {
        let id = push(&mut ctx, b, m, size);
        assert_eq!(text(&ctx, id), expected);
    };
    check(Mnemonic::BadInsn(BadInsn), 0, "badinsn;");
    check(Mnemonic::Unop(Unary { op: Unop::IntNot, src: x }), 0, "~ i32 0x1;");
    check(Mnemonic::Unop(Unary { op: Unop::FloatSqrt, src: x }), 0, "sqrt(i32 0x1);");
    check(
        Mnemonic::Binop(Binary { op: Binop::Float(FloatBinop::Add), lhs: x, rhs: y }),
        0,
        "i32 0x1 f+ i32 0x2;",
    );
    check(Mnemonic::Range(Range { src: x, start: 1, size: 2 }), 0, "i32 0x1[1:3];");
    check(
        Mnemonic::Intrinsic(IntrinsicApp { id: IntrinsicId(0), args: vec![x, y] }),
        0,
        "$rol(i32 0x1, i32 0x2);",
    );
    check(
        Mnemonic::PCodeOp(PCodeOp { id: PCodeOpId(0), args: vec![x], dst: Some(y) }),
        0,
        "i32 0x2 = syscall(i32 0x1);",
    );
    check(
        Mnemonic::Switch(Switch {
            scrutinee: x,
            cases: vec![
                SwitchArm { value: 0, target: next.local, args: vec![] },
                SwitchArm { value: 16, target: next.local, args: vec![y] },
            ],
            default: Some(next.local),
            default_args: vec![],
        }),
        0,
        "switch i32 0x1 { 0x0 => <next>, 0x10 => <next @arg0=i32 0x2>, default => <next> };",
    );
    check(
        Mnemonic::Load(Load {
            space: LocalMemorySpaceId::Temp(qcode::ids::LocalTempSpaceId(2)),
            ptr: x,
            size: 4,
        }),
        0,
        "load($temp2:4, i32 0x1);",
    );
}

#[test]
fn tokens_say_what_they_are_and_refer_to() {
    let (mut ctx, f, b) = fixture();
    let callee = function(&mut ctx, "callee");
    let one = konst(&mut ctx, 1, 8);
    let id = push(&mut ctx, b, call(Callee::Real(callee), vec![one]), 0);
    let tokens = instruction_segments(&ctx, None, id);
    let kinds: Vec<TokenKind> = tokens.iter().map(|t| t.kind).collect();
    assert_eq!(
        kinds,
        vec![
            TokenKind::Keyword,
            TokenKind::Function,
            TokenKind::Punctuation,
            TokenKind::BlockParam,
            TokenKind::Type,
            TokenKind::Literal,
            TokenKind::Punctuation,
        ]
    );
    assert_eq!(tokens[1].link, Some(Link::Function(callee)));
    assert_eq!(tokens[5].link, Some(Link::Value(one.qualify(f))));
    assert_eq!(tokens[0].link, None);
}

#[test]
fn values_have_their_syntax() {
    let (mut ctx, f, b) = fixture();
    let i64 = ctx.shared.types.get_or_make_int(8);
    let boolt = ctx.shared.types.get_or_make_bool();
    let i16 = ctx.shared.types.get_or_make_int(2);
    let bytes = ctx.shared.make_bytes(vec![1, 2], i16);
    let poison = ctx.get_poison(i64);
    let (_, v) = varnode(&mut ctx, "RAX", 8);
    let yes = ctx.shared.literals.get_or_make_typed_literal(1, boolt, 1);
    let mut sym = |symbolic| {
        let l = Literal { value: 0x40, type_id: i64, symbolic: Some(symbolic) };
        ValueId::Literal(ctx.shared.literals.push_literal(l))
    };
    let to_block = sym(SymbolicRef::Block(b));
    let to_function = sym(SymbolicRef::Function(f));
    let to_text = sym(SymbolicRef::String("hi\n".to_string()));
    let show = |id| join(&value_tokens(&ctx, id));
    assert_eq!(show(ValueId::Bytes(bytes)), "i16 b\"\\x01\\x02\"");
    assert_eq!(show(poison), "i64 poison");
    assert_eq!(show(ValueId::Varnode(v)), "i64 RAX");
    assert_eq!(show(ValueId::Literal(yes)), "bool true");
    assert_eq!(show(to_block), "i64 &<block>");
    assert_eq!(show(to_function), "i64 &<f>");
    assert_eq!(show(to_text), "i64 &\"hi\\n\"");
    assert_eq!(show(ValueId::Function(f)), "<f>");
    assert_eq!(show(ValueId::BasicBlock(b)), "<block>\n");
    assert_eq!(ctx.value_display(poison), "i64 poison");
    // Without the functions, blocks and functions are numbers.
    let alone = |id| join(&value_tokens_shared(&ctx.shared, id));
    assert_eq!(alone(to_block), "i64 &<0x40>");
    assert_eq!(alone(to_function), "i64 &<0x40>");
    assert_eq!(alone(to_text), "i64 &\"hi\\n\"");
    assert_eq!(alone(ValueId::Literal(yes)), "bool true");
    assert_eq!(alone(ValueId::Bytes(bytes)), "i16 b\"\\x01\\x02\"");
    assert_eq!(alone(poison), "i64 poison");
    assert_eq!(alone(ValueId::Varnode(v)), "i64 RAX");
    // A view of another function does not resolve the block.
    let other = FunctionId(f.0 + 1);
    assert_eq!(join(&value_tokens_view(&ctx, Some(other), to_block)), "i64 &<0x40>");
    if let ValueId::Literal(l) = to_block {
        assert_eq!(literal_atom(&ctx, l), "&<block>");
    }
}

#[test]
fn a_block_is_listed_with_comment_and_successors() {
    let (mut ctx, f, b) = fixture();
    let zeta = block(&mut ctx, f, "zeta");
    let alpha = block(&mut ctx, f, "alpha");
    let p = param(&mut ctx, b, "p", 4);
    let (_, v) = varnode(&mut ctx, "ptr", 8);
    let m = Mnemonic::BranchInd(BranchInd { ptr: LocalValueId::Varnode(v) });
    push(&mut ctx, b, m, 0);
    ctx.bodies[f.index()].add_cfg_edge(b, zeta);
    ctx.bodies[f.index()].add_cfg_edge(b, alpha);
    BasicBlock::from_id_mut(&mut ctx, b).set_comment(Some("one\r\ntwo\n\nlast".to_string()));
    assert_eq!(
        block_display(&ctx, None, b),
        "<block @p:i32>\n\t// one\n\t// two\n\t// \n\t// last\n\tgoto [i64 ptr];\n\
         \t// -> <alpha>, <zeta>\n"
    );
    assert_eq!(BlockParam::from_id(&ctx, p).render(), "@p");
    assert_eq!(block_display(&ctx, None, alpha), "<alpha>\n");
}

#[test]
fn a_parameter_of_a_struct_shows_its_type() {
    let (mut ctx, f, b) = fixture();
    let next = block(&mut ctx, f, "next");
    let teb = ctx.shared.types.get_or_make_struct("TEB".to_string(), 8, vec![]);
    let ptr = ctx.shared.types.get_or_make_struct_pointer(8, teb);
    let p = param(&mut ctx, next, "base", 8);
    ctx.bodies[f.index()].params.get_mut(p.local.0).type_id = ptr;
    assert_eq!(BlockParam::from_id(&ctx, p).render(), "TEB* @base");
    assert_eq!(block_display(&ctx, None, next), "<next TEB* @base>\n");
    let zero = konst(&mut ctx, 0, 8);
    let m = Mnemonic::Branch(Branch { target: next.local, args: vec![zero] });
    let id = push(&mut ctx, b, m, 0);
    assert_eq!(text(&ctx, id), "goto <next TEB* @base=i64 0x0>;");
}

#[test]
fn unnamed_values_go_by_their_index() {
    let (mut ctx, _, b) = fixture();
    let one = konst(&mut ctx, 1, 4);
    for _ in 0..11 {
        push(&mut ctx, b, Mnemonic::Unop(Unary { op: Unop::IntNegate, src: one }), 4);
    }
    let last = BasicBlock::from_id(&ctx, b).last_instruction().unwrap();
    assert_eq!(text(&ctx, last), "i32 %tmpa = - i32 0x1;");
}
