//! What several calls come to.

use qcode::block::BasicBlock;
use qcode::body::{BlockParam, FunctionBody};
use qcode::constants::Poison;
use qcode::context::{Context, Shared, Space, Varnode};
use qcode::error::Error;
use qcode::ids::{BlockId, FunctionId, InstructionId, TypeId};
use qcode::insn::binop::{Binary, Binop, IntBinop};
use qcode::insn::instruction::Instruction;
use qcode::insn::intrinsic::{IntrinsicDesc, IntrinsicId, IntrinsicTable};
use qcode::insn::mnemonic::Mnemonic;
use qcode::insn::terminator::{Apply, Branch, Callee};
use qcode::literal::Literal;
use qcode::refs::insn::InstructionRef;
use qcode::refs::value::{Value, ValueRef};
use qcode::sort::sort;
use qcode::space::MemorySpaceId;
use qcode::value::{LocalValueId, ValueId};

fn konst(ctx: &mut Context, value: u64, size: usize) -> LocalValueId {
    let ty = ctx.shared.types.get_or_make_int(size);
    LocalValueId::Literal(ctx.shared.literals.get_or_make_typed_literal(value, ty, size))
}

fn push(ctx: &mut Context, block: BlockId, mnemonic: Mnemonic, size: usize) -> InstructionId {
    let id = InstructionRef::from_mnemonic(ctx, block.func, mnemonic, size);
    BasicBlock::from_id_mut(ctx, block).push_insn(id);
    id
}

fn sum(lhs: LocalValueId, rhs: LocalValueId) -> Mnemonic {
    Mnemonic::Binop(Binary { op: Binop::Int(IntBinop::Add), lhs, rhs })
}

fn function(ctx: &mut Context, name: &str) -> FunctionId {
    FunctionBody::make(ctx, name.to_string()).ok().unwrap().id
}

fn block(ctx: &mut Context, f: FunctionId, name: &str) -> BlockId {
    let id = BasicBlock::make(ctx, f).id;
    BasicBlock::from_id_mut(ctx, id).rename_local(name).unwrap();
    id
}

#[test]
fn a_block_is_found_by_name_in_the_first_function_that_has_it() {
    let mut ctx = Context::new();
    let f = function(&mut ctx, "f");
    let g = function(&mut ctx, "g");
    let first = block(&mut ctx, f, "entry");
    let second = block(&mut ctx, g, "entry");
    let only = block(&mut ctx, g, "exit");
    assert_eq!(BasicBlock::from_name(&ctx, "entry").map(|b| b.id), Some(first));
    assert_ne!(BasicBlock::from_name(&ctx, "entry").map(|b| b.id), Some(second));
    assert_eq!(BasicBlock::from_name(&ctx, "exit").map(|b| b.id), Some(only));
    assert!(BasicBlock::from_name(&ctx, "nowhere").is_none());
    // An instruction of that name in an earlier function is no block.
    let one = konst(&mut ctx, 1, 4);
    let i = push(&mut ctx, first, sum(one, one), 4);
    Instruction::from_id_mut(&mut ctx, i).rename("exit").unwrap();
    assert_eq!(BasicBlock::from_name(&ctx, "exit").map(|b| b.id), Some(only));
}

#[test]
fn predecessors_and_successors_mirror_each_other() {
    let mut ctx = Context::new();
    let f = function(&mut ctx, "f");
    let (a, b) = (block(&mut ctx, f, "a"), block(&mut ctx, f, "b"));
    let e = ctx.bodies[f.index()].add_cfg_edge(a, b);
    let back = ctx.bodies[f.index()].add_cfg_edge(b, b);
    assert_eq!(BasicBlock::from_id(&ctx, a).successors(), vec![(e, b)]);
    assert_eq!(BasicBlock::from_id(&ctx, b).predecessors(), vec![(e, a), (back, b)]);
    assert_eq!(BasicBlock::from_id(&ctx, a).predecessors(), vec![]);
}

#[test]
fn references_rename_what_they_refer_to() {
    let mut ctx = Context::new();
    let f = function(&mut ctx, "f");
    let b = block(&mut ctx, f, "b");
    let one = konst(&mut ctx, 1, 4);
    let i = push(&mut ctx, b, sum(one, one), 4);
    let p = BasicBlock::from_id_mut(&mut ctx, b).push_param(4);
    BlockParam::from_id_mut(&mut ctx, p).rename("x").unwrap();
    let refused = Instruction::from_id_mut(&mut ctx, i).rename("x");
    assert!(matches!(refused, Err(Error::DuplicateName(name)) if name == "x"));
    Instruction::from_id_mut(&mut ctx, i).rename("y").unwrap();
    Instruction::from_id_mut(&mut ctx, i).rename("y").unwrap();
    assert_eq!(InstructionRef::new(&ctx, i).name().unwrap(), "y");
    assert_eq!(BlockParam::from_id(&ctx, p).name().unwrap(), "x");
}

#[test]
fn a_reborrowed_block_changes_the_same_module() {
    let mut ctx = Context::new();
    let f = function(&mut ctx, "f");
    let b = block(&mut ctx, f, "b");
    let mut r = BasicBlock::from_id_mut(&mut ctx, b);
    r.reborrow().set_comment(Some("seen".to_string()));
    assert_eq!(r.as_ref().comment().map(String::as_str), Some("seen"));
}

#[test]
fn a_reference_has_the_width_of_its_value() {
    let mut ctx = Context::new();
    let f = function(&mut ctx, "f");
    let b = block(&mut ctx, f, "b");
    let one = konst(&mut ctx, 1, 4);
    let i = push(&mut ctx, b, sum(one, one), 4);
    let ram = ctx.shared.spaces.push(Space {
        name: Some("ram".to_string()),
        is_register: false,
        word_size: 1,
        addr_size: 8,
    });
    let v = ctx.shared.varnodes.push(Varnode {
        name: "RAX".to_string(),
        space: ram,
        size: 8,
        type_id: None,
    });
    for (id, size) in [
        (ValueId::Instruction(i), 4),
        (one.qualify(f), 4),
        (ValueId::Varnode(v), 8),
        (ValueId::BasicBlock(b), 0),
        (ValueId::Function(f), 0),
    ] {
        let r = ValueRef::from_id(&ctx, id);
        assert_eq!(r.id(), id);
        assert_eq!(Value::size(&r), size);
        assert_eq!(ctx.size_of_value(id), size);
    }
    let location = ValueRef::new(ValueId::Varnode(v), &ctx);
    assert_eq!(location.space(), Some(MemorySpaceId::Shared(ram)));
    assert_eq!(ValueRef::new(ValueId::Instruction(i), &ctx).space(), None);
}

#[test]
fn tables_list_what_they_hold() {
    let mut shared = Shared::new(IntrinsicTable::build(vec![]));
    let ty = shared.types.get_or_make_int(4);
    let first = shared.poisons.push(Poison { type_id: ty });
    let second = shared.poisons.push(Poison { type_id: ty });
    assert_ne!(first, second);
    let ids: Vec<_> = shared.poisons.iter().into_iter().map(|(id, _)| id).collect();
    assert_eq!(ids, vec![first, second]);
    let l = shared.literals.get_or_make_typed_literal(7, ty, 4);
    let listed: Vec<_> = shared.literals.iter().into_iter().map(|(id, l)| (id, l.value)).collect();
    assert_eq!(listed, vec![(l, 7)]);
}

#[test]
fn a_constant_has_one_literal() {
    let mut shared = Shared::new(IntrinsicTable::build(vec![]));
    let (small, wide) = (shared.types.get_or_make_int(4), shared.types.get_or_make_int(8));
    let a = shared.literals.get_or_make_typed_literal(7, small, 4);
    // The number is cut to the width first.
    let cut = shared.literals.get_or_make_typed_literal(0x1_0000_0007, small, 4);
    assert_eq!(a, cut);
    assert_ne!(a, shared.literals.get_or_make_typed_literal(8, small, 4));
    assert_ne!(a, shared.literals.get_or_make_typed_literal(7, wide, 8));
    // What is pushed as it is stays apart.
    let pushed = Literal { value: 9, type_id: small, symbolic: None };
    let apart = shared.literals.push_literal(pushed);
    assert_ne!(apart, shared.literals.get_or_make_typed_literal(9, small, 4));
}

#[test]
fn places_of_intrinsics_do_not_depend_on_the_order() {
    let desc = |name: &str| IntrinsicDesc { name: name.to_string(), arity: 2, root_op: None };
    let one = IntrinsicTable::build(vec![desc("ror"), desc("bswap"), desc("rol")]);
    let other = IntrinsicTable::build(vec![desc("rol"), desc("ror"), desc("bswap")]);
    for (place, name) in ["bswap", "rol", "ror"].into_iter().enumerate() {
        assert_eq!(IntrinsicId::from_name(&one, name), Some(IntrinsicId(place)));
        assert_eq!(IntrinsicId::from_name(&other, name), Some(IntrinsicId(place)));
    }
    let words = |list: &[&str]| list.iter().map(|w| w.to_string()).collect::<Vec<_>>();
    assert_eq!(sort(words(&["b", "ab", "a", ""])), words(&["", "a", "ab", "b"]));
    assert_eq!(sort(words(&["", "a", "b", "ab"])), words(&["", "a", "ab", "b"]));
}

#[test]
fn comparisons_and_shifts_have_their_range() {
    for op in [IntBinop::Equal, IntBinop::Less, IntBinop::SLessEqual, IntBinop::NotEqual] {
        assert!(op.eval(0xff, 1, 1) <= 1);
    }
    assert_eq!(IntBinop::Xor.eval(0xfff, 0x0f, 1), 0xf0);
    assert_eq!(IntBinop::ShiftLeft.eval(1, 8, 1), 0);
    assert_eq!(IntBinop::ShiftRight.eval(0x80, 8, 1), 0);
    assert_eq!(IntBinop::SShiftRight.eval(0x80, 8, 1), 0xff);
    assert_eq!(IntBinop::SShiftRight.eval(0x7f, 9, 1), 0);
}

#[test]
fn no_placeholder_stays_once_all_are_resolved() {
    let mut ctx = Context::new();
    let f = function(&mut ctx, "f");
    let g = function(&mut ctx, "g");
    let b = block(&mut ctx, f, "b");
    let one = konst(&mut ctx, 1, 4);
    let m = Mnemonic::Apply(Apply { target: Callee::Minted(0), args: vec![one] });
    let i = push(&mut ctx, b, m, 4);
    assert_eq!(ctx.bodies[f.index()].resolve_minted_callees(&vec![]), Err(0));
    assert_eq!(ctx.bodies[f.index()].resolve_minted_callees(&vec![g]), Ok(1));
    let mnemonic = InstructionRef::from_id(&ctx, i).mnemonic();
    assert_eq!(mnemonic.call_target(), Some(g));
    assert_eq!(mnemonic.args().to_vec(), vec![one]);
}

#[test]
fn ids_are_not_given_again() {
    let mut ctx = Context::new();
    let f = function(&mut ctx, "f");
    let b = block(&mut ctx, f, "b");
    let one = konst(&mut ctx, 1, 4);
    let i = push(&mut ctx, b, sum(one, one), 4);
    ctx.bodies[f.index()].remove_instruction(i);
    let j = push(&mut ctx, b, sum(one, one), 4);
    assert_ne!(i, j);
    let gone = block(&mut ctx, f, "gone");
    BasicBlock::from_id_mut(&mut ctx, gone).delete();
    assert_ne!(block(&mut ctx, f, "gone"), gone);
}

#[test]
fn a_move_keeps_the_rest_in_order() {
    let mut ctx = Context::new();
    let f = function(&mut ctx, "f");
    let (a, b) = (block(&mut ctx, f, "a"), block(&mut ctx, f, "b"));
    let one = konst(&mut ctx, 1, 4);
    let ids: Vec<_> = (0..4).map(|_| push(&mut ctx, a, sum(one, one), 4)).collect();
    let jump = Mnemonic::Branch(Branch { target: a.local, args: vec![] });
    let last = push(&mut ctx, b, jump, 0);
    ctx.bodies[f.index()].move_insn_before(ids[1], last);
    assert_eq!(
        BasicBlock::from_id(&ctx, b).instructions(),
        vec![ids[1], last]
    );
    assert_eq!(
        BasicBlock::from_id(&ctx, a).instructions(),
        vec![ids[0], ids[2], ids[3]]
    );
}

#[test]
fn types_have_one_id_each() {
    let mut shared = Shared::new(IntrinsicTable::build(vec![]));
    let four = shared.types.get_or_make_int(4);
    let again = shared.types.get_or_make_int(4);
    let eight: TypeId = shared.types.get_or_make_int(8);
    assert_eq!(four, again);
    assert_ne!(four, eight);
    assert_eq!(shared.types.size_of(four), 4);
}

#[test]
fn giving_memory_back_changes_nothing() {
    let mut ctx = Context::new();
    let f = function(&mut ctx, "f");
    let a = block(&mut ctx, f, "a");
    let blocks: Vec<BlockId> = (0..6).map(|_| BasicBlock::make(&mut ctx, f).id).collect();
    for b in &blocks {
        ctx.bodies[f.index()].add_cfg_edge(a, *b);
    }
    for b in &blocks[2..] {
        let edge = BasicBlock::from_id(&ctx, *b).predecessors()[0].0;
        ctx.bodies[f.index()].remove_cfg_edge(edge);
    }
    let before = BasicBlock::from_id(&ctx, a).successors();
    ctx.bodies[f.index()].shrink_to_fit();
    assert_eq!(BasicBlock::from_id(&ctx, a).successors(), before);
    assert_eq!(before.len(), 2);
}

#[test]
fn an_address_of_a_register_is_a_plain_integer() {
    let mut ctx = Context::new();
    let f = function(&mut ctx, "f");
    let space = |ctx: &mut Context, name: &str, is_register| {
        ctx.shared.spaces.push(Space {
            name: Some(name.to_string()),
            is_register,
            word_size: 1,
            addr_size: 8,
        })
    };
    let registers = space(&mut ctx, "register", true);
    let ram = space(&mut ctx, "ram", false);
    let types = &mut ctx.shared.types;
    let in_register = types.get_or_make_space_address(8, MemorySpaceId::Shared(registers));
    let in_ram = types.get_or_make_space_address(8, MemorySpaceId::Shared(ram));
    let one = konst(&mut ctx, 1, 8);
    let i = InstructionRef::from_mnemonic_with_type(&mut ctx, f, sum(one, one), in_register);
    let j = InstructionRef::from_mnemonic_with_type(&mut ctx, f, sum(one, one), in_ram);
    let plain = ctx.shared.types.get_or_make_int(8);
    assert_eq!(InstructionRef::from_id(&ctx, i).type_id(), plain);
    assert_eq!(InstructionRef::from_id(&ctx, i).space(), None);
    assert_eq!(InstructionRef::from_id(&ctx, j).type_id(), in_ram);
}

#[test]
fn a_selector_reads_the_body_as_it_is() {
    let mut ctx = Context::new();
    let f = function(&mut ctx, "f");
    let (a, b) = (block(&mut ctx, f, "a"), block(&mut ctx, f, "b"));
    let (one, two) = (konst(&mut ctx, 1, 4), konst(&mut ctx, 2, 4));
    let i = push(&mut ctx, a, sum(one, one), 4);
    let j = push(&mut ctx, b, sum(one, one), 4);
    // Only the uses in block `b`.
    ctx.bodies[f.index()].replace_uses_where(one.qualify(f), two.qualify(f), |body, user, _| {
        body.insn(user).parent == Some(b.local)
    });
    assert_eq!(InstructionRef::from_id(&ctx, i).mnemonic().args().to_vec(), vec![one, one]);
    assert_eq!(InstructionRef::from_id(&ctx, j).mnemonic().args().to_vec(), vec![two, two]);
    // Only while the instruction still names it twice.
    ctx.bodies[f.index()].replace_uses_where(one.qualify(f), two.qualify(f), |body, user, _| {
        body.insn(user).mnemonic.args().to_vec() == vec![one, one]
    });
    let left = InstructionRef::from_id(&ctx, i).mnemonic().args().to_vec();
    assert_eq!(left.iter().filter(|v| **v == one).count(), 1);
    assert_eq!(left.iter().filter(|v| **v == two).count(), 1);
}

#[test]
fn splitting_and_absorbing_keep_the_order_of_edges_and_the_users() {
    let mut ctx = Context::new();
    let f = function(&mut ctx, "f");
    let (a, b) = (block(&mut ctx, f, "a"), block(&mut ctx, f, "b"));
    let (c, d) = (block(&mut ctx, f, "c"), block(&mut ctx, f, "d"));
    let one = konst(&mut ctx, 1, 4);
    let i = push(&mut ctx, b, sum(one, one), 4);
    let v = LocalValueId::Instruction(i.local);
    let j = push(&mut ctx, b, sum(v, v), 4);
    let body = &mut ctx.bodies[f.index()];
    let to_d = body.add_cfg_edge(b, d);
    let from_a = body.add_cfg_edge(a, b);
    let to_c = body.add_cfg_edge(b, c);
    let tail = body.split_block_before(b, j);
    assert_eq!(body.successors(tail), vec![(to_d, d), (to_c, c)]);
    assert_eq!(body.successors(b), vec![]);
    assert_eq!(body.predecessors(b), vec![(from_a, a)]);
    let jump = Mnemonic::Branch(Branch { target: tail.local, args: vec![] });
    let br = push(&mut ctx, b, jump, 0);
    let body = &mut ctx.bodies[f.index()];
    let e = body.add_cfg_edge(b, tail);
    // A second edge of the branch goes with it.
    body.add_cfg_edge(b, tail);
    body.absorb_block(b, tail, e);
    assert_eq!(body.successors(b), vec![(to_d, d), (to_c, c)]);
    assert_eq!(body.predecessors(b), vec![(from_a, a)]);
    assert!(!body.contains_block(tail));
    assert!(!body.contains_instruction(br));
    assert_eq!(body.users_of(v.qualify(f)), vec![j, j]);
    assert_eq!(BasicBlock::from_id(&ctx, b).instructions(), vec![i, j]);
}

#[test]
fn bytes_are_as_many_as_their_type_is_wide() {
    let mut shared = Shared::new(IntrinsicTable::build(vec![]));
    let ty = shared.types.get_or_make_int(2);
    let first = shared.make_bytes(vec![1, 2], ty);
    let second = shared.make_bytes(vec![1, 2], ty);
    assert_ne!(first, second);
    assert_eq!(shared.bytes.get(first).data, vec![1, 2]);
    assert_eq!(shared.types.size_of(shared.bytes.get(first).type_id), 2);
}

#[test]
fn ids_have_their_own_text() {
    let mut ctx = Context::new();
    function(&mut ctx, "f");
    let g = function(&mut ctx, "g");
    let b = block(&mut ctx, g, "b");
    let one = konst(&mut ctx, 1, 4);
    let i = push(&mut ctx, b, sum(one, one), 4);
    assert_eq!(b.render(), "1:0");
    assert_eq!(i.render(), "1:0");
    assert_eq!(ValueId::BasicBlock(b).render(), "BasicBlock(1:0)");
    assert_eq!(ValueId::Instruction(i).render(), "Instruction(1:0)");
    assert_eq!(ValueId::Function(g).render(), "Function(1)");
    assert_eq!(one.qualify(g).render(), "Literal(0)");
}

#[test]
fn a_known_type_needs_no_room() {
    let mut shared = Shared::new(IntrinsicTable::build(vec![]));
    let ty = shared.types.get_or_make_bool();
    let n = shared.types.len();
    assert_eq!(shared.types.get_or_make_bool(), ty);
    assert_eq!(shared.types.len(), n);
}
