//! Blocks: their parameters, edges, addresses and copies.

use qcode::block::BasicBlock;
use qcode::body::{BlockParam, FunctionBody};
use qcode::context::{Context, Space, Varnode};
use qcode::error::Error;
use qcode::ids::{
    BlockId, FunctionId, InstructionId, LocalBlockId, LocalInsnId, LocalTempSpaceId, SpaceId,
    VarnodeId,
};
use qcode::insn::binop::{Binary, Binop, IntBinop};
use qcode::insn::memory::{Load, Store};
use qcode::insn::mnemonic::Mnemonic;
use qcode::insn::sequence::{ArrayMap, Scan};
use qcode::insn::substitute::substitute_operands;
use qcode::insn::terminator::{
    BadInsn, Branch, CBranch, CallInd, Callee, Return, Switch, SwitchArm,
};
use qcode::insn::pcode_op::PCodeOp;
use qcode::ids::{LiteralId, PCodeOpId};
use qcode::refs::insn::InstructionRef;
use qcode::space::LocalMemorySpaceId;
use qcode::value::{LocalValueId, ValueId};
use qcode::value_map::ValueMap;

fn konst(ctx: &mut Context, value: u64, size: usize) -> LocalValueId {
    let ty = ctx.shared.types.get_or_make_int(size);
    LocalValueId::Literal(ctx.shared.literals.get_or_make_typed_literal(value, ty, size))
}

fn push(ctx: &mut Context, block: BlockId, mnemonic: Mnemonic, size: usize) -> InstructionId {
    let id = InstructionRef::from_mnemonic(ctx, block.func, mnemonic, size);
    BasicBlock::from_id_mut(ctx, block).push_insn(id);
    id
}

fn sum(lhs: LocalValueId, rhs: LocalValueId) -> Mnemonic {
    Mnemonic::Binop(Binary { op: Binop::Int(IntBinop::Add), lhs, rhs })
}

fn ret(ptr: LocalValueId) -> Mnemonic {
    Mnemonic::Return(Return { ptr, value: None })
}

fn local(id: InstructionId) -> LocalValueId {
    LocalValueId::Instruction(id.local)
}

fn function(ctx: &mut Context, name: &str) -> FunctionId {
    FunctionBody::make(ctx, name.to_string()).ok().unwrap().id
}

fn block(ctx: &mut Context, f: FunctionId, name: &str) -> BlockId {
    let id = BasicBlock::make(ctx, f).id;
    BasicBlock::from_id_mut(ctx, id).rename_local(name).unwrap();
    id
}

/// Ends `from` with a branch to `to`, with the edge for it.
fn goto(ctx: &mut Context, from: BlockId, to: BlockId) -> InstructionId {
    let id = push(
        ctx,
        from,
        Mnemonic::Branch(Branch { target: to.local, args: vec![] }),
        0,
    );
    ctx.bodies[from.func.index()].add_cfg_edge(from, to);
    id
}

/// A space and a storage location in it, of one name.
fn varnode(ctx: &mut Context, name: &str, size: usize) -> (SpaceId, VarnodeId) {
    let space = ctx.shared.spaces.push(Space {
        name: Some(name.to_string()),
        is_register: false,
        word_size: 1,
        addr_size: 8,
    });
    let id = ctx.shared.varnodes.push(Varnode {
        name: name.to_string(),
        space,
        size,
        type_id: None,
    });
    (space, id)
}

/// `%x = load(X:8, X); %y = load(Y:8, Y); %sum = %x + %y; return at 0`.
fn program(ctx: &mut Context) -> (BlockId, Vec<InstructionId>) {
    let f = function(ctx, "f");
    let b = block(ctx, f, "block");
    let mut ids: Vec<InstructionId> = Vec::new();
    for (name, at) in [("x", "X"), ("y", "Y")] {
        let (space, v) = varnode(ctx, at, 8);
        let load = Mnemonic::Load(Load {
            space: LocalMemorySpaceId::Shared(space),
            ptr: LocalValueId::Varnode(v),
            size: 8,
        });
        let id = push(ctx, b, load, 8);
        ctx.bodies[f.index()].rename(local(id), name).unwrap();
        ids.push(id);
    }
    let s = push(ctx, b, sum(local(ids[0]), local(ids[1])), 8);
    ctx.bodies[f.index()].rename(local(s), "sum").unwrap();
    ids.push(s);
    let zero = konst(ctx, 0, 8);
    ids.push(push(ctx, b, ret(zero), 0));
    (b, ids)
}

#[test]
fn simultaneous_operand_substitution_does_not_chain_local_ids() {
    let a = LocalValueId::Instruction(LocalInsnId::from(1));
    let b = LocalValueId::Instruction(LocalInsnId::from(2));
    let c = LocalValueId::Instruction(LocalInsnId::from(3));
    let mut mnemonic = Mnemonic::Binop(Binary { op: Binop::Int(IntBinop::Add), lhs: a, rhs: b });

    substitute_operands(&mut mnemonic, &vec![(a, b), (b, c)]);

    let Mnemonic::Binop(binary) = mnemonic else {
        unreachable!();
    };
    assert_eq!((binary.lhs, binary.rhs), (b, c));
}

#[test]
fn a_result_slot_is_substituted_only_where_a_pair_names_it() {
    let a = LocalValueId::Instruction(LocalInsnId::from(1));
    let b = LocalValueId::Instruction(LocalInsnId::from(2));
    let slot = LocalValueId::Varnode(VarnodeId(0));
    let op = |dst| Mnemonic::PCodeOp(PCodeOp { id: PCodeOpId(0), args: vec![a], dst: Some(dst) });
    let mut kept = op(slot);
    substitute_operands(&mut kept, &vec![(a, b)]);
    let mut moved = op(a);
    substitute_operands(&mut moved, &vec![(a, b)]);
    match (kept, moved) {
        (Mnemonic::PCodeOp(kept), Mnemonic::PCodeOp(moved)) => {
            assert_eq!((kept.args, kept.dst), (vec![b], Some(slot)));
            assert_eq!((moved.args, moved.dst), (vec![b], Some(b)));
        }
        _ => unreachable!(),
    }
}

#[test]
fn test_create_block_at_address() {
    let mut ctx = Context::new();
    let f = function(&mut ctx, "f");
    let id = BasicBlock::make(&mut ctx, f).with_address(0x2000).id;
    let found = BasicBlock::from_id(&ctx, id);
    assert_eq!(id, found.id);
    assert_eq!(found.address(), Some(0x2000));
    // It goes by the address.
    assert_eq!(ctx.bodies[f.index()].local_named("2000"), Some(LocalValueId::BasicBlock(id.local)));
}

#[test]
fn a_second_block_at_an_address_is_refused() {
    let mut ctx = Context::new();
    let f = function(&mut ctx, "f");
    let g = function(&mut ctx, "g");
    let first = BasicBlock::make(&mut ctx, f).with_address(0x2000).id;
    BasicBlock::from_id_mut(&mut ctx, first).cover_address(0x2004);
    let second = BasicBlock::make(&mut ctx, g).id;
    for address in [0x2000, 0x2004] {
        match BasicBlock::from_id_mut(&mut ctx, second).set_address(address) {
            Err(Error::DuplicateAddress(a)) => assert_eq!(a, address),
            _ => panic!("expected a duplicate address"),
        }
    }
    assert_eq!(BasicBlock::from_id(&ctx, second).address(), None);
    // A block may be moved; its label moves along.
    BasicBlock::from_id_mut(&mut ctx, first).set_address(0x3000).unwrap();
    assert_eq!(BasicBlock::from_id(&ctx, first).name().unwrap(), "3000");
    assert_eq!(ctx.bodies[f.index()].local_named("2000"), None);
}

#[test]
fn test_block_child() {
    let mut ctx = Context::new();
    let f = function(&mut ctx, "f");
    let entry = block(&mut ctx, f, "entry");
    let body = block(&mut ctx, f, "body");
    goto(&mut ctx, entry, body);
    let children: Vec<String> = BasicBlock::from_id(&ctx, entry)
        .successors()
        .into_iter()
        .map(|(_, b)| BasicBlock::from_id(&ctx, b).name().unwrap_or(String::new()))
        .collect();
    assert_eq!(children, ["body"]);
}

#[test]
fn iter_yields_all_instructions() {
    let mut ctx = Context::new();
    let (block, ids) = program(&mut ctx);
    let view = BasicBlock::from_id(&ctx, block);
    assert_eq!(view.iter().len(), 4);
    let text = |k: usize| InstructionRef::from_id(&ctx, view.iter()[k]).as_statement();
    assert_eq!(view.iter(), ids);
    assert_eq!(text(0), "i64 %x = load(X:8, i64 X);");
    assert_eq!(text(1), "i64 %y = load(Y:8, i64 Y);");
    assert_eq!(text(2), "i64 %sum = i64 %x + i64 %y;");
    assert_eq!(text(3), "return at i64 0x0;");
}

#[test]
fn into_iterator_for_block_ref_matches_iter() {
    let mut ctx = Context::new();
    let (block, _) = program(&mut ctx);
    let block = BasicBlock::from_id(&ctx, block);
    let via_iter = block.iter();
    let via_into = block.instructions();
    assert_eq!(via_iter, via_into);
}

#[test]
fn push_param_adds_to_params_not_instructions() {
    let mut ctx = Context::new();
    let f = function(&mut ctx, "f");
    let mut block = BasicBlock::make(&mut ctx, f);

    assert_eq!(block.num_params(), 0);
    assert_eq!(block.as_ref().len(), 0);

    block.push_param(8);
    assert_eq!(block.num_params(), 1);
    assert_eq!(block.as_ref().len(), 0);

    block.push_param(4);
    assert_eq!(block.num_params(), 2);
    assert_eq!(block.as_ref().len(), 0);
}

#[test]
fn params_iter_yields_in_order() {
    let mut ctx = Context::new();
    let f = function(&mut ctx, "f");
    let mut block = BasicBlock::make(&mut ctx, f);

    let p0_id = block.push_param(8);
    let p1_id = block.push_param(4);
    let id = block.id;

    let param_ids = BasicBlock::from_id(&ctx, id).params();
    assert_eq!(param_ids, [p0_id, p1_id]);
    assert_eq!(BlockParam::from_id(&ctx, param_ids[0]).index(), 0);
    assert_eq!(BlockParam::from_id(&ctx, param_ids[1]).index(), 1);
}

#[test]
fn wazabin_qcode_macro_block_with_params() {
    let mut ctx = Context::new();
    let f = function(&mut ctx, "f");
    let entry = block(&mut ctx, f, "entry");
    let done = block(&mut ctx, f, "done");
    let mut v = Vec::new();
    for (name, size) in [("v1", 8), ("v2", 4)] {
        let p = BasicBlock::from_id_mut(&mut ctx, entry).push_param(size);
        ctx.bodies[f.index()].rename(LocalValueId::BlockParam(p.local), name).unwrap();
        v.push(LocalValueId::BlockParam(p.local));
    }
    for (name, size) in [("x", 8), ("y", 4)] {
        let p = BasicBlock::from_id_mut(&mut ctx, done).push_param(size);
        ctx.bodies[f.index()].rename(LocalValueId::BlockParam(p.local), name).unwrap();
    }
    push(&mut ctx, entry, Mnemonic::Branch(Branch { target: done.local, args: v }), 0);

    let view = BasicBlock::from_id(&ctx, entry);
    assert_eq!(view.num_params(), 2, "entry should have 2 params");
    let params: Vec<_> =
        view.params().into_iter().map(|p| BlockParam::from_id(&ctx, p)).collect();
    assert_eq!(params[0].name().as_deref(), Some("v1"));
    assert_eq!(params[0].size(), 8);
    assert_eq!(params[1].name().as_deref(), Some("v2"));
    assert_eq!(params[1].size(), 4);

    let done_block = BasicBlock::from_id(&ctx, done);
    assert_eq!(done_block.num_params(), 2, "done should have 2 params");
    let done_params = done_block.params();
    assert_eq!(BlockParam::from_id(&ctx, done_params[0]).size(), 8);
    assert_eq!(BlockParam::from_id(&ctx, done_params[1]).size(), 4);

    // The branch from entry should carry 2 args.
    let last = view.last_instruction().expect("entry has instructions");
    let Mnemonic::Branch(branch) = InstructionRef::from_id(&ctx, last).mnemonic() else {
        panic!("expected branch");
    };
    assert_eq!(branch.args.len(), 2);
}

#[test]
fn block_display_uses_qcode_param_syntax() {
    let mut ctx = Context::new();
    let f = function(&mut ctx, "f");
    let entry = block(&mut ctx, f, "entry");
    for name in ["a", "b"] {
        let p = BasicBlock::from_id_mut(&mut ctx, entry).push_param(0);
        ctx.bodies[f.index()].rename(LocalValueId::BlockParam(p.local), name).unwrap();
    }
    assert!(BasicBlock::from_id(&ctx, entry).render().starts_with("<entry @a @b>\n"));
}

#[test]
fn param_value_id_usable_in_instruction() {
    let mut ctx = Context::new();
    let f = function(&mut ctx, "f");
    let block = BasicBlock::make(&mut ctx, f).id;
    let p = BasicBlock::from_id_mut(&mut ctx, block).push_param(8);
    let v = LocalValueId::BlockParam(p.local);
    let id = push(&mut ctx, block, sum(v, v), 8);
    assert_eq!(InstructionRef::from_id(&ctx, id).size(), 8);
    assert_eq!(
        InstructionRef::from_id(&ctx, id).operands(),
        vec![ValueId::BlockParam(p), ValueId::BlockParam(p)]
    );
}

#[test]
fn remove_terminator_branch() {
    let mut ctx = Context::new();
    let f = function(&mut ctx, "f");
    let entry = block(&mut ctx, f, "entry");
    let done = block(&mut ctx, f, "done");
    goto(&mut ctx, entry, done);

    let mut entry_block = BasicBlock::from_id_mut(&mut ctx, entry);
    assert_eq!(entry_block.len(), 1);
    assert_eq!(entry_block.successors().len(), 1);
    assert!(entry_block.is_terminated());

    entry_block.pop_insn();
    assert_eq!(entry_block.len(), 0);
    assert_eq!(entry_block.successors().len(), 0);
    assert!(!entry_block.is_terminated());
}

#[test]
fn remove_terminator_cbranch() {
    let mut ctx = Context::new();
    let f = function(&mut ctx, "f");
    let entry = block(&mut ctx, f, "entry");
    let then_lbl = block(&mut ctx, f, "then_lbl");
    let else_lbl = block(&mut ctx, f, "else_lbl");
    let (space, v) = varnode(&mut ctx, "cond", 1);
    let c = push(
        &mut ctx,
        entry,
        Mnemonic::Load(Load {
            space: LocalMemorySpaceId::Shared(space),
            ptr: LocalValueId::Varnode(v),
            size: 1,
        }),
        1,
    );
    push(
        &mut ctx,
        entry,
        Mnemonic::CBranch(CBranch {
            condition: local(c),
            success_block: then_lbl.local,
            success_args: vec![],
            failure_block: else_lbl.local,
            failure_args: vec![],
        }),
        0,
    );
    ctx.bodies[f.index()].add_cfg_edge(entry, then_lbl);
    ctx.bodies[f.index()].add_cfg_edge(entry, else_lbl);

    let mut entry_block = BasicBlock::from_id_mut(&mut ctx, entry);
    assert_eq!(entry_block.successors().len(), 2);
    assert_eq!(entry_block.len(), 2);
    assert!(entry_block.is_terminated());

    entry_block.pop_insn();

    assert_eq!(entry_block.successors().len(), 0);
    assert_eq!(entry_block.len(), 1);
    assert!(!entry_block.is_terminated());

    assert_eq!(ctx.bodies[f.index()].predecessors(then_lbl).len(), 0);
    assert_eq!(ctx.bodies[f.index()].predecessors(else_lbl).len(), 0);
}

#[test]
fn remove_terminator_return() {
    let mut ctx = Context::new();
    let f = function(&mut ctx, "f");
    let entry = block(&mut ctx, f, "entry");
    let zero = konst(&mut ctx, 0, 8);
    push(&mut ctx, entry, ret(zero), 0);

    let mut entry_block = BasicBlock::from_id_mut(&mut ctx, entry);
    assert_eq!(entry_block.len(), 1);
    assert_eq!(entry_block.successors().len(), 0);

    entry_block.pop_insn();
    assert_eq!(entry_block.len(), 0);
    assert_eq!(entry_block.successors().len(), 0);
}

#[test]
fn clone_into_ctx_produces_distinct_ids() {
    let mut ctx = Context::new();
    let (block, _) = program(&mut ctx);
    let mut value_map = ValueMap::new();
    let cloned_id = BasicBlock::clone_into_ctx(&mut ctx, block, &mut value_map);

    let orig = BasicBlock::from_id(&ctx, block);
    let cloned = BasicBlock::from_id(&ctx, cloned_id);

    assert_ne!(block, cloned_id, "cloned block must have a different id");
    assert_ne!(orig.name(), cloned.name(), "cloned block must have a different name");

    assert_eq!(orig.len(), cloned.len());
    for (orig_id, clone_id) in
        orig.iter_instruction_ids().into_iter().zip(cloned.iter_instruction_ids())
    {
        assert_ne!(orig_id, clone_id, "cloned instruction must have a different id");
    }
}

#[test]
fn clone_into_ctx_remaps_operands() {
    let mut ctx = Context::new();
    let (block, ids) = program(&mut ctx);
    let mut value_map = ValueMap::new();
    let cloned_id = BasicBlock::clone_into_ctx(&mut ctx, block, &mut value_map);
    let cloned = BasicBlock::from_id(&ctx, cloned_id);

    // All operands in the clone must reference new (remapped) values, not the
    // originals, so no value map key should be referenced.
    for insn in cloned.iter() {
        for arg in InstructionRef::from_id(&ctx, insn).operands() {
            assert!(
                value_map.get(arg).is_none(),
                "cloned instruction still references original value {arg:?}"
            );
        }
    }
    let copies = cloned.iter();
    for (old, new) in ids.iter().zip(copies) {
        assert_eq!(value_map.get(ValueId::Instruction(*old)), Some(ValueId::Instruction(new)));
    }
    assert_eq!(cloned.name().unwrap(), "clone_0");
}

#[test]
fn a_copy_in_another_function_keeps_types_addresses_and_names() {
    let mut ctx = Context::new();
    let (block, ids) = program(&mut ctx);
    let ptr = {
        let byte = ctx.shared.types.get_or_make_int(1);
        ctx.shared.types.get_or_make_struct_pointer(8, byte)
    };
    let mut insn = qcode::insn::instruction::Instruction::from_id_mut(&mut ctx, ids[0]);
    insn.set_type_resized(ptr);
    insn.set_address(0x1234);
    let p = BasicBlock::from_id_mut(&mut ctx, block).push_param(8);
    ctx.bodies[block.func.index()].rename(LocalValueId::BlockParam(p.local), "arg_3").unwrap();
    let target = function(&mut ctx, "target");
    let mut map = ValueMap::new();
    let copy = BasicBlock::clone_block_into(&mut ctx, block, target, &mut map);
    assert_eq!(copy.func, target);
    let view = BasicBlock::from_id(&ctx, copy);
    assert_eq!(view.name().unwrap(), "block");
    let first = InstructionRef::from_id(&ctx, view.iter()[0]);
    assert_eq!(first.type_id(), ptr);
    assert_eq!(first.address(), Some(0x1234));
    assert_eq!(first.name(), None);
    let params = view.params();
    assert_eq!(BlockParam::from_id(&ctx, params[0]).name().as_deref(), Some("arg_3"));
    assert_eq!(BlockParam::from_id(&ctx, params[0]).parent().id, copy);
    assert_eq!(map.get(ValueId::BlockParam(p)), Some(ValueId::BlockParam(params[0])));
    // Operands are left as they are.
    let third = InstructionRef::from_id(&ctx, view.iter()[2]).mnemonic().args().to_vec();
    assert_eq!(third, vec![local(ids[0]), local(ids[1])]);
}

#[test]
fn delete_unlinks_incident_edges() {
    let mut ctx = Context::new();
    let f = function(&mut ctx, "f");
    let a = block(&mut ctx, f, "a");
    let b = block(&mut ctx, f, "b");
    let exit = block(&mut ctx, f, "exit");
    goto(&mut ctx, a, exit);
    goto(&mut ctx, b, exit);

    assert_eq!(ctx.bodies[f.index()].predecessors(exit).len(), 2);

    BasicBlock::from_id_mut(&mut ctx, b).delete();

    assert_eq!(
        ctx.bodies[f.index()].predecessors(exit).len(),
        1,
        "deleted block's edge must not linger as a phantom predecessor"
    );
    assert!(!ctx.bodies[f.index()].contains_block(b), "deleted block payload must be absent");
    assert_eq!(ctx.bodies[f.index()].local_named("b"), None);
}

#[test]
fn delete_unlinks_self_loop() {
    let mut ctx = Context::new();
    let f = function(&mut ctx, "f");
    let a = block(&mut ctx, f, "a");
    let loop_hdr = block(&mut ctx, f, "loop_hdr");
    goto(&mut ctx, a, loop_hdr);
    goto(&mut ctx, loop_hdr, loop_hdr);

    assert!(
        BasicBlock::from_id(&ctx, loop_hdr).successors().iter().any(|(_, s)| *s == loop_hdr)
    );

    BasicBlock::from_id_mut(&mut ctx, loop_hdr).delete();

    assert!(
        !ctx.bodies[f.index()].contains_block(loop_hdr),
        "deleted self-loop block payload must be absent"
    );
    assert!(BasicBlock::from_id(&ctx, a).successors().is_empty());
}

#[test]
fn delete_removes_instructions_from_use_lists() {
    let mut ctx = Context::new();
    let f = function(&mut ctx, "f");
    let a = block(&mut ctx, f, "a");
    let b = block(&mut ctx, f, "b");
    let exit = block(&mut ctx, f, "exit");
    let (one, two, three) =
        (konst(&mut ctx, 1, 8), konst(&mut ctx, 2, 8), konst(&mut ctx, 3, 8));
    let x = push(&mut ctx, a, sum(one, two), 8);
    goto(&mut ctx, a, b);
    let y = push(&mut ctx, b, sum(local(x), three), 8);
    goto(&mut ctx, b, exit);

    // `%x` (in the surviving entry) is used by `%y` (in block `b`).
    assert!(
        ctx.bodies[f.index()].users_of(ValueId::Instruction(x)).contains(&y),
        "precondition: %x is used by %y"
    );

    BasicBlock::from_id_mut(&mut ctx, b).delete();

    assert!(
        !ctx.bodies[f.index()].users_of(ValueId::Instruction(x)).contains(&y),
        "deleting b must unregister %y from %x's use-list, not orphan it"
    );
    assert!(
        !ctx.bodies[f.index()].contains_instruction(y),
        "deleted instruction payload must be physically absent"
    );
}

#[test]
fn make_block_param_sets_index_and_size() {
    let mut ctx = Context::new();
    let f = function(&mut ctx, "f");
    let block_id = BasicBlock::make(&mut ctx, f).id;

    let p0_id = BasicBlock::from_id_mut(&mut ctx, block_id).push_param(8);
    let p1_id = BasicBlock::from_id_mut(&mut ctx, block_id).push_param(4);

    let p0 = BlockParam::from_id(&ctx, p0_id);
    let p1 = BlockParam::from_id(&ctx, p1_id);
    assert_eq!(p0.index(), 0);
    assert_eq!(p0.size(), 8);
    assert_eq!(p1.index(), 1);
    assert_eq!(p1.size(), 4);

    let loose = BlockParam::make(&mut ctx, block_id, 2);
    assert_eq!(BlockParam::from_id(&ctx, loose).index(), 2);
    assert_eq!(BasicBlock::from_id(&ctx, block_id).num_params(), 2);
    BasicBlock::from_id_mut(&mut ctx, block_id).push_existing_param(loose);
    assert_eq!(BasicBlock::from_id(&ctx, block_id).params(), vec![p0_id, p1_id, loose]);
}

#[test]
fn block_param_display_uses_name_when_set() {
    let mut ctx = Context::new();
    let f = function(&mut ctx, "f");
    let block_id = BasicBlock::make(&mut ctx, f).id;
    let p_id = BasicBlock::from_id_mut(&mut ctx, block_id).push_param(8);
    ctx.bodies[f.index()]
        .rename(LocalValueId::BlockParam(p_id.local), "myval")
        .expect("rename ok");
    assert_eq!(BlockParam::from_id(&ctx, p_id).render(), "@myval");
}

#[test]
fn block_param_display_fallback_when_unnamed() {
    let mut ctx = Context::new();
    let f = function(&mut ctx, "f");
    let block_id = BasicBlock::make(&mut ctx, f).id;
    let p_id = BasicBlock::from_id_mut(&mut ctx, block_id).push_param(4);
    let s = BlockParam::from_id(&ctx, p_id).render();
    assert!(s.starts_with("@param"), "expected @param<hex>, got {s}");
}

#[test]
fn a_parameter_is_resized_once() {
    let mut ctx = Context::new();
    let f = function(&mut ctx, "f");
    let block_id = BasicBlock::make(&mut ctx, f).id;
    let id = BasicBlock::from_id_mut(&mut ctx, block_id).push_param(0);
    let mut p = BlockParam::from_id_mut(&mut ctx, id);
    p.constrain_size(4);
    assert_eq!(p.as_ref().size(), 4);
    p.constrain_size(4);
    p.set_size(2);
    p.set_origin(ValueId::Function(f));
    assert_eq!(BlockParam::from_id(&ctx, id).size(), 2);
    assert_eq!(BlockParam::from_id(&ctx, id).origin(), Some(ValueId::Function(f)));
}

#[test]
fn a_name_is_given_once() {
    let mut ctx = Context::new();
    let f = function(&mut ctx, "f");
    let a = block(&mut ctx, f, "a");
    let b = block(&mut ctx, f, "b");
    match BasicBlock::from_id_mut(&mut ctx, b).rename_local("a") {
        Err(Error::DuplicateName(name)) => assert_eq!(name, "a"),
        _ => panic!("expected a duplicate name"),
    }
    BasicBlock::from_id_mut(&mut ctx, a).rename_local("a").unwrap();
    BasicBlock::from_id_mut(&mut ctx, a).rename_local("c").unwrap();
    assert_eq!(ctx.bodies[f.index()].local_named("c"), Some(LocalValueId::BasicBlock(a.local)));
    assert_eq!(ctx.bodies[f.index()].local_named("a"), None);
    BasicBlock::from_id_mut(&mut ctx, b).rename_local("a").unwrap();
    ctx.bodies[f.index()].register_body_name(ValueId::BasicBlock(b), "d").unwrap();
    assert_eq!(BasicBlock::from_id(&ctx, b).name().unwrap(), "d");
    assert!(ctx.bodies[f.index()].rename_block_local(b.local, "c").is_err());
}

fn lit(n: usize) -> LocalValueId {
    LocalValueId::Literal(LiteralId::from(n))
}

fn insn(n: u32) -> LocalValueId {
    LocalValueId::Instruction(LocalInsnId::from(n))
}

/// The variable-arity and optional-operand shapes, where the two walks could
/// most plausibly drift apart.
fn samples() -> Vec<Mnemonic> {
    let block = LocalBlockId::from(0);
    vec![
        Mnemonic::Store(Store {
            space: LocalMemorySpaceId::Temp(LocalTempSpaceId::from(0)),
            ptr: lit(0),
            src: insn(1),
            size: 8,
        }),
        Mnemonic::CBranch(CBranch {
            condition: insn(0),
            success_block: block,
            success_args: vec![lit(1), insn(2)],
            failure_block: block,
            failure_args: vec![insn(3)],
        }),
        Mnemonic::Switch(Switch {
            scrutinee: insn(0),
            cases: vec![
                SwitchArm { value: 1, target: block, args: vec![lit(1)] },
                SwitchArm { value: 2, target: block, args: vec![] },
                SwitchArm { value: 3, target: block, args: vec![insn(2), insn(3)] },
            ],
            default: Some(block),
            default_args: vec![lit(4)],
        }),
        Mnemonic::CallInd(CallInd { ptr: insn(0), args: vec![insn(1), insn(1), lit(2)] }),
        Mnemonic::Return(Return { ptr: insn(0), value: None }),
        Mnemonic::Return(Return { ptr: insn(0), value: Some(insn(1)) }),
        Mnemonic::Scan(Scan {
            body: Callee::Minted(0),
            init: lit(0),
            src: insn(1),
            captures: vec![insn(2), lit(3)],
        }),
        Mnemonic::ArrayMap(ArrayMap { body: Callee::Minted(0), src: insn(0), captures: vec![] }),
        Mnemonic::BadInsn(BadInsn),
    ]
}

#[test]
fn both_walks_visit_the_same_operands_in_the_same_order() {
    for mnemonic in samples() {
        let read: Vec<_> = mnemonic.args().to_vec();
        assert_eq!(mnemonic.operand_count(), read.len());
        for (index, &operand) in read.iter().enumerate() {
            assert_eq!(mnemonic.operand(index), Some(operand));
        }
        assert_eq!(mnemonic.operand(read.len()), None);
        // Writing at every position in turn reaches what is read there.
        let mut written = mnemonic.clone();
        for index in 0..read.len() {
            written.set_operand(index, insn(100 + index as u32));
        }
        let expected: Vec<_> = (0..read.len()).map(|k| insn(100 + k as u32)).collect();
        assert_eq!(written.args().to_vec(), expected);
    }
}

#[test]
fn setting_an_operand_changes_that_position_only() {
    let fresh = insn(99);
    for mut mnemonic in samples() {
        let before = mnemonic.args().to_vec();
        for index in 0..before.len() {
            let mut expected = before.clone();
            expected[index] = fresh;
            let mut edited = mnemonic.clone();
            edited.set_operand(index, fresh);
            assert_eq!(edited.args().to_vec(), expected);
        }
        // A repeated operand is replaced at every occurrence.
        if let Some(&first) = before.first() {
            mnemonic.replace_value(first, fresh);
            let expected: Vec<_> =
                before.iter().map(|&v| if v == first { fresh } else { v }).collect();
            assert_eq!(mnemonic.args().to_vec(), expected);
        }
    }
}
