//! The use edges of a body: one per operand occurrence.

use qcode::block::BasicBlock;
use qcode::body::{FunctionBody, Temp, TempSpace};
use qcode::context::Context;
use qcode::ids::{BlockId, BlockParamId, FunctionId, InstructionId, LocalInsnId};
use qcode::insn::binop::{Binary, Binop, IntBinop};
use qcode::insn::memory::Load;
use qcode::insn::mnemonic::Mnemonic;
use qcode::insn::terminator::{Apply, Branch, Callee, Return};
use qcode::insn::unop::{Unary, Unop};
use qcode::refs::insn::InstructionRef;
use qcode::space::LocalMemorySpaceId;
use qcode::value::{LocalValueId, ValueId};
use rustc_hash::FxHashSet;

fn konst(ctx: &mut Context, value: u64, size: usize) -> LocalValueId {
    let ty = ctx.shared.types.get_or_make_int(size);
    LocalValueId::Literal(ctx.shared.literals.get_or_make_typed_literal(value, ty, size))
}

fn push(ctx: &mut Context, block: BlockId, mnemonic: Mnemonic, size: usize) -> InstructionId {
    let id = InstructionRef::from_mnemonic(ctx, block.func, mnemonic, size);
    BasicBlock::from_id_mut(ctx, block).push_insn(id);
    id
}

fn sum(lhs: LocalValueId, rhs: LocalValueId) -> Mnemonic {
    Mnemonic::Binop(Binary { op: Binop::Int(IntBinop::Add), lhs, rhs })
}

fn negate(src: LocalValueId) -> Mnemonic {
    Mnemonic::Unop(Unary { op: Unop::IntNot, src })
}

fn ret(ptr: LocalValueId) -> Mnemonic {
    Mnemonic::Return(Return { ptr, value: None })
}

fn local(id: InstructionId) -> LocalValueId {
    LocalValueId::Instruction(id.local)
}

fn function(ctx: &mut Context, name: &str) -> BlockId {
    let f = FunctionBody::make(ctx, name.to_string()).ok().unwrap().id;
    BasicBlock::make(ctx, f).id
}

/// The users of `value` in `f`, sorted, so tests can compare sets without
/// depending on the order of the list.
fn users(ctx: &Context, f: FunctionId, value: impl Into<ValueId>) -> Vec<InstructionId> {
    let mut users = ctx.bodies[f.index()].users_of(value.into());
    users.sort();
    users
}

/// Every operand has a use under its value, and every use is an operand.
fn assert_clean(ctx: &Context) {
    for body in &ctx.bodies {
        let f = body.id();
        let mut operands: Vec<(u32, u32)> = Vec::new();
        for raw in body.insns.ids() {
            let mnemonic = body.mnemonic_local(LocalInsnId(raw));
            for k in 0..mnemonic.operand_count() {
                let value = mnemonic.operand(k).unwrap();
                if body.has_use_home(value) {
                    operands.push((raw, k as u32));
                    let found = body.users_of(value.qualify(f));
                    assert!(found.contains(&InstructionId::new(f, LocalInsnId(raw))));
                }
            }
        }
        let mut edges: Vec<(u32, u32)> = body
            .use_edges()
            .into_iter()
            .map(|u| {
                let edge = body.uses.get(u.0);
                (edge.user.0, edge.operand_index as u32)
            })
            .collect();
        edges.sort();
        operands.sort();
        assert_eq!(edges, operands);
    }
}

#[test]
fn creating_and_removing_instructions_maintains_the_edges() {
    let mut ctx = Context::new();
    let entry = function(&mut ctx, "f");
    let f = entry.func;
    let (one, two, three) =
        (konst(&mut ctx, 1, 8), konst(&mut ctx, 2, 8), konst(&mut ctx, 3, 8));
    let a = push(&mut ctx, entry, sum(one, two), 8);
    let b = push(&mut ctx, entry, sum(local(a), three), 8);
    let c = push(&mut ctx, entry, sum(local(a), local(b)), 8);
    push(&mut ctx, entry, ret(local(c)), 0);
    assert_clean(&ctx);
    assert_eq!(users(&ctx, f, a), vec![b, c]);
    assert_eq!(users(&ctx, f, b), vec![c]);
    assert!(ctx.bodies[f.index()].has_users(ValueId::Instruction(c)));

    // Literals are shared values: this body tracks its own uses of them.
    let three = three.qualify(f);
    assert_eq!(users(&ctx, f, three), vec![b]);

    ctx.bodies[f.index()].remove_instruction(b);
    assert_eq!(users(&ctx, f, a), vec![c], "b's use of a came down");
    assert!(!ctx.bodies[f.index()].has_users(three), "b's use of the literal came down");
    // `c` still names `b`: a dangling operand, allowed while a transformation
    // is in progress.
    assert!(!ctx.bodies[f.index()].contains_instruction(b));
    assert_eq!(ctx.bodies[f.index()].mnemonic_local(c.local).operand(1), Some(local(b)));
    let last = BasicBlock::from_id(&ctx, entry).last_instruction().unwrap();
    ctx.bodies[f.index()].remove_instruction(last);
    ctx.bodies[f.index()].remove_instruction(c);
    assert_clean(&ctx);
    assert!(!ctx.bodies[f.index()].has_users(ValueId::Instruction(a)));
}

#[test]
fn bulk_removal_walks_each_shared_operand_once() {
    let mut ctx = Context::new();
    let block = function(&mut ctx, "f");
    let f = block.func;
    let seven = konst(&mut ctx, 7, 8);
    let shared = seven.qualify(f);
    let ids: Vec<InstructionId> =
        (0..8).map(|_| push(&mut ctx, block, negate(seven), 8)).collect();
    let keep = ids[3];
    let dead: FxHashSet<u32> =
        ids.iter().filter(|&&id| id != keep).map(|id| id.local.0).collect();

    ctx.bodies[f.index()].remove_block_instructions(block, &dead);
    assert_clean(&ctx);
    assert_eq!(users(&ctx, f, shared), vec![keep]);
    assert_eq!(ctx.bodies[f.index()].use_edges().len(), 1);

    ctx.bodies[f.index()].clear_block_instructions(block);
    assert_clean(&ctx);
    assert!(!ctx.bodies[f.index()].has_users(shared));
    assert_eq!(ctx.bodies[f.index()].use_edges().len(), 0);
    assert!(
        ctx.bodies[f.index()].shared_first_use.pairs().is_empty(),
        "a shared value with no use has no head entry"
    );
}

#[test]
fn replacing_all_uses_moves_every_edge() {
    let mut ctx = Context::new();
    let entry = function(&mut ctx, "f");
    let f = entry.func;
    let (one, two, three) =
        (konst(&mut ctx, 1, 8), konst(&mut ctx, 2, 8), konst(&mut ctx, 3, 8));
    let a = push(&mut ctx, entry, sum(one, two), 8);
    let b = push(&mut ctx, entry, sum(local(a), three), 8);
    let c = push(&mut ctx, entry, sum(local(a), local(a)), 8);
    push(&mut ctx, entry, ret(local(c)), 0);
    let ten_local = konst(&mut ctx, 10, 8);
    let ten = ten_local.qualify(f);
    ctx.bodies[f.index()].replace_all_uses_with(ValueId::Instruction(a), ten);
    assert_clean(&ctx);
    assert!(!ctx.bodies[f.index()].has_users(ValueId::Instruction(a)));
    assert_eq!(users(&ctx, f, ten), vec![b, c, c], "one per occurrence");
    assert_eq!(
        ctx.bodies[f.index()].mnemonic_local(c.local).args().to_vec(),
        vec![ten_local, ten_local]
    );

    // Back onto a local value (a shared value's uses are this body's to
    // replace), then the instruction itself goes.
    ctx.bodies[f.index()].replace_all_uses_with(ten, ValueId::Instruction(a));
    assert_clean(&ctx);
    assert_eq!(users(&ctx, f, a), vec![b, c, c]);
    assert!(!ctx.bodies[f.index()].has_users(ten));
    ctx.bodies[f.index()].replace_instruction(a, ten);
    assert_clean(&ctx);
    assert!(!ctx.bodies[f.index()].contains_instruction(a));
    assert_eq!(users(&ctx, f, ten), vec![b, c, c]);
}

#[test]
fn selective_replacement_picks_edges_by_user_and_operand() {
    let mut ctx = Context::new();
    let entry = function(&mut ctx, "f");
    let f = entry.func;
    let other = BasicBlock::make(&mut ctx, f).id;
    let (one, two, three) =
        (konst(&mut ctx, 1, 8), konst(&mut ctx, 2, 8), konst(&mut ctx, 3, 8));
    let a = push(&mut ctx, entry, sum(one, two), 8);
    let here = push(&mut ctx, entry, sum(local(a), three), 8);
    push(&mut ctx, entry, Mnemonic::Branch(Branch { target: other.local, args: vec![] }), 0);
    let there = push(&mut ctx, other, sum(local(a), local(a)), 8);
    push(&mut ctx, other, ret(local(there)), 0);
    let ten_local = konst(&mut ctx, 10, 8);
    let ten = ten_local.qualify(f);

    // Only the uses in `<other>`.
    ctx.bodies[f.index()].replace_uses_where(
        ValueId::Instruction(a),
        ten,
        |body: &FunctionBody, user: InstructionId, _: usize| {
            body.insn(user).parent == Some(other.local)
        },
    );
    assert_clean(&ctx);
    assert_eq!(users(&ctx, f, a), vec![here]);
    assert_eq!(users(&ctx, f, ten), vec![there, there]);

    // Only the second of two occurrences: `%there = 10 + 10` to
    // `%there = 10 + %a`.
    ctx.bodies[f.index()].replace_uses_where(
        ten,
        ValueId::Instruction(a),
        |_: &FunctionBody, user: InstructionId, index: usize| user == there && index == 1,
    );
    assert_clean(&ctx);
    assert_eq!(
        ctx.bodies[f.index()].mnemonic_local(there.local).args().to_vec(),
        vec![ten_local, local(a)]
    );
    assert_eq!(users(&ctx, f, a), vec![here, there]);
    assert_eq!(users(&ctx, f, ten), vec![there]);

    // One operand, by position.
    ctx.bodies[f.index()].replace_operand(there, 0, ValueId::Instruction(a));
    assert_clean(&ctx);
    assert_eq!(users(&ctx, f, a), vec![here, there, there]);
    assert!(!ctx.bodies[f.index()].has_users(ten));
}

#[test]
fn swapping_a_mnemonic_swaps_its_edges() {
    let mut ctx = Context::new();
    let entry = function(&mut ctx, "f");
    let f = entry.func;
    let k: Vec<LocalValueId> = (0..6).map(|n| konst(&mut ctx, n, 8)).collect();
    let a = push(&mut ctx, entry, sum(k[1], k[2]), 8);
    let b = push(&mut ctx, entry, sum(k[3], k[4]), 8);
    let c = push(&mut ctx, entry, sum(local(a), k[5]), 8);
    push(&mut ctx, entry, ret(local(c)), 0);
    let five = k[5].qualify(f);
    ctx.bodies[f.index()].replace_instruction_mnemonic(c, sum(local(b), local(b)));
    assert_clean(&ctx);
    assert!(!ctx.bodies[f.index()].has_users(ValueId::Instruction(a)));
    assert!(!ctx.bodies[f.index()].has_users(five));
    assert_eq!(users(&ctx, f, b), vec![c, c]);
}

#[test]
fn block_params_and_temps_carry_their_own_heads() {
    let mut ctx = Context::new();
    let entry = function(&mut ctx, "f");
    let f = entry.func;
    let exit = BasicBlock::make(&mut ctx, f).id;
    let x: BlockParamId = BasicBlock::from_id_mut(&mut ctx, entry).push_param(8);
    let p: BlockParamId = BasicBlock::from_id_mut(&mut ctx, exit).push_param(8);
    let one = konst(&mut ctx, 1, 8);
    let y = push(&mut ctx, entry, sum(LocalValueId::BlockParam(x.local), one), 8);
    let branch = push(
        &mut ctx,
        entry,
        Mnemonic::Branch(Branch { target: exit.local, args: vec![local(y)] }),
        0,
    );
    let last = push(&mut ctx, exit, ret(LocalValueId::BlockParam(p.local)), 0);
    assert_clean(&ctx);
    assert_eq!(users(&ctx, f, ValueId::BlockParam(x)), vec![y]);
    assert_eq!(users(&ctx, f, ValueId::Instruction(y)), vec![branch]);
    assert_eq!(users(&ctx, f, ValueId::BlockParam(p)), vec![last]);

    let space = ctx.bodies[f.index()].push_temp_space(TempSpace::new(None, 1, 8));
    let temp = ctx.bodies[f.index()].push_temp(Temp::new(0, 8, space.local));
    let load = InstructionRef::from_mnemonic(
        &mut ctx,
        f,
        Mnemonic::Load(Load {
            space: LocalMemorySpaceId::Temp(space.local),
            ptr: LocalValueId::Temp(temp.local),
            size: 8,
        }),
        8,
    );
    BasicBlock::from_id_mut(&mut ctx, entry).insert_insn_before(y, load);
    assert_clean(&ctx);
    assert_eq!(users(&ctx, f, ValueId::Temp(temp)), vec![load]);

    ctx.bodies[f.index()].remove_instruction(last);
    assert_clean(&ctx);
    assert!(!ctx.bodies[f.index()].has_users(ValueId::BlockParam(p)));
}

#[test]
fn shared_values_are_tracked_per_body() {
    let mut ctx = Context::new();
    let first_entry = function(&mut ctx, "first");
    let entry = function(&mut ctx, "second");
    let (first, second) = (first_entry.func, entry.func);
    let (seven_local, one, two) =
        (konst(&mut ctx, 7, 8), konst(&mut ctx, 1, 8), konst(&mut ctx, 2, 8));
    let a = push(&mut ctx, first_entry, sum(seven_local, one), 8);
    push(&mut ctx, first_entry, ret(local(a)), 0);
    let b = push(&mut ctx, entry, sum(seven_local, two), 8);
    push(&mut ctx, entry, ret(local(b)), 0);
    let seven = seven_local.qualify(first);
    assert_eq!(users(&ctx, first, seven), vec![a]);
    assert_eq!(users(&ctx, second, seven), vec![b]);

    let last = BasicBlock::from_id(&ctx, first_entry).last_instruction().unwrap();
    ctx.bodies[first.index()].remove_instruction(last);
    ctx.bodies[first.index()].remove_instruction(a);
    assert_clean(&ctx);
    assert!(!ctx.bodies[first.index()].has_users(seven));
    assert_eq!(users(&ctx, second, seven), vec![b], "the other body is untouched");
}

#[test]
fn cloning_keeps_the_edges_and_serializing_rebuilds_them() {
    let mut ctx = Context::new();
    let entry = function(&mut ctx, "f");
    let f = entry.func;
    let x = BasicBlock::from_id_mut(&mut ctx, entry).push_param(8);
    let (two, three) = (konst(&mut ctx, 2, 8), konst(&mut ctx, 3, 8));
    let a = push(&mut ctx, entry, sum(LocalValueId::BlockParam(x.local), two), 8);
    let b = push(&mut ctx, entry, sum(local(a), local(a)), 8);
    let c = push(&mut ctx, entry, sum(local(b), three), 8);
    let last = push(&mut ctx, entry, ret(local(c)), 0);
    ctx.bodies[f.index()].remove_instruction(last);
    ctx.bodies[f.index()].remove_instruction(c);
    ctx.bodies[f.index()]
        .replace_all_uses_with(ValueId::Instruction(a), ValueId::BlockParam(x));
    assert_clean(&ctx);
    let kept = ctx.bodies[f.index()].use_edges().len();

    ctx.bodies[f.index()].rebuild_uses();
    assert_clean(&ctx);
    assert_eq!(
        users(&ctx, f, ValueId::BlockParam(x)),
        vec![a, b, b],
        "rebuilt from the operands"
    );
    assert!(!ctx.bodies[f.index()].has_users(ValueId::Instruction(a)));
    assert_eq!(ctx.bodies[f.index()].use_edges().len(), kept);
}

fn pushed(ctx: &mut Context, n: usize) -> (BlockId, LocalValueId, Vec<InstructionId>) {
    let block = function(ctx, "f");
    let c = konst(ctx, 1, 8);
    let ids = (0..n).map(|_| push(ctx, block, negate(c), 8)).collect();
    (block, c, ids)
}

#[test]
fn a_removed_use_slot_is_reused() {
    let mut ctx = Context::new();
    let (block, c, ids) = pushed(&mut ctx, 4);
    let f = block.func;
    let before = ctx.bodies[f.index()].use_edges().len();
    ctx.bodies[f.index()].remove_instruction(ids[1]);
    ctx.bodies[f.index()].remove_instruction(ids[2]);
    let fresh = push(&mut ctx, block, negate(c), 8);
    let again = push(&mut ctx, block, negate(c), 8);
    assert_clean(&ctx);
    assert_eq!(ctx.bodies[f.index()].use_edges().len(), before);
    assert_eq!(users(&ctx, f, c.qualify(f)), vec![ids[0], ids[3], fresh, again]);
}

/// The highest use slot in use, plus one: how far the slab has grown.
fn issued(ctx: &Context, f: FunctionId) -> usize {
    ctx.bodies[f.index()].use_edges().into_iter().map(|u| u.index() + 1).max().unwrap_or(0)
}

#[test]
fn churning_a_block_does_not_grow_the_slab_past_its_peak() {
    let mut ctx = Context::new();
    let (block, c, mut live) = pushed(&mut ctx, 16);
    let f = block.func;
    let peak = issued(&ctx, f);
    assert_eq!(peak, 16);

    for round in 0..50 {
        // Delete a mix of old and new instructions, then mint as many again.
        for _ in 0..8 {
            let victim = live.remove((round * 3) % live.len());
            ctx.bodies[f.index()].remove_instruction(victim);
        }
        for _ in 0..8 {
            live.push(push(&mut ctx, block, negate(c), 8));
        }
        assert_clean(&ctx);
        assert_eq!(ctx.bodies[f.index()].use_edges().len(), 16);
        assert_eq!(issued(&ctx, f), peak, "round {round} grew the slab");
    }
    let mut expected = live.clone();
    expected.sort();
    assert_eq!(users(&ctx, f, c.qualify(f)), expected);
}

#[test]
fn use_edges_iterate_over_the_holes_left_by_deletion() {
    let mut ctx = Context::new();
    let (block, _, ids) = pushed(&mut ctx, 5);
    let f = block.func;
    ctx.bodies[f.index()].remove_instruction(ids[1]);
    ctx.bodies[f.index()].remove_instruction(ids[3]);
    assert_clean(&ctx);

    let body = &ctx.bodies[f.index()];
    let edges: Vec<(usize, InstructionId)> = body
        .use_edges()
        .into_iter()
        .map(|u| (u.index(), InstructionId::new(f, body.uses.get(u.0).user)))
        .collect();
    assert_eq!(edges, vec![(0, ids[0]), (2, ids[2]), (4, ids[4])]);
    assert_eq!(body.use_edges().len(), 3);
    assert!(!body.uses.contains(1));
    assert!(!body.uses.contains(3));
}

#[test]
fn rebuilding_forgets_the_holes_and_restarts_the_slab() {
    let mut ctx = Context::new();
    let (block, c, ids) = pushed(&mut ctx, 6);
    let f = block.func;
    for &id in &ids[..4] {
        ctx.bodies[f.index()].remove_instruction(id);
    }
    assert_eq!(issued(&ctx, f), 6, "the freed slots are still issued");
    let before = users(&ctx, f, c.qualify(f));

    ctx.bodies[f.index()].rebuild_uses();
    assert_clean(&ctx);
    assert_eq!(users(&ctx, f, c.qualify(f)), before);
    assert_eq!(issued(&ctx, f), 2, "the rebuilt slab is dense");
    let slots: Vec<usize> =
        ctx.bodies[f.index()].use_edges().into_iter().map(|u| u.index()).collect();
    assert_eq!(slots, vec![0, 1]);

    // The next edge takes the slot after the rebuilt ones, not one of the
    // ids that were free before the rebuild.
    let fresh = push(&mut ctx, block, negate(c), 8);
    assert_clean(&ctx);
    assert_eq!(issued(&ctx, f), 3);
    assert_eq!(users(&ctx, f, c.qualify(f)), vec![ids[4], ids[5], fresh]);
}

#[test]
fn a_freed_slot_is_never_reachable_from_a_use_list() {
    let mut ctx = Context::new();
    let entry = function(&mut ctx, "f");
    let f = entry.func;
    let x = BasicBlock::from_id_mut(&mut ctx, entry).push_param(8);
    let px = LocalValueId::BlockParam(x.local);
    let two = konst(&mut ctx, 2, 8);
    let a = push(&mut ctx, entry, sum(px, two), 8);
    let b = push(&mut ctx, entry, sum(local(a), px), 8);
    let c = push(&mut ctx, entry, sum(local(b), px), 8);
    let last = push(&mut ctx, entry, ret(local(c)), 0);
    assert_eq!(users(&ctx, f, ValueId::BlockParam(x)), vec![a, b, c]);
    ctx.bodies[f.index()].remove_instruction(last);
    ctx.bodies[f.index()].remove_instruction(c);
    // `c`'s two edges are free; the lists of `x` and `b` must have been
    // unlinked from them, and the next edges take those slots over.
    assert_eq!(users(&ctx, f, ValueId::BlockParam(x)), vec![a, b]);
    assert!(!ctx.bodies[f.index()].has_users(ValueId::Instruction(b)));
    assert_clean(&ctx);

    let d = push(&mut ctx, entry, sum(local(b), px), 8);
    assert_clean(&ctx);
    assert_eq!(users(&ctx, f, ValueId::BlockParam(x)), vec![a, b, d]);
    assert_eq!(users(&ctx, f, ValueId::Instruction(b)), vec![d]);
}

#[test]
fn placeholders_of_functions_are_resolved() {
    let mut ctx = Context::new();
    let block = function(&mut ctx, "f");
    let at = block.func.index();
    let apply = |slot| {
        Mnemonic::Apply(Apply { target: Callee::Minted(slot), args: vec![] })
    };
    let a = push(&mut ctx, block, apply(0), 8);
    let b = push(&mut ctx, block, apply(1), 8);
    let c = push(&mut ctx, block, apply(0), 8);
    assert_eq!(ctx.bodies[at].resolve_minted_callee(0, FunctionId(5)), 2);
    let slot = |ctx: &Context, id: InstructionId| {
        ctx.bodies[at].mnemonic_local(id.local).minted_callee_slot()
    };
    assert_eq!((slot(&ctx, a), slot(&ctx, b), slot(&ctx, c)), (None, Some(1), None));
    assert_eq!(ctx.bodies[at].resolve_minted_callees(&vec![FunctionId(1)]), Err(1));
    let installed = vec![FunctionId(1), FunctionId(2)];
    assert_eq!(ctx.bodies[at].resolve_minted_callees(&installed), Ok(1));
    assert_eq!(slot(&ctx, b), None);
}

#[test]
fn taking_back_and_starting_over() {
    let mut ctx = Context::new();
    let (block, _, ids) = pushed(&mut ctx, 3);
    let f = block.func;
    let body = &mut ctx.bodies[f.index()];
    let space = body.push_temp_space(TempSpace::new(None, 1, 8));
    let kept = body.push_temp(Temp::new(0, 8, space.local));
    let gone = body.push_temp(Temp::new(8, 8, space.local));
    body.take_back_temps(1, 1);
    assert!(body.contains_temp(kept) && !body.contains_temp(gone));
    assert!(body.contains_temp_space(space));
    let stats = body.arena_stats();
    assert_eq!((stats.instructions.issued, stats.instructions.live), (3, 3));
    body.remove_instruction(ids[0]);
    let mut stats = body.arena_stats();
    assert_eq!((stats.instructions.live, stats.instructions.dead), (2, 1));
    let again = stats;
    stats.add_assign(again);
    assert_eq!((stats.instructions.issued, stats.instructions.dead), (6, 2));
    body.start_epoch();
    assert!(!body.contains_block(block));
    assert!(body.use_edges().is_empty());
    assert_eq!(body.make_block_local(), block.local);
}
