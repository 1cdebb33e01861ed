//! The order of the instructions of a block.

use qcode::block::BasicBlock;
use qcode::body::FunctionBody;
use qcode::context::Context;
use qcode::ids::{BlockId, FunctionId, InstructionId, LocalInsnId};
use qcode::insn::binop::{Binary, Binop, IntBinop};
use qcode::insn::mnemonic::Mnemonic;
use qcode::insn::terminator::{Branch, Return};
use qcode::insn::unop::{Unary, Unop};
use qcode::refs::insn::InstructionRef;
use qcode::value::LocalValueId;
use qcode::value_map::ValueMap;
use rustc_hash::FxHashSet;

/// A function with one block, and the block.
fn fixture() -> (Context, FunctionId, BlockId) {
    let mut ctx = Context::new();
    let f = FunctionBody::make(&mut ctx, "f".to_string()).ok().unwrap().id;
    let block = BasicBlock::make(&mut ctx, f).with_address(0x1000).id;
    (ctx, f, block)
}

fn konst(ctx: &mut Context, value: u64, size: usize) -> LocalValueId {
    let ty = ctx.shared.types.get_or_make_int(size);
    LocalValueId::Literal(ctx.shared.literals.get_or_make_typed_literal(value, ty, size))
}

fn negate(src: LocalValueId) -> Mnemonic {
    Mnemonic::Unop(Unary { op: Unop::IntNot, src })
}

/// A fresh instruction of `f`, in no block: `~<n>` for a constant `n` of its
/// own, so its operand's user list holds it alone.
fn mint(ctx: &mut Context, f: FunctionId, n: u64) -> InstructionId {
    let c = konst(ctx, n, 8);
    InstructionRef::from_mnemonic(ctx, f, negate(c), 8)
}

fn push(ctx: &mut Context, block: BlockId, mnemonic: Mnemonic, size: usize) -> InstructionId {
    let id = InstructionRef::from_mnemonic(ctx, block.func, mnemonic, size);
    BasicBlock::from_id_mut(ctx, block).push_insn(id);
    id
}

fn sum(lhs: LocalValueId, rhs: LocalValueId) -> Mnemonic {
    Mnemonic::Binop(Binary { op: Binop::Int(IntBinop::Add), lhs, rhs })
}

fn local(id: InstructionId) -> LocalValueId {
    LocalValueId::Instruction(id.local)
}

fn order(ctx: &Context, block: BlockId) -> Vec<InstructionId> {
    ctx.bodies[block.func.index()].block_insn_ids(block)
}

fn reverse_order(ctx: &Context, block: BlockId) -> Vec<InstructionId> {
    let mut walk = ctx.bodies[block.func.index()].insn_ids(block.local);
    let mut ids = Vec::new();
    while let Some(local) = walk.next_back() {
        ids.push(InstructionId::new(block.func, local));
    }
    ids
}

/// The block's list agrees with itself from both ends, and with its count.
fn assert_consistent(ctx: &Context, block: BlockId, expected: &[InstructionId]) {
    assert_eq!(order(ctx, block), expected, "forward order");
    let mut reversed = expected.to_vec();
    reversed.reverse();
    assert_eq!(reverse_order(ctx, block), reversed, "reverse order");
    let b = BasicBlock::from_id(ctx, block);
    assert_eq!(b.len(), expected.len());
    assert_eq!(b.is_empty(), expected.is_empty());
    assert_eq!(b.first_instruction(), expected.first().copied());
    assert_eq!(b.last_instruction(), expected.last().copied());
    let body = &ctx.bodies[block.func.index()];
    assert_eq!(body.insn_ids(block.local).len(), expected.len(), "exact size");
    for (k, id) in expected.iter().enumerate() {
        let insn = body.insn(*id);
        assert_eq!(insn.parent, Some(block.local));
        let before = if k == 0 { None } else { Some(expected[k - 1].local) };
        assert_eq!(insn.prev_in_block(), before);
        assert_eq!(insn.next_in_block(), expected.get(k + 1).map(|id| id.local));
    }
}

#[test]
fn linking_at_the_ends_and_around_an_anchor() {
    let (mut ctx, f, block) = fixture();
    let at = f.index();
    assert_consistent(&ctx, block, &[]);

    let a = mint(&mut ctx, f, 1);
    ctx.bodies[at].link_last(block.local, a.local);
    assert_consistent(&ctx, block, &[a]);

    // Before the only instruction, then after it: the ends move.
    let b = mint(&mut ctx, f, 2);
    ctx.bodies[at].link_before(block.local, a.local, b.local);
    assert_consistent(&ctx, block, &[b, a]);
    let c = mint(&mut ctx, f, 3);
    ctx.bodies[at].link_after(block.local, a.local, c.local);
    assert_consistent(&ctx, block, &[b, a, c]);

    // In the middle, both ways.
    let d = mint(&mut ctx, f, 4);
    ctx.bodies[at].link_before(block.local, a.local, d.local);
    let e = mint(&mut ctx, f, 5);
    ctx.bodies[at].link_after(block.local, a.local, e.local);
    assert_consistent(&ctx, block, &[b, d, a, e, c]);

    // By index, walking: at the start, in the middle, and at the end.
    let g = mint(&mut ctx, f, 6);
    ctx.bodies[at].insert_insn_at(block.local, 0, g.local);
    let h = mint(&mut ctx, f, 7);
    ctx.bodies[at].insert_insn_at(block.local, 3, h.local);
    let i = mint(&mut ctx, f, 8);
    ctx.bodies[at].insert_insn_at(block.local, 7, i.local);
    assert_consistent(&ctx, block, &[g, b, d, h, a, e, c, i]);
}

#[test]
fn unlinking_the_first_middle_and_last() {
    let (mut ctx, f, block) = fixture();
    let at = f.index();
    let ids: Vec<InstructionId> = (0..5).map(|n| mint(&mut ctx, f, n)).collect();
    for id in &ids {
        ctx.bodies[at].link_last(block.local, id.local);
    }
    assert_consistent(&ctx, block, &ids);

    ctx.bodies[at].unlink(ids[0].local);
    assert_consistent(&ctx, block, &ids[1..]);
    ctx.bodies[at].unlink(ids[4].local);
    assert_consistent(&ctx, block, &ids[1..4]);
    ctx.bodies[at].unlink(ids[2].local);
    assert_consistent(&ctx, block, &[ids[1], ids[3]]);

    // An unlinked instruction is in no block and carries no links, and
    // unlinking it again is a no-op.
    let gone = ctx.bodies[at].insn(ids[2]);
    assert_eq!(gone.parent, None);
    assert_eq!((gone.prev_in_block(), gone.next_in_block()), (None, None));
    ctx.bodies[at].unlink(ids[2].local);
    assert_consistent(&ctx, block, &[ids[1], ids[3]]);

    // Down to one, then none.
    ctx.bodies[at].unlink(ids[1].local);
    assert_consistent(&ctx, block, &[ids[3]]);
    ctx.bodies[at].unlink(ids[3].local);
    assert_consistent(&ctx, block, &[]);

    // Relinking after emptying starts a fresh list.
    ctx.bodies[at].link_last(block.local, ids[2].local);
    ctx.bodies[at].link_before(block.local, ids[2].local, ids[0].local);
    assert_consistent(&ctx, block, &[ids[0], ids[2]]);
}

#[test]
fn iteration_walks_both_ends_to_the_middle() {
    let (mut ctx, f, block) = fixture();
    let ids: Vec<InstructionId> = (0..4).map(|n| mint(&mut ctx, f, n)).collect();
    for id in &ids {
        ctx.bodies[f.index()].link_last(block.local, id.local);
    }
    let mut it = ctx.bodies[f.index()].insn_ids(block.local);
    assert_eq!(it.len(), 4);
    assert_eq!(it.next(), Some(ids[0].local));
    assert_eq!(it.next_back(), Some(ids[3].local));
    assert_eq!(it.len(), 2);
    assert_eq!(it.next_back(), Some(ids[2].local));
    assert_eq!(it.next(), Some(ids[1].local));
    assert_eq!(it.next(), None);
    assert_eq!(it.next_back(), None);

    // The same through a block view.
    let view = BasicBlock::from_id(&ctx, block);
    assert_eq!(view.instructions(), ids);
    assert_eq!(view.iter_instruction_ids(), ids);
}

#[test]
fn removing_instructions_unlinks_them() {
    let (mut ctx, f, block) = fixture();
    let at = f.index();
    let ids: Vec<InstructionId> = (0..6).map(|n| mint(&mut ctx, f, n)).collect();
    for id in &ids {
        ctx.bodies[at].link_last(block.local, id.local);
    }

    // One at a time: first, last, middle.
    ctx.bodies[at].remove_instruction(ids[0]);
    ctx.bodies[at].remove_instruction(ids[5]);
    ctx.bodies[at].remove_instruction(ids[3]);
    assert_consistent(&ctx, block, &[ids[1], ids[2], ids[4]]);
    assert!(!ctx.bodies[at].contains_instruction(ids[3]));

    // In bulk.
    let dead: FxHashSet<u32> = [ids[1].local.0, ids[4].local.0].into_iter().collect();
    ctx.bodies[at].remove_block_instructions(block, &dead);
    assert_consistent(&ctx, block, &[ids[2]]);

    // Everything, keeping the block.
    ctx.bodies[at].clear_block_instructions(block);
    assert_consistent(&ctx, block, &[]);
    assert!(ctx.bodies[at].contains_block(block));
}

#[test]
fn block_views_edit_the_list() {
    let (mut ctx, f, block) = fixture();
    let at = f.index();
    let ids: Vec<InstructionId> = (0..5).map(|n| mint(&mut ctx, f, n)).collect();
    let locals: Vec<LocalInsnId> = ids.iter().map(|id| id.local).collect();

    BasicBlock::from_id_mut(&mut ctx, block).push_insn(ids[0]);
    BasicBlock::from_id_mut(&mut ctx, block).extend_insns(&locals[1..3].to_vec());
    assert_consistent(&ctx, block, &ids[..3]);

    BasicBlock::from_id_mut(&mut ctx, block).insert_insn_before(ids[0], ids[3]);
    BasicBlock::from_id_mut(&mut ctx, block).insert_insn_after(ids[2], ids[4]);
    assert_consistent(&ctx, block, &[ids[3], ids[0], ids[1], ids[2], ids[4]]);

    BasicBlock::from_id_mut(&mut ctx, block).pop_insn();
    assert_consistent(&ctx, block, &[ids[3], ids[0], ids[1], ids[2]]);

    // Retaining deletes the rest.
    BasicBlock::from_id_mut(&mut ctx, block).retain_insns(|id| id == ids[0] || id == ids[2]);
    assert_consistent(&ctx, block, &[ids[0], ids[2]]);
    assert!(!ctx.bodies[at].contains_instruction(ids[1]));
    assert!(!ctx.bodies[at].contains_instruction(ids[3]));

    let fresh = mint(&mut ctx, f, 5);
    BasicBlock::from_id_mut(&mut ctx, block).insert_insn_at_index(1, fresh);
    assert_consistent(&ctx, block, &[ids[0], fresh, ids[2]]);
}

/// Where the next instruction goes.
enum Point {
    Before(InstructionId),
    End,
}

/// Pushes `~c` at a point of `block`.
fn build(ctx: &mut Context, block: BlockId, point: &Point, c: LocalValueId) -> InstructionId {
    let id = InstructionRef::from_mnemonic(ctx, block.func, negate(c), 8);
    let mut view = BasicBlock::from_id_mut(ctx, block);
    match point {
        Point::Before(anchor) => view.insert_insn_before(*anchor, id),
        Point::End => view.push_insn(id),
    }
    id
}

#[test]
fn the_builder_inserts_before_its_point() {
    let (mut ctx, f, block) = fixture();
    let c = konst(&mut ctx, 0, 8);
    let a = build(&mut ctx, block, &Point::End, c);
    let b = build(&mut ctx, block, &Point::End, c);
    // Pushes before an anchor land in push order, before it.
    let x = build(&mut ctx, block, &Point::Before(b), c);
    let y = build(&mut ctx, block, &Point::Before(b), c);
    assert_consistent(&ctx, block, &[a, x, y, b]);
    // At the start of a block, then back to the end.
    let start = BasicBlock::from_id(&ctx, block).first_instruction().unwrap();
    let s = build(&mut ctx, block, &Point::Before(start), c);
    let e = build(&mut ctx, block, &Point::End, c);
    assert_consistent(&ctx, block, &[s, a, x, y, b, e]);
    let _ = f;
}

#[test]
fn moving_an_instruction_within_and_across_blocks() {
    let (mut ctx, f, block) = fixture();
    let at = f.index();
    let other = BasicBlock::make(&mut ctx, f).with_address(0x2000).id;
    let ids: Vec<InstructionId> = (0..4).map(|n| mint(&mut ctx, f, n)).collect();
    for id in &ids {
        ctx.bodies[at].link_last(block.local, id.local);
    }
    let o = mint(&mut ctx, f, 9);
    ctx.bodies[at].link_last(other.local, o.local);

    // Backwards and forwards within one block.
    ctx.bodies[at].move_insn_before(ids[3], ids[1]);
    assert_consistent(&ctx, block, &[ids[0], ids[3], ids[1], ids[2]]);
    ctx.bodies[at].move_insn_before(ids[0], ids[2]);
    assert_consistent(&ctx, block, &[ids[3], ids[1], ids[0], ids[2]]);
    // Before itself: nothing happens.
    ctx.bodies[at].move_insn_before(ids[1], ids[1]);
    assert_consistent(&ctx, block, &[ids[3], ids[1], ids[0], ids[2]]);

    // Across blocks, from the ends and the middle.
    ctx.bodies[at].move_insn_before(ids[3], o);
    ctx.bodies[at].move_insn_before(ids[2], o);
    ctx.bodies[at].move_insn_before(ids[1], o);
    assert_consistent(&ctx, block, &[ids[0]]);
    assert_consistent(&ctx, other, &[ids[3], ids[2], ids[1], o]);
}

/// `%a = 1 + 2; %b = %a + 3; ...; return at` the last of `n` sums.
fn chain(ctx: &mut Context, block: BlockId, n: u64) -> Vec<InstructionId> {
    let (one, two) = (konst(ctx, 1, 8), konst(ctx, 2, 8));
    let mut ids = vec![push(ctx, block, sum(one, two), 8)];
    for k in 1..n {
        let c = konst(ctx, k + 2, 8);
        let last = local(ids[ids.len() - 1]);
        ids.push(push(ctx, block, sum(last, c), 8));
    }
    let last = local(ids[ids.len() - 1]);
    ids.push(push(ctx, block, Mnemonic::Return(Return { ptr: last, value: None }), 0));
    ids
}

#[test]
fn splitting_moves_the_tail_and_absorbing_brings_it_back() {
    let (mut ctx, f, entry) = fixture();
    let at = f.index();
    let ids = chain(&mut ctx, entry, 4);
    assert_eq!(ids.len(), 5);

    // Split before %c: the head keeps [%a, %b], the tail gets the rest.
    let tail = ctx.bodies[at].split_block_before(entry, ids[2]);
    assert_consistent(&ctx, entry, &ids[..2]);
    assert_consistent(&ctx, tail, &ids[2..]);

    // Terminate the head with a branch to the tail, then absorb it back.
    let branch = push(
        &mut ctx,
        entry,
        Mnemonic::Branch(Branch { target: tail.local, args: vec![] }),
        0,
    );
    assert_consistent(&ctx, entry, &[ids[0], ids[1], branch]);
    let edge = ctx.bodies[at].add_cfg_edge(entry, tail);
    ctx.bodies[at].absorb_block(entry, tail, edge);
    assert!(!ctx.bodies[at].contains_block(tail));
    assert_consistent(&ctx, entry, &ids);

    // Splitting at the first instruction empties the block; at the last
    // moves only the terminator.
    let tail = ctx.bodies[at].split_block_before(entry, ids[0]);
    assert_consistent(&ctx, entry, &[]);
    assert_consistent(&ctx, tail, &ids);
    let end = ctx.bodies[at].split_block_before(tail, ids[4]);
    assert_consistent(&ctx, tail, &ids[..4]);
    assert_consistent(&ctx, end, &ids[4..]);
}

#[test]
fn a_cloned_block_keeps_the_order() {
    let (mut ctx, _, entry) = fixture();
    chain(&mut ctx, entry, 3);
    let target = FunctionBody::make(&mut ctx, "target".to_string()).ok().unwrap().id;
    let mut value_map = ValueMap::new();
    let cloned = BasicBlock::clone_block_into(&mut ctx, entry, target, &mut value_map);
    let opcodes = |ctx: &Context, block: BlockId| -> Vec<String> {
        BasicBlock::from_id(ctx, block)
            .instructions()
            .into_iter()
            .map(|i| InstructionRef::from_id(ctx, i).opcode().to_string())
            .collect()
    };
    assert_eq!(opcodes(&ctx, cloned), opcodes(&ctx, entry));
    let expected = order(&ctx, cloned);
    assert_eq!(expected.len(), 4);
    assert_consistent(&ctx, cloned, &expected);
}

#[test]
fn taking_all_out_leaves_them_in_no_block() {
    let (mut ctx, f, block) = fixture();
    let ids = chain(&mut ctx, block, 3);
    let taken = ctx.bodies[f.index()].take_insns(block.local);
    assert_eq!(taken, ids.iter().map(|id| id.local).collect::<Vec<_>>());
    assert_consistent(&ctx, block, &[]);
    for id in ids {
        assert_eq!(ctx.bodies[f.index()].insn(id).parent, None);
    }
}
