//! Functions: their interfaces, names, addresses and entry blocks.

use qcode::block::BasicBlock;
use qcode::body::FunctionBody;
use qcode::context::Context;
use qcode::error::Error;
use qcode::function::effects::{
    FunctionEffects, InterfaceSlot, MemoryChannelState, MemoryInterfaceMap, RegisterChannelState,
    RegisterEffectSets, RegisterInterfaceMap, SlotBase, WrittenSpaces, WrittenSpacesState,
};
use qcode::function::footprint::{
    Footprint, RamBase, RamField, RamLocations, RamObject, RamRegion,
};
use qcode::function::interface::{FunctionInterface, FunctionKind};
use qcode::function::signature::{
    ArgMemKind, ExternArg, ExternArgmem, ExternInterface, ExternSlot, FunctionSignature,
    ParamAttrs,
};
use qcode::ids::{BlockId, FunctionId, InstructionId, LocalBlockId, SpaceId};
use qcode::insn::binop::{Binary, Binop, IntBinop};
use qcode::insn::mnemonic::Mnemonic;
use qcode::insn::terminator::{Return, ReturnValue};
use qcode::refs::insn::InstructionRef;
use qcode::segment::render::function_display;
use qcode::value::{LocalValueId, ValueId};

fn konst(ctx: &mut Context, value: u64, size: usize) -> LocalValueId {
    let ty = ctx.shared.types.get_or_make_int(size);
    LocalValueId::Literal(ctx.shared.literals.get_or_make_typed_literal(value, ty, size))
}

fn push(ctx: &mut Context, block: BlockId, mnemonic: Mnemonic, size: usize) -> InstructionId {
    let id = InstructionRef::from_mnemonic(ctx, block.func, mnemonic, size);
    BasicBlock::from_id_mut(ctx, block).push_insn(id);
    id
}

fn sum(lhs: LocalValueId, rhs: LocalValueId) -> Mnemonic {
    Mnemonic::Binop(Binary { op: Binop::Int(IntBinop::Add), lhs, rhs })
}

fn local(id: InstructionId) -> LocalValueId {
    LocalValueId::Instruction(id.local)
}

/// A function `name` whose entry block, of the name `label`, is given back.
fn rooted(ctx: &mut Context, name: &str, label: &str) -> BlockId {
    let f = FunctionBody::make(ctx, name.to_string()).ok().unwrap().id;
    let block = BasicBlock::make(ctx, f).id;
    BasicBlock::from_id_mut(ctx, block).rename_local(label).unwrap();
    FunctionBody::from_id_mut(ctx, f).set_root(block).unwrap();
    block
}

#[test]
fn raw_root_and_roster_are_local_while_refs_qualify_per_function() {
    let mut ctx = Context::new();
    let a = FunctionBody::make(&mut ctx, "local_root_a".to_string()).ok().unwrap().id;
    let b = FunctionBody::make(&mut ctx, "local_root_b".to_string()).ok().unwrap().id;
    let a_root = BasicBlock::make(&mut ctx, a).id;
    let b_root = BasicBlock::make(&mut ctx, b).id;
    assert_eq!(a_root.local, b_root.local, "arena-local ids should collide");
    FunctionBody::from_id_mut(&mut ctx, a).set_root(a_root).unwrap();
    FunctionBody::from_id_mut(&mut ctx, b).set_root(b_root).unwrap();

    assert_eq!(ctx.bodies[a.index()].root_id(), Some(a_root.local));
    assert_eq!(ctx.bodies[b.index()].root_id(), Some(b_root.local));
    assert_eq!(ctx.bodies[a.index()].roster, vec![a_root.local]);
    assert_eq!(ctx.bodies[b.index()].roster, vec![b_root.local]);
    assert_eq!(FunctionBody::from_id(&ctx, a).root(), Some(a_root));
    assert_eq!(FunctionBody::from_id(&ctx, b).root(), Some(b_root));
}

#[test]
fn function_ref_users_of_rejects_foreign_owned_values() {
    let mut ctx = Context::new();
    let mut ids: Vec<Vec<InstructionId>> = Vec::new();
    let mut blocks: Vec<BlockId> = Vec::new();
    for (f, label) in [("users_a", "a_entry"), ("users_b", "b_entry")] {
        let block = rooted(&mut ctx, f, label);
        let (one, two, three) =
            (konst(&mut ctx, 1, 8), konst(&mut ctx, 2, 8), konst(&mut ctx, 3, 8));
        let def = push(&mut ctx, block, sum(one, two), 8);
        let user = push(&mut ctx, block, sum(local(def), three), 8);
        let ret = push(
            &mut ctx,
            block,
            Mnemonic::Return(Return { ptr: local(user), value: None }),
            0,
        );
        ids.push(vec![def, user, ret]);
        blocks.push(block);
    }
    let (users_a, users_b) = (blocks[0].func, blocks[1].func);
    let a_ids = BasicBlock::from_id(&ctx, FunctionBody::from_id(&ctx, users_a).root().unwrap())
        .iter_instruction_ids();
    assert_eq!(a_ids, ids[0]);
    let a_def = ValueId::Instruction(a_ids[0]);
    assert_eq!(FunctionBody::from_id(&ctx, users_a).users_of(a_def), vec![a_ids[1]]);
    assert!(FunctionBody::from_id(&ctx, users_b).users_of(a_def).is_empty());
    assert!(!FunctionBody::from_id(&ctx, users_b).has_users(a_def));

    let one = konst(&mut ctx, 1, 8).qualify(users_b);
    assert!(!FunctionBody::from_id(&ctx, users_b).users_of(one).is_empty());
}

/// Two functions with an entry block of one instruction and one parameter.
fn colliding() -> (Context, BlockId, BlockId, InstructionId, InstructionId) {
    let mut ctx = Context::new();
    let a = rooted(&mut ctx, "raw_a", "a_entry");
    let b = rooted(&mut ctx, "raw_b", "b_entry");
    let mut defs: Vec<InstructionId> = Vec::new();
    for block in [a, b] {
        BasicBlock::from_id_mut(&mut ctx, block).push_param(8);
        let (one, two) = (konst(&mut ctx, 1, 8), konst(&mut ctx, 2, 8));
        let def = push(&mut ctx, block, sum(one, two), 8);
        push(&mut ctx, block, Mnemonic::Return(Return { ptr: local(def), value: None }), 0);
        defs.push(def);
    }
    assert_eq!(a.local, b.local);
    assert_eq!(defs[0].local, defs[1].local);
    (ctx, a, b, defs[0], defs[1])
}

#[test]
fn replace_instruction_with_itself_is_a_noop() {
    let mut ctx = Context::new();
    let entry = rooted(&mut ctx, "f", "entry");
    let f = entry.func;
    let a = BasicBlock::from_id_mut(&mut ctx, entry).push_param(4);
    let (one, two) = (konst(&mut ctx, 1, 4), konst(&mut ctx, 2, 4));
    let x = push(&mut ctx, entry, sum(LocalValueId::BlockParam(a.local), one), 4);
    let y = push(&mut ctx, entry, sum(local(x), two), 4);
    push(&mut ctx, entry, Mnemonic::ReturnValue(ReturnValue { value: local(y) }), 0);

    let users_before = ctx.bodies[f.index()].users_of(ValueId::Instruction(x));
    assert!(!users_before.is_empty(), "x should have a user (%y)");

    // Replace x with itself: must not delete x or disturb its users.
    ctx.bodies[f.index()].replace_instruction(x, ValueId::Instruction(x));

    assert!(
        ctx.bodies[f.index()].contains_instruction(x),
        "x must survive a self-replacement"
    );
    assert_eq!(
        ctx.bodies[f.index()].users_of(ValueId::Instruction(x)),
        users_before,
        "x's users must be unchanged"
    );
}

#[test]
fn body_users_of_rejects_foreign_owned_values() {
    let (ctx, a, b, a_insn, _) = colliding();
    assert!(ctx.bodies[b.func.index()].users_of(ValueId::Instruction(a_insn)).is_empty());
    assert!(!ctx.bodies[a.func.index()].users_of(ValueId::Instruction(a_insn)).is_empty());
}

#[test]
fn a_body_holds_what_is_its_own() {
    let (ctx, a, b, a_insn, b_insn) = colliding();
    let body = &ctx.bodies[b.func.index()];
    assert!(body.contains_block(b) && !body.contains_block(a));
    assert!(body.contains_instruction(b_insn) && !body.contains_instruction(a_insn));
    let params = BasicBlock::from_id(&ctx, b).params();
    assert!(body.contains_block_param(params[0]));
    let foreign = BasicBlock::from_id(&ctx, a).params();
    assert!(!body.contains_block_param(foreign[0]));
    assert_eq!(body.block_param(params[0]).index, 0);
    assert!(body.mnemonic_local(b_insn.local).operand(0).is_some());
}

#[test]
fn make_function_creates_function_with_correct_name_root_address() {
    let mut ctx = Context::new();
    let f = FunctionBody::make(&mut ctx, "main".to_string()).ok().unwrap();
    assert_eq!(f.name(), "main");
}

#[test]
fn get_function_by_name_returns_correct_function() {
    let mut ctx = Context::new();
    let id = FunctionBody::make(&mut ctx, "foo".to_string()).ok().unwrap().id;
    let f = FunctionBody::from_name(&ctx, "foo").unwrap();
    assert_eq!(f.id(), ValueId::Function(id));
    assert_eq!(f.name(), "foo");
}

#[test]
fn get_function_by_name_returns_none_if_not_found() {
    let ctx = Context::new();
    assert!(FunctionBody::from_name(&ctx, "nonexistent").is_none());
}

#[test]
fn get_function_by_addr_returns_correct_function() {
    let mut ctx = Context::new();
    let id = FunctionBody::make_at_addr(&mut ctx, 0x2000, None).id;
    let f = FunctionBody::from_id(&ctx, ctx.get_function_by_addr(0x2000).unwrap());
    assert_eq!(f.id, id);
    assert_eq!(f.address(), Some(0x2000));
    assert_eq!(f.name(), "fn_2000");
}

#[test]
fn get_function_by_addr_returns_none_if_missing() {
    let ctx = Context::new();
    assert!(ctx.get_function_by_addr(0xdeadbeef).is_none());
}

#[test]
fn a_duplicate_function_name_is_refused() {
    let mut ctx = Context::new();
    FunctionBody::make(&mut ctx, "twice".to_string()).ok().unwrap();
    match FunctionBody::make(&mut ctx, "twice".to_string()) {
        Err(Error::DuplicateName(name)) => assert_eq!(name, "twice"),
        _ => panic!("expected a duplicate name"),
    }
    // At an address the name is made unique instead.
    let f = FunctionBody::make_at_addr(&mut ctx, 0x10, Some("twice".to_string())).id;
    assert_eq!(FunctionBody::from_id(&ctx, f).name(), "twice_1");
    assert_eq!(FunctionBody::from_name(&ctx, "twice_1").unwrap().id, f);
}

#[test]
fn a_function_is_renamed() {
    let mut ctx = Context::new();
    let a = FunctionBody::make(&mut ctx, "a".to_string()).ok().unwrap().id;
    let b = FunctionBody::make(&mut ctx, "b".to_string()).ok().unwrap().id;
    assert!(FunctionBody::from_id_mut(&mut ctx, a).rename("b".to_string()).is_err());
    FunctionBody::from_id_mut(&mut ctx, a).rename("c".to_string()).unwrap();
    assert_eq!(FunctionBody::from_id(&ctx, a).name(), "c");
    assert_eq!(FunctionBody::from_name(&ctx, "c").unwrap().id, a);
    assert!(FunctionBody::from_name(&ctx, "a").is_none());
    assert_eq!(FunctionBody::from_name(&ctx, "b").unwrap().id, b);
}

#[test]
fn functions_are_found_or_made_at_an_address() {
    let mut ctx = Context::new();
    let a = FunctionBody::from_addr_or_create(&mut ctx, 0x4000).id;
    let again = FunctionBody::from_addr_or_create(&mut ctx, 0x4000).id;
    assert_eq!(a, again);
    let stub = FunctionBody::make_external(&mut ctx, 0x5000, Some("puts".to_string())).id;
    assert!(FunctionBody::from_id(&ctx, stub).is_external());
    assert_eq!(function_display(&ctx, stub), "extern fn puts;\n");
    let mut moved = FunctionBody::from_id_mut(&mut ctx, a);
    match moved.set_address(0x5000) {
        Err(Error::DuplicateAddress(address)) => assert_eq!(address, 0x5000),
        _ => panic!("expected a duplicate address"),
    }
    moved.set_address(0x6000).unwrap();
    assert_eq!(ctx.get_function_by_addr(0x6000), Some(a));
    assert_eq!(ctx.get_function_by_addr(0x4000), None);
}

#[test]
fn add_block_via_function_mut_ref_updates_blocks_list() {
    let mut ctx = Context::new();
    let baz_id = FunctionBody::make(&mut ctx, "baz".to_string()).ok().unwrap().id;
    let root = BasicBlock::make(&mut ctx, baz_id).id;
    let extra = BasicBlock::make(&mut ctx, baz_id).id;

    let mut baz = FunctionBody::from_id_mut(&mut ctx, baz_id);
    baz.add_block(root);
    baz.add_block(extra);

    let block_ids = baz.blocks();
    assert!(block_ids.contains(&root));
    assert!(block_ids.contains(&extra));
}

#[test]
fn display_shows_function_name_and_block_contents() {
    let mut ctx = Context::new();
    FunctionBody::make(&mut ctx, "display_test".to_string()).ok().unwrap();

    let f = FunctionBody::from_name(&ctx, "display_test").unwrap();

    let s = function_display(&ctx, f.id);
    assert!(s.contains("fn display_test:"));
}

#[test]
fn iter_yields_all_blocks() {
    let mut ctx = Context::new();
    let f_id = FunctionBody::make(&mut ctx, "iter_fn".to_string()).ok().unwrap().id;
    let root = BasicBlock::make(&mut ctx, f_id).id;
    let extra = BasicBlock::make(&mut ctx, f_id).id;
    let mut f = FunctionBody::from_id_mut(&mut ctx, f_id);
    f.add_block(root);
    f.add_block(extra);

    let f = FunctionBody::from_name(&ctx, "iter_fn").unwrap();
    let ids = f.iter();
    assert!(ids.contains(&root));
    assert!(ids.contains(&extra));
}

#[test]
fn into_iterator_for_function_ref_matches_iter() {
    let mut ctx = Context::new();
    let f_id = FunctionBody::make(&mut ctx, "into_iter_fn".to_string()).ok().unwrap().id;
    let b1 = BasicBlock::make(&mut ctx, f_id).id;
    let b2 = BasicBlock::make(&mut ctx, f_id).id;
    let mut f = FunctionBody::from_id_mut(&mut ctx, f_id);
    f.add_block(b1);
    f.add_block(b2);

    let f = FunctionBody::from_name(&ctx, "into_iter_fn").unwrap();
    let mut via_iter: Vec<usize> = f.iter().iter().map(|b| b.local.index()).collect();
    let mut via_into: Vec<usize> = f.block_ids().into_iter().map(|b| b.local.index()).collect();
    via_iter.sort();
    via_into.sort();
    assert_eq!(via_iter, via_into);
}

#[test]
fn blocks_are_listed_by_address() {
    let mut ctx = Context::new();
    let f = FunctionBody::make(&mut ctx, "listed".to_string()).ok().unwrap().id;
    let high = BasicBlock::make(&mut ctx, f).with_address(0x2000).id;
    let none = BasicBlock::make(&mut ctx, f).id;
    let low = BasicBlock::make(&mut ctx, f).with_address(0x1000).id;
    assert_eq!(FunctionBody::from_id(&ctx, f).blocks(), vec![none, low, high]);
    assert_eq!(FunctionBody::from_id(&ctx, f).block_ids(), vec![high, none, low]);
}

#[test]
fn qcode_fn_single_block_populates_function() {
    let mut ctx = Context::new();
    let entry = rooted(&mut ctx, "simple", "entry");
    let zero = konst(&mut ctx, 0, 8);
    push(&mut ctx, entry, Mnemonic::Return(Return { ptr: zero, value: None }), 0);

    let f = FunctionBody::from_name(&ctx, "simple").unwrap();
    assert_eq!(f.name(), "simple");
    assert!(f.root().is_some());
    assert_eq!(BasicBlock::from_id(&ctx, f.root().unwrap()).name().unwrap(), "entry");
    assert_eq!(f.blocks().len(), 1);
}

#[test]
fn qcode_fn_multi_block_populates_all_blocks() {
    let mut ctx = Context::new();
    let bb1 = rooted(&mut ctx, "multiblock", "bb1");
    for name in ["bb2", "bb3"] {
        let block = BasicBlock::make(&mut ctx, bb1.func).id;
        BasicBlock::from_id_mut(&mut ctx, block).rename_local(name).unwrap();
    }

    let f = FunctionBody::from_name(&ctx, "multiblock").unwrap();
    assert_eq!(BasicBlock::from_id(&ctx, f.root().unwrap()).name().unwrap(), "bb1");
    let block_names: Vec<String> =
        f.blocks().into_iter().filter_map(|b| BasicBlock::from_id(&ctx, b).name()).collect();
    assert!(block_names.contains(&"bb1".to_string()), "missing bb1");
    assert!(block_names.contains(&"bb2".to_string()), "missing bb2");
    assert!(block_names.contains(&"bb3".to_string()), "missing bb3");
    assert_eq!(f.blocks().len(), 3);
}

#[test]
fn qcode_fn_id_variable_is_set() {
    let mut ctx = Context::new();
    let start = rooted(&mut ctx, "myfn", "start");
    let by_name = FunctionBody::from_name(&ctx, "myfn").unwrap();
    assert_eq!(by_name.name(), "myfn");
    assert_eq!(by_name.id, start.func);
}

#[test]
fn a_root_brings_function_and_block_to_one_address() {
    let mut ctx = Context::new();
    // The function moves to its block.
    let f = FunctionBody::make(&mut ctx, "f".to_string()).ok().unwrap().id;
    let block = BasicBlock::make(&mut ctx, f).with_address(0x1000).id;
    FunctionBody::from_id_mut(&mut ctx, f).set_root(block).unwrap();
    assert_eq!(FunctionBody::from_id(&ctx, f).address(), Some(0x1000));
    // The block moves to its function, and goes by the address.
    let g = FunctionBody::make_at_addr(&mut ctx, 0x2000, None).id;
    let root = FunctionBody::from_id_mut(&mut ctx, g).make_root();
    assert_eq!(BasicBlock::from_id(&ctx, root).address(), Some(0x2000));
    assert_eq!(BasicBlock::from_id(&ctx, root).name().unwrap(), "2000");
    // A function keeps the entry block it has.
    let other = BasicBlock::make(&mut ctx, g).with_address(0x2010).id;
    match FunctionBody::from_id_mut(&mut ctx, g).ensure_root(other) {
        Err(Error::FunctionRootMismatch { expected, actual }) => {
            assert_eq!((expected, actual), (root, other));
        }
        _ => panic!("expected a mismatch"),
    }
    assert_eq!(FunctionBody::from_id(&ctx, g).root(), Some(root));
    FunctionBody::from_id_mut(&mut ctx, g).ensure_root(root).unwrap();
}

fn slot() -> InterfaceSlot {
    InterfaceSlot { base: SlotBase::Arg(0), offset: 8, size: 8 }
}

#[test]
fn default_memory_state_is_not_materialized() {
    assert_eq!(MemoryChannelState::default().materialized(), None);
}

#[test]
fn stamping_written_spaces_preserves_the_materialized_interface() {
    let mut ctx = Context::new();
    let fid = FunctionBody::make(&mut ctx, "keeps_interface".to_string()).ok().unwrap().id;
    let map = MemoryInterfaceMap { inputs: vec![slot()], outputs: vec![] };
    let mut body = FunctionBody::from_id_mut(&mut ctx, fid);
    body.set_memory_effects(MemoryChannelState {
        materialized: Some(map.clone()),
        ..MemoryChannelState::default()
    });
    body.set_written_spaces(None);

    let effects = FunctionBody::from_id(&ctx, fid).effects().memory.clone();
    assert_eq!(effects.materialized(), Some(&map));
    assert_eq!(effects.coarse, WrittenSpacesState::Unbounded);
}

#[test]
fn an_unmappable_base_is_distinct_from_a_global_and_is_not_bindable() {
    let unmappable = InterfaceSlot { base: SlotBase::Unmappable, offset: 0, size: 8 };
    let global = InterfaceSlot { base: SlotBase::Global(0), offset: 0, size: 8 };
    assert_ne!(unmappable, global);
    assert!(!unmappable.is_bindable());
    assert!(global.is_bindable());
    assert!(InterfaceSlot { base: SlotBase::Arg(0), offset: -8, size: 8 }.is_bindable());
}

#[test]
fn the_writers_of_the_memory_effects_leave_each_other_alone() {
    let mut ctx = Context::new();
    let fid = FunctionBody::make(&mut ctx, "effects".to_string()).ok().unwrap().id;
    let map = MemoryInterfaceMap { inputs: vec![], outputs: vec![slot()] };
    let mut f = FunctionBody::from_id_mut(&mut ctx, fid);
    f.set_memory_interface(Some(map.clone()));
    f.set_memory_solved(WrittenSpacesState::Bounded(vec![SpaceId(3)]), Some(Footprint::new()));
    f.set_register_effects(RegisterChannelState::Solved(RegisterEffectSets {
        reads: vec![],
        writes: vec![],
    }));
    let r = FunctionBody::from_id(&ctx, fid);
    assert_eq!(r.effects().memory.materialized(), Some(&map));
    assert_eq!(r.written_spaces(), Some(&vec![SpaceId(3)]));
    assert_eq!(r.written_spaces_state(), WrittenSpaces::Bounded(&vec![SpaceId(3)]));
    assert!(r.effects().is_solved());
    assert!(r.effects().materialized().is_none());
    assert!(!r.is_reg_materialized());
    assert!(r.effects().memory.precise.as_ref().unwrap().is_empty());
}

#[test]
fn a_new_interface_says_nothing() {
    let face = FunctionInterface::new("f".to_string());
    assert_eq!(face.address(), None);
    assert_eq!(face.param_attr(0), None);
    assert_eq!(face.kind, FunctionKind::default());
    assert_eq!(face.effects, FunctionEffects::default());
    assert!(!face.effects.is_solved());
    let mut ctx = Context::new();
    let f = FunctionBody::make(&mut ctx, "g".to_string()).ok().unwrap().id;
    let r = FunctionBody::from_id(&ctx, f);
    assert_eq!(r.written_spaces(), None);
    assert_eq!(r.written_spaces_state(), WrittenSpaces::Unstamped);
    assert!(r.signature().is_none());
    assert!(!r.is_pure() && !r.is_lambda() && !r.is_external());
}

#[test]
fn a_lambda_is_pure_and_has_no_registers() {
    let mut ctx = Context::new();
    let f = FunctionBody::make_lambda(&mut ctx, "inc".to_string()).ok().unwrap().id;
    let r = FunctionBody::from_id(&ctx, f);
    assert!(r.is_lambda());
    assert!(r.is_pure());
    assert_eq!(r.effects().materialized(), Some(&RegisterInterfaceMap::default()));
    assert_eq!(function_display(&ctx, f), "lambda inc:\n");
    assert!(FunctionBody::make_lambda(&mut ctx, "inc".to_string()).is_err());
}

#[test]
fn a_signature_is_filled_in_piece_by_piece() {
    let mut ctx = Context::new();
    let id = FunctionBody::make(&mut ctx, "sig".to_string()).ok().unwrap().id;
    let attrs = vec![ParamAttrs::optimistic(), ParamAttrs::default()];
    let mut f = FunctionBody::from_id_mut(&mut ctx, id);
    f.set_param_attrs(attrs.clone());
    f.set_reads_unbounded_stack(true);
    f.set_frame_escapes_to_unbounded(true);
    f.set_import_ordinal(Some(7));
    f.set_extern_interface(ExternInterface {
        args: vec![ExternArg {
            slot: ExternSlot::Stack { offset: 8, size: 4 },
            name: Some("dest".to_string()),
            attrs: ParamAttrs::default(),
        }],
    });
    f.set_argmem(ExternArgmem { params: vec![ArgMemKind::OutPtr], variadic: true });
    let r = FunctionBody::from_id(&ctx, id);
    assert_eq!(r.param_attr(0), Some(ParamAttrs::optimistic()));
    assert_eq!(r.param_attr(2), None);
    assert_eq!(r.param_attrs(), Some(&attrs));
    assert!(r.reads_unbounded_stack() && r.frame_escapes_to_unbounded());
    assert_eq!(r.import_ordinal(), Some(7));
    assert_eq!(r.input_arg_name(0), Some("dest".to_string()));
    assert_eq!(r.input_arg_name(1), None);
    assert!(r.argmem().unwrap().variadic);
    FunctionBody::from_id_mut(&mut ctx, id).clear_param_attrs();
    assert_eq!(FunctionBody::from_id(&ctx, id).param_attrs(), None);
    assert!(FunctionBody::from_id(&ctx, id).reads_unbounded_stack());
    FunctionBody::from_id_mut(&mut ctx, id).set_signature(FunctionSignature::default());
    assert!(FunctionBody::from_id(&ctx, id).argmem().is_none());
}

#[test]
fn addresses_of_instructions_ascend() {
    let mut ctx = Context::new();
    let id = FunctionBody::make(&mut ctx, "addrs".to_string()).ok().unwrap().id;
    let mut f = FunctionBody::from_id_mut(&mut ctx, id);
    for a in [0x30, 0x10, 0x20, 0x10] {
        f.add_instruction_addr(a);
    }
    assert_eq!(FunctionBody::from_id(&ctx, id).instruction_addrs(), vec![0x10, 0x20, 0x30]);
}

fn field(base: RamBase, offset: i64) -> RamField {
    RamField { base, offset, size: 8 }
}

#[test]
fn a_footprint_is_invisible_where_no_caller_sees_it() {
    let mut p = Footprint::new();
    assert!(p.is_empty() && p.invisible());
    assert!(p.writes.fields.insert(field(RamBase::Frame(-8), 0)));
    assert!(!p.writes.fields.insert(field(RamBase::Frame(-8), 0)));
    p.writes.objects.insert(RamObject { base: RamBase::Private });
    assert_eq!(p.len(), 2);
    assert!(p.invisible());
    assert!(p.writes.bases_invisible());
    // Reading the own frame is not.
    p.reads.regions.insert(RamRegion { base: RamBase::Frame(-8), lo: 0, hi: 8 });
    assert!(!p.invisible());
    let mut q = RamLocations::new();
    q.fields.insert(field(RamBase::Global(0x1000), 0));
    assert!(!q.bases_invisible());
    assert_eq!(q.len(), 1);
    assert!(!q.is_empty());
}

#[test]
fn equal_footprints_are_written_alike() {
    let entries = [
        field(RamBase::Private, 0),
        field(RamBase::Param(1), 8),
        field(RamBase::Param(1), -8),
        field(RamBase::Global(4), 0),
        field(RamBase::Frame(-16), 0),
    ];
    let mut a = RamLocations::new();
    let mut b = RamLocations::new();
    for e in entries {
        a.fields.insert(e);
    }
    for e in entries.iter().rev() {
        b.fields.insert(*e);
    }
    assert_eq!(a, b);
    let mut expected = entries.to_vec();
    expected.sort();
    assert_eq!(a.fields.entries, expected);
}

#[test]
fn ids_index_their_tables() {
    assert_eq!(FunctionId::from(3u32).index(), 3);
    assert_eq!(LocalBlockId(9).index(), 9);
}
