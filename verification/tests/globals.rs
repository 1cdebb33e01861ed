//! Names of what no function holds, and runs that are appended as a whole.

use qcode::base::BaseId;
use qcode::block::BasicBlock;
use qcode::body::prototype::{ProtoMap, ProtoOp};
use qcode::body::{FunctionBody, Temp, TempSpace};
use qcode::context::{Context, Space, Varnode};
use qcode::error::Error;
use qcode::ids::{
    BlockId, FunctionId, InstructionId, LiteralId, LocalBlockId, LocalInsnId, TempId, VarnodeId,
};
use qcode::insn::binop::{Binary, Binop, IntBinop};
use qcode::insn::instruction::Instruction;
use qcode::insn::mnemonic::Mnemonic;
use qcode::insn::terminator::{Branch, CBranch};
use qcode::refs::insn::InstructionRef;
use qcode::value::{LocalValueId, ValueId};

fn function(ctx: &mut Context, name: &str) -> FunctionId {
    FunctionBody::make(ctx, name.to_string()).ok().unwrap().id
}

fn register(ctx: &mut Context, name: &str) -> VarnodeId {
    let space = ctx.shared.spaces.push(Space {
        name: Some("register".to_string()),
        is_register: true,
        word_size: 1,
        addr_size: 8,
    });
    let varnode = Varnode { name: name.to_string(), space, size: 8, type_id: None };
    let id = ctx.shared.varnodes.push(varnode);
    ctx.shared.update_name(name, ValueId::Varnode(id), None).unwrap();
    id
}

fn is_taken<T>(result: Result<T, Error>, name: &str) -> bool {
    matches!(result, Err(Error::DuplicateName(taken)) if taken == name)
}

#[test]
fn a_function_cannot_be_called_like_a_register() {
    let mut ctx = Context::new();
    let rax = register(&mut ctx, "rax");
    assert_eq!(ctx.get_named("rax"), Some(ValueId::Varnode(rax)));
    assert!(FunctionBody::from_name(&ctx, "rax").is_none());
    assert!(is_taken(FunctionBody::make(&mut ctx, "rax".to_string()), "rax"));
    let f = function(&mut ctx, "f");
    let mut function = FunctionBody::from_id_mut(&mut ctx, f);
    assert!(is_taken(function.rename("rax".to_string()), "rax"));
    assert_eq!(function.name(), "f");
    function.rename("g".to_string()).unwrap();
    assert!(FunctionBody::from_name(&ctx, "f").is_none());
    assert_eq!(FunctionBody::from_name(&ctx, "g").map(|r| r.id), Some(f));
    // Neither can a register be called like a function, but it can give its name up.
    let named = ctx.shared.update_name("g", ValueId::Varnode(rax), Some("rax"));
    assert!(is_taken(named, "g"));
    ctx.shared.update_name("eax", ValueId::Varnode(rax), Some("rax")).unwrap();
    assert_eq!(ctx.get_named("rax"), None);
    let mut function = FunctionBody::from_id_mut(&mut ctx, f);
    function.rename("rax".to_string()).unwrap();
    assert_eq!(ctx.get_named("rax"), Some(ValueId::Function(f)));
    // A function at an address takes the first free suffix instead.
    let h = FunctionBody::make_at_addr(&mut ctx, 0x10, Some("eax".to_string())).id;
    assert_eq!(FunctionBody::from_id(&ctx, h).name(), "eax_1");
}

#[test]
fn a_body_asks_for_the_names_of_others_and_gives_its_own() {
    let mut ctx = Context::new();
    let rax = register(&mut ctx, "rax");
    let rbx = register(&mut ctx, "rbx");
    let f = function(&mut ctx, "f");
    let block = BasicBlock::make(&mut ctx, f).id;
    let (shared, body) = (&ctx.shared, &mut ctx.bodies[f.index()]);
    assert!(body.register_local_name(shared, ValueId::Varnode(rax), "rax").is_ok());
    assert!(is_taken(body.register_local_name(shared, ValueId::Varnode(rbx), "rax"), "rax"));
    // A function's own names are apart from those of the module.
    body.register_local_name(shared, ValueId::BasicBlock(block), "rax").unwrap();
    assert_eq!(BasicBlock::from_id(&ctx, block).name().unwrap(), "rax");
    assert_eq!(ctx.get_named("rax"), Some(ValueId::Varnode(rax)));
}

#[test]
fn a_scratch_value_is_named_in_its_function() {
    let mut ctx = Context::new();
    let f = function(&mut ctx, "f");
    let body = &mut ctx.bodies[f.index()];
    let space = body.push_temp_space(TempSpace::new(None, 1, 8));
    let temp: TempId = body.push_temp(Temp::new(0, 8, space.local));
    let id = ValueId::Temp(temp);
    assert_eq!(id.name_scope_function(), Some(f));
    assert_eq!(ValueId::Function(f).name_scope_function(), None);
    body.register_body_name(id, "u1").unwrap();
    assert_eq!(body.names.get("u1"), Some(LocalValueId::Temp(temp.local)));
}

#[test]
fn a_type_may_be_changed_for_one_of_its_kind() {
    let mut ctx = Context::new();
    let f = function(&mut ctx, "f");
    let byte = ctx.shared.types.get_or_make_int(1);
    let flag = ctx.shared.types.get_or_make_bool();
    let bytes = ctx.shared.types.get_or_make_struct_pointer(8, byte);
    let flags = ctx.shared.types.get_or_make_struct_pointer(8, flag);
    let nothing = Mnemonic::Branch(Branch { target: LocalBlockId(0), args: vec![] });
    let id = InstructionRef::from_mnemonic_with_type(&mut ctx, f, nothing, bytes);
    let mut insn = Instruction::from_id_mut(&mut ctx, id);
    insn.set_type(flags);
    assert_eq!(InstructionRef::from_id(&ctx, id).type_id(), flags);
    let mut insn = Instruction::from_id_mut(&mut ctx, id);
    insn.set_type_resized(flag);
    assert_eq!(InstructionRef::from_id(&ctx, id).type_id(), flag);
}

#[test]
fn records_are_changed_in_place() {
    let mut ctx = Context::new();
    let f = function(&mut ctx, "f");
    let block = BasicBlock::make(&mut ctx, f).id;
    let param = BasicBlock::from_id_mut(&mut ctx, block).push_param(8);
    let jump = Mnemonic::Branch(Branch { target: block.local, args: vec![] });
    let id = InstructionRef::from_mnemonic(&mut ctx, f, jump, 0);
    *Instruction::from_id_mut(&mut ctx, id).address_mut() = Some(0x40);
    assert_eq!(InstructionRef::from_id(&ctx, id).address(), Some(0x40));
    ctx.bodies[f.index()].insn_mut(id).address = None;
    assert_eq!(InstructionRef::from_id(&ctx, id).address(), None);
    ctx.bodies[f.index()].block_mut(block).comment = Some("here".to_string());
    assert_eq!(ctx.bodies[f.index()].block(block).comment.as_deref(), Some("here"));
    let ty = ctx.shared.types.get_or_make_int(2);
    ctx.bodies[f.index()].block_param_mut(param).type_id = ty;
    assert_eq!(ctx.bodies[f.index()].block_param(param).type_id, ty);
    let mut insn = Instruction::from_id_mut(&mut ctx, id);
    if let Mnemonic::Branch(branch) = insn.mnemonic_mut() {
        branch.target = LocalBlockId(7);
    }
    assert!(matches!(
        &ctx.bodies[f.index()].insn(id).mnemonic,
        Mnemonic::Branch(branch) if branch.target == LocalBlockId(7)
    ));
}

fn edges(ctx: &Context, block: BlockId) -> Vec<u32> {
    BasicBlock::from_id(ctx, block).successors().iter().map(|(_, to)| to.local.0).collect()
}

#[test]
fn a_run_is_appended_with_its_names_and_edges() {
    let mut ctx = Context::new();
    let f = function(&mut ctx, "f");
    let a = BasicBlock::make(&mut ctx, f).id;
    let b = BasicBlock::make(&mut ctx, f).id;
    let ty = ctx.shared.types.get_or_make_int(8);
    let void = ctx.shared.types.get_or_make_int(0);
    let two = ctx.shared.literals.get_or_make_typed_literal(2, ty, 8);
    let body = &mut ctx.bodies[f.index()];
    // The highest suffix there is does not keep others from being named.
    body.rename(LocalValueId::BasicBlock(b.local), "t_4294967295").unwrap();
    let base: BaseId = body.names.base("t").unwrap();
    body.add_cfg_edge(a, a);
    let literal = |k: usize| LocalValueId::Literal(LiteralId(k));
    let step = |k: u32| LocalValueId::Instruction(LocalInsnId(k));
    let add = |lhs, rhs| Mnemonic::Binop(Binary { op: Binop::Int(IntBinop::Add), lhs, rhs });
    let ops = [
        ProtoOp { block: 0, type_id: ty, base: Some(base), mnemonic: add(literal(0), literal(0)) },
        ProtoOp { block: 0, type_id: ty, base: Some(base), mnemonic: add(step(0), literal(0)) },
        ProtoOp {
            block: 0,
            type_id: void,
            base: None,
            mnemonic: Mnemonic::CBranch(CBranch {
                condition: step(1),
                success_block: LocalBlockId(1),
                success_args: vec![],
                failure_block: LocalBlockId(0),
                failure_args: vec![],
            }),
        },
    ];
    let map = ProtoMap {
        literals: &[LocalValueId::Literal(two)],
        varnodes: &[],
        temps: &[],
        spaces: &[],
        blocks: &[a.local, b.local],
        callees: &[],
    };
    let mut out = vec![];
    body.append_prototype(&ops, &map, Some(0x1000), true, &mut out);
    assert_eq!(out, vec![LocalInsnId(0), LocalInsnId(1), LocalInsnId(2)]);
    assert_eq!(body.names.get("t"), Some(LocalValueId::Instruction(out[0])));
    assert_eq!(body.names.get("t_1"), Some(LocalValueId::Instruction(out[1])));
    // Each block lists its edges in the order they were added.
    assert_eq!(edges(&ctx, a), vec![a.local.0, b.local.0, a.local.0]);
    // Further instructions leave the lists alone.
    let jump = Mnemonic::Branch(Branch { target: a.local, args: vec![] });
    let id = InstructionRef::from_mnemonic(&mut ctx, f, jump, 0);
    BasicBlock::from_id_mut(&mut ctx, a).push_insn(id);
    assert_eq!(edges(&ctx, a), vec![a.local.0, b.local.0, a.local.0]);
    // Where nothing is named, no name is asked for.
    let mut more = vec![];
    ctx.bodies[f.index()].append_prototype(&ops[..1], &map, None, false, &mut more);
    assert_eq!(more, vec![LocalInsnId(4)]);
    let last = InstructionId::new(f, more[0]);
    assert_eq!(InstructionRef::from_id(&ctx, last).name(), None);
}
