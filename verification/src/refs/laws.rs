//! How the widths and the types that are told of values agree.

use crate::body::access::{live_among, BodyArenaKindStats};
use crate::body::BodyView;
use crate::context::Context;
use crate::ids::{FunctionId, LocalBlockId, LocalParamId, SpaceId, TypeId};
use crate::refs::insn::{address_like, register_address, with_type};
use crate::refs::param::{with_loose_param, with_param_fields};
use crate::refs::value::{value_size, value_space};
use crate::space::MemorySpaceId;
use crate::types::{type_size, TypeView};
use crate::value::{LocalValueId, ValueId};
use vstd::prelude::*;

verus! {

/// A body and the module tell the same type of a value, and a value without a
/// type is as wide as its record says.
pub proof fn law_body_and_module_agree_on_types(c: Context, func: FunctionId, v: LocalValueId)
    ensures
        c.body_of(func).stored_type(c.shared, v) == c.stored_type(v.spec_qualify(func)),
        c.stored_type(v.spec_qualify(func)) is None && (v is Varnode || v is Temp || v is BasicBlock
            || v is Function) ==> value_size(c, v.spec_qualify(func)) == c.body_of(
            func,
        ).plain_width(c.shared, v),
{
}

/// A value is as wide as its type: bytes as many as they are, a storage location
/// or a scratch value as wide as it was made, a block and a function not at all.
pub proof fn law_a_value_is_as_wide_as_its_type(c: Context, id: ValueId)
    requires
        c.shared.wf(),
        c.has_value(id),
    ensures
        (id is Literal || id is Instruction || id is BlockParam || id is Poison || id is Bytes) ==> (
        c.stored_type(id) matches Some(ty) && value_size(c, id) == type_size(
            c.shared.types@,
            ty.0 as int,
        )),
        id matches ValueId::Varnode(v) ==> value_size(c, id) == c.shared.varnodes.at(v).size,
        id matches ValueId::Temp(t) ==> value_size(c, id) == c.body_of(
            t.func,
        ).temps@[t.local.0 as int].size,
        id is BasicBlock || id is Function ==> value_size(c, id) == 0 && c.stored_type(id) is None,
{
    if let ValueId::Bytes(b) = id {
        let bytes = c.shared.bytes.at(b);
        assert(c.shared.bytes.has(b));
        assert(c.shared.bytes_ok(bytes));
    }
}

/// A storage location is in its space, an address points into that of its type,
/// and nothing else is in one.
pub proof fn law_values_are_in_their_spaces(c: Context, id: ValueId)
    ensures
        id matches ValueId::Varnode(v) ==> value_space(c, id) == Some(
            MemorySpaceId::Shared(c.shared.varnodes.at(v).space),
        ),
        id matches ValueId::Instruction(i) ==> {
            let ty = c.shared.types@[c.body_of(i.func).insn_rec(i.local).type_id.0 as int];
            match ty {
                TypeView::SpaceAddress { size, space } => value_space(c, id) == Some(space),
                _ => value_space(c, id) is None,
            }
        },
        !(id is Varnode) && !(id is Instruction) ==> value_space(c, id) is None,
{
}

/// An address is demoted exactly where it points into a space that holds
/// registers, to its own width; an address that is made is as wide as what it is
/// made like, and points where it is told to.
pub proof fn law_addresses_keep_their_width(c: Context, ty: TypeId, space: SpaceId)
    requires
        c.shared.types.has(ty),
    ensures
        register_address(c.shared, ty) matches Some(size) ==> size == type_size(
            c.shared.types@,
            ty.0 as int,
        ),
        register_address(c.shared, ty) is Some <==> (
        c.shared.types@[ty.0 as int] matches TypeView::SpaceAddress { size, space: s } && (
        s matches MemorySpaceId::Shared(s) && c.shared.spaces.has(s) && c.shared.spaces.at(
            s,
        ).is_register)),
        address_like(c, ty, space) matches TypeView::SpaceAddress { size, space: s } && s
            == MemorySpaceId::Shared(space) && size == type_size(
            c.shared.types@,
            ty.0 as int,
        ) as usize,
{
}

/// A new parameter belongs to its block and comes after those it has; changing
/// one changes neither its block nor its place nor its name.
pub proof fn law_a_parameter_belongs_to_its_block(
    body: BodyView,
    block: LocalBlockId,
    p: LocalParamId,
    ty: TypeId,
    origin: Option<ValueId>,
    x: LocalParamId,
)
    ensures
        ({
            let after = with_loose_param(body, block, p, ty);
            &&& after.params[p].parent == block
            &&& after.params[p].type_id == ty
            &&& after.params[p].index == body.blocks[block].params.len() as usize
            &&& after.params[p].name is None
            &&& x != p ==> after.params[x] == body.params[x]
            &&& after.blocks == body.blocks && after.insns == body.insns
        }),
        ({
            let after = with_param_fields(body, p, ty, origin);
            &&& after.params[p].type_id == ty && after.params[p].origin == origin
            &&& after.params[p].parent == body.params[p].parent
            &&& after.params[p].index == body.params[p].index
            &&& after.params[p].name == body.params[p].name
            &&& x != p ==> after.params[x] == body.params[x]
            &&& after.blocks == body.blocks && after.insns == body.insns
        }),
{
}

/// Another type is put in one instruction, of which nothing else changes.
pub proof fn law_one_type_is_replaced(
    body: BodyView,
    i: crate::ids::LocalInsnId,
    ty: TypeId,
    x: crate::ids::LocalInsnId,
)
    ensures
        ({
            let after = with_type(body, i, ty);
            &&& after.insns[i].type_id == ty
            &&& after.insns[i].mnemonic == body.insns[i].mnemonic
            &&& after.insns[i].name == body.insns[i].name
            &&& after.insns[i].address == body.insns[i].address
            &&& x != i ==> after.insns[x] == body.insns[x]
            &&& after.blocks == body.blocks && after.edges == body.edges
        }),
{
}

/// What is still there and what is gone make up all that was handed out; a slot
/// that is filled counts one more.
pub proof fn law_live_and_dead_make_up_the_issued<T>(
    stats: BodyArenaKindStats,
    slots: Seq<Option<T>>,
    item: T,
    a: BodyArenaKindStats,
    b: BodyArenaKindStats,
)
    requires
        stats.describe(slots),
    ensures
        stats.issued == slots.len(),
        stats.live + stats.dead == slots.len(),
        live_among(slots.push(Some(item)), slots.len() as int + 1) == stats.live + 1,
        live_among(slots.push(None), slots.len() as int + 1) == stats.live,
        stats.is_sum(a, b) ==> stats.live == a.live + b.live && stats.dead == a.dead + b.dead
            && stats.issued == a.issued + b.issued,
{
    lemma_live_prefix(slots, Some(item), slots.len() as int);
    lemma_live_prefix(slots, None, slots.len() as int);
    assert(slots.push(Some(item))[slots.len() as int] == Some(item));
    assert(slots.push(None)[slots.len() as int] is None);
}

proof fn lemma_live_prefix<T>(slots: Seq<Option<T>>, item: Option<T>, n: int)
    requires
        0 <= n <= slots.len(),
    ensures
        live_among(slots.push(item), n) == live_among(slots, n),
    decreases n,
{
    if n > 0 {
        lemma_live_prefix(slots, item, n - 1);
        assert(slots.push(item)[n - 1] == slots[n - 1]);
    }
}

} // verus!
