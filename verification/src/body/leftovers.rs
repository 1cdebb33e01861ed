//! What names and lists are left after an edit.

use crate::block::EdgeData;
use crate::body::blocks::{block_forgotten, param_names_without, params_without};
use crate::body::blockwise::{extended, retained, with_param};
use crate::body::bulk::{is_dead, is_dead_value, names_without};
use crate::body::epoch::{kept, temps_forgotten};
use crate::body::prototype::extended_list;
use crate::body::remove::forgotten;
use crate::body::replace::with_operand;
use crate::body::users::law_users_count_the_occurrences;
use crate::body::{BlockView, BodyView, FunctionBody, ParamView, TempView};
use crate::ids::{EdgeId, LocalBlockId, LocalInsnId, LocalParamId, TypeId};
use crate::insn::instruction::InsnView;
use crate::insn::mnemonic::MnemonicView;
use crate::names::{Name, NamesView};
use crate::refs::block::moved_to;
use crate::value::{LocalValueId, ValueId};
use vstd::prelude::*;

verus! {

/// What is removed gives its name up, and nothing else does: an instruction, a
/// parameter or a block with a name; a block without one gives up the label of
/// its address where that is its own.
pub proof fn law_what_is_removed_gives_its_name_up(
    names: NamesView<LocalValueId>,
    name: Name,
    insns: Map<LocalInsnId, InsnView>,
    dead: Set<u32>,
    i: LocalInsnId,
    block: BlockView,
    b: LocalBlockId,
    address: u64,
)
    ensures
        !forgotten(names, Some(name)).held.contains_key(name),
        forall|other: Name|
            other != name ==> (#[trigger] forgotten(names, Some(name)).held.contains_key(other)
                <==> names.held.contains_key(other)),
        forgotten(names, None) == names,
        forgotten(names, Some(name)).labels == names.labels,
        dead.contains(i.0) && insns.contains_key(i) && insns[i].name == Some(name)
            ==> !names_without(names, insns, dead).held.contains_key(name),
        names.held.contains_key(name) && (forall|j: LocalInsnId| #[trigger]
            insns.contains_key(j) && dead.contains(j.0) ==> insns[j].name != Some(name))
            ==> names_without(names, insns, dead).held.contains_key(name) && names_without(
            names,
            insns,
            dead,
        ).held[name] == names.held[name],
        block.name == Some(name) ==> !block_forgotten(names, block, b).held.contains_key(name)
            && block_forgotten(names, block, b).labels == names.labels,
        block.name is None ==> block_forgotten(names, block, b).held == names.held,
        block.name is None && block.address == Some(address) && names.labels.contains_key(address)
            && names.labels[address] == LocalValueId::BasicBlock(b) ==> !block_forgotten(
            names,
            block,
            b,
        ).labels.contains_key(address),
        names.labels.contains_key(address) && names.labels[address] != LocalValueId::BasicBlock(b)
            ==> block_forgotten(names, block, b).labels.contains_key(address),
        is_dead_value(dead, LocalValueId::Instruction(i)) <==> dead.contains(i.0),
{
    if dead.contains(i.0) {
        assert(is_dead(dead, i));
    }
    if names.held.contains_key(name) && (forall|j: LocalInsnId| #[trigger]
        insns.contains_key(j) && dead.contains(j.0) ==> insns[j].name != Some(name)) {
        assert forall|j: LocalInsnId| !(#[trigger] is_dead(dead, j) && insns.contains_key(j)
            && insns[j].name == Some(name)) by {
            if insns.contains_key(j) {
                assert(dead.contains(j.0) ==> insns[j].name != Some(name));
            }
        }
    }
}

/// The names of removed parameters are free, and no other is.
pub proof fn law_removed_parameters_give_their_names_up(
    names: NamesView<LocalValueId>,
    params: Map<LocalParamId, ParamView>,
    gone: Seq<LocalParamId>,
    name: Name,
    k: int,
)
    ensures
        0 <= k < gone.len() && params[gone[k]].name == Some(name) ==> !param_names_without(
            names,
            params,
            gone,
        ).held.contains_key(name),
        (forall|j: int| 0 <= j < gone.len() ==> params[#[trigger] gone[j]].name != Some(name))
            ==> (param_names_without(names, params, gone).held.contains_key(name)
            <==> names.held.contains_key(name)),
        param_names_without(names, params, gone).labels == names.labels,
        0 <= k < gone.len() ==> !params_without(params, gone).contains_key(gone[k]),
    decreases gone.len(),
{
    if gone.len() > 0 {
        let rest = gone.drop_last();
        law_removed_parameters_give_their_names_up(names, params, rest, name, k);
        if forall|j: int| 0 <= j < gone.len() ==> params[#[trigger] gone[j]].name != Some(name) {
            assert forall|j: int| 0 <= j < rest.len() implies params[#[trigger] rest[j]].name
                != Some(name) by {
                assert(params[gone[j]].name != Some(name));
            }
            assert(params[gone[gone.len() - 1]].name != Some(name));
        }
        if 0 <= k < gone.len() {
            assert(gone.to_set().contains(gone[k]));
        }
    }
}

/// The scratch values that are taken back are the last ones, and their names are
/// free.
pub proof fn law_taken_back_values_give_their_names_up(
    names: NamesView<LocalValueId>,
    temps: Seq<TempView>,
    first: int,
    n: nat,
    name: Name,
    k: int,
    asked: usize,
)
    ensures
        0 <= k < n && temps[first + k].name == Some(name) ==> !temps_forgotten(
            names,
            temps,
            first,
            n,
        ).held.contains_key(name),
        (forall|j: int| 0 <= j < n ==> (#[trigger] temps[first + j]).name != Some(name)) ==> (
        temps_forgotten(names, temps, first, n).held.contains_key(name)
            <==> names.held.contains_key(name)),
        kept(asked, temps.len()) <= temps.len(),
        kept(asked, temps.len()) <= asked,
        kept(asked, temps.len()) == asked || kept(asked, temps.len()) == temps.len(),
    decreases n,
{
    if n > 0 {
        law_taken_back_values_give_their_names_up(
            names,
            temps,
            first,
            (n - 1) as nat,
            name,
            k,
            asked,
        );
        if forall|j: int| 0 <= j < n ==> (#[trigger] temps[first + j]).name != Some(name) {
            assert(temps[first + (n - 1)].name != Some(name));
        }
    }
}

/// Of the instructions of a block those that are not kept are gone, and all
/// others are there.
pub proof fn law_only_what_is_not_kept_goes(
    body: BodyView,
    block: LocalBlockId,
    insns: Seq<LocalInsnId>,
    keep: Seq<bool>,
    n: nat,
    x: LocalInsnId,
    k: int,
)
    requires
        n <= insns.len(),
        keep.len() == insns.len(),
    ensures
        ({
            let after = retained(body, block, insns, keep, n);
            &&& 0 <= k < n && !keep[k] && insns[k] == x ==> !after.insns.contains_key(x)
            &&& (forall|j: int| 0 <= j < n && !keep[j] ==> #[trigger] insns[j] != x) ==> (
            after.insns.contains_key(x) <==> body.insns.contains_key(x)) && after.insns[x]
                == body.insns[x]
            &&& after.roster == body.roster && after.params == body.params && after.root == body.root
        }),
    decreases n,
{
    if n > 0 {
        law_only_what_is_not_kept_goes(body, block, insns, keep, (n - 1) as nat, x, k);
        if forall|j: int| 0 <= j < n && !keep[j] ==> #[trigger] insns[j] != x {
            assert(!keep[n - 1] ==> insns[n - 1] != x);
        }
    }
}

/// The last of the instructions that are moved to the end of a block is its last
/// one, and where one is moved to a place it stands before what was there, or
/// last.
pub proof fn law_moved_instructions_stand_at_the_end(
    body: FunctionBody,
    b: LocalBlockId,
    insns: Seq<LocalInsnId>,
    n: nat,
    index: usize,
    i: LocalInsnId,
)
    requires
        body@.blocks.contains_key(b),
        0 < n <= insns.len(),
        index <= body.order(b).len(),
    ensures
        ({
            let s = extended(body@, b, insns, n).blocks[b].insns;
            s.len() > 0 && s.last() == insns[n - 1]
        }),
        index == body.order(b).len() ==> moved_to(body, b, index, i).blocks[b].insns.len() > 0
            && moved_to(body, b, index, i).blocks[b].insns.last() == i,
        index < body.order(b).len() && body.order(b)[index as int] == i ==> moved_to(
            body,
            b,
            index,
            i,
        ) == body@,
{
}

/// A parameter that is declared is the last of its block.
pub proof fn law_a_declared_parameter_is_the_last(
    body: BodyView,
    block: LocalBlockId,
    p: LocalParamId,
    ty: TypeId,
    x: LocalBlockId,
)
    ensures
        ({
            let after = with_param(body, block, p, ty);
            &&& after.blocks[block].params == body.blocks[block].params.push(p)
            &&& after.params[p].parent == block && after.params[p].type_id == ty
            &&& after.params[p].index == body.blocks[block].params.len() as usize
            &&& after.params[p].name is None
            &&& after.blocks[block].insns == body.blocks[block].insns
            &&& x != block ==> after.blocks[x] == body.blocks[x]
            &&& after.insns == body.insns && after.edges == body.edges
        }),
{
}

/// One operand is replaced, and no other.
pub proof fn law_one_operand_is_replaced(m: MnemonicView, k: int, value: LocalValueId, j: int)
    requires
        0 <= k < m.operands.len(),
    ensures
        with_operand(m, k, value).operands[k] == value,
        with_operand(m, k, value).operands.len() == m.operands.len(),
        0 <= j < m.operands.len() && j != k ==> with_operand(m, k, value).operands[j]
            == m.operands[j],
        with_operand(m, k, value).shape == m.shape,
{
}

/// A block lists what it listed, and after that its new edges, the one that was
/// issued first before the others.
pub proof fn law_new_edges_are_listed_last(
    edges: Map<EdgeId, EdgeData>,
    x: LocalBlockId,
    list: Seq<EdgeId>,
    from: nat,
    last: nat,
    e: EdgeId,
)
    requires
        last <= u32::MAX,
        from <= last,
    ensures
        ({
            let after = extended_list(edges, x, list, from, last);
            &&& after.len() >= list.len()
            &&& after.take(list.len() as int) == list
            &&& forall|k: int|
                list.len() <= k < after.len() ==> from <= (#[trigger] after[k]).0 < last && (
                edges[after[k]].from == x || edges[after[k]].to == x)
            &&& forall|k: int, j: int|
                list.len() <= k < j < after.len() ==> (#[trigger] after[k]).0 < (
                #[trigger] after[j]).0
            &&& from <= e.0 < last && (edges[e].from == x || edges[e].to == x) ==> after.contains(e)
        }),
    decreases last,
{
    if last <= from {
        assert(list.take(list.len() as int) =~= list);
    } else {
        law_new_edges_are_listed_last(edges, x, list, from, (last - 1) as nat, e);
        let before = extended_list(edges, x, list, from, (last - 1) as nat);
        let after = extended_list(edges, x, list, from, last);
        let new = EdgeId((last - 1) as u32);
        assert(after.take(list.len() as int) =~= before.take(list.len() as int));
        if edges[new].from == x || edges[new].to == x {
            assert(after == before.push(new));
            crate::body::order::lemma_push_contains(before, new, e);
        }
    }
}

/// The users of a value are the instructions that have it among their operands,
/// each as often; a value that another function owns has none.
pub proof fn law_users_are_told_of_own_and_shared_values(
    body: FunctionBody,
    value: ValueId,
    i: LocalInsnId,
)
    requires
        body.wf(),
        body.uses_complete(),
        body.id is Some,
    ensures
        (value is Instruction || value is BlockParam || value is Temp) && value.arena_function()
            != body.id ==> body.users(value).len() == 0,
        value.is_local_to(body.id->0) && body.has_home(value.stripped()) ==> body.users(
            value,
        ).to_multiset().count(i) == (if body@.insns.contains_key(i) {
            body@.insns[i].mnemonic.operands.to_multiset().count(value.stripped())
        } else {
            0
        }),
{
    if value.is_local_to(body.id->0) && body.has_home(value.stripped()) {
        law_users_count_the_occurrences(body, value.stripped(), i);
    }
}

} // verus!
