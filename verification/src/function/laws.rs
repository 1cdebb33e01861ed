//! What is said of a function as a whole.

use crate::body::edit::with_block_address;
use crate::body::prototype::unique_name;
use crate::body::{BodyView, FunctionBody};
use crate::context::Context;
use crate::function::edit::{
    interface_set, made_lambda, signature_of, with_memory, with_signature, without_attrs,
};
use crate::function::effects::{MemoryChannelState, RegisterChannelState};
use crate::function::footprint::{Footprint, RamField, RamLocations, RamObject, RamRegion};
use crate::function::interface::FunctionInterface;
use crate::function::make::{function_added, wanted_text};
use crate::function::refs::listed_before;
use crate::function::root::rooted;
use crate::function::signature::FunctionSignature;
use crate::ids::{FunctionId, LocalBlockId};
use crate::names::{LocalNames, Name, NamesView};
use crate::text::{hex, lemma_digits, spelled};
use crate::value::LocalValueId;
use vstd::prelude::*;

verus! {

/// Memory at an argument or at an absolute address is seen by callers, wherever
/// else there is any; memory in the frame is seen where it is read.
pub proof fn law_callers_see_what_is_not_private(
    locations: RamLocations,
    frame: bool,
    field: RamField,
    region: RamRegion,
    object: RamObject,
)
    ensures
        locations.all_at(false) ==> locations.all_at(true),
        locations.fields@.contains(field) && (field.base is Param || field.base is Global)
            ==> !locations.all_at(frame),
        locations.regions@.contains(region) && (region.base is Param || region.base is Global)
            ==> !locations.all_at(frame),
        locations.objects@.contains(object) && (object.base is Param || object.base is Global)
            ==> !locations.all_at(frame),
        locations.fields@.contains(field) && field.base is Frame ==> !locations.all_at(false),
        locations.regions@.contains(region) && region.base is Frame ==> !locations.all_at(false),
        locations.objects@.contains(object) && object.base is Frame ==> !locations.all_at(false),
        (forall|x: RamField| #[trigger] locations.fields@.contains(x) ==> x.base is Private) && (
        forall|x: RamRegion| #[trigger] locations.regions@.contains(x) ==> x.base is Private) && (
        forall|x: RamObject| #[trigger] locations.objects@.contains(x) ==> x.base is Private)
            ==> locations.all_at(false),
{
}

/// A footprint that no caller observes reads no frame, no argument and no
/// absolute address, and writes none of the latter two.
pub proof fn law_an_unseen_footprint_keeps_to_itself(footprint: Footprint, field: RamField)
    ensures
        footprint.hidden() && footprint.reads.fields@.contains(field) ==> field.base is Private,
        footprint.hidden() && footprint.writes.fields@.contains(field) ==> field.base is Private
            || field.base is Frame,
        footprint.reads.all_at(false) && footprint.writes.all_at(false) ==> footprint.hidden(),
{
}

/// The entry block is on the roster, once more only where it was not, and
/// everything else stays.
pub proof fn law_the_entry_block_is_on_the_roster(body: BodyView, b: LocalBlockId, x: LocalBlockId)
    ensures
        rooted(body, b).root == Some(b),
        rooted(body, b).roster.contains(b),
        body.roster.contains(b) ==> rooted(body, b).roster == body.roster,
        x != b ==> (rooted(body, b).roster.contains(x) <==> body.roster.contains(x)),
        rooted(body, b).blocks == body.blocks,
        rooted(body, b).insns == body.insns,
        rooted(body, b).edges == body.edges,
{
    if !body.roster.contains(b) {
        crate::body::order::lemma_push_contains(body.roster, b, b);
        crate::body::order::lemma_push_contains(body.roster, b, x);
    }
}

/// A block that is given an address is there, and no other block moves.
pub proof fn law_a_block_is_where_it_was_put(
    body: BodyView,
    b: LocalBlockId,
    address: u64,
    x: LocalBlockId,
)
    ensures
        ({
            let after = with_block_address(body, b, address);
            &&& after.blocks[b].address == Some(address)
            &&& after.blocks[b].insns == body.blocks[b].insns
            &&& after.blocks[b].params == body.blocks[b].params
            &&& after.blocks[b].name == body.blocks[b].name
            &&& x != b ==> after.blocks[x] == body.blocks[x]
            &&& after.edges == body.edges && after.insns == body.insns && after.root == body.root
            &&& body.blocks[b].name is Some ==> after.names == body.names
            &&& after.names.held == body.names.held
            &&& body.blocks[b].name is None && !body.names.labels.contains_key(address)
                && after.names.labels.contains_key(address) ==> after.names.labels[address]
                == LocalValueId::BasicBlock(b)
        }),
{
}

/// A lambda is pure, passes no registers, and is otherwise what it was.
pub proof fn law_a_lambda_is_pure(a: FunctionInterface, b: FunctionInterface)
    requires
        made_lambda(a, b),
    ensures
        b.kind is Lambda,
        b.signature matches Some(signature) && signature.is_pure,
        b.effects.register matches RegisterChannelState::Materialized(map) && map.inputs@.len() == 0
            && map.outputs@.len() == 0 && map.returns == 0,
        b.name == a.name,
        b.address == a.address,
        b.is_external == a.is_external,
        a.signature matches Some(old) ==> b.signature->0.param_attrs == old.param_attrs,
{
}

/// A function without a name is called after its address, which can be read
/// back from the name.
pub proof fn law_a_nameless_function_is_called_after_its_address(
    name: Option<String>,
    address: u64,
)
    ensures
        name matches Some(name) ==> wanted_text(Some(name), address) == name@,
        ({
            let text = wanted_text(None, address);
            text.len() > 3 && text.take(3) == seq!['f', 'n', '_'] && spelled(text.skip(3), 16)
                == address
        }),
{
    reveal_strlit("fn_");
    lemma_digits(address as nat, 16);
    let text = wanted_text(None, address);
    assert(text.take(3) =~= seq!['f', 'n', '_']);
    assert(text.skip(3) =~= hex(address as nat));
}

/// Blocks are listed by address, the lower one first, after those that have
/// none; of two different ones one comes first.
pub proof fn law_blocks_are_listed_by_address(
    body: FunctionBody,
    a: LocalBlockId,
    b: LocalBlockId,
    c: LocalBlockId,
)
    ensures
        body.block_rec(a).address is None && body.block_rec(b).address is Some ==> listed_before(
            body,
            a,
            b,
        ),
        body.block_rec(a).address matches Some(x) ==> body.block_rec(b).address matches Some(y) ==> x
            < y ==> listed_before(body, a, b),
        body.block_rec(a).address == body.block_rec(b).address && a.0 < b.0 ==> listed_before(
            body,
            a,
            b,
        ),
        !(listed_before(body, a, b) && listed_before(body, b, a)),
        a != b ==> listed_before(body, a, b) || listed_before(body, b, a),
        listed_before(body, a, b) && listed_before(body, b, c) ==> listed_before(body, a, c),
{
}

/// A value of a run that is named after a base takes a name of that base that
/// was free: the bare one if it was, and otherwise the first suffix that was.
pub proof fn law_a_run_takes_free_names(
    names: NamesView<LocalValueId>,
    base: crate::base::BaseId,
    free: u32,
    n: u32,
)
    requires
        LocalNames::<LocalValueId>::first_free(names, base, free),
    ensures
        ({
            let name = unique_name(names, base);
            &&& name.base == base
            &&& !names.held.contains_key(name)
            &&& !names.is_taken(Name { base, suffix: 0 }) ==> name.suffix == 0
            &&& names.is_taken(Name { base, suffix: 0 }) ==> name.suffix > 0
            &&& 0 < n < name.suffix ==> names.held.contains_key(Name { base, suffix: n })
        }),
{
    if names.is_taken(Name { base, suffix: 0 }) {
        assert(exists|n: u32| LocalNames::<LocalValueId>::first_free(names, base, n));
        let k = choose|n: u32| LocalNames::<LocalValueId>::first_free(names, base, n);
        assert(LocalNames::<LocalValueId>::first_free(names, base, k));
    }
}

/// Setting an interface changes that of one function alone.
pub proof fn law_one_interface_is_set(
    a: Context,
    b: Context,
    id: FunctionId,
    face: FunctionInterface,
    other: FunctionId,
)
    requires
        interface_set(a, b, id, face),
        a.has_function(id),
        a.has_function(other),
    ensures
        b.interface_of(id) == face,
        other != id ==> b.interface_of(other) == a.interface_of(other),
        b.body_of(other) == a.body_of(other),
        b.shared == a.shared,
        b.interfaces@.len() == a.interfaces@.len(),
{
}

/// What is known of a function is changed piece by piece: a new signature keeps
/// the rest, a function of which nothing was known has a blank one, and
/// attributes are taken away without anything else.
pub proof fn law_interfaces_change_piece_by_piece(
    face: FunctionInterface,
    signature: FunctionSignature,
    memory: MemoryChannelState,
)
    ensures
        with_signature(face, signature).signature == Some(signature),
        with_signature(face, signature).name == face.name,
        with_signature(face, signature).address == face.address,
        with_signature(face, signature).effects == face.effects,
        with_signature(face, signature).kind == face.kind,
        without_attrs(face).known_attrs() is None,
        face.signature is Some ==> without_attrs(face).signature is Some && without_attrs(
            face,
        ).signature->0.is_pure == face.signature->0.is_pure && without_attrs(
            face,
        ).signature->0.extern_interface == face.signature->0.extern_interface,
        face.signature is None ==> without_attrs(face) == face,
        with_memory(face, memory).effects.memory == memory,
        with_memory(face, memory).effects.register == face.effects.register,
        with_memory(face, memory).signature == face.signature,
        face.signature matches Some(old) ==> signature_of(face) == old,
        face.signature is None ==> !signature_of(face).is_pure && signature_of(
            face,
        ).param_attrs is None && signature_of(face).extern_interface is None,
{
}

/// A function that is added is the last, with an empty body of its own, and all
/// others stay what they were.
pub proof fn law_a_function_is_added_last(
    a: Context,
    b: Context,
    face: FunctionInterface,
    other: FunctionId,
)
    requires
        function_added(a, b, face),
        a.interfaces@.len() == a.bodies@.len(),
        a.bodies@.len() < u32::MAX,
    ensures
        ({
            let id = FunctionId(a.bodies@.len() as u32);
            &&& b.has_function(id)
            &&& b.interface_of(id) == face
            &&& b.body_of(id).id == Some(id)
            &&& b.body_of(id)@.insns.len() == 0 && b.body_of(id)@.roster.len() == 0 && b.body_of(
                id,
            )@.root is None
            &&& a.has_function(other) ==> b.interface_of(other) == a.interface_of(other)
                && b.body_of(other) == a.body_of(other)
        }),
{
}

} // verus!
