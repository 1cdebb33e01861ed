//! New functions.

use crate::body::FunctionBody;
use crate::body::create::is_empty_body;
use crate::context::{Context, Shared};
use crate::error::Error;
use crate::function::edit::{
    lemma_interface_set, made_lambda, next_tick, other_function_at, FunctionMutRef,
};
use crate::function::interface::{FunctionInterface, FunctionKind};
use crate::function::refs::FunctionRef;
use crate::globals::{name_added, name_updated, unique_for, wanted_for};
use crate::ids::FunctionId;
use crate::insn::intrinsic::IntrinsicTable;
use crate::names::{law_a_suffix_is_free, Name, NamesView};
use crate::segment::atoms::both;
use crate::text::{hex, hex_name};
use crate::value::{LocalValueId, ValueId};
use vstd::prelude::*;
use vstd::string::*;

verus! {

broadcast use crate::base::group_bases;

/// Whether only the name of `face` is known, and is `name`.
pub open spec fn fresh_face(face: FunctionInterface, name: Seq<char>) -> bool {
    &&& face.name@ == name
    &&& face.address is None
    &&& !face.is_external
    &&& face.signature is None
    &&& face.kind == FunctionKind::Machine
    &&& face.effects.is_blank()
    &&& face.import_ordinal is None
}

/// `b` is `a` with one more function, of which `face` is the interface.
pub open spec fn function_added(a: Context, b: Context, face: FunctionInterface) -> bool {
    &&& b.shared == (Shared { name_map: b.shared.name_map, ..a.shared })
    &&& b.interfaces@ == a.interfaces@.push(face)
    &&& b.bodies@.len() == a.bodies@.len() + 1
    &&& forall|g: int| 0 <= g < a.bodies@.len() ==> #[trigger] b.bodies@[g] == a.bodies@[g]
    &&& is_empty_body(b.bodies@.last(), Some(FunctionId(a.bodies@.len() as u32)))
    &&& b.bodies@.last()@.names == (NamesView {
        bases: Seq::<Seq<char>>::empty(),
        held: Map::<Name, LocalValueId>::empty(),
        labels: Map::<u64, LocalValueId>::empty(),
    })
}

impl Context {
    /// A module without functions, over what is given to share.
    pub fn with_shared(shared: Shared) -> (ctx: Self)
        requires
            shared.wf(),
        ensures
            ctx.wf(),
            ctx.shared == shared,
            ctx.interfaces@.len() == 0,
    {
        Context {
            shared,
            interfaces: Vec::new(),
            bodies: Vec::new(),
            shape_ticks: 0,
        }
    }

    /// An empty module, without intrinsics.
    pub fn new() -> (ctx: Self)
        ensures
            ctx.wf(),
            ctx.interfaces@.len() == 0,
            ctx.names().held == Map::<Name, ValueId>::empty(),
            ctx.names().labels == Map::<u64, ValueId>::empty(),
            ctx.names().bases.len() == 0,
            ctx.shared.types@.len() == 0,
            ctx.shared.literals@.len() == 0,
            ctx.shared.intrinsics@.len() == 0,
    {
        let table = IntrinsicTable::build(Vec::new());
        Context::with_shared(Shared::new(table))
    }

    /// Adds a function without a body and without entering its name.
    fn push_function(&mut self, interface: FunctionInterface) -> (id: FunctionId)
        requires
            old(self).wf(),
            old(self).bodies@.len() < u32::MAX,
        ensures
            final(self).wf(),
            id.0 == old(self).bodies@.len(),
            function_added(*old(self), *final(self), interface),
            final(self).shared == old(self).shared,
            final(self).shape_ticks == old(self).shape_ticks,
    {
        let ghost before = *self;
        let id = FunctionId(self.bodies.len() as u32);
        self.interfaces.push(interface);
        self.bodies.push(FunctionBody::empty_with_id(id));
        proof {
            assert forall|f: int| 0 <= f < self.bodies@.len() implies #[trigger] self.body_ok(
                f,
            ) by {
                if f < before.bodies@.len() {
                    assert(before.body_ok(f));
                }
            }
        }
        id
    }

}

/// A module stays sound where its names change to sound ones.
proof fn lemma_names_set(a: Context, b: Context)
    requires
        a.wf(),
        b == (Context { shared: b.shared, ..a }),
        b.shared == (Shared { name_map: b.shared.name_map, ..a.shared }),
        b.shared.name_map.wf(),
    ensures
        b.wf(),
{
    assert forall|f: int| 0 <= f < b.bodies@.len() implies #[trigger] b.body_ok(f) by {
        assert(a.body_ok(f));
    }
}

impl FunctionBody {
    /// The function `id`, to read.
    pub fn from_id<'a>(ctx: &'a Context, id: FunctionId) -> (r: FunctionRef<'a>)
        ensures
            r.ctx == ctx,
            r.id == id,
    {
        FunctionRef { ctx, id }
    }

    /// The function `id`, to change.
    pub fn from_id_mut<'a>(ctx: &'a mut Context, id: FunctionId) -> (r: FunctionMutRef<'a>)
        ensures
            r.now() == *old(ctx),
            r.id == id,
            *final(r.ctx) == *final(ctx),
    {
        FunctionMutRef { ctx, id }
    }

    /// The function called `name`.
    pub fn from_name<'a>(ctx: &'a Context, name: &str) -> (r: Option<FunctionRef<'a>>)
        requires
            ctx.wf(),
        ensures
            match r {
                Some(r) => r.ctx == ctx && ctx.names().found(name@, ValueId::Function(r.id)),
                None => forall|id: FunctionId|
                    !#[trigger] ctx.names().found(name@, ValueId::Function(id)),
            },
    {
        match ctx.get_named(name) {
            Some(ValueId::Function(id)) => Some(FunctionRef { ctx, id }),
            _ => None,
        }
    }

    /// A new function called `name`. Where another function, or another value
    /// that no function holds, is called so that is reported, and the new
    /// function is there without its name being entered.
    pub fn make<'a>(ctx: &'a mut Context, name: String) -> (result: Result<
        FunctionMutRef<'a>,
        Error,
    >)
        requires
            old(ctx).wf(),
            old(ctx).bodies@.len() < u32::MAX,
            old(ctx).names().bases.len() < crate::base::BASE_LIMIT,
        ensures
            result is Err <==> exists|other: ValueId| #[trigger]
                old(ctx).names().found(name@, other),
            match result {
                Ok(r) => {
                    &&& r.wf()
                    &&& r.id.0 == old(ctx).bodies@.len()
                    &&& *final(r.ctx) == *final(ctx)
                    &&& fresh_face(r.face(), name@)
                    &&& function_added(*old(ctx), r.now(), r.face())
                    &&& r.now().shape_ticks == old(ctx).shape_ticks
                    &&& r.now().names().found(name@, ValueId::Function(r.id))
                    &&& exists|n: Name|
                        {
                            &&& #[trigger] name_added(
                                old(ctx).names(),
                                r.now().names(),
                                ValueId::Function(r.id),
                                n,
                            )
                            &&& wanted_for(r.now().names(), name@, n)
                        }
                },
                Err(e) => {
                    &&& e matches Error::DuplicateName(text)
                    &&& text@ == name@
                    &&& final(ctx).wf()
                    &&& final(ctx).shared.name_map == old(ctx).shared.name_map
                    &&& final(ctx).shape_ticks == old(ctx).shape_ticks
                    &&& fresh_face(final(ctx).interfaces@.last(), name@)
                    &&& function_added(*old(ctx), *final(ctx), final(ctx).interfaces@.last())
                },
            },
    {
        let ghost before = *ctx;
        let text = String::from_str(name.as_str());
        let interface = FunctionInterface::new(name);
        let id = ctx.push_function(interface);
        if let Some(other) = ctx.get_named(text.as_str()) {
            proof {
                assert(before.names().found(text@, other));
            }
            return Err(Error::DuplicateName(text));
        }
        let ghost mid = *ctx;
        let named = ctx.shared.update_name(text.as_str(), ValueId::Function(id), None);
        proof {
            assert(named is Ok);
            lemma_names_set(mid, *ctx);
            assert(ctx.interfaces@.last() == interface);
        }
        Ok(FunctionMutRef { ctx, id })
    }

    /// A new lambda called `name`. Where another function, or another value
    /// that no function holds, is called so that is reported, and a new function
    /// that is no lambda is there without its name being entered.
    pub fn make_lambda<'a>(ctx: &'a mut Context, name: String) -> (result: Result<
        FunctionMutRef<'a>,
        Error,
    >)
        requires
            old(ctx).wf(),
            old(ctx).bodies@.len() < u32::MAX,
            old(ctx).names().bases.len() < crate::base::BASE_LIMIT,
        ensures
            result is Err <==> exists|other: ValueId| #[trigger]
                old(ctx).names().found(name@, other),
            match result {
                Ok(r) => {
                    &&& r.wf()
                    &&& r.id.0 == old(ctx).bodies@.len()
                    &&& *final(r.ctx) == *final(ctx)
                    &&& exists|face: FunctionInterface|
                        #[trigger] fresh_face(face, name@) && made_lambda(face, r.face())
                    &&& function_added(*old(ctx), r.now(), r.face())
                    &&& r.now().names().found(name@, ValueId::Function(r.id))
                    &&& exists|n: Name|
                        {
                            &&& #[trigger] name_added(
                                old(ctx).names(),
                                r.now().names(),
                                ValueId::Function(r.id),
                                n,
                            )
                            &&& wanted_for(r.now().names(), name@, n)
                        }
                },
                Err(e) => {
                    &&& e matches Error::DuplicateName(text)
                    &&& text@ == name@
                    &&& final(ctx).wf()
                    &&& final(ctx).shared.name_map == old(ctx).shared.name_map
                    &&& fresh_face(final(ctx).interfaces@.last(), name@)
                    &&& function_added(*old(ctx), *final(ctx), final(ctx).interfaces@.last())
                },
            },
    {
        let ghost before = *ctx;
        match FunctionBody::make(ctx, name) {
            Ok(r) => {
                let mut function = r;
                let ghost made = function.now();
                let ghost face = function.face();
                function.set_kind(FunctionKind::Lambda);
                proof {
                    assert(function.now().interfaces@ =~= before.interfaces@.push(
                        function.face(),
                    ));
                    assert(fresh_face(face, name@));
                }
                Ok(function)
            },
            Err(e) => Err(e),
        }
    }

    /// A new function at `address`, where no other is. It is called `name`, or
    /// after its address, with the first free suffix where that name is taken.
    pub fn make_at_addr<'a>(ctx: &'a mut Context, address: u64, name: Option<String>) -> (r:
        FunctionMutRef<'a>)
        requires
            old(ctx).wf(),
            old(ctx).bodies@.len() < u32::MAX,
            old(ctx).names().bases.len() < crate::base::BASE_LIMIT,
            old(ctx).names().few(),
            forall|f: int|
                0 <= f < old(ctx).interfaces@.len() ==> (#[trigger] old(
                    ctx,
                ).interfaces@[f]).address != Some(address),
        ensures
            r.wf(),
            r.id.0 == old(ctx).bodies@.len(),
            *final(r.ctx) == *final(ctx),
            at_addr(*old(ctx), r.now(), r.id, address, wanted_text(name, address)),
            r.face().is_external == false,
    {
        let ghost before = *ctx;
        let text = match name {
            Some(name) => name,
            None => {
                let digits = hex_name(address);
                both("fn_", digits.as_str())
            },
        };
        proof {
            assert(text@ == wanted_text(name, address));
        }
        let wanted = ctx.shared.name_map.parse(text.as_str());
        let ghost read = ctx.names();
        proof {
            lemma_names_set(before, *ctx);
            law_a_suffix_is_free(read, wanted.base);
        }
        let unique = ctx.shared.name_map.peek_unique(wanted);
        let rendered = ctx.shared.name_map.render(unique);
        let ghost mid = *ctx;
        let id = ctx.push_function(FunctionInterface::new(rendered));
        let ghost added = *ctx;
        let registered = ctx.shared.name_map.register(unique, ValueId::Function(id));
        proof {
            assert(registered is Ok);
            lemma_names_set(added, *ctx);
            assert(name_added(before.names(), ctx.names(), ValueId::Function(id), unique));
            assert(wanted_for(ctx.names(), text@, wanted));
            assert(unique_for(before.names(), ctx.names(), text@, unique));
        }
        let ghost named = *ctx;
        let mut function = FunctionMutRef { ctx, id };
        proof {
            assert(!other_function_at(function.now(), id, address)) by {
                if other_function_at(function.now(), id, address) {
                    let g = choose|g: int|
                        0 <= g < named.interfaces@.len() && g != id.0 && (
                        #[trigger] named.interfaces@[g]).address == Some(address);
                    assert(before.interfaces@[g].address == Some(address));
                }
            }
        }
        let moved = function.set_address(address);
        proof {
            assert(function.now().interfaces@ =~= before.interfaces@.push(function.face()));
            assert(function.now().names() == named.names());
            assert(name_text_is(function.now().names(), function.face(), unique));
            assert(at_addr(before, function.now(), id, address, text@));
        }
        function
    }

    /// A new imported function at `address`.
    pub fn make_external<'a>(ctx: &'a mut Context, address: u64, name: Option<String>) -> (r:
        FunctionMutRef<'a>)
        requires
            old(ctx).wf(),
            old(ctx).bodies@.len() < u32::MAX,
            old(ctx).names().bases.len() < crate::base::BASE_LIMIT,
            old(ctx).names().few(),
            forall|f: int|
                0 <= f < old(ctx).interfaces@.len() ==> (#[trigger] old(
                    ctx,
                ).interfaces@[f]).address != Some(address),
        ensures
            r.wf(),
            r.id.0 == old(ctx).bodies@.len(),
            *final(r.ctx) == *final(ctx),
            at_addr(*old(ctx), r.now(), r.id, address, wanted_text(name, address)),
            r.face().is_external,
    {
        let ghost before = *ctx;
        let mut function = FunctionBody::make_at_addr(ctx, address, name);
        let ghost made = function.now();
        let ghost text = wanted_text(name, address);
        let f: usize = function.id.0 as usize;
        function.ctx.interfaces[f].is_external = true;
        proof {
            let id = function.id;
            lemma_interface_set(made, function.now(), id);
            assert(function.now().interfaces@ =~= before.interfaces@.push(function.face()));
            let n = choose|n: Name|
                {
                    &&& #[trigger] name_added(
                        before.names(),
                        made.names(),
                        ValueId::Function(id),
                        n,
                    )
                    &&& unique_for(before.names(), made.names(), text, n)
                    &&& name_text_is(made.names(), made.interface_of(id), n)
                };
            assert(name_added(before.names(), function.now().names(), ValueId::Function(id), n));
            assert(name_text_is(function.now().names(), function.face(), n));
            assert(at_addr(before, function.now(), id, address, text));
        }
        function
    }

    /// The function at `address`, made where there is none.
    pub fn from_addr_or_create<'a>(ctx: &'a mut Context, address: u64) -> (r: FunctionMutRef<'a>)
        requires
            old(ctx).wf(),
            old(ctx).bodies@.len() < u32::MAX,
            old(ctx).names().bases.len() < crate::base::BASE_LIMIT,
            old(ctx).names().few(),
        ensures
            r.wf(),
            *final(r.ctx) == *final(ctx),
            r.face().address == Some(address),
            if exists|f: int|
                0 <= f < old(ctx).interfaces@.len() && (#[trigger] old(
                    ctx,
                ).interfaces@[f]).address == Some(address) {
                r.now() == *old(ctx)
            } else {
                r.id.0 == old(ctx).bodies@.len() && at_addr(
                    *old(ctx),
                    r.now(),
                    r.id,
                    address,
                    wanted_text(None, address),
                )
            },
    {
        match ctx.get_function_by_addr(address) {
            Some(id) => {
                proof {
                    assert(ctx.interfaces@[id.0 as int].address == Some(address));
                }
                FunctionMutRef { ctx, id }
            },
            None => FunctionBody::make_at_addr(ctx, address, None),
        }
    }
}

impl<'a> FunctionMutRef<'a> {
    /// Names the function. Where another function, or another value that no
    /// function holds, has that name the name is refused; where the function
    /// itself has it, nothing changes but the interface. Its old name is free
    /// again.
    pub fn rename(&mut self, name: String) -> (result: Result<(), Error>)
        requires
            old(self).wf(),
            old(self).now().names().bases.len() + 1 < crate::base::BASE_LIMIT,
        ensures
            final(self).wf(),
            final(self).id == old(self).id,
            *final(final(self).ctx) == *final(old(self).ctx),
            final(self).now().shared == (Shared {
                name_map: final(self).now().shared.name_map,
                ..old(self).now().shared
            }),
            final(self).now().bodies == old(self).now().bodies,
            final(self).now().shape_ticks == old(self).now().shape_ticks,
            old(self).now().names().found(name@, ValueId::Function(old(self).id))
                ==> final(self).now().shared == old(self).now().shared,
            name_updated(
                old(self).now().names(),
                final(self).now().names(),
                ValueId::Function(old(self).id),
                Some(old(self).face().name@),
                name@,
                result,
            ),
            match result {
                Ok(_) => final(self).now().interfaces@ == old(self).now().interfaces@.update(
                    old(self).id.0 as int,
                    (FunctionInterface { name, ..old(self).face() }),
                ),
                Err(_) => final(self).now() == old(self).now(),
            },
    {
        let ghost before = *self.ctx;
        let f: usize = self.id.0 as usize;
        let named = self.ctx.shared.update_name(
            name.as_str(),
            ValueId::Function(self.id),
            Some(self.ctx.interfaces[f].name.as_str()),
        );
        if let Err(e) = named {
            return Err(e);
        }
        let ghost mid = *self.ctx;
        self.ctx.interfaces[f].name = name;
        proof {
            lemma_names_set(before, mid);
            lemma_interface_set(mid, *self.ctx, self.id);
        }
        Ok(())
    }
}

/// The name a new function at `address` is to have.
pub open spec fn wanted_text(name: Option<String>, address: u64) -> Seq<char> {
    match name {
        Some(name) => name@,
        None => "fn_"@ + hex(address as nat),
    }
}

/// Whether the interface says that the function is called `name`.
pub open spec fn name_text_is(
    names: NamesView<ValueId>,
    face: FunctionInterface,
    name: Name,
) -> bool {
    face.name@ == names.text_of(name)
}

/// `b` is `a` with a new function `id` at `address`, called after `text`, made
/// unique.
pub open spec fn at_addr(
    a: Context,
    b: Context,
    id: FunctionId,
    address: u64,
    text: Seq<char>,
) -> bool {
    let face = b.interface_of(id);
    &&& function_added(a, b, face)
    &&& b.shape_ticks == next_tick(a.shape_ticks)
    &&& face.address == Some(address)
    &&& face.signature is None
    &&& face.kind == FunctionKind::Machine
    &&& face.effects.is_blank()
    &&& face.import_ordinal is None
    &&& exists|n: Name|
        {
            &&& #[trigger] name_added(a.names(), b.names(), ValueId::Function(id), n)
            &&& unique_for(a.names(), b.names(), text, n)
            &&& name_text_is(b.names(), face, n)
        }
}

} // verus!
