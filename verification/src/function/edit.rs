//! A function of a module, to change.

use crate::body::FunctionBody;
use crate::context::Context;
use crate::function::effects::{
    FunctionEffects, MemoryChannelState, MemoryInterfaceMap, RegisterChannelState,
    RegisterInterfaceMap, WrittenSpacesState,
};
use crate::function::footprint::Footprint;
use crate::function::interface::{FunctionInterface, FunctionKind};
use crate::function::refs::FunctionRef;
use crate::function::signature::{ExternArgmem, ExternInterface, FunctionSignature, ParamAttrs};
use crate::ids::{BlockId, FunctionId, LocalBlockId, SpaceId};
use vstd::prelude::*;

verus! {

impl RegisterInterfaceMap {
    /// Whether nothing is taken or returned.
    pub open spec fn is_blank(&self) -> bool {
        &&& self.inputs@.len() == 0
        &&& self.outputs@.len() == 0
        &&& self.returns == 0
        &&& self.projections@.len() == 0
    }
}

impl Default for RegisterInterfaceMap {
    fn default() -> (map: Self)
        ensures
            map.is_blank(),
    {
        RegisterInterfaceMap {
            inputs: Vec::new(),
            outputs: Vec::new(),
            returns: 0,
            projections: Vec::new(),
        }
    }
}

/// The signature of which nothing is known.
pub open spec fn blank_signature() -> FunctionSignature {
    FunctionSignature {
        reads_unbounded_stack: false,
        frame_escapes_to_unbounded: false,
        is_pure: false,
        param_attrs: None,
        extern_interface: None,
        argmem: None,
    }
}

/// The signature of `face`, or a blank one.
pub open spec fn signature_of(face: FunctionInterface) -> FunctionSignature {
    match face.signature {
        Some(signature) => signature,
        None => blank_signature(),
    }
}

/// `face` with another signature.
pub open spec fn with_signature(
    face: FunctionInterface,
    signature: FunctionSignature,
) -> FunctionInterface {
    FunctionInterface { signature: Some(signature), ..face }
}

/// `b` is `a` with `face` for the interface of `id`.
pub open spec fn interface_set(
    a: Context,
    b: Context,
    id: FunctionId,
    face: FunctionInterface,
) -> bool {
    &&& b.shared == a.shared
    &&& b.bodies == a.bodies
    &&& b.shape_ticks == a.shape_ticks
    &&& b.interfaces@ == a.interfaces@.update(id.0 as int, face)
}

/// `face` without attributes of the arguments.
pub open spec fn without_attrs(face: FunctionInterface) -> FunctionInterface {
    match face.signature {
        Some(signature) => with_signature(
            face,
            FunctionSignature { param_attrs: None, ..signature },
        ),
        None => face,
    }
}

/// `face` with other memory effects.
pub open spec fn with_memory(
    face: FunctionInterface,
    memory: MemoryChannelState,
) -> FunctionInterface {
    FunctionInterface { effects: FunctionEffects { memory, ..face.effects }, ..face }
}

/// `b` is `a` as a lambda: it is pure, and takes and returns no registers.
pub open spec fn made_lambda(a: FunctionInterface, b: FunctionInterface) -> bool {
    &&& b.effects.register matches RegisterChannelState::Materialized(map)
    &&& map.is_blank()
    &&& b == (FunctionInterface {
        kind: FunctionKind::Lambda,
        signature: Some(FunctionSignature { is_pure: true, ..signature_of(a) }),
        effects: FunctionEffects { register: b.effects.register, ..a.effects },
        ..a
    })
}

/// A module stays sound where an interface changes.
pub(crate) proof fn lemma_interface_set(a: Context, b: Context, id: FunctionId)
    requires
        a.wf(),
        a.has_function(id),
        b.shared == a.shared,
        b.bodies == a.bodies,
        b.interfaces@.len() == a.interfaces@.len(),
    ensures
        b.wf(),
{
    assert forall|f: int| 0 <= f < b.bodies@.len() implies #[trigger] b.body_ok(f) by {
        assert(a.body_ok(f));
    }
}

/// What a new module-wide change count is.
pub open spec fn next_tick(ticks: u64) -> u64 {
    if ticks == u64::MAX {
        0
    } else {
        (ticks + 1) as u64
    }
}

/// Whether a function other than `id` is at `address`.
pub open spec fn other_function_at(c: Context, id: FunctionId, address: u64) -> bool {
    exists|f: int|
        0 <= f < c.interfaces@.len() && f != id.0 && (#[trigger] c.interfaces@[f]).address == Some(
            address,
        )
}

impl Context {
    /// The function at `address`: the first, where there are several.
    pub fn get_function_by_addr(&self, address: u64) -> (id: Option<FunctionId>)
        requires
            self.wf(),
        ensures
            match id {
                Some(id) => self.has_function(id) && self.interface_of(id).address == Some(address)
                    && forall|f: int|
                    0 <= f < id.0 ==> (#[trigger] self.interfaces@[f]).address != Some(address),
                None => forall|f: int|
                    0 <= f < self.interfaces@.len() ==> (#[trigger] self.interfaces@[f]).address
                        != Some(address),
            },
    {
        let mut f: usize = 0;
        while f < self.interfaces.len()
            invariant
                self.wf(),
                f <= self.interfaces.len(),
                forall|g: int|
                    0 <= g < f ==> (#[trigger] self.interfaces@[g]).address != Some(address),
            decreases self.interfaces.len() - f,
        {
            if let Some(a) = self.interfaces[f].address {
                if a == address {
                    return Some(FunctionId(f as u32));
                }
            }
            f = f + 1;
        }
        None
    }

    /// Whether a function other than `id` is at `address`.
    pub(crate) fn is_other_function_at(&self, id: FunctionId, address: u64) -> (b: bool)
        requires
            self.wf(),
        ensures
            b == other_function_at(*self, id, address),
    {
        let mut f: usize = 0;
        while f < self.interfaces.len()
            invariant
                f <= self.interfaces.len(),
                forall|g: int|
                    0 <= g < f && g != id.0 ==> (#[trigger] self.interfaces@[g]).address != Some(
                        address,
                    ),
            decreases self.interfaces.len() - f,
        {
            if f != id.0 as usize {
                if let Some(a) = self.interfaces[f].address {
                    if a == address {
                        proof {
                            assert(self.interfaces@[f as int].address == Some(address));
                        }
                        return true;
                    }
                }
            }
            f = f + 1;
        }
        false
    }
}

/// A function of a module, to change.
pub struct FunctionMutRef<'a> {
    pub ctx: &'a mut Context,
    pub id: FunctionId,
}

impl<'a> FunctionMutRef<'a> {
    /// The module as it is.
    pub open spec fn now(&self) -> Context {
        *self.ctx
    }

    /// Whether there is such a function.
    pub open spec fn wf(&self) -> bool {
        self.now().wf() && self.now().has_function(self.id)
    }

    /// The interface of the function.
    pub open spec fn face(&self) -> FunctionInterface {
        self.now().interface_of(self.id)
    }

    /// The body of the function.
    pub open spec fn body(&self) -> FunctionBody {
        self.now().body_of(self.id)
    }

    pub fn new(ctx: &'a mut Context, id: FunctionId) -> (r: Self)
        ensures
            r.now() == *old(ctx),
            r.id == id,
            *final(r.ctx) == *final(ctx),
    {
        FunctionMutRef { ctx, id }
    }

    pub fn as_ref(&self) -> (r: FunctionRef<'_>)
        ensures
            *r.ctx == self.now(),
            r.id == self.id,
    {
        FunctionRef { ctx: self.ctx, id: self.id }
    }

    pub fn name(&self) -> (name: &String)
        requires
            self.wf(),
        ensures
            name@ == self.face().name@,
    {
        &self.ctx.interfaces[self.id.0 as usize].name
    }

    /// The blocks of the function by address.
    pub fn blocks(&self) -> (ids: Vec<BlockId>)
        requires
            self.wf(),
        ensures
            exists|locals: Seq<LocalBlockId>|
                {
                    &&& #[trigger] crate::function::refs::in_listing_order(self.body(), locals)
                    &&& locals.to_multiset() == self.body().roster@.to_multiset()
                    &&& ids@ == locals.map_values(
                        |local: LocalBlockId| BlockId { func: self.id, local },
                    )
                },
    {
        self.as_ref().blocks()
    }

    /// The entry block.
    pub fn root(&self) -> (root: Option<BlockId>)
        requires
            self.wf(),
        ensures
            root == (match self.body().root {
                Some(local) => Some(BlockId { func: self.id, local }),
                None => None,
            }),
    {
        self.as_ref().root()
    }

    /// Gives the function a blank signature, where it has none.
    fn ensure_signature(&mut self)
        requires
            old(self).wf(),
        ensures
            final(self).wf(),
            final(self).id == old(self).id,
            *final(final(self).ctx) == *final(old(self).ctx),
            interface_set(
                old(self).now(),
                final(self).now(),
                old(self).id,
                with_signature(old(self).face(), signature_of(old(self).face())),
            ),
    {
        let ghost before = *self.ctx;
        let f: usize = self.id.0 as usize;
        if self.ctx.interfaces[f].signature.is_none() {
            let blank = FunctionSignature {
                reads_unbounded_stack: false,
                frame_escapes_to_unbounded: false,
                is_pure: false,
                param_attrs: None,
                extern_interface: None,
                argmem: None,
            };
            self.ctx.interfaces[f].signature = Some(blank);
        }
        proof {
            lemma_interface_set(before, *self.ctx, self.id);
            assert(self.ctx.interfaces@ =~= before.interfaces@.update(
                f as int,
                with_signature(
                    before.interface_of(self.id),
                    signature_of(before.interface_of(self.id)),
                ),
            ));
        }
    }

    /// Records the ordinal that the function was imported by.
    pub fn set_import_ordinal(&mut self, ordinal: Option<u16>)
        requires
            old(self).wf(),
        ensures
            final(self).wf(),
            final(self).id == old(self).id,
            *final(final(self).ctx) == *final(old(self).ctx),
            interface_set(
                old(self).now(),
                final(self).now(),
                old(self).id,
                (FunctionInterface { import_ordinal: ordinal, ..old(self).face() }),
            ),
    {
        let ghost before = *self.ctx;
        let f: usize = self.id.0 as usize;
        self.ctx.interfaces[f].import_ordinal = ordinal;
        proof {
            lemma_interface_set(before, *self.ctx, self.id);
            assert(self.ctx.interfaces@ =~= before.interfaces@.update(
                f as int,
                self.ctx.interfaces@[f as int],
            ));
        }
    }

    /// Replaces what is known of how the function is called.
    pub fn set_signature(&mut self, signature: FunctionSignature)
        requires
            old(self).wf(),
        ensures
            final(self).wf(),
            final(self).id == old(self).id,
            *final(final(self).ctx) == *final(old(self).ctx),
            interface_set(
                old(self).now(),
                final(self).now(),
                old(self).id,
                with_signature(old(self).face(), signature),
            ),
    {
        let ghost before = *self.ctx;
        let f: usize = self.id.0 as usize;
        self.ctx.interfaces[f].signature = Some(signature);
        proof {
            lemma_interface_set(before, *self.ctx, self.id);
            assert(self.ctx.interfaces@ =~= before.interfaces@.update(
                f as int,
                self.ctx.interfaces@[f as int],
            ));
        }
    }

    /// Records the attributes of the arguments.
    pub fn set_param_attrs(&mut self, attrs: Vec<ParamAttrs>)
        requires
            old(self).wf(),
        ensures
            final(self).wf(),
            final(self).id == old(self).id,
            *final(final(self).ctx) == *final(old(self).ctx),
            interface_set(
                old(self).now(),
                final(self).now(),
                old(self).id,
                with_signature(
                    old(self).face(),
                    (FunctionSignature { param_attrs: Some(attrs), ..signature_of(old(self).face()) }),
                ),
            ),
    {
        let ghost before = *self.ctx;
        let f: usize = self.id.0 as usize;
        self.ensure_signature();
        if let Some(signature) = &mut self.ctx.interfaces[f].signature {
            signature.param_attrs = Some(attrs);
        }
        proof {
            lemma_interface_set(before, *self.ctx, self.id);
            assert(self.ctx.interfaces@ =~= before.interfaces@.update(
                f as int,
                self.ctx.interfaces@[f as int],
            ));
        }
    }

    /// Forgets the attributes of the arguments.
    pub fn clear_param_attrs(&mut self)
        requires
            old(self).wf(),
        ensures
            final(self).wf(),
            final(self).id == old(self).id,
            *final(final(self).ctx) == *final(old(self).ctx),
            interface_set(
                old(self).now(),
                final(self).now(),
                old(self).id,
                without_attrs(old(self).face()),
            ),
    {
        let ghost before = *self.ctx;
        let f: usize = self.id.0 as usize;
        if let Some(signature) = &mut self.ctx.interfaces[f].signature {
            signature.param_attrs = None;
        }
        proof {
            lemma_interface_set(before, *self.ctx, self.id);
            assert(self.ctx.interfaces@ =~= before.interfaces@.update(
                f as int,
                self.ctx.interfaces@[f as int],
            ));
        }
    }

    /// Records the external call interface.
    pub fn set_extern_interface(&mut self, interface: ExternInterface)
        requires
            old(self).wf(),
        ensures
            final(self).wf(),
            final(self).id == old(self).id,
            *final(final(self).ctx) == *final(old(self).ctx),
            interface_set(
                old(self).now(),
                final(self).now(),
                old(self).id,
                with_signature(
                    old(self).face(),
                    (FunctionSignature { extern_interface: Some(interface), ..signature_of(old(self).face()) }),
                ),
            ),
    {
        let ghost before = *self.ctx;
        let f: usize = self.id.0 as usize;
        self.ensure_signature();
        if let Some(signature) = &mut self.ctx.interfaces[f].signature {
            signature.extern_interface = Some(interface);
        }
        proof {
            lemma_interface_set(before, *self.ctx, self.id);
            assert(self.ctx.interfaces@ =~= before.interfaces@.update(
                f as int,
                self.ctx.interfaces@[f as int],
            ));
        }
    }

    /// Records what an external may do to memory through its parameters.
    pub fn set_argmem(&mut self, argmem: ExternArgmem)
        requires
            old(self).wf(),
        ensures
            final(self).wf(),
            final(self).id == old(self).id,
            *final(final(self).ctx) == *final(old(self).ctx),
            interface_set(
                old(self).now(),
                final(self).now(),
                old(self).id,
                with_signature(
                    old(self).face(),
                    (FunctionSignature { argmem: Some(argmem), ..signature_of(old(self).face()) }),
                ),
            ),
    {
        let ghost before = *self.ctx;
        let f: usize = self.id.0 as usize;
        self.ensure_signature();
        if let Some(signature) = &mut self.ctx.interfaces[f].signature {
            signature.argmem = Some(argmem);
        }
        proof {
            lemma_interface_set(before, *self.ctx, self.id);
            assert(self.ctx.interfaces@ =~= before.interfaces@.update(
                f as int,
                self.ctx.interfaces@[f as int],
            ));
        }
    }

    /// Records the register effects; the memory effects stay.
    pub fn set_register_effects(&mut self, register: RegisterChannelState)
        requires
            old(self).wf(),
        ensures
            final(self).wf(),
            final(self).id == old(self).id,
            *final(final(self).ctx) == *final(old(self).ctx),
            interface_set(
                old(self).now(),
                final(self).now(),
                old(self).id,
                (FunctionInterface {
                    effects: FunctionEffects { register, ..old(self).face().effects },
                    ..old(self).face()
                }),
            ),
    {
        let ghost before = *self.ctx;
        let f: usize = self.id.0 as usize;
        self.ctx.interfaces[f].effects.register = register;
        proof {
            lemma_interface_set(before, *self.ctx, self.id);
            assert(self.ctx.interfaces@ =~= before.interfaces@.update(
                f as int,
                self.ctx.interfaces@[f as int],
            ));
        }
    }

    /// Replaces all that is known of the memory effects; the register effects
    /// stay.
    pub fn set_memory_effects(&mut self, memory: MemoryChannelState)
        requires
            old(self).wf(),
        ensures
            final(self).wf(),
            final(self).id == old(self).id,
            *final(final(self).ctx) == *final(old(self).ctx),
            interface_set(
                old(self).now(),
                final(self).now(),
                old(self).id,
                (FunctionInterface {
                    effects: FunctionEffects { memory, ..old(self).face().effects },
                    ..old(self).face()
                }),
            ),
    {
        let ghost before = *self.ctx;
        let f: usize = self.id.0 as usize;
        self.ctx.interfaces[f].effects.memory = memory;
        proof {
            lemma_interface_set(before, *self.ctx, self.id);
            assert(self.ctx.interfaces@ =~= before.interfaces@.update(
                f as int,
                self.ctx.interfaces@[f as int],
            ));
        }
    }

    /// Records the solved parts of the memory effects; the interface stays.
    pub fn set_memory_solved(&mut self, coarse: WrittenSpacesState, precise: Option<Footprint>)
        requires
            old(self).wf(),
        ensures
            final(self).wf(),
            final(self).id == old(self).id,
            *final(final(self).ctx) == *final(old(self).ctx),
            interface_set(
                old(self).now(),
                final(self).now(),
                old(self).id,
                with_memory(
                    old(self).face(),
                    (MemoryChannelState { coarse, precise, ..old(self).face().effects.memory }),
                ),
            ),
    {
        let ghost before = *self.ctx;
        let f: usize = self.id.0 as usize;
        self.ctx.interfaces[f].effects.memory.coarse = coarse;
        self.ctx.interfaces[f].effects.memory.precise = precise;
        proof {
            lemma_interface_set(before, *self.ctx, self.id);
            assert(self.ctx.interfaces@ =~= before.interfaces@.update(
                f as int,
                self.ctx.interfaces@[f as int],
            ));
        }
    }

    /// Records the memory interface; the solved parts stay.
    pub fn set_memory_interface(&mut self, materialized: Option<MemoryInterfaceMap>)
        requires
            old(self).wf(),
        ensures
            final(self).wf(),
            final(self).id == old(self).id,
            *final(final(self).ctx) == *final(old(self).ctx),
            interface_set(
                old(self).now(),
                final(self).now(),
                old(self).id,
                with_memory(
                    old(self).face(),
                    (MemoryChannelState { materialized, ..old(self).face().effects.memory }),
                ),
            ),
    {
        let ghost before = *self.ctx;
        let f: usize = self.id.0 as usize;
        self.ctx.interfaces[f].effects.memory.materialized = materialized;
        proof {
            lemma_interface_set(before, *self.ctx, self.id);
            assert(self.ctx.interfaces@ =~= before.interfaces@.update(
                f as int,
                self.ctx.interfaces@[f as int],
            ));
        }
    }

    /// Records whether what the function returns depends on its arguments
    /// alone.
    pub fn set_is_pure(&mut self, value: bool)
        requires
            old(self).wf(),
        ensures
            final(self).wf(),
            final(self).id == old(self).id,
            *final(final(self).ctx) == *final(old(self).ctx),
            interface_set(
                old(self).now(),
                final(self).now(),
                old(self).id,
                with_signature(
                    old(self).face(),
                    (FunctionSignature { is_pure: value, ..signature_of(old(self).face()) }),
                ),
            ),
    {
        let ghost before = *self.ctx;
        let f: usize = self.id.0 as usize;
        self.ensure_signature();
        if let Some(signature) = &mut self.ctx.interfaces[f].signature {
            signature.is_pure = value;
        }
        proof {
            lemma_interface_set(before, *self.ctx, self.id);
            assert(self.ctx.interfaces@ =~= before.interfaces@.update(
                f as int,
                self.ctx.interfaces@[f as int],
            ));
        }
    }

    /// Records whether the function may read its caller's stack where no bound
    /// is known.
    pub fn set_reads_unbounded_stack(&mut self, value: bool)
        requires
            old(self).wf(),
        ensures
            final(self).wf(),
            final(self).id == old(self).id,
            *final(final(self).ctx) == *final(old(self).ctx),
            interface_set(
                old(self).now(),
                final(self).now(),
                old(self).id,
                with_signature(
                    old(self).face(),
                    (FunctionSignature { reads_unbounded_stack: value, ..signature_of(old(self).face()) }),
                ),
            ),
    {
        let ghost before = *self.ctx;
        let f: usize = self.id.0 as usize;
        self.ensure_signature();
        if let Some(signature) = &mut self.ctx.interfaces[f].signature {
            signature.reads_unbounded_stack = value;
        }
        proof {
            lemma_interface_set(before, *self.ctx, self.id);
            assert(self.ctx.interfaces@ =~= before.interfaces@.update(
                f as int,
                self.ctx.interfaces@[f as int],
            ));
        }
    }

    /// Records whether the function lets a pointer into its frame out to where
    /// it may be read without a known bound.
    pub fn set_frame_escapes_to_unbounded(&mut self, value: bool)
        requires
            old(self).wf(),
        ensures
            final(self).wf(),
            final(self).id == old(self).id,
            *final(final(self).ctx) == *final(old(self).ctx),
            interface_set(
                old(self).now(),
                final(self).now(),
                old(self).id,
                with_signature(
                    old(self).face(),
                    (FunctionSignature { frame_escapes_to_unbounded: value, ..signature_of(old(self).face()) }),
                ),
            ),
    {
        let ghost before = *self.ctx;
        let f: usize = self.id.0 as usize;
        self.ensure_signature();
        if let Some(signature) = &mut self.ctx.interfaces[f].signature {
            signature.frame_escapes_to_unbounded = value;
        }
        proof {
            lemma_interface_set(before, *self.ctx, self.id);
            assert(self.ctx.interfaces@ =~= before.interfaces@.update(
                f as int,
                self.ctx.interfaces@[f as int],
            ));
        }
    }

    /// Records the spaces that the function may write: these, or any. What
    /// else is known of its memory effects stays.
    pub fn set_written_spaces(&mut self, spaces: Option<Vec<SpaceId>>)
        requires
            old(self).wf(),
        ensures
            final(self).wf(),
            final(self).id == old(self).id,
            *final(final(self).ctx) == *final(old(self).ctx),
            interface_set(
                old(self).now(),
                final(self).now(),
                old(self).id,
                with_memory(
                    old(self).face(),
                    (MemoryChannelState {
                        coarse: match spaces {
                            Some(spaces) => WrittenSpacesState::Bounded(spaces),
                            None => WrittenSpacesState::Unbounded,
                        },
                        ..old(self).face().effects.memory
                    }),
                ),
            ),
    {
        let ghost before = *self.ctx;
        let f: usize = self.id.0 as usize;
        let coarse = match spaces {
            Some(spaces) => WrittenSpacesState::Bounded(spaces),
            None => WrittenSpacesState::Unbounded,
        };
        self.ctx.interfaces[f].effects.memory.coarse = coarse;
        proof {
            lemma_interface_set(before, *self.ctx, self.id);
        }
    }

    /// Records whether the function is imported; it has no blocks.
    pub fn set_external(&mut self, is_external: bool)
        requires
            old(self).wf(),
            forall|b: LocalBlockId| !#[trigger] old(self).body()@.blocks.contains_key(b),
        ensures
            final(self).wf(),
            final(self).id == old(self).id,
            *final(final(self).ctx) == *final(old(self).ctx),
            interface_set(
                old(self).now(),
                final(self).now(),
                old(self).id,
                (FunctionInterface { is_external, ..old(self).face() }),
            ),
    {
        let ghost before = *self.ctx;
        let f: usize = self.id.0 as usize;
        self.ctx.interfaces[f].is_external = is_external;
        proof {
            lemma_interface_set(before, *self.ctx, self.id);
        }
    }

    /// Sets the kind of the function. A lambda is pure, and takes and returns
    /// no registers.
    pub fn set_kind(&mut self, kind: FunctionKind)
        requires
            old(self).wf(),
        ensures
            final(self).wf(),
            final(self).id == old(self).id,
            *final(final(self).ctx) == *final(old(self).ctx),
            interface_set(
                old(self).now(),
                final(self).now(),
                old(self).id,
                final(self).face(),
            ),
            kind is Machine ==> final(self).face() == (FunctionInterface {
                kind,
                ..old(self).face()
            }),
            kind is Lambda ==> made_lambda(old(self).face(), final(self).face()),
    {
        let ghost before = *self.ctx;
        let f: usize = self.id.0 as usize;
        self.ctx.interfaces[f].kind = kind;
        proof {
            lemma_interface_set(before, *self.ctx, self.id);
        }
        if let FunctionKind::Lambda = kind {
            self.set_is_pure(true);
            self.set_register_effects(
                RegisterChannelState::Materialized(RegisterInterfaceMap::default()),
            );
        }
        proof {
            assert(self.ctx.interfaces@ =~= before.interfaces@.update(f as int, self.face()));
        }
    }
}

} // verus!
