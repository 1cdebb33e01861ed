//! A function of a module, to read.

use crate::body::FunctionBody;
use crate::body::users::Users;
use crate::context::Context;
use crate::function::effects::{
    FunctionEffects, RegisterChannelState, WrittenSpaces, WrittenSpacesState,
};
use crate::function::interface::{FunctionInterface, FunctionKind};
use crate::function::signature::{ExternArgmem, ExternInterface, FunctionSignature, ParamAttrs};
use crate::ids::{
    BlockId, EdgeId, FunctionId, InstructionId, LocalBlockId, LocalInsnId, SpaceId, UseId,
};
use crate::insn::mnemonic::Mnemonic;
use crate::value::ValueId;
use vstd::prelude::*;
use vstd::std_specs::iter::IteratorSpec;

verus! {

/// A function of a module.
#[derive(Clone, Copy)]
pub struct FunctionRef<'a> {
    pub ctx: &'a Context,
    pub id: FunctionId,
}

/// The key by which the blocks of a function are listed: first those without
/// an address, then by address, and by index where that is the same.
pub open spec fn listed_before(body: FunctionBody, a: LocalBlockId, b: LocalBlockId) -> bool {
    match (body.block_rec(a).address, body.block_rec(b).address) {
        (None, Some(_)) => true,
        (Some(_), None) => false,
        (None, None) => a.0 < b.0,
        (Some(x), Some(y)) => x < y || (x == y && a.0 < b.0),
    }
}

/// Whether `s` is in the order in which blocks are listed.
pub open spec fn in_listing_order(body: FunctionBody, s: Seq<LocalBlockId>) -> bool {
    forall|i: int, j: int|
        0 <= i < j < s.len() ==> listed_before(body, #[trigger] s[i], #[trigger] s[j])
}

/// Whether an instruction of a block on the roster satisfies `f`.
pub open spec fn some_insn(body: FunctionBody, f: spec_fn(Mnemonic) -> bool) -> bool {
    exists|b: int, k: int|
        0 <= b < body.roster@.len() && 0 <= k < body.order(body.roster@[b]).len() && f(
            #[trigger] body.insn_rec(body.order(body.roster@[b])[k]).mnemonic,
        )
}

impl<'a> FunctionRef<'a> {
    /// Whether there is such a function.
    pub open spec fn wf(&self) -> bool {
        self.ctx.wf() && self.ctx.has_function(self.id)
    }

    /// The interface of the function.
    pub open spec fn face(&self) -> FunctionInterface {
        self.ctx.interface_of(self.id)
    }

    /// The body of the function.
    pub open spec fn body(&self) -> FunctionBody {
        self.ctx.body_of(self.id)
    }

    pub fn new(ctx: &'a Context, id: FunctionId) -> (r: Self)
        ensures
            r.ctx == ctx,
            r.id == id,
    {
        FunctionRef { ctx, id }
    }

    pub fn from_id(ctx: &'a Context, id: FunctionId) -> (r: Self)
        ensures
            r.ctx == ctx,
            r.id == id,
    {
        FunctionRef { ctx, id }
    }

    pub fn id(&self) -> (id: ValueId)
        ensures
            id == ValueId::Function(self.id),
    {
        ValueId::Function(self.id)
    }

    fn interface(&self) -> (interface: &'a FunctionInterface)
        requires
            self.wf(),
        ensures
            *interface == self.face(),
    {
        &self.ctx.interfaces[self.id.0 as usize]
    }

    fn inner(&self) -> (body: &'a FunctionBody)
        requires
            self.wf(),
        ensures
            *body == self.body(),
            body.wf(),
            body.id == Some(self.id),
    {
        proof {
            assert(self.ctx.body_ok(self.id.0 as int));
        }
        &self.ctx.bodies[self.id.0 as usize]
    }

    /// The entry address.
    pub fn address(&self) -> (address: Option<u64>)
        requires
            self.wf(),
        ensures
            address == self.face().address,
    {
        self.interface().address
    }

    /// Whether the function is imported.
    pub fn is_external(&self) -> (b: bool)
        requires
            self.wf(),
        ensures
            b == self.face().is_external,
    {
        self.interface().is_external
    }

    /// The ordinal the function was imported by.
    pub fn import_ordinal(&self) -> (ordinal: Option<u16>)
        requires
            self.wf(),
        ensures
            ordinal == self.face().import_ordinal,
    {
        self.interface().import_ordinal
    }

    /// What is known of how the function is called.
    pub fn signature(&self) -> (signature: Option<&'a FunctionSignature>)
        requires
            self.wf(),
        ensures
            match self.face().signature {
                Some(s) => signature == Some(&s),
                None => signature is None,
            },
    {
        match &self.interface().signature {
            Some(signature) => Some(signature),
            None => None,
        }
    }

    /// The instructions of the function that use `value`, one for each use.
    pub fn users_of(&self, value: ValueId) -> (users: Vec<InstructionId>)
        requires
            self.wf(),
        ensures
            users@ == self.body().users(value).map_values(
                |local: LocalInsnId| InstructionId { func: self.id, local },
            ),
    {
        self.inner().users_of(value)
    }

    /// The users of `value`, to walk along.
    pub fn local_users_of(&self, value: ValueId) -> (users: Users<'a>)
        requires
            self.wf(),
        ensures
            users.wf(),
            *users.body == self.body(),
            users.rest().map_values(|u: UseId| self.body().use_rec(u).user) == self.body().users(
                value,
            ),
    {
        self.inner().local_users_of(value)
    }

    /// Whether an instruction of the function uses `value`.
    pub fn has_users(&self, value: ValueId) -> (b: bool)
        requires
            self.wf(),
        ensures
            b == (self.body().users(value).len() > 0),
    {
        self.inner().has_users(value)
    }

    /// The value of the function that is called `name`.
    pub fn local_named(&self, name: &str) -> (id: Option<ValueId>)
        requires
            self.wf(),
        ensures
            match id {
                Some(id) => id.is_local_to(self.id) && self.body()@.names.found(
                    name@,
                    id.stripped(),
                ),
                None => forall|other: crate::value::LocalValueId|
                    !#[trigger] self.body()@.names.found(name@, other),
            },
            self.body()@.names.answers(
                name@,
                match id {
                    Some(id) => Some(id.stripped()),
                    None => None,
                },
            ),
    {
        match self.inner().local_named(name) {
            Some(local) => Some(local.qualify(self.id)),
            None => None,
        }
    }

    /// The attributes known of the argument at `index`.
    pub fn param_attr(&self, index: usize) -> (attrs: Option<ParamAttrs>)
        requires
            self.wf(),
        ensures
            attrs == (match self.face().known_attrs() {
                Some(all) if index < all.len() => Some(all[index as int]),
                _ => None,
            }),
    {
        self.interface().param_attr(index)
    }

    /// The attributes known of the arguments.
    pub fn param_attrs(&self) -> (attrs: Option<&'a Vec<ParamAttrs>>)
        requires
            self.wf(),
        ensures
            match self.face().known_attrs() {
                Some(all) => attrs matches Some(attrs) && attrs@ == all,
                None => attrs is None,
            },
    {
        match &self.interface().signature {
            Some(signature) => match &signature.param_attrs {
                Some(attrs) => Some(attrs),
                None => None,
            },
            None => None,
        }
    }

    /// The spaces that the function may write; `None` where that is not known
    /// to be bounded.
    pub fn written_spaces(&self) -> (spaces: Option<&'a Vec<SpaceId>>)
        requires
            self.wf(),
        ensures
            match self.face().effects.memory.coarse {
                WrittenSpacesState::Bounded(all) => spaces == Some(&all),
                _ => spaces is None,
            },
    {
        match &self.interface().effects.memory.coarse {
            WrittenSpacesState::Bounded(spaces) => Some(spaces),
            _ => None,
        }
    }

    /// The spaces that the function may write: not analysed, any, or these.
    pub fn written_spaces_state(&self) -> (state: WrittenSpaces<'a>)
        requires
            self.wf(),
        ensures
            match self.face().effects.memory.coarse {
                WrittenSpacesState::Unstamped => state is Unstamped,
                WrittenSpacesState::Unbounded => state is Unbounded,
                WrittenSpacesState::Bounded(all) => state == WrittenSpaces::Bounded(&all),
            },
    {
        match &self.interface().effects.memory.coarse {
            WrittenSpacesState::Unstamped => WrittenSpaces::Unstamped,
            WrittenSpacesState::Unbounded => WrittenSpaces::Unbounded,
            WrittenSpacesState::Bounded(spaces) => WrittenSpaces::Bounded(spaces),
        }
    }

    /// Whether registers are taken and returned by value.
    pub fn is_reg_materialized(&self) -> (b: bool)
        requires
            self.wf(),
        ensures
            b == (self.face().effects.register is Materialized),
    {
        matches!(self.interface().effects.register, RegisterChannelState::Materialized(_))
    }

    /// The effects of calling the function.
    pub fn effects(&self) -> (effects: &'a FunctionEffects)
        requires
            self.wf(),
        ensures
            *effects == self.face().effects,
    {
        &self.interface().effects
    }

    /// Whether what the function returns depends on its arguments alone.
    pub fn is_pure(&self) -> (b: bool)
        requires
            self.wf(),
        ensures
            b == (self.face().signature matches Some(s) && s.is_pure),
    {
        match &self.interface().signature {
            Some(signature) => signature.is_pure,
            None => false,
        }
    }

    /// Whether the function is a lambda.
    pub fn is_lambda(&self) -> (b: bool)
        requires
            self.wf(),
        ensures
            b == (self.face().kind is Lambda),
    {
        matches!(self.interface().kind, FunctionKind::Lambda)
    }

    pub fn kind(&self) -> (kind: FunctionKind)
        requires
            self.wf(),
        ensures
            kind == self.face().kind,
    {
        self.interface().kind
    }

    /// The external call interface.
    pub fn extern_interface(&self) -> (interface: Option<&'a ExternInterface>)
        requires
            self.wf(),
        ensures
            match self.face().signature {
                Some(s) => match s.extern_interface {
                    Some(x) => interface == Some(&x),
                    None => interface is None,
                },
                None => interface is None,
            },
    {
        match &self.interface().signature {
            Some(signature) => match &signature.extern_interface {
                Some(interface) => Some(interface),
                None => None,
            },
            None => None,
        }
    }

    /// What an external may do to memory through its parameters.
    pub fn argmem(&self) -> (argmem: Option<&'a ExternArgmem>)
        requires
            self.wf(),
        ensures
            match self.face().signature {
                Some(s) => match s.argmem {
                    Some(x) => argmem == Some(&x),
                    None => argmem is None,
                },
                None => argmem is None,
            },
    {
        match &self.interface().signature {
            Some(signature) => match &signature.argmem {
                Some(argmem) => Some(argmem),
                None => None,
            },
            None => None,
        }
    }

    /// The name of the input at `index`.
    pub fn input_arg_name(&self, index: usize) -> (name: Option<String>)
        requires
            self.wf(),
            self.ctx.root_readable(self.id, index as int),
        ensures
            match self.ctx.input_name(self.id, index as int) {
                Some(text) => name matches Some(name) && name@ == text,
                None => name is None,
            },
    {
        self.ctx.input_arg_name(self.id, index)
    }

    /// Whether the function may read its caller's stack where no bound is
    /// known.
    pub fn reads_unbounded_stack(&self) -> (b: bool)
        requires
            self.wf(),
        ensures
            b == (self.face().signature matches Some(s) && s.reads_unbounded_stack),
    {
        match &self.interface().signature {
            Some(signature) => signature.reads_unbounded_stack,
            None => false,
        }
    }

    /// Whether the function lets a pointer into its frame out to where it may
    /// be read without a known bound.
    pub fn frame_escapes_to_unbounded(&self) -> (b: bool)
        requires
            self.wf(),
        ensures
            b == (self.face().signature matches Some(s) && s.frame_escapes_to_unbounded),
    {
        match &self.interface().signature {
            Some(signature) => signature.frame_escapes_to_unbounded,
            None => false,
        }
    }

    /// The name of the function.
    pub fn name(&self) -> (name: &'a String)
        requires
            self.wf(),
        ensures
            name@ == self.face().name@,
    {
        &self.interface().name
    }

    /// The addresses of the machine instructions lifted into the function, in
    /// ascending order.
    pub fn instruction_addrs(&self) -> (addrs: Vec<u64>)
        requires
            self.wf(),
        ensures
            forall|a: u64| #[trigger] addrs@.contains(a) <==> self.body().instruction_addrs@.contains(a),
            forall|i: int, j: int| 0 <= i < j < addrs@.len() ==> addrs@[i] < addrs@[j],
    {
        self.inner().addrs_in_order()
    }

    /// The entry block.
    pub fn root(&self) -> (root: Option<BlockId>)
        requires
            self.wf(),
        ensures
            root == (match self.body().root {
                Some(local) => Some(BlockId { func: self.id, local }),
                None => None,
            }),
    {
        match self.inner().root {
            Some(local) => Some(BlockId::new(self.id, local)),
            None => None,
        }
    }

    /// The blocks of the function, in the order of the roster.
    pub fn block_ids(&self) -> (ids: Vec<BlockId>)
        requires
            self.wf(),
        ensures
            ids@ == self.body().roster@.map_values(
                |local: LocalBlockId| BlockId { func: self.id, local },
            ),
    {
        qualified_blocks(self.id, &self.inner().roster)
    }

    /// The blocks of the function, in the order of the roster.
    pub fn iter(&self) -> (ids: Vec<BlockId>)
        requires
            self.wf(),
        ensures
            ids@ == self.body().roster@.map_values(
                |local: LocalBlockId| BlockId { func: self.id, local },
            ),
    {
        self.block_ids()
    }

    /// The blocks of the function by address: those without one come first,
    /// and those at one address by index.
    pub fn blocks(&self) -> (ids: Vec<BlockId>)
        requires
            self.wf(),
        ensures
            exists|locals: Seq<LocalBlockId>|
                {
                    &&& #[trigger] in_listing_order(self.body(), locals)
                    &&& locals.to_multiset() == self.body().roster@.to_multiset()
                    &&& ids@ == locals.map_values(
                        |local: LocalBlockId| BlockId { func: self.id, local },
                    )
                },
    {
        let locals = self.inner().listed_blocks();
        let ids = qualified_blocks(self.id, &locals);
        ids
    }

    /// The live instructions of the function, those in no block among them.
    pub fn instruction_ids(&self) -> (ids: Vec<InstructionId>)
        requires
            self.wf(),
        ensures
            forall|local: LocalInsnId|
                #[trigger] self.body().has_insn(local) <==> ids@.contains(
                    InstructionId { func: self.id, local },
                ),
            forall|k: int| 0 <= k < ids@.len() ==> (#[trigger] ids@[k]).func == self.id,
            forall|i: int, j: int| 0 <= i < j < ids@.len() ==> ids@[i].local.0 < ids@[j].local.0,
    {
        let raw = self.inner().insns.ids();
        let mut ids: Vec<InstructionId> = Vec::new();
        let mut k: usize = 0;
        while k < raw.len()
            invariant
                k <= raw.len(),
                ids@.len() == k,
                forall|j: int|
                    0 <= j < k ==> #[trigger] ids@[j] == (InstructionId {
                        func: self.id,
                        local: LocalInsnId(raw@[j]),
                    }),
            decreases raw.len() - k,
        {
            ids.push(InstructionId::new(self.id, LocalInsnId(raw[k])));
            k = k + 1;
        }
        proof {
            assert forall|local: LocalInsnId| #[trigger]
                self.body().has_insn(local) <==> ids@.contains(
                InstructionId { func: self.id, local },
            ) by {
                if self.body().has_insn(local) {
                    assert(raw@.contains(local.0));
                    let j = choose|j: int| 0 <= j < raw@.len() && raw@[j] == local.0;
                    assert(ids@[j] == (InstructionId { func: self.id, local }));
                }
                if ids@.contains(InstructionId { func: self.id, local }) {
                    let j = choose|j: int|
                        0 <= j < ids@.len() && ids@[j] == (InstructionId { func: self.id, local });
                    assert(raw@.contains(raw@[j]));
                }
            }
        }
        ids
    }

    /// The edges of the function.
    pub fn edge_ids(&self) -> (ids: Vec<EdgeId>)
        requires
            self.wf(),
        ensures
            forall|e: EdgeId| #[trigger] self.body().has_edge(e) <==> ids@.contains(e),
            forall|i: int, j: int| 0 <= i < j < ids@.len() ==> ids@[i].0 < ids@[j].0,
    {
        let raw = self.inner().edges.ids();
        let mut ids: Vec<EdgeId> = Vec::new();
        let mut k: usize = 0;
        while k < raw.len()
            invariant
                k <= raw.len(),
                ids@.len() == k,
                forall|j: int| 0 <= j < k ==> #[trigger] ids@[j] == EdgeId(raw@[j]),
            decreases raw.len() - k,
        {
            ids.push(EdgeId(raw[k]));
            k = k + 1;
        }
        proof {
            assert forall|e: EdgeId| #[trigger] self.body().has_edge(e) <==> ids@.contains(e) by {
                if self.body().has_edge(e) {
                    assert(raw@.contains(e.0));
                    let j = choose|j: int| 0 <= j < raw@.len() && raw@[j] == e.0;
                    assert(ids@[j] == e);
                }
                if ids@.contains(e) {
                    let j = choose|j: int| 0 <= j < ids@.len() && ids@[j] == e;
                    assert(raw@.contains(raw@[j]));
                }
            }
        }
        ids
    }

    /// Whether the function maps over an array.
    pub fn has_map(&self) -> (b: bool)
        requires
            self.wf(),
        ensures
            b == some_insn(self.body(), |m: Mnemonic| m is ArrayMap),
    {
        let is_map = |m: &Mnemonic| -> (b: bool)
            ensures
                b == (*m is ArrayMap),
            { matches!(m, Mnemonic::ArrayMap(_)) };
        self.inner().any_insn(is_map, Ghost(|m: Mnemonic| m is ArrayMap))
    }

    /// Whether the function scans over an array.
    pub fn has_scan(&self) -> (b: bool)
        requires
            self.wf(),
        ensures
            b == some_insn(self.body(), |m: Mnemonic| m is Scan),
    {
        let is_scan = |m: &Mnemonic| -> (b: bool)
            ensures
                b == (*m is Scan),
            { matches!(m, Mnemonic::Scan(_)) };
        self.inner().any_insn(is_scan, Ghost(|m: Mnemonic| m is Scan))
    }
}

/// Adds `a` to numbers in ascending order, where it is not there.
fn insert_ascending(addrs: &mut Vec<u64>, a: u64)
    requires
        forall|i: int, j: int| 0 <= i < j < old(addrs)@.len() ==> old(addrs)@[i] < old(addrs)@[j],
    ensures
        forall|i: int, j: int|
            0 <= i < j < final(addrs)@.len() ==> final(addrs)@[i] < final(addrs)@[j],
        forall|x: u64| #[trigger]
            final(addrs)@.contains(x) <==> old(addrs)@.contains(x) || x == a,
{
    let ghost s = addrs@;
    let mut k: usize = addrs.len();
    while k > 0 && a <= addrs[k - 1]
        invariant
            addrs@ == s,
            k <= s.len(),
            forall|j: int| k <= j < s.len() ==> a <= #[trigger] s[j],
        decreases k,
    {
        k = k - 1;
    }
    if k < addrs.len() && addrs[k] == a {
        proof {
            assert(s[k as int] == a);
        }
        return;
    }
    addrs.insert(k, a);
    proof {
        let t = addrs@;
        assert(t =~= s.insert(k as int, a));
        assert forall|i: int, j: int| 0 <= i < j < t.len() implies t[i] < t[j] by {
            if k < s.len() {
                assert(a <= s[k as int]);
            }
        }
        assert forall|x: u64| #[trigger] t.contains(x) <==> s.contains(x) || x == a by {
            assert(t[k as int] == a);
            if s.contains(x) {
                let w = choose|w: int| 0 <= w < s.len() && s[w] == x;
                if w < k {
                    assert(t[w] == x);
                } else {
                    assert(t[w + 1] == x);
                }
            }
            if t.contains(x) && x != a {
                let w = choose|w: int| 0 <= w < t.len() && t[w] == x;
                if w < k {
                    assert(s[w] == x);
                } else {
                    assert(s[w - 1] == x);
                }
            }
        }
    }
}

/// Local blocks, with their function.
fn qualified_blocks(func: FunctionId, locals: &Vec<LocalBlockId>) -> (ids: Vec<BlockId>)
    ensures
        ids@ == locals@.map_values(|local: LocalBlockId| BlockId { func, local }),
{
    let mut ids: Vec<BlockId> = Vec::new();
    let mut k: usize = 0;
    while k < locals.len()
        invariant
            k <= locals.len(),
            ids@.len() == k,
            forall|j: int|
                0 <= j < k ==> #[trigger] ids@[j] == (BlockId { func, local: locals@[j] }),
        decreases locals.len() - k,
    {
        ids.push(BlockId::new(func, locals[k]));
        k = k + 1;
    }
    proof {
        assert(ids@ =~= locals@.map_values(|local: LocalBlockId| BlockId { func, local }));
    }
    ids
}

impl FunctionBody {
    /// The addresses of the machine instructions, in ascending order.
    fn addrs_in_order(&self) -> (addrs: Vec<u64>)
        ensures
            forall|a: u64| #[trigger] addrs@.contains(a) <==> self.instruction_addrs@.contains(a),
            forall|i: int, j: int| 0 <= i < j < addrs@.len() ==> addrs@[i] < addrs@[j],
    {
        broadcast use vstd::std_specs::btree::group_btree_axioms;

        let mut addrs: Vec<u64> = Vec::new();
        let ghost all = self.instruction_addrs.iter().remaining();
        for a in it: self.instruction_addrs.iter()
            invariant
                it.seq() == all,
                all.unref().to_set() == self.instruction_addrs@,
                forall|i: int, j: int| 0 <= i < j < addrs@.len() ==> addrs@[i] < addrs@[j],
                forall|x: u64| #[trigger]
                    addrs@.contains(x) <==> all.unref().take(it.index() as int).contains(x),
        {
            let ghost n = it.index() as int;
            let ghost before = addrs@;
            insert_ascending(&mut addrs, *a);
            proof {
                assert(all.unref().take(n + 1) =~= all.unref().take(n).push(*a));
                assert forall|x: u64| #[trigger]
                    addrs@.contains(x) <==> all.unref().take(n + 1).contains(x) by {
                    let front = all.unref().take(n);
                    if front.contains(x) {
                        let k = choose|k: int| 0 <= k < front.len() && front[k] == x;
                        assert(front.push(*a)[k] == x);
                    }
                    assert(front.push(*a)[n] == *a);
                    if front.push(*a).contains(x) && x != *a {
                        let k = choose|k: int| 0 <= k < n + 1 && front.push(*a)[k] == x;
                        assert(front[k] == x);
                    }
                }
            }
        }
        proof {
            assert(all.unref().take(all.len() as int) =~= all.unref());
            assert forall|a: u64| #[trigger] addrs@.contains(a)
                <==> self.instruction_addrs@.contains(a) by {
                assert(all.unref().to_set().contains(a) <==> all.unref().contains(a));
            }
        }
        addrs
    }

    /// Whether `f` holds of an instruction of a block on the roster.
    fn any_insn<F: Fn(&Mnemonic) -> bool>(
        &self,
        f: F,
        Ghost(want): Ghost<spec_fn(Mnemonic) -> bool>,
    ) -> (found: bool)
        requires
            self.wf(),
            forall|m: &Mnemonic| f.requires((m,)),
            forall|m: &Mnemonic, b: bool| f.ensures((m,), b) ==> b == want(*m),
        ensures
            found == some_insn(*self, want),
    {
        let mut i: usize = 0;
        while i < self.roster.len()
            invariant
                self.wf(),
                forall|m: &Mnemonic| f.requires((m,)),
                forall|m: &Mnemonic, b: bool| f.ensures((m,), b) ==> b == want(*m),
                i <= self.roster.len(),
                forall|b: int, k: int|
                    0 <= b < i && 0 <= k < self.order(self.roster@[b]).len() ==> !want(
                        #[trigger] self.insn_rec(self.order(self.roster@[b])[k]).mnemonic,
                    ),
            decreases self.roster.len() - i,
        {
            let block = self.roster[i];
            proof {
                assert(self.has_block(self.roster@[i as int]));
                assert(self.list_ok(block));
            }
            let insns = self.insn_vec(block);
            let mut k: usize = 0;
            while k < insns.len()
                invariant
                    self.wf(),
                    forall|m: &Mnemonic| f.requires((m,)),
                    forall|m: &Mnemonic, b: bool| f.ensures((m,), b) ==> b == want(*m),
                    i < self.roster.len(),
                    block == self.roster@[i as int],
                    self.list_ok(block),
                    insns@ == self.order(block),
                    k <= insns.len(),
                    forall|j: int|
                        0 <= j < k ==> !want(
                            #[trigger] self.insn_rec(self.order(block)[j]).mnemonic,
                        ),
                decreases insns.len() - k,
            {
                proof {
                    assert(self.linked_at(block, k as int));
                }
                let hit = f(&self.insns.get(insns[k].0).mnemonic);
                if hit {
                    proof {
                        assert(want(
                            self.insn_rec(self.order(self.roster@[i as int])[k as int]).mnemonic,
                        ));
                    }
                    return true;
                }
                k = k + 1;
            }
            i = i + 1;
        }
        false
    }

    /// Whether block `a` is listed before block `b`.
    fn is_listed_before(&self, a: LocalBlockId, b: LocalBlockId) -> (before: bool)
        requires
            self.has_block(a),
            self.has_block(b),
        ensures
            before == listed_before(*self, a, b),
    {
        match (self.blocks.get(a.0).address, self.blocks.get(b.0).address) {
            (None, Some(_)) => true,
            (Some(_), None) => false,
            (None, None) => a.0 < b.0,
            (Some(x), Some(y)) => x < y || (x == y && a.0 < b.0),
        }
    }

    /// The blocks on the roster in the order in which they are listed.
    pub(crate) fn listed_blocks(&self) -> (locals: Vec<LocalBlockId>)
        requires
            self.wf(),
        ensures
            in_listing_order(*self, locals@),
            locals@.to_multiset() == self.roster@.to_multiset(),
    {
        let mut locals: Vec<LocalBlockId> = Vec::new();
        let mut i: usize = 0;
        proof {
            assert(self.roster@.take(0) =~= Seq::<LocalBlockId>::empty());
        }
        while i < self.roster.len()
            invariant
                self.wf(),
                i <= self.roster.len(),
                in_listing_order(*self, locals@),
                locals@.to_multiset() == self.roster@.take(i as int).to_multiset(),
                forall|k: int| 0 <= k < locals@.len() ==> self.has_block(#[trigger] locals@[k]),
                forall|k: int|
                    0 <= k < locals@.len() ==> self.roster@.take(i as int).contains(
                        #[trigger] locals@[k],
                    ),
            decreases self.roster.len() - i,
        {
            let block = self.roster[i];
            let ghost s = locals@;
            proof {
                assert(self.has_block(self.roster@[i as int]));
            }
            let mut k: usize = 0;
            while k < locals.len() && self.is_listed_before(locals[k], block)
                invariant
                    self.has_block(block),
                    locals@ == s,
                    k <= s.len(),
                    forall|j: int| 0 <= j < s.len() ==> self.has_block(#[trigger] s[j]),
                    forall|j: int| 0 <= j < k ==> listed_before(*self, #[trigger] s[j], block),
                decreases s.len() - k,
            {
                k = k + 1;
            }
            locals.insert(k, block);
            proof {
                let taken = self.roster@.take(i as int);
                assert(self.roster@.take(i + 1) =~= taken.push(block));
                assert forall|j: int| 0 <= j < s.len() implies #[trigger] s[j] != block by {
                    assert(taken.contains(s[j]));
                    let w = choose|w: int| 0 <= w < taken.len() && taken[w] == s[j];
                    assert(self.roster@[w] == s[j]);
                    assert(self.roster@[i as int] == block);
                }
                vstd::seq_lib::to_multiset_insert(s, k as int, block);
                taken.to_multiset_ensures();
                let t = locals@;
                assert(t =~= s.insert(k as int, block));
                assert forall|a: int, b: int| 0 <= a < b < t.len() implies listed_before(
                    *self,
                    #[trigger] t[a],
                    #[trigger] t[b],
                ) by {
                    if b == k {
                        assert(t[a] == s[a]);
                    } else if a == k {
                        assert(t[b] == s[b - 1]);
                        if b - 1 > k {
                            assert(listed_before(*self, s[k as int], s[b - 1]));
                        }
                        assert(s[k as int] != block);
                    } else if a < k && b > k {
                        assert(t[a] == s[a] && t[b] == s[b - 1]);
                    } else if a > k {
                        assert(t[a] == s[a - 1] && t[b] == s[b - 1]);
                    }
                }
                let longer = self.roster@.take(i + 1);
                assert forall|j: int| 0 <= j < t.len() implies longer.contains(
                    #[trigger] t[j],
                ) by {
                    if t[j] == block {
                        assert(longer[i as int] == block);
                    } else {
                        let w = if j < k {
                            j
                        } else {
                            j - 1
                        };
                        assert(taken.contains(s[w]));
                        let x = choose|x: int| 0 <= x < taken.len() && taken[x] == s[w];
                        assert(longer[x] == s[w]);
                    }
                }
            }
            i = i + 1;
        }
        proof {
            assert(self.roster@.take(self.roster@.len() as int) =~= self.roster@);
        }
        locals
    }
}

} // verus!
