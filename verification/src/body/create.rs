//! Making bodies and adding to them.

use super::order::moved_last;
use super::uses::lemma_uses_frame;
use super::{
    name_known, names_known, BlockParam, BlockView, BodyView, FunctionBody, ParamView, Temp,
    TempSpace, TempView,
};
use crate::body::cfg::edges_untouched;
use crate::arena::{Arena, Slab};
use crate::block::BasicBlock;
use crate::body::compose::{all_issued, lemma_unmentioned, operands_issued};
use crate::fx::KeyMap;
use crate::ids::{
    BlockId, BlockParamId, EdgeId, FunctionId, InstructionId, LocalBlockId, LocalInsnId,
    LocalParamId, LocalTempId, LocalTempSpaceId, TempId, TempSpaceId, TypeId, UseId,
};
use crate::insn::instruction::{InsnView, Instruction};
use crate::insn::mnemonic::Mnemonic;
use crate::names::{LocalNames, Name, NamesView};
use crate::value::LocalValueId;
use std::collections::BTreeSet;
use vstd::prelude::*;

verus! {

broadcast use crate::base::group_bases;

/// A body of function `id` with nothing in it.
pub open spec fn is_empty_body(body: FunctionBody, id: Option<FunctionId>) -> bool {
    &&& body.wf()
    &&& body.uses_complete()
    &&& body.uses@.len() == 0
    &&& body.id == id
    &&& body@.root is None
    &&& body@.insns == Map::<LocalInsnId, InsnView>::empty()
    &&& body@.blocks == Map::<LocalBlockId, BlockView>::empty()
    &&& body@.roster == Seq::<LocalBlockId>::empty()
    &&& body@.params == Map::<LocalParamId, ParamView>::empty()
    &&& body@.edges == Map::<EdgeId, crate::block::EdgeData>::empty()
    &&& body@.temp_spaces == Seq::<TempSpace>::empty()
    &&& body@.temps == Seq::<TempView>::empty()
    &&& body@.instruction_addrs == Set::<u64>::empty()
    &&& body@.insns_issued == 0
    &&& body@.blocks_issued == 0
    &&& body@.params_issued == 0
    &&& body@.edges_issued == 0
}

impl FunctionBody {
    /// Whether no operand names `value`.
    pub open spec fn unmentioned(&self, value: LocalValueId) -> bool {
        forall|i: LocalInsnId, k: int|
            self@.insns.contains_key(i) && 0 <= k < self@.insns[i].mnemonic.operands.len()
                ==> #[trigger] self@.insns[i].mnemonic.operands[k] != value
    }

    fn fresh(id: Option<FunctionId>) -> (body: Self)
        ensures
            is_empty_body(body, id),
            body@.names.bases == Seq::<Seq<char>>::empty(),
            body@.names.held == Map::<crate::names::Name, LocalValueId>::empty(),
            body@.names.labels == Map::<u64, LocalValueId>::empty(),
    {
        let body = FunctionBody {
            id,
            root: None,
            insns: Arena::new(),
            blocks: Arena::new(),
            roster: Vec::new(),
            params: Arena::new(),
            edges: Arena::new(),
            temp_spaces: Vec::new(),
            temps: Vec::new(),
            instruction_addrs: BTreeSet::new(),
            names: LocalNames::new(),
            uses: Slab::new(),
            shared_first_use: KeyMap::new(),
            use_lists: Ghost(Map::empty()),
            shape_ticks: 0,
        };
        proof {
            assert forall|v: LocalValueId| #[trigger] body.use_list_ok(v) by {}
            assert(body@.insns =~= Map::<LocalInsnId, InsnView>::empty());
            assert(body@.blocks =~= Map::<LocalBlockId, BlockView>::empty());
            assert(body@.params =~= Map::<LocalParamId, ParamView>::empty());
            assert(body@.edges =~= Map::<EdgeId, crate::block::EdgeData>::empty());
            assert(body@.temps =~= Seq::<TempView>::empty());
        }
        body
    }

    /// An empty body of function `id`.
    pub fn empty_with_id(id: FunctionId) -> (body: Self)
        ensures
            is_empty_body(body, Some(id)),
            body@.names.bases == Seq::<Seq<char>>::empty(),
            body@.names.held == Map::<crate::names::Name, LocalValueId>::empty(),
            body@.names.labels == Map::<u64, LocalValueId>::empty(),
    {
        Self::fresh(Some(id))
    }

    /// An empty body that belongs to no function yet.
    pub fn detached() -> (body: Self)
        ensures
            is_empty_body(body, None),
            body@.names.bases == Seq::<Seq<char>>::empty(),
            body@.names.held == Map::<crate::names::Name, LocalValueId>::empty(),
            body@.names.labels == Map::<u64, LocalValueId>::empty(),
    {
        Self::fresh(None)
    }

    /// Makes a detached body that of function `id`.
    pub fn install_id(&mut self, id: FunctionId)
        requires
            old(self).wf(),
            old(self).id is None,
        ensures
            final(self).wf(),
            old(self).uses_complete() ==> final(self).uses_complete(),
            operands_issued(old(self)@) ==> operands_issued(final(self)@),
            edges_untouched(*old(self), *final(self)),
            final(self).uses@.len() <= old(self).uses@.len(),
            final(self)@ == (BodyView { id: Some(id), ..old(self)@ }),
    {
        let ghost before = *self;
        self.id = Some(id);
        proof {
            lemma_same_storage(before, *self);
        }
    }

    /// The function this body belongs to, which it must have.
    pub fn id(&self) -> (id: FunctionId)
        requires
            self.id is Some,
        ensures
            Some(id) == self.id,
    {
        self.id.unwrap()
    }

    /// The function this body belongs to, or `None` while it is detached.
    pub fn try_id(&self) -> (id: Option<FunctionId>)
        ensures
            id == self.id,
    {
        self.id
    }

    /// The entry block.
    pub fn root_id(&self) -> (root: Option<LocalBlockId>)
        ensures
            root == self.root,
    {
        self.root
    }

    /// Sets the entry block, and nothing else.
    pub fn set_root_id(&mut self, root: Option<LocalBlockId>)
        requires
            old(self).wf(),
        ensures
            final(self).wf(),
            old(self).uses_complete() ==> final(self).uses_complete(),
            operands_issued(old(self)@) ==> operands_issued(final(self)@),
            final(self).uses@.len() <= old(self).uses@.len(),
            final(self)@ == (BodyView { root, ..old(self)@ }),
            *final(self) == (FunctionBody { root, ..*old(self) }),
    {
        let ghost before = *self;
        self.root = root;
        proof {
            lemma_same_storage(before, *self);
        }
    }

    /// Counts a change to which addresses the blocks carry.
    pub fn touch_shape(&mut self)
        requires
            old(self).wf(),
        ensures
            final(self).wf(),
            old(self).uses_complete() ==> final(self).uses_complete(),
            operands_issued(old(self)@) ==> operands_issued(final(self)@),
            final(self).uses@.len() <= old(self).uses@.len(),
            *final(self) == (FunctionBody {
                shape_ticks: final(self).shape_ticks,
                ..*old(self)
            }),
            final(self)@ == ticked(old(self)@),
    {
        let ghost before = *self;
        self.shape_ticks = self.shape_ticks.wrapping_add(1);
        proof {
            lemma_same_storage(before, *self);
        }
    }
}

/// `body` with one more change counted.
pub open spec fn ticked(body: BodyView) -> BodyView {
    BodyView {
        shape_ticks: if body.shape_ticks == u64::MAX {
            0
        } else {
            (body.shape_ticks + 1) as u64
        },
        ..body
    }
}

/// What holds of a body's records holds of any body with the same records.
pub proof fn lemma_same_records(a: FunctionBody, b: FunctionBody)
    requires
        a.wf(),
        b == (FunctionBody {
            id: b.id,
            root: b.root,
            shape_ticks: b.shape_ticks,
            instruction_addrs: b.instruction_addrs,
            names: b.names,
            roster: b.roster,
            ..a
        }),
        b.roster_wf(),
        b.names.wf(),
        b.names@.bases.len() >= a.names@.bases.len(),
    ensures
        b.wf(),
        a.uses_complete() ==> b.uses_complete(),
        b@ == (BodyView {
            id: b.id,
            root: b.root,
            shape_ticks: b.shape_ticks,
            instruction_addrs: b.instruction_addrs@,
            names: b.names@,
            roster: b.roster@,
            ..a@
        }),
        forall|v: LocalValueId| #[trigger] b.has_home(v) == a.has_home(v),
{
    assert(b@.insns =~= a@.insns);
    assert(b@.blocks =~= a@.blocks);
    assert(b@.params =~= a@.params);
    assert(b@.edges =~= a@.edges);
    assert(names_known(b@)) by {
        assert forall|i: LocalInsnId| b@.insns.contains_key(i) implies name_known(
            b@,
            #[trigger] b@.insns[i].name,
        ) by {
            assert(name_known(a@, a@.insns[i].name));
        }
        assert forall|x: LocalBlockId| b@.blocks.contains_key(x) implies name_known(
            b@,
            #[trigger] b@.blocks[x].name,
        ) by {
            assert(name_known(a@, a@.blocks[x].name));
        }
        assert forall|q: LocalParamId| b@.params.contains_key(q) implies name_known(
            b@,
            #[trigger] b@.params[q].name,
        ) by {
            assert(name_known(a@, a@.params[q].name));
        }
        assert forall|t: int| 0 <= t < b@.temps.len() implies name_known(
            b@,
            #[trigger] b@.temps[t].name,
        ) by {
            assert(name_known(a@, a@.temps[t].name));
        }
    }
    assert forall|x: LocalBlockId| b.has_block(x) implies #[trigger] b.list_ok(x) by {
        assert(a.list_ok(x));
        assert forall|k: int| 0 <= k < b.order(x).len() implies #[trigger] b.linked_at(x, k) by {
            assert(a.linked_at(x, k));
        }
    }
    assert forall|i: LocalInsnId| b.has_insn(i) implies #[trigger] b.placed_ok(i) by {
        assert(a.placed_ok(i));
    }
    assert(b.cfg_wf()) by {
        assert forall|x: LocalBlockId| b.has_block(x) implies #[trigger] b.incident_ok(x) by {
            assert(a.incident_ok(x));
        }
        assert forall|e: EdgeId| b.has_edge(e) implies #[trigger] b.edge_ok(e) by {
            assert(a.edge_ok(e));
        }
    }
    assert(b.operands_bounded()) by {
        assert forall|i: LocalInsnId| #[trigger] b.has_insn(i) implies b.operands(i).len()
            <= 0x1_0000 by {
            assert(a.has_insn(i));
        }
    }
    assert(b.use_lists_wf(None)) by {
        assert forall|v: LocalValueId| #[trigger] b.use_list_ok(v) by {
            assert(a.use_list_ok(v));
            assert forall|k: int| 0 <= k < b.use_list(v).len() implies #[trigger] b.use_linked_at(
                v,
                k,
            ) by {
                assert(a.use_linked_at(v, k));
            }
        }
        assert forall|u: UseId| b.has_use(u) implies #[trigger] b.use_list(
            b.use_rec(u).value,
        ).contains(u) by {
            assert(a.use_list(a.use_rec(u).value).contains(u));
        }
    }
    assert(b.uses_faithful()) by {
        assert forall|u: UseId| b.has_use(u) implies #[trigger] b.use_faithful(u) by {
            assert(a.use_faithful(u));
        }
        assert forall|u: UseId, w: UseId, i: LocalInsnId, k: int| #[trigger]
            b.is_use_of(u, i, k) && #[trigger] b.is_use_of(w, i, k) implies u == w by {
            assert(a.is_use_of(u, i, k) && a.is_use_of(w, i, k));
        }
    }
    if a.uses_complete() {
        assert forall|i: LocalInsnId, k: int|
            b.has_insn(i) && 0 <= k < b.operands(i).len() && b.has_home(
                b.operands(i)[k],
            ) implies #[trigger] b.has_use_of(i, k) by {
            assert(a.has_use_of(i, k));
            let u = choose|u: UseId| #[trigger] a.is_use_of(u, i, k);
            assert(b.is_use_of(u, i, k));
        }
    }
}

/// What holds of a body's records holds of any body with the same records and
/// roster.
pub proof fn lemma_same_storage(a: FunctionBody, b: FunctionBody)
    requires
        a.wf(),
        b == (FunctionBody {
            id: b.id,
            root: b.root,
            shape_ticks: b.shape_ticks,
            instruction_addrs: b.instruction_addrs,
            names: b.names,
            ..a
        }),
        b.names.wf(),
        b.names@.bases.len() >= a.names@.bases.len(),
    ensures
        b.wf(),
        a.uses_complete() ==> b.uses_complete(),
        b@ == (BodyView {
            id: b.id,
            root: b.root,
            shape_ticks: b.shape_ticks,
            instruction_addrs: b.instruction_addrs@,
            names: b.names@,
            ..a@
        }),
        forall|v: LocalValueId| #[trigger] b.has_home(v) == a.has_home(v),
{
    assert(b.roster_wf()) by {
        assert forall|k: int| 0 <= k < b.roster@.len() implies b.has_block(
            #[trigger] b.roster@[k],
        ) by {
            assert(a.has_block(a.roster@[k]));
        }
    }
    lemma_same_records(a, b);
}

/// Names stay known where no base is lost and every name is an old one or has
/// a known base.
pub proof fn lemma_names_known(a: BodyView, b: BodyView)
    requires
        names_known(a),
        b.names.bases.len() >= a.names.bases.len(),
        forall|i: LocalInsnId|
            #![trigger b.insns[i]]
            b.insns.contains_key(i) ==> (a.insns.contains_key(i) && a.insns[i].name
                == b.insns[i].name) || name_known(b, b.insns[i].name),
        forall|x: LocalBlockId|
            #![trigger b.blocks[x]]
            b.blocks.contains_key(x) ==> (a.blocks.contains_key(x) && a.blocks[x].name
                == b.blocks[x].name) || name_known(b, b.blocks[x].name),
        forall|q: LocalParamId|
            #![trigger b.params[q]]
            b.params.contains_key(q) ==> (a.params.contains_key(q) && a.params[q].name
                == b.params[q].name) || name_known(b, b.params[q].name),
        forall|t: int|
            #![trigger b.temps[t]]
            0 <= t < b.temps.len() ==> (t < a.temps.len() && a.temps[t].name == b.temps[t].name)
                || name_known(b, b.temps[t].name),
    ensures
        names_known(b),
{
    assert forall|i: LocalInsnId| b.insns.contains_key(i) implies name_known(
        b,
        #[trigger] b.insns[i].name,
    ) by {
        assert(a.insns.contains_key(i) ==> name_known(a, a.insns[i].name));
    }
    assert forall|x: LocalBlockId| b.blocks.contains_key(x) implies name_known(
        b,
        #[trigger] b.blocks[x].name,
    ) by {
        assert(a.blocks.contains_key(x) ==> name_known(a, a.blocks[x].name));
    }
    assert forall|q: LocalParamId| b.params.contains_key(q) implies name_known(
        b,
        #[trigger] b.params[q].name,
    ) by {
        assert(a.params.contains_key(q) ==> name_known(a, a.params[q].name));
    }
    assert forall|t: int| 0 <= t < b.temps.len() implies name_known(
        b,
        #[trigger] b.temps[t].name,
    ) by {
        assert(t < a.temps.len() ==> name_known(a, a.temps[t].name));
    }
}

/// Whether `b` holds everything `a` does, and further records that nothing
/// links to.
pub open spec fn grown(a: FunctionBody, b: FunctionBody) -> bool {
    &&& b == (FunctionBody {
        insns: b.insns,
        blocks: b.blocks,
        roster: b.roster,
        params: b.params,
        temps: b.temps,
        temp_spaces: b.temp_spaces,
        names: b.names,
        ..a
    })
    &&& a.insns@.len() <= b.insns@.len() <= u32::MAX
    &&& a.blocks@.len() <= b.blocks@.len() <= u32::MAX
    &&& a.params@.len() <= b.params@.len() <= u32::MAX
    &&& a.temps@.len() <= b.temps@.len() <= u32::MAX
    &&& b.temp_spaces@.len() <= u32::MAX
    &&& b.names.wf()
    &&& forall|i: LocalInsnId|
        i.0 < a.insns@.len() ==> (#[trigger] b.has_insn(i) <==> a.has_insn(i))
    &&& forall|i: LocalInsnId| a.has_insn(i) ==> #[trigger] b.insn_rec(i) == a.insn_rec(i)
    &&& forall|i: LocalInsnId| #[trigger]
        b.has_insn(i) && !a.has_insn(i) ==> {
            let rec = b.insn_rec(i);
            &&& rec.parent is None
            &&& rec.prev is None
            &&& rec.next is None
            &&& rec.first_use is None
            &&& rec.mnemonic.operands().len() <= 0x1_0000
        }
    &&& forall|x: LocalBlockId|
        x.0 < a.blocks@.len() ==> (#[trigger] b.has_block(x) <==> a.has_block(x))
    &&& forall|x: LocalBlockId|
        a.has_block(x) ==> #[trigger] b.block_rec(x) == (BasicBlock {
            params: b.block_rec(x).params,
            ..a.block_rec(x)
        })
    &&& forall|x: LocalBlockId| #[trigger]
        b.has_block(x) && !a.has_block(x) ==> b.block_rec(x).is_fresh() && b.block_rec(
            x,
        ).first_use is None
    &&& forall|p: LocalParamId|
        p.0 < a.params@.len() ==> (#[trigger] b.has_param(p) <==> a.has_param(p))
    &&& forall|p: LocalParamId| a.has_param(p) ==> #[trigger] b.param_rec(p) == a.param_rec(p)
    &&& forall|p: LocalParamId| #[trigger]
        b.has_param(p) && !a.has_param(p) ==> b.param_rec(p).first_use is None
    &&& forall|t: int| 0 <= t < a.temps@.len() ==> #[trigger] b.temps@[t] == a.temps@[t]
    &&& forall|t: int|
        a.temps@.len() <= t < b.temps@.len() ==> (#[trigger] b.temps@[t]).first_use is None
}

/// Adding records that nothing links to keeps everything that held.
pub proof fn lemma_grown(a: FunctionBody, b: FunctionBody)
    requires
        a.wf(),
        grown(a, b),
        b.roster_wf(),
        names_known(b@),
    ensures
        b.wf(),
        forall|u: UseId| #[trigger] b.has_use(u) <==> a.has_use(u),
        forall|u: UseId| #[trigger] b.occ(u) == a.occ(u),
        forall|v: LocalValueId| a.has_home(v) ==> #[trigger] b.has_home(v),
        forall|i: LocalInsnId| a.has_insn(i) ==> #[trigger] b.operands(i) == a.operands(i),
{
    assert forall|i: LocalInsnId| a.has_insn(i) implies b.has_insn(i) by {}
    assert forall|x: LocalBlockId| a.has_block(x) implies b.has_block(x) by {}
    assert forall|x: LocalBlockId| b.has_block(x) implies #[trigger] b.list_ok(x) by {
        if a.has_block(x) {
            assert(a.list_ok(x));
            assert(b.block_rec(x).instructions == a.block_rec(x).instructions);
            assert forall|k: int| 0 <= k < b.order(x).len() implies #[trigger] b.linked_at(
                x,
                k,
            ) by {
                assert(a.linked_at(x, k));
            }
        }
    }
    assert forall|i: LocalInsnId| b.has_insn(i) implies #[trigger] b.placed_ok(i) by {
        if a.has_insn(i) {
            assert(a.placed_ok(i));
            if let Some(x) = a.insn_rec(i).parent {
                assert(b.block_rec(x).instructions == a.block_rec(x).instructions);
            }
        }
    }
    assert(b.cfg_wf()) by {
        assert forall|x: LocalBlockId| b.has_block(x) implies #[trigger] b.incident_ok(x) by {
            if a.has_block(x) {
                assert(a.incident_ok(x));
                assert(b.block_rec(x).edges == a.block_rec(x).edges);
            }
        }
        assert forall|e: EdgeId| b.has_edge(e) implies #[trigger] b.edge_ok(e) by {
            assert(a.edge_ok(e));
            assert(b.block_rec(a.edge_rec(e).from).edges == a.block_rec(a.edge_rec(e).from).edges);
            assert(b.block_rec(a.edge_rec(e).to).edges == a.block_rec(a.edge_rec(e).to).edges);
        }
    }
    assert(b.operands_bounded()) by {
        assert forall|i: LocalInsnId| #[trigger] b.has_insn(i) implies b.operands(i).len()
            <= 0x1_0000 by {
            if a.has_insn(i) {
                assert(b.insn_rec(i) == a.insn_rec(i));
            }
        }
    }
    assert forall|v: LocalValueId| b.head_of(v) == a.head_of(v) && (a.has_home(v) ==> b.has_home(
        v,
    )) by {
        match v {
            LocalValueId::Instruction(i) => {
                if a.has_insn(i) {
                    assert(b.insn_rec(i) == a.insn_rec(i));
                }
            },
            LocalValueId::BasicBlock(x) => {
                if a.has_block(x) {
                    assert(b.block_rec(x).first_use == a.block_rec(x).first_use);
                }
            },
            LocalValueId::BlockParam(p) => {
                if a.has_param(p) {
                    assert(b.param_rec(p) == a.param_rec(p));
                }
            },
            LocalValueId::Temp(t) => {
                assert(a.has_temp(t) ==> b.temps@[t.0 as int] == a.temps@[t.0 as int]);
            },
            _ => {},
        }
    }
    assert(b.use_lists_wf(None)) by {
        assert forall|v: LocalValueId| #[trigger] b.use_list_ok(v) by {
            assert(a.use_list_ok(v));
            assert forall|k: int| 0 <= k < b.use_list(v).len() implies #[trigger] b.use_linked_at(
                v,
                k,
            ) by {
                assert(a.use_linked_at(v, k));
            }
        }
        assert forall|u: UseId| b.has_use(u) implies #[trigger] b.use_list(
            b.use_rec(u).value,
        ).contains(u) by {
            assert(a.use_list(a.use_rec(u).value).contains(u));
        }
    }
    assert forall|i: LocalInsnId| a.has_insn(i) implies #[trigger] b.operands(i) == a.operands(
        i,
    ) by {
        assert(b.insn_rec(i) == a.insn_rec(i));
    }
    assert(b.uses_faithful()) by {
        assert forall|u: UseId| b.has_use(u) implies #[trigger] b.use_faithful(u) by {
            assert(a.use_faithful(u));
        }
        assert forall|u: UseId, w: UseId, i: LocalInsnId, k: int| #[trigger]
            b.is_use_of(u, i, k) && #[trigger] b.is_use_of(w, i, k) implies u == w by {
            assert(a.is_use_of(u, i, k) && a.is_use_of(w, i, k));
        }
    }
}

/// Adding a record that no operand names leaves the uses complete.
pub proof fn lemma_grown_complete(a: FunctionBody, b: FunctionBody, new: LocalValueId)
    requires
        a.wf(),
        grown(a, b),
        b.roster_wf(),
        names_known(b@),
        a.uses_complete(),
        a.unmentioned(new),
        b@.insns.dom() == a@.insns.dom(),
        forall|v: LocalValueId| #[trigger] b.has_home(v) ==> a.has_home(v) || v == new,
    ensures
        b.uses_complete(),
{
    lemma_grown(a, b);
    assert forall|i: LocalInsnId, k: int|
        b.has_insn(i) && 0 <= k < b.operands(i).len() && b.has_home(
            b.operands(i)[k],
        ) implies #[trigger] b.has_use_of(i, k) by {
        assert(b@.insns.contains_key(i));
        assert(a@.insns.contains_key(i));
        assert(b.operands(i) == a.operands(i));
        assert(a.operands(i) == a@.insns[i].mnemonic.operands);
        assert(a@.insns[i].mnemonic.operands[k] != new);
        assert(a.has_use_of(i, k));
        let u = choose|u: UseId| #[trigger] a.is_use_of(u, i, k);
        assert(b.is_use_of(u, i, k));
    }
}

impl FunctionBody {
    /// Adds an instruction, in no block, with a use for each of its operands.
    /// Where `insn` was copied from a linked one, its links are dropped.
    pub fn push_insn_local(&mut self, insn: Instruction) -> (local: LocalInsnId)
        requires
            old(self).wf(),
            old(self).insns.has_room(),
            name_known(old(self)@, insn.name),
            insn.mnemonic.operands().len() <= 0x1_0000,
            old(self).use_room(insn.mnemonic.operands().len() as int),
        ensures
            final(self).wf(),
            old(self).uses_complete() && old(self).unmentioned(LocalValueId::Instruction(local))
                ==> final(self).uses_complete(),
            operands_issued(old(self)@) ==> old(self).unmentioned(LocalValueId::Instruction(local)),
            operands_issued(old(self)@) && all_issued(final(self)@, insn@.mnemonic.operands)
                ==> operands_issued(final(self)@),
            local.0 == old(self)@.insns_issued,
            !old(self).has_insn(local),
            final(self).insn_rec(local).parent is None,
            final(self)@ == (BodyView {
                insns: old(self)@.insns.insert(local, insn@),
                insns_issued: old(self)@.insns_issued + 1,
                ..old(self)@
            }),
            edges_untouched(*old(self), *final(self)),
            final(self).uses@.len() <= old(self).uses@.len() + insn.mnemonic.operands().len(),
            forall|i: LocalInsnId|
                old(self).has_insn(i) ==> #[trigger] final(self).insn_rec(i).parent == old(
                    self,
                ).insn_rec(i).parent,
    {
        let ghost before = *self;
        let mut insn = insn;
        insn.parent = None;
        insn.prev = None;
        insn.next = None;
        insn.first_use = None;
        let raw: u32 = self.insns.push(insn);
        let local: LocalInsnId = LocalInsnId(raw);
        let ghost mid = *self;
        proof {
            assert forall|i: LocalInsnId| #[trigger] mid.has_insn(i) <==> before.has_insn(i) || i
                == local by {}
            assert(grown(before, mid));
            assert forall|u: UseId| #[trigger] mid.has_use(u) implies mid.occ(u).user != local by {
                assert(before.use_faithful(u));
                assert(mid.occ(u) == before.occ(u));
            }
            assert(mid@.insns =~= before@.insns.insert(local, insn@));
            assert(mid@.blocks =~= before@.blocks);
            assert(mid@.params =~= before@.params);
            assert(mid@.edges =~= before@.edges);
            lemma_names_known(before@, mid@);
            lemma_grown(before, mid);
        }
        self.add_operand_uses(local);
        proof {
            lemma_uses_frame(mid, *self);
            assert(self.insn_rec(local).parent == mid.insn_rec(local).parent);
            assert forall|i: LocalInsnId| before.has_insn(i) implies #[trigger] self.insn_rec(
                i,
            ).parent == before.insn_rec(i).parent by {
                assert(mid.has_insn(i));
                assert(mid.insn_rec(i) == before.insn_rec(i));
            }
            if operands_issued(before@) {
                lemma_unmentioned(before, LocalValueId::Instruction(local));
            }
            if before.uses_complete() && before.unmentioned(LocalValueId::Instruction(local)) {
                assert forall|i: LocalInsnId, k: int|
                    self.has_insn(i) && 0 <= k < self.operands(i).len() && self.has_home(
                        self.operands(i)[k],
                    ) implies #[trigger] self.has_use_of(i, k) by {
                    assert(mid.has_insn(i));
                    assert(self.operands(i) == mid.operands(i));
                    if i == local {
                        assert(mid.has_home(mid.operands(local)[k]));
                    } else {
                        assert(mid.operands(i) == before.operands(i));
                        let v = before.operands(i)[k];
                        assert(before@.insns.contains_key(i));
                        assert(v == before@.insns[i].mnemonic.operands[k]);
                        assert(v != LocalValueId::Instruction(local));
                        assert(mid.has_home(v));
                        assert(before.has_home(v));
                        assert(before.has_use_of(i, k));
                        let u = choose|u: UseId| #[trigger] before.is_use_of(u, i, k);
                        assert(mid.has_use(u));
                        assert(self.occ(u) == mid.occ(u));
                        assert(self.is_use_of(u, i, k));
                    }
                }
            }
        }
        local
    }

    /// Adds an instruction, in no block, with a use for each of its operands.
    pub fn push_insn(&mut self, insn: Instruction) -> (id: InstructionId)
        requires
            old(self).wf(),
            old(self).id is Some,
            old(self).insns.has_room(),
            name_known(old(self)@, insn.name),
            insn.mnemonic.operands().len() <= 0x1_0000,
            old(self).use_room(insn.mnemonic.operands().len() as int),
        ensures
            final(self).wf(),
            edges_untouched(*old(self), *final(self)),
            final(self).uses@.len() <= old(self).uses@.len() + insn.mnemonic.operands().len(),
            old(self).uses_complete() && old(self).unmentioned(LocalValueId::Instruction(id.local))
                ==> final(self).uses_complete(),
            operands_issued(old(self)@) ==> old(self).unmentioned(LocalValueId::Instruction(id.local)),
            operands_issued(old(self)@) && all_issued(final(self)@, insn@.mnemonic.operands)
                ==> operands_issued(final(self)@),
            Some(id.func) == old(self).id,
            id.local.0 == old(self)@.insns_issued,
            !old(self).has_insn(id.local),
            final(self).insn_rec(id.local).parent is None,
            final(self)@ == (BodyView {
                insns: old(self)@.insns.insert(id.local, insn@),
                insns_issued: old(self)@.insns_issued + 1,
                ..old(self)@
            }),
    {
        let func: FunctionId = self.id();
        InstructionId::new(func, self.push_insn_local(insn))
    }

    /// Adds an instruction with this operation and result type.
    pub fn push_mnemonic_with_type_local(&mut self, mnemonic: Mnemonic, type_id: TypeId) -> (local:
        LocalInsnId)
        requires
            old(self).wf(),
            old(self).insns.has_room(),
            mnemonic.operands().len() <= 0x1_0000,
            old(self).use_room(mnemonic.operands().len() as int),
        ensures
            final(self).wf(),
            edges_untouched(*old(self), *final(self)),
            final(self).uses@.len() <= old(self).uses@.len() + mnemonic.operands().len(),
            old(self).uses_complete() && old(self).unmentioned(LocalValueId::Instruction(local))
                ==> final(self).uses_complete(),
            operands_issued(old(self)@) ==> old(self).unmentioned(LocalValueId::Instruction(local)),
            operands_issued(old(self)@) && all_issued(final(self)@, mnemonic@.operands)
                ==> operands_issued(final(self)@),
            local.0 == old(self)@.insns_issued,
            !old(self).has_insn(local),
            final(self).insn_rec(local).parent is None,
            final(self)@ == (BodyView {
                insns: old(self)@.insns.insert(
                    local,
                    InsnView { name: None, type_id, mnemonic: mnemonic@, address: None },
                ),
                insns_issued: old(self)@.insns_issued + 1,
                ..old(self)@
            }),
    {
        self.push_insn_local(Instruction::new(type_id, mnemonic))
    }

    /// Adds an instruction with this operation and result type.
    pub fn push_mnemonic_with_type(&mut self, mnemonic: Mnemonic, type_id: TypeId) -> (id:
        InstructionId)
        requires
            old(self).wf(),
            old(self).id is Some,
            old(self).insns.has_room(),
            mnemonic.operands().len() <= 0x1_0000,
            old(self).use_room(mnemonic.operands().len() as int),
        ensures
            final(self).wf(),
            edges_untouched(*old(self), *final(self)),
            final(self).uses@.len() <= old(self).uses@.len() + mnemonic.operands().len(),
            old(self).uses_complete() && old(self).unmentioned(LocalValueId::Instruction(id.local))
                ==> final(self).uses_complete(),
            operands_issued(old(self)@) ==> old(self).unmentioned(LocalValueId::Instruction(id.local)),
            operands_issued(old(self)@) && all_issued(final(self)@, mnemonic@.operands)
                ==> operands_issued(final(self)@),
            Some(id.func) == old(self).id,
            id.local.0 == old(self)@.insns_issued,
            !old(self).has_insn(id.local),
            final(self).insn_rec(id.local).parent is None,
            final(self)@ == (BodyView {
                insns: old(self)@.insns.insert(
                    id.local,
                    InsnView { name: None, type_id, mnemonic: mnemonic@, address: None },
                ),
                insns_issued: old(self)@.insns_issued + 1,
                ..old(self)@
            }),
    {
        self.push_insn(Instruction::new(type_id, mnemonic))
    }

    /// Adds a block that is in no body yet, and rosters it.
    pub fn push_block_local(&mut self, block: BasicBlock) -> (local: LocalBlockId)
        requires
            old(self).wf(),
            old(self).blocks.has_room(),
            block.is_fresh(),
            name_known(old(self)@, block.name),
        ensures
            final(self).wf(),
            old(self).uses_complete() && old(self).unmentioned(LocalValueId::BasicBlock(local))
                ==> final(self).uses_complete(),
            operands_issued(old(self)@) ==> old(self).unmentioned(LocalValueId::BasicBlock(local)),
            operands_issued(old(self)@) ==> operands_issued(final(self)@),
            local.0 == old(self)@.blocks_issued,
            !old(self).has_block(local),
            edges_untouched(*old(self), *final(self)),
            final(self)@ == (BodyView {
                blocks: old(self)@.blocks.insert(local, block@),
                blocks_issued: old(self)@.blocks_issued + 1,
                roster: old(self)@.roster.push(local),
                ..old(self)@
            }),
            final(self).insns == old(self).insns,
            final(self).uses == old(self).uses,
            final(self).edges == old(self).edges,
            final(self).block_rec(local).edges@.len() == 0,
            forall|x: LocalBlockId|
                old(self).has_block(x) ==> #[trigger] final(self).block_rec(x) == old(
                    self,
                ).block_rec(x),
    {
        let ghost before = *self;
        let mut block = block;
        block.first_use = None;
        let raw: u32 = self.blocks.push(block);
        let local: LocalBlockId = LocalBlockId(raw);
        self.roster.push(local);
        proof {
            assert forall|x: LocalBlockId| #[trigger] self.has_block(x) <==> before.has_block(x)
                || x == local by {}
            assert(self.roster_wf()) by {
                assert forall|k: int| 0 <= k < self.roster@.len() implies self.has_block(
                    #[trigger] self.roster@[k],
                ) by {
                    if k < before.roster@.len() {
                        assert(before.has_block(before.roster@[k]));
                    }
                }
                assert forall|j: int, k: int| 0 <= j < k < self.roster@.len() implies self.roster@[j]
                    != self.roster@[k] by {
                    assert(before.has_block(before.roster@[j]));
                }
            }
            assert(grown(before, *self));
            assert(self@.insns =~= before@.insns);
            assert(self@.blocks =~= before@.blocks.insert(local, block@));
            assert(self@.params =~= before@.params);
            assert(self@.edges =~= before@.edges);
            lemma_names_known(before@, self@);
            lemma_grown(before, *self);
            if operands_issued(before@) {
                lemma_unmentioned(before, LocalValueId::BasicBlock(local));
            }
            if before.uses_complete() && before.unmentioned(LocalValueId::BasicBlock(local)) {
                lemma_grown_complete(before, *self, LocalValueId::BasicBlock(local));
            }
        }
        local
    }

    /// Adds a block that is in no body yet, and rosters it.
    pub fn push_block(&mut self, block: BasicBlock) -> (id: BlockId)
        requires
            old(self).wf(),
            old(self).id is Some,
            old(self).blocks.has_room(),
            block.is_fresh(),
            name_known(old(self)@, block.name),
        ensures
            final(self).wf(),
            old(self).uses_complete() && old(self).unmentioned(LocalValueId::BasicBlock(id.local))
                ==> final(self).uses_complete(),
            operands_issued(old(self)@) ==> old(self).unmentioned(LocalValueId::BasicBlock(id.local)),
            operands_issued(old(self)@) ==> operands_issued(final(self)@),
            Some(id.func) == old(self).id,
            id.local.0 == old(self)@.blocks_issued,
            !old(self).has_block(id.local),
            edges_untouched(*old(self), *final(self)),
            final(self)@ == (BodyView {
                blocks: old(self)@.blocks.insert(id.local, block@),
                blocks_issued: old(self)@.blocks_issued + 1,
                roster: old(self)@.roster.push(id.local),
                ..old(self)@
            }),
            final(self).insns == old(self).insns,
            final(self).uses == old(self).uses,
            final(self).edges == old(self).edges,
            final(self).block_rec(id.local).edges@.len() == 0,
            forall|x: LocalBlockId|
                old(self).has_block(x) ==> #[trigger] final(self).block_rec(x) == old(
                    self,
                ).block_rec(x),
    {
        let func: FunctionId = self.id();
        BlockId::new(func, self.push_block_local(block))
    }

    /// Adds an empty block.
    pub fn make_block_local(&mut self) -> (local: LocalBlockId)
        requires
            old(self).wf(),
            old(self).blocks.has_room(),
        ensures
            final(self).wf(),
            final(self).uses == old(self).uses,
            old(self).uses_complete() && old(self).unmentioned(LocalValueId::BasicBlock(local))
                ==> final(self).uses_complete(),
            operands_issued(old(self)@) ==> old(self).unmentioned(LocalValueId::BasicBlock(local)),
            operands_issued(old(self)@) ==> operands_issued(final(self)@),
            local.0 == old(self)@.blocks_issued,
            !old(self).has_block(local),
            edges_untouched(*old(self), *final(self)),
            final(self)@ == (BodyView {
                blocks: old(self)@.blocks.insert(local, empty_block()),
                blocks_issued: old(self)@.blocks_issued + 1,
                roster: old(self)@.roster.push(local),
                ..old(self)@
            }),
    {
        self.push_block_local(BasicBlock::detached())
    }

    /// Adds an empty block.
    pub fn make_block(&mut self) -> (id: BlockId)
        requires
            old(self).wf(),
            old(self).id is Some,
            old(self).blocks.has_room(),
        ensures
            final(self).wf(),
            old(self).uses_complete() && old(self).unmentioned(LocalValueId::BasicBlock(id.local))
                ==> final(self).uses_complete(),
            operands_issued(old(self)@) ==> old(self).unmentioned(LocalValueId::BasicBlock(id.local)),
            operands_issued(old(self)@) ==> operands_issued(final(self)@),
            Some(id.func) == old(self).id,
            id.local.0 == old(self)@.blocks_issued,
            !old(self).has_block(id.local),
            edges_untouched(*old(self), *final(self)),
            final(self)@ == (BodyView {
                blocks: old(self)@.blocks.insert(id.local, empty_block()),
                blocks_issued: old(self)@.blocks_issued + 1,
                roster: old(self)@.roster.push(id.local),
                ..old(self)@
            }),
            final(self).insns == old(self).insns,
            final(self).uses == old(self).uses,
            final(self).edges == old(self).edges,
            final(self).block_rec(id.local).edges@.len() == 0,
            forall|x: LocalBlockId|
                old(self).has_block(x) ==> #[trigger] final(self).block_rec(x) == old(
                    self,
                ).block_rec(x),
    {
        self.push_block(BasicBlock::detached())
    }

    /// Adds a block parameter that no block lists yet.
    pub fn push_block_param(&mut self, param: BlockParam) -> (id: BlockParamId)
        requires
            old(self).wf(),
            old(self).id is Some,
            old(self).params.has_room(),
            name_known(old(self)@, param.name),
        ensures
            final(self).wf(),
            edges_untouched(*old(self), *final(self)),
            final(self).uses@.len() == old(self).uses@.len(),
            old(self).uses_complete() && old(self).unmentioned(LocalValueId::BlockParam(id.local))
                ==> final(self).uses_complete(),
            operands_issued(old(self)@) ==> old(self).unmentioned(LocalValueId::BlockParam(id.local)),
            operands_issued(old(self)@) ==> operands_issued(final(self)@),
            Some(id.func) == old(self).id,
            id.local.0 == old(self)@.params_issued,
            !old(self).has_param(id.local),
            final(self)@ == (BodyView {
                params: old(self)@.params.insert(id.local, param@),
                params_issued: old(self)@.params_issued + 1,
                ..old(self)@
            }),
    {
        let ghost before = *self;
        let mut param = param;
        param.first_use = None;
        let func: FunctionId = self.id();
        let raw: u32 = self.params.push(param);
        let local: LocalParamId = LocalParamId(raw);
        proof {
            assert forall|p: LocalParamId| #[trigger] self.has_param(p) <==> before.has_param(p)
                || p == local by {}
            assert(grown(before, *self));
            assert(self@.insns =~= before@.insns);
            assert(self@.blocks =~= before@.blocks);
            assert(self@.params =~= before@.params.insert(local, param@));
            assert(self@.edges =~= before@.edges);
            lemma_names_known(before@, self@);
            lemma_grown(before, *self);
            if operands_issued(before@) {
                lemma_unmentioned(before, LocalValueId::BlockParam(local));
            }
            if before.uses_complete() && before.unmentioned(LocalValueId::BlockParam(local)) {
                lemma_grown_complete(before, *self, LocalValueId::BlockParam(local));
            }
        }
        BlockParamId::new(func, local)
    }

    /// Adds a block parameter at the end of `block`'s parameter list.
    pub fn push_block_param_local(&mut self, block: LocalBlockId, param: BlockParam) -> (local:
        LocalParamId)
        requires
            old(self).wf(),
            old(self)@.blocks.contains_key(block),
            old(self).params.has_room(),
            name_known(old(self)@, param.name),
        ensures
            final(self).wf(),
            final(self).uses == old(self).uses,
            old(self).uses_complete() && old(self).unmentioned(LocalValueId::BlockParam(local))
                ==> final(self).uses_complete(),
            operands_issued(old(self)@) ==> old(self).unmentioned(LocalValueId::BlockParam(local)),
            operands_issued(old(self)@) ==> operands_issued(final(self)@),
            local.0 == old(self)@.params_issued,
            !old(self).has_param(local),
            edges_untouched(*old(self), *final(self)),
            final(self)@ == (BodyView {
                params: old(self)@.params.insert(local, param@),
                params_issued: old(self)@.params_issued + 1,
                blocks: old(self)@.blocks.insert(
                    block,
                    BlockView {
                        params: old(self)@.blocks[block].params.push(local),
                        ..old(self)@.blocks[block]
                    },
                ),
                ..old(self)@
            }),
    {
        let ghost before = *self;
        let mut param = param;
        param.first_use = None;
        let raw: u32 = self.params.push(param);
        let local: LocalParamId = LocalParamId(raw);
        self.blocks.get_mut(block.0).params.push(local);
        proof {
            assert forall|p: LocalParamId| #[trigger] self.has_param(p) <==> before.has_param(p)
                || p == local by {}
            assert(grown(before, *self));
            assert(self.roster_wf()) by {
                assert forall|k: int| 0 <= k < self.roster@.len() implies self.has_block(
                    #[trigger] self.roster@[k],
                ) by {
                    assert(before.has_block(before.roster@[k]));
                }
            }
            assert(self@.insns =~= before@.insns);
            assert(self@.blocks =~= before@.blocks.insert(
                block,
                BlockView {
                    params: before@.blocks[block].params.push(local),
                    ..before@.blocks[block]
                },
            ));
            assert(self@.params =~= before@.params.insert(local, param@));
            assert(self@.edges =~= before@.edges);
            lemma_names_known(before@, self@);
            lemma_grown(before, *self);
            if operands_issued(before@) {
                lemma_unmentioned(before, LocalValueId::BlockParam(local));
            }
            if before.uses_complete() && before.unmentioned(LocalValueId::BlockParam(local)) {
                lemma_grown_complete(before, *self, LocalValueId::BlockParam(local));
            }
        }
        local
    }

    /// Stores a parameter that no block lists yet.
    pub fn push_loose_param(&mut self, param: BlockParam) -> (local: LocalParamId)
        requires
            old(self).wf(),
            old(self).params.has_room(),
            name_known(old(self)@, param.name),
        ensures
            final(self).wf(),
            final(self).uses == old(self).uses,
            old(self).uses_complete() && old(self).unmentioned(LocalValueId::BlockParam(local))
                ==> final(self).uses_complete(),
            operands_issued(old(self)@) ==> old(self).unmentioned(LocalValueId::BlockParam(local)),
            operands_issued(old(self)@) ==> operands_issued(final(self)@),
            local.0 == old(self)@.params_issued,
            !old(self).has_param(local),
            edges_untouched(*old(self), *final(self)),
            final(self)@ == (BodyView {
                params: old(self)@.params.insert(local, param@),
                params_issued: old(self)@.params_issued + 1,
                ..old(self)@
            }),
    {
        let ghost before = *self;
        let mut param = param;
        param.first_use = None;
        let raw: u32 = self.params.push(param);
        let local: LocalParamId = LocalParamId(raw);
        proof {
            assert forall|p: LocalParamId| #[trigger] self.has_param(p) <==> before.has_param(p)
                || p == local by {}
            assert(grown(before, *self));
            assert(self.roster_wf()) by {
                assert forall|k: int| 0 <= k < self.roster@.len() implies self.has_block(
                    #[trigger] self.roster@[k],
                ) by {
                    assert(before.has_block(before.roster@[k]));
                }
            }
            assert(self@.insns =~= before@.insns);
            assert(self@.blocks =~= before@.blocks);
            assert(self@.params =~= before@.params.insert(local, param@));
            assert(self@.edges =~= before@.edges);
            lemma_names_known(before@, self@);
            lemma_grown(before, *self);
            if operands_issued(before@) {
                lemma_unmentioned(before, LocalValueId::BlockParam(local));
            }
            if before.uses_complete() && before.unmentioned(LocalValueId::BlockParam(local)) {
                lemma_grown_complete(before, *self, LocalValueId::BlockParam(local));
            }
        }
        local
    }

    /// Adds a scratch space.
    pub fn push_temp_space(&mut self, space: TempSpace) -> (id: TempSpaceId)
        requires
            old(self).wf(),
            old(self).id is Some,
            old(self).temp_spaces@.len() < u32::MAX,
        ensures
            final(self).wf(),
            old(self).uses_complete() ==> final(self).uses_complete(),
            operands_issued(old(self)@) ==> operands_issued(final(self)@),
            edges_untouched(*old(self), *final(self)),
            final(self).uses@.len() <= old(self).uses@.len(),
            Some(id.func) == old(self).id,
            id.local.0 == old(self)@.temp_spaces.len(),
            final(self)@ == (BodyView {
                temp_spaces: old(self)@.temp_spaces.push(space),
                ..old(self)@
            }),
    {
        let ghost before = *self;
        let func: FunctionId = self.id();
        let local: LocalTempSpaceId = LocalTempSpaceId(self.temp_spaces.len() as u32);
        self.temp_spaces.push(space);
        proof {
            assert(grown(before, *self));
            assert(self@.insns =~= before@.insns);
            assert(self@.blocks =~= before@.blocks);
            assert(self@.params =~= before@.params);
            assert(self@.edges =~= before@.edges);
            lemma_names_known(before@, self@);
            lemma_grown(before, *self);
            if before.uses_complete() {
                assert(before.has_home(LocalValueId::Function(func)));
                assert forall|i: LocalInsnId, k: int|
                    self.has_insn(i) && 0 <= k < self.operands(i).len() && self.has_home(
                        self.operands(i)[k],
                    ) implies #[trigger] self.has_use_of(i, k) by {
                    assert(self.operands(i) == before.operands(i));
                    assert(before.has_home(before.operands(i)[k]));
                    assert(before.has_use_of(i, k));
                    let u = choose|u: UseId| #[trigger] before.is_use_of(u, i, k);
                    assert(self.is_use_of(u, i, k));
                }
            }
        }
        TempSpaceId::new(func, local)
    }

    /// Adds a scratch value of an existing scratch space. Where it has a name,
    /// the name must be free, and is registered for it.
    pub fn push_temp(&mut self, temp: Temp) -> (id: TempId)
        requires
            old(self).wf(),
            old(self).id is Some,
            temp.space.0 < old(self).temp_spaces@.len(),
            old(self).temps@.len() < u32::MAX,
            temp.name matches Some(name) ==> name.base.raw() < old(self)@.names.bases.len() && !old(
                self,
            )@.names.is_taken(name),
        ensures
            final(self).wf(),
            edges_untouched(*old(self), *final(self)),
            final(self).uses@.len() == old(self).uses@.len(),
            old(self).uses_complete() && old(self).unmentioned(LocalValueId::Temp(id.local))
                ==> final(self).uses_complete(),
            Some(id.func) == old(self).id,
            id.local.0 == old(self)@.temps.len(),
            final(self)@ == (BodyView {
                temps: old(self)@.temps.push(temp@),
                names: match temp.name {
                    Some(name) => NamesView {
                        held: old(self)@.names.held.insert(name, LocalValueId::Temp(id.local)),
                        ..old(self)@.names
                    },
                    None => old(self)@.names,
                },
                ..old(self)@
            }),
    {
        let ghost before = *self;
        let mut temp = temp;
        temp.first_use = None;
        let func: FunctionId = self.id();
        let name: Option<Name> = temp.name;
        let local: LocalTempId = LocalTempId(self.temps.len() as u32);
        self.temps.push(temp);
        if let Some(name) = name {
            let registered = self.names.register(name, LocalValueId::Temp(local));
        }
        proof {
            assert(grown(before, *self));
            assert(self@.insns =~= before@.insns);
            assert(self@.blocks =~= before@.blocks);
            assert(self@.params =~= before@.params);
            assert(self@.edges =~= before@.edges);
            assert(self@.temps =~= before@.temps.push(temp@));
            lemma_names_known(before@, self@);
            lemma_grown(before, *self);
            if before.uses_complete() && before.unmentioned(LocalValueId::Temp(local)) {
                lemma_grown_complete(before, *self, LocalValueId::Temp(local));
            }
        }
        TempId::new(func, local)
    }

    /// Appends an instruction to the end of `block`.
    pub fn append_insn_local(&mut self, block: LocalBlockId, insn: LocalInsnId)
        requires
            old(self).wf(),
            old(self)@.insns.contains_key(insn),
            old(self)@.blocks.contains_key(block),
        ensures
            final(self).wf(),
            final(self).uses == old(self).uses,
            old(self).uses_complete() ==> final(self).uses_complete(),
            operands_issued(old(self)@) ==> operands_issued(final(self)@),
            edges_untouched(*old(self), *final(self)),
            final(self)@ == moved_last(
                old(self)@,
                old(self).insn_rec(insn).parent,
                block,
                insn,
            ),
    {
        self.link_last(block, insn);
    }
}

/// A block with nothing in it.
pub open spec fn empty_block() -> BlockView {
    BlockView {
        name: None,
        comment: None,
        params: Seq::empty(),
        insns: Seq::empty(),
        address: None,
        extra_addresses: Seq::empty(),
    }
}

impl TempSpace {
    pub fn new(name: Option<String>, word_size: usize, addr_size: usize) -> (space: Self)
        ensures
            space == (TempSpace { name, word_size, addr_size }),
    {
        TempSpace { name, word_size, addr_size }
    }
}

impl Temp {
    pub fn new(offset: u64, size: usize, space: LocalTempSpaceId) -> (temp: Self)
        ensures
            temp == (Temp { offset, size, space, name: None, first_use: None }),
    {
        Temp { offset, size, space, name: None, first_use: None }
    }
}

} // verus!
