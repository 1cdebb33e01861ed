//! Emptying a body, and taking back what was built last.

use crate::body::cfg::edges_untouched;
use crate::body::compose::operands_issued;
use crate::body::create::{is_empty_body, ticked};
use crate::body::remove::forgotten;
use crate::body::{name_known, names_known, BlockView, BodyView, FunctionBody, ParamView, TempView};
use crate::ids::{EdgeId, LocalBlockId, LocalInsnId, LocalParamId, LocalTempId, UseId};
use crate::insn::instruction::InsnView;
use crate::names::{Name, NamesView};
use crate::value::LocalValueId;
use vstd::prelude::*;

verus! {

/// `names` without the names of the first `n` scratch values from `first` on.
pub open spec fn temps_forgotten(
    names: NamesView<LocalValueId>,
    temps: Seq<TempView>,
    first: int,
    n: nat,
) -> NamesView<LocalValueId>
    decreases n,
{
    if n == 0 {
        names
    } else {
        forgotten(
            temps_forgotten(names, temps, first, (n - 1) as nat),
            temps[first + n - 1].name,
        )
    }
}

/// Where a prefix of `n` scratch values of `len` ends.
pub open spec fn kept(n: usize, len: nat) -> nat {
    if n <= len {
        n as nat
    } else {
        len
    }
}

impl FunctionBody {
    /// Empties the body. Indices are handed out from zero again, so nothing
    /// that was handed out before may be used.
    pub fn start_epoch(&mut self)
        requires
            old(self).wf(),
        ensures
            is_empty_body(*final(self), old(self).id),
            final(self)@.names.bases == old(self)@.names.bases,
            final(self)@.names.held == Map::<Name, LocalValueId>::empty(),
            final(self)@.names.labels == Map::<u64, LocalValueId>::empty(),
            final(self)@.shape_ticks == ticked(old(self)@).shape_ticks,
    {
        self.touch_shape();
        self.insns.clear();
        self.blocks.clear();
        self.params.clear();
        self.edges.clear();
        self.roster.clear();
        self.root = None;
        self.temps.truncate(0);
        self.temp_spaces.truncate(0);
        self.instruction_addrs.clear();
        self.names.clear();
        self.uses.clear();
        self.shared_first_use.clear();
        self.use_lists = Ghost(Map::empty());
        proof {
            assert(self@.insns =~= Map::<LocalInsnId, InsnView>::empty());
            assert(self@.blocks =~= Map::<LocalBlockId, BlockView>::empty());
            assert(self@.params =~= Map::<LocalParamId, ParamView>::empty());
            assert(self@.edges =~= Map::<EdgeId, crate::block::EdgeData>::empty());
            assert(self@.temps =~= Seq::<TempView>::empty());
            assert(self@.temp_spaces =~= Seq::<crate::body::TempSpace>::empty());
            assert forall|v: LocalValueId| #[trigger] self.use_list_ok(v) by {
                assert(self.use_list(v) =~= Seq::<UseId>::empty());
            }
            assert(names_known(self@));
        }
    }

    /// Drops the scratch values and spaces that came after the first `temps`
    /// and `temp_spaces` of them, and their names. No operand may name a
    /// dropped value.
    pub fn take_back_temps(&mut self, temps: usize, temp_spaces: usize)
        requires
            old(self).wf(),
            forall|t: LocalTempId|
                temps <= t.0 < old(self).temps@.len() ==> (#[trigger] old(self).use_list(
                    LocalValueId::Temp(t),
                )).len() == 0,
        ensures
            final(self).wf(),
            old(self).uses_complete() ==> final(self).uses_complete(),
            operands_issued(old(self)@) ==> operands_issued(final(self)@),
            edges_untouched(*old(self), *final(self)),
            final(self).uses@.len() <= old(self).uses@.len(),
            final(self)@ == (BodyView {
                temps: old(self)@.temps.take(kept(temps, old(self)@.temps.len()) as int),
                temp_spaces: old(self)@.temp_spaces.take(
                    kept(temp_spaces, old(self)@.temp_spaces.len()) as int,
                ),
                names: temps_forgotten(
                    old(self)@.names,
                    old(self)@.temps,
                    kept(temps, old(self)@.temps.len()) as int,
                    (old(self)@.temps.len() - kept(temps, old(self)@.temps.len())) as nat,
                ),
                ..old(self)@
            }),
    {
        let ghost before = *self;
        let len: usize = self.temps.len();
        let first: usize = if temps <= len {
            temps
        } else {
            len
        };
        let mut i: usize = first;
        while i < len
            invariant
                first <= i <= len,
                len == before.temps@.len(),
                before.wf(),
                *self == (FunctionBody { names: self.names, ..before }),
                self.names.wf(),
                self.names@ == temps_forgotten(
                    before@.names,
                    before@.temps,
                    first as int,
                    (i - first) as nat,
                ),
                self.names@.bases == before@.names.bases,
            decreases len - i,
        {
            proof {
                assert(name_known(before@, before@.temps[i as int].name));
                assert(before@.temps[i as int].name == before.temps@[i as int].name);
            }
            if let Some(name) = self.temps[i].name {
                self.names.forget(name);
            }
            i = i + 1;
        }
        self.temps.truncate(first);
        self.temp_spaces.truncate(temp_spaces);
        proof {
            let b = *self;
            assert(b.temps@ =~= before.temps@.take(first as int));
            assert(b@.temps =~= before@.temps.take(first as int));
            assert(b@.temp_spaces =~= before@.temp_spaces.take(
                kept(temp_spaces, before@.temp_spaces.len()) as int,
            ));
            assert(b@.insns =~= before@.insns);
            assert(b@.blocks =~= before@.blocks);
            assert(b@.params =~= before@.params);
            assert(b@.edges =~= before@.edges);
            lemma_fewer_temps(before, b);
        }
    }
}

/// What holds of a body holds of it without scratch values that nothing uses.
proof fn lemma_fewer_temps(a: FunctionBody, b: FunctionBody)
    requires
        a.wf(),
        b == (FunctionBody {
            names: b.names,
            temps: b.temps,
            temp_spaces: b.temp_spaces,
            ..a
        }),
        b.temps@.len() <= a.temps@.len(),
        b.temps@ == a.temps@.take(b.temps@.len() as int),
        b.temp_spaces@.len() <= a.temp_spaces@.len(),
        b.names.wf(),
        b.names@.bases == a.names@.bases,
        forall|t: LocalTempId|
            b.temps@.len() <= t.0 < a.temps@.len() ==> (#[trigger] a.use_list(
                LocalValueId::Temp(t),
            )).len() == 0,
    ensures
        b.wf(),
        a.uses_complete() ==> b.uses_complete(),
{
    assert(names_known(b@)) by {
        assert(b@.insns =~= a@.insns);
        assert(b@.blocks =~= a@.blocks);
        assert(b@.params =~= a@.params);
        assert forall|i: LocalInsnId| b@.insns.contains_key(i) implies name_known(
            b@,
            #[trigger] b@.insns[i].name,
        ) by {
            assert(name_known(a@, a@.insns[i].name));
        }
        assert forall|i: LocalBlockId| b@.blocks.contains_key(i) implies name_known(
            b@,
            #[trigger] b@.blocks[i].name,
        ) by {
            assert(name_known(a@, a@.blocks[i].name));
        }
        assert forall|i: LocalParamId| b@.params.contains_key(i) implies name_known(
            b@,
            #[trigger] b@.params[i].name,
        ) by {
            assert(name_known(a@, a@.params[i].name));
        }
        assert forall|t: int| 0 <= t < b@.temps.len() implies name_known(
            b@,
            #[trigger] b@.temps[t].name,
        ) by {
            assert(b.temps@[t] == a.temps@[t]);
            assert(name_known(a@, a@.temps[t].name));
        }
    }
    assert forall|x: LocalBlockId| b.has_block(x) implies #[trigger] b.list_ok(x) by {
        assert(a.list_ok(x));
        assert forall|k: int| 0 <= k < b.order(x).len() implies #[trigger] b.linked_at(x, k) by {
            assert(a.linked_at(x, k));
        }
    }
    assert forall|i: LocalInsnId| b.has_insn(i) implies #[trigger] b.placed_ok(i) by {
        assert(a.placed_ok(i));
    }
    assert(b.cfg_wf()) by {
        assert forall|x: LocalBlockId| b.has_block(x) implies #[trigger] b.incident_ok(x) by {
            assert(a.incident_ok(x));
        }
        assert forall|e: EdgeId| b.has_edge(e) implies #[trigger] b.edge_ok(e) by {
            assert(a.edge_ok(e));
        }
    }
    assert(b.operands_bounded()) by {
        assert forall|i: LocalInsnId| #[trigger] b.has_insn(i) implies b.operands(i).len()
            <= 0x1_0000 by {
            assert(a.has_insn(i));
        }
    }
    assert(b.roster_wf()) by {
        assert forall|k: int| 0 <= k < b.roster@.len() implies b.has_block(
            #[trigger] b.roster@[k],
        ) by {
            assert(a.has_block(a.roster@[k]));
        }
    }
    assert(b.use_lists_wf(None)) by {
        assert forall|v: LocalValueId| #[trigger] b.use_list_ok(v) by {
            assert(a.use_list_ok(v));
            assert(b.use_list(v) == a.use_list(v));
            if let LocalValueId::Temp(t) = v {
                if t.0 < b.temps@.len() {
                    assert(b.temps@[t.0 as int] == a.temps@[t.0 as int]);
                } else if t.0 < a.temps@.len() {
                    assert(a.use_list(LocalValueId::Temp(t)).len() == 0);
                }
            }
            assert forall|k: int| 0 <= k < b.use_list(v).len() implies #[trigger] b.use_linked_at(
                v,
                k,
            ) by {
                assert(a.use_linked_at(v, k));
            }
        }
        assert forall|u: UseId| b.has_use(u) implies #[trigger] b.use_list(
            b.use_rec(u).value,
        ).contains(u) by {
            assert(a.use_list(a.use_rec(u).value).contains(u));
        }
    }
    assert(b.uses_faithful()) by {
        assert forall|u: UseId| b.has_use(u) implies #[trigger] b.use_faithful(u) by {
            assert(a.use_faithful(u));
        }
        assert forall|u: UseId, w: UseId, i: LocalInsnId, k: int| #[trigger]
            b.is_use_of(u, i, k) && #[trigger] b.is_use_of(w, i, k) implies u == w by {
            assert(a.is_use_of(u, i, k) && a.is_use_of(w, i, k));
        }
    }
    if a.uses_complete() {
        assert forall|i: LocalInsnId, k: int|
            b.has_insn(i) && 0 <= k < b.operands(i).len() && b.has_home(
                b.operands(i)[k],
            ) implies #[trigger] b.has_use_of(i, k) by {
            assert(a.has_home(a.operands(i)[k]));
            assert(a.has_use_of(i, k));
            let u = choose|u: UseId| #[trigger] a.is_use_of(u, i, k);
            assert(b.is_use_of(u, i, k));
        }
    }
}

} // verus!
