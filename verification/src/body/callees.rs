//! Resolving the placeholders of functions that are made during a pass.

use crate::body::cfg::edges_untouched;
use crate::body::compose::operands_issued;
use crate::body::edit::{lemma_names_stay_known, lemma_same_frame, same_frame};
use crate::body::{BodyView, FunctionBody};
use crate::ids::{FunctionId, LocalInsnId};
use crate::insn::instruction::InsnView;
use crate::insn::mnemonic::{with_callee, MnemonicView, Shape};
use crate::insn::terminator::Callee;
use vstd::prelude::*;

verus! {

/// The placeholder that an operation of this shape names as its callee.
pub open spec fn minted_slot(shape: Shape) -> Option<u32> {
    match shape {
        Shape::Call { target, args, clobbers, tag } => target.minted_slot(),
        Shape::TailCall { target, args } => target.minted_slot(),
        Shape::Apply { target, args } => target.minted_slot(),
        Shape::ArrayMap { body, captures } => body.minted_slot(),
        Shape::Scan { body, captures } => body.minted_slot(),
        _ => None,
    }
}

/// The function that `installed` has for a placeholder.
pub open spec fn installed_at(installed: Seq<FunctionId>, slot: u32) -> Option<FunctionId> {
    if slot < installed.len() {
        Some(installed[slot as int])
    } else {
        None
    }
}

/// `insn` with its callee resolved as `resolve` says.
pub open spec fn with_resolved(
    insn: InsnView,
    resolve: spec_fn(u32) -> Option<FunctionId>,
) -> InsnView {
    match minted_slot(insn.mnemonic.shape) {
        Some(slot) => match resolve(slot) {
            Some(function) => InsnView {
                mnemonic: MnemonicView {
                    shape: with_callee(insn.mnemonic.shape, Callee::Real(function)),
                    operands: insn.mnemonic.operands,
                },
                ..insn
            },
            None => insn,
        },
        None => insn,
    }
}

/// `body` with the callees of the instructions below index `n` resolved.
pub open spec fn with_resolved_below(
    body: BodyView,
    resolve: spec_fn(u32) -> Option<FunctionId>,
    n: int,
) -> BodyView {
    BodyView {
        insns: Map::new(
            |i: LocalInsnId| body.insns.contains_key(i),
            |i: LocalInsnId|
                if i.0 < n {
                    with_resolved(body.insns[i], resolve)
                } else {
                    body.insns[i]
                },
        ),
        ..body
    }
}

/// How many instructions below index `n` name a placeholder that `resolve`
/// resolves.
pub open spec fn resolvable_below(
    body: BodyView,
    resolve: spec_fn(u32) -> Option<FunctionId>,
    n: int,
) -> nat
    decreases n,
{
    if n <= 0 {
        0
    } else {
        let i = LocalInsnId((n - 1) as u32);
        resolvable_below(body, resolve, n - 1) + (if body.insns.contains_key(i) && (minted_slot(
            body.insns[i].mnemonic.shape,
        ) matches Some(slot) && resolve(slot) is Some) {
            1nat
        } else {
            0
        })
    }
}

/// What an instruction names as its callee, by its shape.
proof fn lemma_minted_slot(m: crate::insn::mnemonic::Mnemonic)
    ensures
        minted_slot(m@.shape) == (match m.callee() {
            Some(callee) => callee.minted_slot(),
            None => None,
        }),
{
}

impl FunctionBody {
    /// Resolves the callee of one instruction.
    fn resolve_one(&mut self, insn: LocalInsnId, slot: u32, function: FunctionId) -> (resolved:
        bool)
        requires
            old(self).wf(),
            old(self).has_insn(insn),
        ensures
            final(self).wf(),
            old(self).uses_complete() ==> final(self).uses_complete(),
            final(self).blocks == old(self).blocks,
            final(self).uses@.len() <= old(self).uses@.len(),
            same_frame(*old(self), *final(self)),
            resolved == (minted_slot(old(self)@.insns[insn].mnemonic.shape) == Some(slot)),
            final(self)@ == (BodyView {
                insns: old(self)@.insns.insert(
                    insn,
                    with_resolved(
                        old(self)@.insns[insn],
                        |s: u32|
                            if s == slot {
                                Some(function)
                            } else {
                                None
                            },
                    ),
                ),
                ..old(self)@
            }),
    {
        let ghost before = *self;
        proof {
            lemma_minted_slot(self.insn_rec(insn).mnemonic);
        }
        let rec = self.insns.get_mut(insn.0);
        let resolved = rec.mnemonic.resolve_minted_callee(slot, function);
        proof {
            assert forall|i: LocalInsnId| #[trigger] self.has_insn(i) == before.has_insn(i) by {}
            assert(self@.insns =~= before@.insns.insert(
                insn,
                with_resolved(
                    before@.insns[insn],
                    |s: u32|
                        if s == slot {
                            Some(function)
                        } else {
                            None
                        },
                ),
            ));
            assert(self@.blocks =~= before@.blocks);
            assert(self@.params =~= before@.params);
            assert(self@.edges =~= before@.edges);
            lemma_names_stay_known(before@, self@);
            lemma_same_frame(before, *self);
        }
        resolved
    }

    /// Resolves one placeholder throughout the body; how many instructions
    /// named it.
    pub fn resolve_minted_callee(&mut self, slot: u32, function: FunctionId) -> (patched: usize)
        requires
            old(self).wf(),
        ensures
            final(self).wf(),
            old(self).uses_complete() ==> final(self).uses_complete(),
            operands_issued(old(self)@) ==> operands_issued(final(self)@),
            edges_untouched(*old(self), *final(self)),
            final(self).uses@.len() <= old(self).uses@.len(),
            ({
                let resolve = |s: u32|
                    if s == slot {
                        Some(function)
                    } else {
                        None
                    };
                let n = old(self)@.insns_issued as int;
                &&& final(self)@ == with_resolved_below(old(self)@, resolve, n)
                &&& patched == resolvable_below(old(self)@, resolve, n)
            }),
    {
        let ghost before = *self;
        let ghost resolve = |s: u32|
            if s == slot {
                Some(function)
            } else {
                None
            };
        let n: u32 = self.insns.issued() as u32;
        let mut patched: usize = 0;
        let mut i: u32 = 0;
        proof {
            assert(self@.insns =~= with_resolved_below(before@, resolve, 0).insns);
        }
        while i < n
            invariant
                self.wf(),
                before.uses_complete() ==> self.uses_complete(),
                self.blocks == before.blocks,
                self.uses@.len() <= before.uses@.len(),
                i <= n,
                n == before@.insns_issued,
                n == self@.insns_issued,
                patched <= i,
                resolve == (|s: u32|
                    if s == slot {
                        Some(function)
                    } else {
                        None
                    }),
                self@ == with_resolved_below(before@, resolve, i as int),
                patched == resolvable_below(before@, resolve, i as int),
            decreases n - i,
        {
            let ghost at = LocalInsnId(i);
            if self.insns.contains(i) {
                let ghost mid = *self;
                proof {
                    assert(mid@.insns.contains_key(at));
                    assert(mid@.insns[at] == before@.insns[at]);
                }
                let hit = self.resolve_one(LocalInsnId(i), slot, function);
                if hit {
                    patched = patched + 1;
                }
                proof {
                    assert(self@.insns =~= with_resolved_below(before@, resolve, i + 1).insns);
                }
            } else {
                proof {
                    assert(!self@.insns.contains_key(at));
                    assert(!before@.insns.contains_key(at));
                    assert(self@.insns =~= with_resolved_below(before@, resolve, i + 1).insns);
                }
            }
            i = i + 1;
        }
        patched
    }

    /// Resolves every placeholder of the body to the function that `installed`
    /// has for it, in the order of the instructions' indices; how many
    /// instructions named one. Where `installed` has none the placeholder is
    /// returned, and the instructions from there on stay as they are.
    pub fn resolve_minted_callees(&mut self, installed: &Vec<FunctionId>) -> (result: Result<
        usize,
        u32,
    >)
        requires
            old(self).wf(),
        ensures
            final(self).wf(),
            old(self).uses_complete() ==> final(self).uses_complete(),
            operands_issued(old(self)@) ==> operands_issued(final(self)@),
            edges_untouched(*old(self), *final(self)),
            final(self).uses@.len() <= old(self).uses@.len(),
            ({
                let resolve = |s: u32| installed_at(installed@, s);
                let n = old(self)@.insns_issued as int;
                match result {
                    Ok(patched) => {
                        &&& final(self)@ == with_resolved_below(old(self)@, resolve, n)
                        &&& patched == resolvable_below(old(self)@, resolve, n)
                        &&& forall|i: LocalInsnId| #[trigger]
                            old(self)@.insns.contains_key(i) ==> slot_installed(
                                old(self)@,
                                i,
                                installed@,
                            )
                    },
                    Err(slot) => exists|i: LocalInsnId|
                        {
                            &&& #[trigger] old(self)@.insns.contains_key(i)
                            &&& minted_slot(old(self)@.insns[i].mnemonic.shape) == Some(slot)
                            &&& slot >= installed@.len()
                            &&& final(self)@ == with_resolved_below(old(self)@, resolve, i.0 as int)
                            &&& forall|j: LocalInsnId|
                                j.0 < i.0 && #[trigger] old(self)@.insns.contains_key(j)
                                    ==> slot_installed(old(self)@, j, installed@)
                        },
                }
            }),
    {
        let ghost before = *self;
        let ghost resolve = |s: u32| installed_at(installed@, s);
        let n: u32 = self.insns.issued() as u32;
        let mut patched: usize = 0;
        let mut i: u32 = 0;
        proof {
            assert(self@.insns =~= with_resolved_below(before@, resolve, 0).insns);
        }
        while i < n
            invariant
                self.wf(),
                before == *old(self),
                before.uses_complete() ==> self.uses_complete(),
                self.blocks == before.blocks,
                self.uses@.len() <= before.uses@.len(),
                i <= n,
                n == before@.insns_issued,
                n == self@.insns_issued,
                patched <= i,
                resolve == (|s: u32| installed_at(installed@, s)),
                self@ == with_resolved_below(before@, resolve, i as int),
                patched == resolvable_below(before@, resolve, i as int),
                forall|j: LocalInsnId|
                    j.0 < i && #[trigger] before@.insns.contains_key(j) ==> slot_installed(
                        before@,
                        j,
                        installed@,
                    ),
            decreases n - i,
        {
            let ghost at = LocalInsnId(i);
            if self.insns.contains(i) {
                let ghost mid = *self;
                proof {
                    assert(mid@.insns.contains_key(at));
                    assert(mid@.insns[at] == before@.insns[at]);
                    lemma_minted_slot(self.insn_rec(at).mnemonic);
                }
                if let Some(slot) = self.insns.get(i).mnemonic.minted_callee_slot() {
                    if slot as usize >= installed.len() {
                        proof {
                            assert(before@.insns.contains_key(at));
                        }
                        return Err(slot);
                    }
                    let hit = self.resolve_one(LocalInsnId(i), slot, installed[slot as usize]);
                    patched = patched + 1;
                }
                proof {
                    assert(self@.insns =~= with_resolved_below(before@, resolve, i + 1).insns);
                }
            } else {
                proof {
                    assert(!self@.insns.contains_key(at));
                    assert(!before@.insns.contains_key(at));
                    assert(self@.insns =~= with_resolved_below(before@, resolve, i + 1).insns);
                }
            }
            i = i + 1;
        }
        proof {
            assert forall|j: LocalInsnId| #[trigger]
                before@.insns.contains_key(j) implies slot_installed(
                before@,
                j,
                installed@,
            ) by {
                assert(before.has_insn(j));
            }
        }
        Ok(patched)
    }
}

/// Whether `installed` has a function for the placeholder that instruction `i`
/// names, if it names one.
pub open spec fn slot_installed(body: BodyView, i: LocalInsnId, installed: Seq<FunctionId>) -> bool {
    minted_slot(body.insns[i].mnemonic.shape) matches Some(slot) ==> slot < installed.len()
}

/// Where every placeholder has a function, no instruction calls one
/// afterwards, and the operands stay.
pub proof fn law_no_placeholder_stays(body: BodyView, installed: Seq<FunctionId>, i: LocalInsnId)
    requires
        body.insns.contains_key(i),
        i.0 < body.insns_issued,
        slot_installed(body, i, installed),
    ensures
        ({
            let after = with_resolved_below(
                body,
                |s: u32| installed_at(installed, s),
                body.insns_issued as int,
            );
            &&& minted_slot(after.insns[i].mnemonic.shape) is None
            &&& after.insns[i].mnemonic.operands == body.insns[i].mnemonic.operands
        }),
{
}

/// Whether the field that names a function, of those operations that have one,
/// holds `callee`.
pub open spec fn field_holds(shape: Shape, callee: Callee) -> bool {
    ||| shape matches Shape::Call { target, args, clobbers, tag } && target == callee
    ||| shape matches Shape::TailCall { target, args } && target == callee
    ||| shape matches Shape::Apply { target, args } && target == callee
    ||| shape matches Shape::ArrayMap { body, captures } && body == callee
    ||| shape matches Shape::Scan { body, captures } && body == callee
}

/// Whether two shapes differ in nothing but the function that they name.
pub open spec fn same_but_callee(a: Shape, b: Shape) -> bool {
    match (a, b) {
        (
            Shape::Call { target, args, clobbers, tag },
            Shape::Call { target: t, args: n, clobbers: c, tag: g },
        ) => args == n && clobbers == c && tag == g,
        (Shape::TailCall { target, args }, Shape::TailCall { target: t, args: n }) => args == n,
        (Shape::Apply { target, args }, Shape::Apply { target: t, args: n }) => args == n,
        (Shape::ArrayMap { body, captures }, Shape::ArrayMap { body: t, captures: n }) => captures
            == n,
        (Shape::Scan { body, captures }, Shape::Scan { body: t, captures: n }) => captures == n,
        _ => a == b,
    }
}

/// After all placeholders were resolved no field holds one: where it held one
/// it holds the function that was installed for it, where it held a function it
/// still does, and nothing else of the instruction changes.
pub proof fn law_every_placeholder_becomes_its_function(
    body: BodyView,
    installed: Seq<FunctionId>,
    i: LocalInsnId,
    slot: u32,
    function: FunctionId,
)
    requires
        body.insns.contains_key(i),
        i.0 < body.insns_issued,
        slot_installed(body, i, installed),
    ensures
        ({
            let after = with_resolved_below(
                body,
                |s: u32| installed_at(installed, s),
                body.insns_issued as int,
            );
            let (was, is) = (body.insns[i].mnemonic.shape, after.insns[i].mnemonic.shape);
            &&& after.insns.dom() =~= body.insns.dom()
            &&& !field_holds(is, Callee::Minted(slot))
            &&& field_holds(was, Callee::Minted(slot)) ==> slot < installed.len() && field_holds(
                is,
                Callee::Real(installed[slot as int]),
            )
            &&& field_holds(was, Callee::Real(function)) ==> field_holds(is, Callee::Real(function))
            &&& same_but_callee(was, is)
            &&& after.insns[i] == (InsnView {
                mnemonic: MnemonicView { shape: is, ..body.insns[i].mnemonic },
                ..body.insns[i]
            })
        }),
{
}

/// Resolving one placeholder puts the function in the fields that held it, and
/// leaves every other field alone.
pub proof fn law_one_placeholder_becomes_its_function(
    body: BodyView,
    slot: u32,
    function: FunctionId,
    i: LocalInsnId,
    callee: Callee,
)
    requires
        body.insns.contains_key(i),
        i.0 < body.insns_issued,
    ensures
        ({
            let after = with_resolved_below(
                body,
                |s: u32|
                    if s == slot {
                        Some(function)
                    } else {
                        None
                    },
                body.insns_issued as int,
            );
            let (was, is) = (body.insns[i].mnemonic.shape, after.insns[i].mnemonic.shape);
            &&& field_holds(was, Callee::Minted(slot)) ==> field_holds(is, Callee::Real(function))
            &&& !field_holds(is, Callee::Minted(slot))
            &&& callee != Callee::Minted(slot) && field_holds(was, callee) ==> is == was
            &&& same_but_callee(was, is)
            &&& after.insns[i].mnemonic.operands == body.insns[i].mnemonic.operands
        }),
{
}

/// An instruction counts, once, exactly where its field holds a placeholder that
/// is resolved.
pub proof fn law_each_resolved_field_counts_once(
    body: BodyView,
    resolve: spec_fn(u32) -> Option<FunctionId>,
    i: LocalInsnId,
    slot: u32,
)
    ensures
        body.insns.contains_key(i) && field_holds(body.insns[i].mnemonic.shape, Callee::Minted(slot))
            && resolve(slot) is Some ==> resolvable_below(body, resolve, i.0 + 1)
            == resolvable_below(body, resolve, i.0 as int) + 1,
        (!body.insns.contains_key(i) || forall|s: u32|
            field_holds(body.insns[i].mnemonic.shape, Callee::Minted(s)) ==> (#[trigger] resolve(
                s,
            )) is None) ==> resolvable_below(body, resolve, i.0 + 1) == resolvable_below(
            body,
            resolve,
            i.0 as int,
        ),
        resolvable_below(body, resolve, 0) == 0,
{
    if body.insns.contains_key(i) {
        if let Some(s) = minted_slot(body.insns[i].mnemonic.shape) {
            assert(field_holds(body.insns[i].mnemonic.shape, Callee::Minted(s)));
            let _ = resolve(s);
        }
    }
}

} // verus!
