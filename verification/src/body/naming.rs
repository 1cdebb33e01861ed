//! The names of a body's values.

use crate::body::cfg::edges_untouched;
use crate::body::compose::operands_issued;
use crate::body::create::lemma_same_storage;
use crate::body::remove::forgotten;
use crate::body::{name_known, BlockView, BodyView, FunctionBody, ParamView, TempView};
use crate::context::Shared;
use crate::error::Error;
use crate::ids::LocalBlockId;
use crate::insn::instruction::InsnView;
use crate::names::{law_a_suffix_is_free, reads_as, LocalNames, Name, NamesView};
use crate::text::{hex, hex_name};
use crate::value::{LocalValueId, ValueId};
use vstd::prelude::*;
use vstd::string::*;

verus! {

broadcast use crate::base::group_bases;

/// Whether a value of `body` can have a name in it.
pub open spec fn nameable_in(body: FunctionBody, id: LocalValueId) -> bool {
    match id {
        LocalValueId::Instruction(i) => body@.insns.contains_key(i),
        LocalValueId::BasicBlock(b) => body@.blocks.contains_key(b),
        LocalValueId::BlockParam(p) => body@.params.contains_key(p),
        LocalValueId::Temp(t) => body.has_temp(t),
        _ => false,
    }
}

/// The name that the record of a value carries.
pub open spec fn own_name(body: BodyView, id: LocalValueId) -> Option<Name> {
    match id {
        LocalValueId::Instruction(i) => body.insns[i].name,
        LocalValueId::BasicBlock(b) => body.blocks[b].name,
        LocalValueId::BlockParam(p) => body.params[p].name,
        LocalValueId::Temp(t) => body.temps[t.0 as int].name,
        _ => None,
    }
}

/// `body` with the record of a value carrying `name`.
pub open spec fn with_name(body: BodyView, id: LocalValueId, name: Option<Name>) -> BodyView {
    match id {
        LocalValueId::Instruction(i) => BodyView {
            insns: body.insns.insert(i, InsnView { name, ..body.insns[i] }),
            ..body
        },
        LocalValueId::BasicBlock(b) => BodyView {
            blocks: body.blocks.insert(b, BlockView { name, ..body.blocks[b] }),
            ..body
        },
        LocalValueId::BlockParam(p) => BodyView {
            params: body.params.insert(p, ParamView { name, ..body.params[p] }),
            ..body
        },
        LocalValueId::Temp(t) => BodyView {
            temps: body.temps.update(
                t.0 as int,
                TempView { name, ..body.temps[t.0 as int] },
            ),
            ..body
        },
        _ => body,
    }
}

/// Whether `b` has the strings of `a`, and perhaps one more.
pub open spec fn bases_grown(
    a: NamesView<LocalValueId>,
    b: NamesView<LocalValueId>,
) -> bool {
    &&& a.bases.len() <= b.bases.len() <= a.bases.len() + 1
    &&& forall|i: int| 0 <= i < a.bases.len() ==> b.bases[i] == a.bases[i]
}

/// What naming the value `id` does, and when it is refused.
pub open spec fn rename_outcome(
    a: BodyView,
    b: BodyView,
    id: LocalValueId,
    text: Seq<char>,
    result: Result<(), Error>,
) -> bool {
    match result {
        Ok(_) => (a.names.found(text, id) && b == a) || ((forall|other: LocalValueId|
            !#[trigger] a.names.found(text, other)) && exists|name: Name|
            {
                &&& #[trigger] renamed(a, b, id, name)
                &&& reads_as(text, b.names.bases[name.base.raw() as int], name.suffix)
            }),
        Err(e) => b == a && (e matches Error::DuplicateName(t) && t@ == text)
            && exists|other: LocalValueId| other != id && #[trigger] a.names.found(text, other),
    }
}

/// `b` is `a` with the value `id` under `name` instead of the one it had.
pub open spec fn renamed(a: BodyView, b: BodyView, id: LocalValueId, name: Name) -> bool {
    &&& bases_grown(a.names, b.names)
    &&& name.base.raw() < b.names.bases.len()
    &&& b.names.labels == a.names.labels
    &&& b.names.held == forgotten(a.names, own_name(a, id)).held.insert(name, id)
    &&& b == with_name(BodyView { names: b.names, ..a }, id, Some(name))
}

/// The name of a value as text: its own, or else, for a block, its address.
pub open spec fn name_text(body: BodyView, id: LocalValueId) -> Option<Seq<char>> {
    match own_name(body, id) {
        Some(name) => Some(body.names.text_of(name)),
        None => match id {
            LocalValueId::BasicBlock(b) => match body.blocks[b].address {
                Some(address) => Some(hex(address as nat)),
                None => None,
            },
            _ => None,
        },
    }
}

impl FunctionBody {
    /// The name that the record of a value carries.
    fn carried_name(&self, id: LocalValueId) -> (name: Option<Name>)
        requires
            self.wf(),
            nameable_in(*self, id),
        ensures
            name == own_name(self@, id),
            name_known(self@, name),
    {
        match id {
            LocalValueId::Instruction(i) => {
                proof {
                    assert(self@.insns.contains_key(i));
                    assert(name_known(self@, self@.insns[i].name));
                }
                self.insns.get(i.0).name
            },
            LocalValueId::BasicBlock(b) => {
                proof {
                    assert(self@.blocks.contains_key(b));
                    assert(name_known(self@, self@.blocks[b].name));
                }
                self.blocks.get(b.0).name
            },
            LocalValueId::BlockParam(p) => {
                proof {
                    assert(self@.params.contains_key(p));
                    assert(name_known(self@, self@.params[p].name));
                }
                self.params.get(p.0).name
            },
            LocalValueId::Temp(t) => {
                proof {
                    assert(name_known(self@, self@.temps[t.0 as int].name));
                }
                self.temps[t.0 as usize].name
            },
            _ => None,
        }
    }

    /// Makes the record of a value carry `name`.
    fn carry_name(&mut self, id: LocalValueId, name: Option<Name>)
        requires
            old(self).wf(),
            nameable_in(*old(self), id),
            name_known(old(self)@, name),
        ensures
            final(self).wf(),
            old(self).uses_complete() ==> final(self).uses_complete(),
            edges_untouched(*old(self), *final(self)),
            final(self).uses@.len() <= old(self).uses@.len(),
            final(self)@ == with_name(old(self)@, id, name),
            crate::body::edit::same_frame(*old(self), *final(self)),
    {
        match id {
            LocalValueId::Instruction(i) => {
                let type_id = self.insns.get(i.0).type_id;
                let address = self.insns.get(i.0).address;
                self.edit_insn(i, name, type_id, address);
            },
            LocalValueId::BasicBlock(b) => {
                let address = self.blocks.get(b.0).address;
                self.edit_block(b, name, address);
            },
            LocalValueId::BlockParam(p) => {
                let type_id = self.params.get(p.0).type_id;
                let origin = self.params.get(p.0).origin;
                self.edit_param(p, name, type_id, origin);
            },
            LocalValueId::Temp(t) => {
                self.edit_temp(t, name);
            },
            _ => {},
        }
    }

    /// Puts a value under `name`, which nothing holds, instead of the one it
    /// had.
    fn take_name(&mut self, id: LocalValueId, name: Name)
        requires
            old(self).wf(),
            nameable_in(*old(self), id),
            name.base.raw() < old(self)@.names.bases.len(),
            !old(self)@.names.is_taken(name),
        ensures
            final(self).wf(),
            old(self).uses_complete() ==> final(self).uses_complete(),
            edges_untouched(*old(self), *final(self)),
            final(self).uses@.len() <= old(self).uses@.len(),
            renamed(old(self)@, final(self)@, id, name),
            final(self)@.names.bases == old(self)@.names.bases,
            crate::body::edit::same_frame(*old(self), *final(self)),
    {
        let ghost before = *self;
        if let Some(held) = self.carried_name(id) {
            self.names.forget(held);
        }
        let ghost loose = self.names@;
        let registered = self.names.register(name, id);
        proof {
            assert(loose == forgotten(before@.names, own_name(before@, id)));
            assert(!loose.is_taken(name));
            lemma_same_storage(before, *self);
            assert(nameable_in(*self, id));
        }
        let ghost mid = *self;
        self.carry_name(id, Some(name));
        proof {
            assert(mid@ == (BodyView { names: mid@.names, ..before@ }));
        }
    }

    /// Names a value. Where another value has that name the name is refused;
    /// where the value itself has it, nothing changes.
    pub fn rename(&mut self, id: LocalValueId, text: &str) -> (result: Result<(), Error>)
        requires
            old(self).wf(),
            nameable_in(*old(self), id),
            old(self)@.names.bases.len() < crate::base::BASE_LIMIT,
        ensures
            final(self).wf(),
            old(self).uses_complete() ==> final(self).uses_complete(),
            operands_issued(old(self)@) ==> operands_issued(final(self)@),
            edges_untouched(*old(self), *final(self)),
            final(self).uses@.len() <= old(self).uses@.len(),
            result is Ok ==> final(self)@.names.found(text@, id),
            match result {
                Ok(_) => (old(self)@.names.found(text@, id) && *final(self) == *old(self)) || ((
                forall|other: LocalValueId| !#[trigger] old(self)@.names.found(text@, other))
                    && exists|name: Name|
                    {
                        &&& #[trigger] renamed(old(self)@, final(self)@, id, name)
                        &&& reads_as(
                            text@,
                            final(self)@.names.bases[name.base.raw() as int],
                            name.suffix,
                        )
                    }),
                Err(e) => *final(self) == *old(self) && (e matches Error::DuplicateName(t) && t@
                    == text@) && exists|other: LocalValueId|
                    other != id && #[trigger] old(self)@.names.found(text@, other),
            },
    {
        if let Some(holder) = self.names.get(text) {
            if holder == id {
                return Ok(());
            }
            return Err(Error::DuplicateName(String::from_str(text)));
        }
        let ghost before = *self;
        let name = self.names.parse(text);
        let ghost mid = *self;
        proof {
            lemma_same_storage(before, *self);
            lemma_not_taken(before@.names, mid@.names, text@, name);
            assert(nameable_in(*self, id));
        }
        self.take_name(id, name);
        proof {
            assert(own_name(mid@, id) == own_name(before@, id));
            assert(renamed(before@, self@, id, name));
            assert(self@.names.held.contains_key(name) && self@.names.held[name] == id);
        }
        Ok(())
    }

    /// Names a block.
    pub fn rename_block_local(&mut self, block: LocalBlockId, text: &str) -> (result: Result<
        (),
        Error,
    >)
        requires
            old(self).wf(),
            old(self)@.blocks.contains_key(block),
            old(self)@.names.bases.len() < crate::base::BASE_LIMIT,
        ensures
            final(self).wf(),
            old(self).uses_complete() ==> final(self).uses_complete(),
            operands_issued(old(self)@) ==> operands_issued(final(self)@),
            edges_untouched(*old(self), *final(self)),
            final(self).uses@.len() <= old(self).uses@.len(),
            match result {
                Ok(_) => (old(self)@.names.found(text@, LocalValueId::BasicBlock(block))
                    && *final(self) == *old(self)) || ((forall|other: LocalValueId|
                    !#[trigger] old(self)@.names.found(text@, other)) && exists|name: Name|
                    {
                        &&& #[trigger] renamed(
                            old(self)@,
                            final(self)@,
                            LocalValueId::BasicBlock(block),
                            name,
                        )
                        &&& reads_as(
                            text@,
                            final(self)@.names.bases[name.base.raw() as int],
                            name.suffix,
                        )
                    }),
                Err(e) => *final(self) == *old(self) && (e matches Error::DuplicateName(t) && t@
                    == text@) && exists|other: LocalValueId|
                    other != LocalValueId::BasicBlock(block) && #[trigger] old(self)@.names.found(
                        text@,
                        other,
                    ),
            },
    {
        self.rename(LocalValueId::BasicBlock(block), text)
    }

    /// Names a value of this function.
    pub fn register_body_name(&mut self, id: ValueId, text: &str) -> (result: Result<(), Error>)
        requires
            old(self).wf(),
            old(self).id is Some,
            id.is_local_to(old(self).id->0),
            nameable_in(*old(self), id.stripped()),
            old(self)@.names.bases.len() < crate::base::BASE_LIMIT,
        ensures
            final(self).wf(),
            old(self).uses_complete() ==> final(self).uses_complete(),
            operands_issued(old(self)@) ==> operands_issued(final(self)@),
            edges_untouched(*old(self), *final(self)),
            final(self).uses@.len() <= old(self).uses@.len(),
            match result {
                Ok(_) => (old(self)@.names.found(text@, id.stripped()) && *final(self) == *old(
                    self,
                )) || ((forall|other: LocalValueId|
                    !#[trigger] old(self)@.names.found(text@, other)) && exists|name: Name|
                    {
                        &&& #[trigger] renamed(old(self)@, final(self)@, id.stripped(), name)
                        &&& reads_as(
                            text@,
                            final(self)@.names.bases[name.base.raw() as int],
                            name.suffix,
                        )
                    }),
                Err(e) => *final(self) == *old(self) && (e matches Error::DuplicateName(t) && t@
                    == text@) && exists|other: LocalValueId|
                    other != id.stripped() && #[trigger] old(self)@.names.found(text@, other),
            },
    {
        self.rename(id.strip_func(), text)
    }

    /// Names a value of this function. Of a value that no function holds it is
    /// only asked whether it has that name: a body cannot give it one, so
    /// something has to be called so.
    pub fn register_local_name(&mut self, shared: &Shared, id: ValueId, text: &str) -> (result:
        Result<(), Error>)
        requires
            if id.arena_function() is None {
                shared.wf() && exists|other: ValueId| #[trigger]
                    shared.name_map@.found(text@, other)
            } else {
                &&& old(self).wf()
                &&& old(self).id is Some
                &&& id.is_local_to(old(self).id->0)
                &&& nameable_in(*old(self), id.stripped())
                &&& old(self)@.names.bases.len() < crate::base::BASE_LIMIT
            },
        ensures
            id.arena_function() is None ==> {
                &&& *final(self) == *old(self)
                &&& result is Ok <==> shared.name_map@.found(text@, id)
                &&& result matches Err(e) ==> (e matches Error::DuplicateName(t) && t@ == text@)
            },
            id.arena_function() is Some ==> {
                &&& final(self).wf()
                &&& old(self).uses_complete() ==> final(self).uses_complete()
                &&& operands_issued(old(self)@) ==> operands_issued(final(self)@)
                &&& final(self).uses@.len() <= old(self).uses@.len()
                &&& rename_outcome(old(self)@, final(self)@, id.stripped(), text@, result)
                &&& result is Err || old(self)@.names.found(text@, id.stripped())
                    ==> *final(self) == *old(self)
            },
            edges_untouched(*old(self), *final(self)),
    {
        if id.name_scope_function().is_none() {
            return match shared.get_named(text) {
                Some(existing) if existing == id => Ok(()),
                _ => Err(Error::DuplicateName(String::from_str(text))),
            };
        }
        self.register_body_name(id, text)
    }

    /// The names that texts are read as, which nothing need hold.
    pub(crate) fn read_names(&mut self, texts: &Vec<Option<String>>) -> (names: Vec<Option<Name>>)
        requires
            old(self).wf(),
            old(self)@.names.bases.len() + texts@.len() <= crate::base::BASE_LIMIT,
        ensures
            final(self).wf(),
            old(self).uses_complete() ==> final(self).uses_complete(),
            final(self)@ == (BodyView { names: final(self)@.names, ..old(self)@ }),
            final(self).uses == old(self).uses,
            final(self).blocks == old(self).blocks,
            final(self)@.names.held == old(self)@.names.held,
            final(self)@.names.labels == old(self)@.names.labels,
            old(self)@.names.bases.len() <= final(self)@.names.bases.len() <= old(
                self,
            )@.names.bases.len() + texts@.len(),
            forall|i: int|
                0 <= i < old(self)@.names.bases.len() ==> final(self)@.names.bases[i] == old(
                    self,
                )@.names.bases[i],
            names@.len() == texts@.len(),
            forall|k: int|
                0 <= k < names@.len() ==> read_as_text(
                    final(self)@.names,
                    texts@[k],
                    #[trigger] names@[k],
                ),
    {
        let mut names: Vec<Option<Name>> = Vec::new();
        let mut k: usize = 0;
        while k < texts.len()
            invariant
                k <= texts.len(),
                self.wf(),
                old(self).uses_complete() ==> self.uses_complete(),
                self.uses@.len() <= old(self).uses@.len(),
                self@ == (BodyView { names: self@.names, ..old(self)@ }),
                self.uses == old(self).uses,
                self.blocks == old(self).blocks,
                self@.names.held == old(self)@.names.held,
                self@.names.labels == old(self)@.names.labels,
                old(self)@.names.bases.len() + texts@.len() <= crate::base::BASE_LIMIT,
                old(self)@.names.bases.len() <= self@.names.bases.len() <= old(
                    self,
                )@.names.bases.len() + k,
                forall|i: int|
                    0 <= i < old(self)@.names.bases.len() ==> self@.names.bases[i] == old(
                        self,
                    )@.names.bases[i],
                names@.len() == k,
                forall|j: int|
                    0 <= j < k ==> read_as_text(self@.names, texts@[j], #[trigger] names@[j]),
            decreases texts.len() - k,
        {
            let ghost before = *self;
            let name = match &texts[k] {
                Some(text) => Some(self.names.parse(text.as_str())),
                None => None,
            };
            proof {
                lemma_same_storage(before, *self);
                assert forall|j: int| 0 <= j < k implies read_as_text(
                    self@.names,
                    texts@[j],
                    #[trigger] names@[j],
                ) by {
                    assert(read_as_text(before@.names, texts@[j], names@[j]));
                }
            }
            names.push(name);
            k = k + 1;
        }
        names
    }

    /// Names a value after `text`, with the first free suffix where that name
    /// is taken.
    pub fn rename_unique(&mut self, id: LocalValueId, text: &str) -> (name: Name)
        requires
            old(self).wf(),
            nameable_in(*old(self), id),
            old(self)@.names.bases.len() < crate::base::BASE_LIMIT,
            old(self)@.names.few(),
        ensures
            final(self).wf(),
            old(self).uses_complete() ==> final(self).uses_complete(),
            operands_issued(old(self)@) ==> operands_issued(final(self)@),
            edges_untouched(*old(self), *final(self)),
            final(self).uses@.len() <= old(self).uses@.len(),
            renamed(old(self)@, final(self)@, id, name),
            uniquely_named(old(self)@.names, final(self)@.names, text@, name),
            crate::body::edit::same_frame(*old(self), *final(self)),
    {
        let ghost before = *self;
        let wanted = self.names.parse(text);
        let ghost mid = *self;
        proof {
            lemma_same_storage(before, *self);
            law_a_suffix_is_free(mid@.names, wanted.base);
            assert(nameable_in(*self, id));
        }
        let name = self.names.peek_unique(wanted);
        proof {
            if mid@.names.is_taken(wanted) {
                assert(name.suffix >= 1);
                assert(!mid@.names.held.contains_key(name));
            }
        }
        self.take_name(id, name);
        proof {
            assert(own_name(mid@, id) == own_name(before@, id));
            assert(reads_as(text@, mid@.names.bases[wanted.base.raw() as int], wanted.suffix));
            assert(unique_from(before@.names, mid@.names.bases, wanted, name));
            assert(crate::body::edit::same_frame(before, mid));
            assert(crate::body::edit::same_frame(mid, *self));
            assert(crate::body::edit::same_frame(before, *self));
        }
        name
    }

    /// The value under a name, or labelled with the address it spells.
    pub fn local_named(&self, text: &str) -> (id: Option<LocalValueId>)
        requires
            self.wf(),
        ensures
            match id {
                Some(id) => self@.names.found(text@, id),
                None => forall|other: LocalValueId| !#[trigger] self@.names.found(text@, other),
            },
            self@.names.answers(text@, id),
            forall|other: LocalValueId| #[trigger]
                self@.names.found(text@, other) ==> id == Some(other),
    {
        self.names.get(text)
    }

    /// The name of a value, if it has one.
    pub fn local_name_of(&self, id: LocalValueId) -> (text: Option<String>)
        requires
            self.wf(),
            nameable_in(*self, id),
        ensures
            match name_text(self@, id) {
                Some(t) => text matches Some(text) && text@ == t,
                None => text is None,
            },
    {
        match self.carried_name(id) {
            Some(name) => Some(self.names.render(name)),
            None => match id {
                LocalValueId::BasicBlock(b) => match self.blocks.get(b.0).address {
                    Some(address) => Some(hex_name(address)),
                    None => None,
                },
                _ => None,
            },
        }
    }

    /// Labels a block with an address, unless something has that label or is
    /// called like it.
    pub fn label_block(&mut self, block: LocalBlockId, address: u64) -> (result: Result<(), Error>)
        requires
            old(self).wf(),
        ensures
            final(self).wf(),
            old(self).uses_complete() ==> final(self).uses_complete(),
            operands_issued(old(self)@) ==> operands_issued(final(self)@),
            final(self).blocks == old(self).blocks,
            final(self).uses@.len() <= old(self).uses@.len(),
            match result {
                Ok(_) => !address_taken(old(self)@.names, address) && final(self)@ == (BodyView {
                    names: NamesView {
                        labels: old(self)@.names.labels.insert(
                            address,
                            LocalValueId::BasicBlock(block),
                        ),
                        ..old(self)@.names
                    },
                    ..old(self)@
                }),
                Err(e) => address_taken(old(self)@.names, address) && *final(self) == *old(self)
                    && (e matches Error::DuplicateName(text) && text@ == hex(address as nat)),
            },
            crate::body::edit::same_frame(*old(self), *final(self)),
    {
        let ghost before = *self;
        let result = self.names.label(address, LocalValueId::BasicBlock(block));
        proof {
            lemma_same_storage(before, *self);
        }
        result
    }

    /// Takes the label of a block away, where the block has it.
    pub fn unlabel_block(&mut self, block: LocalBlockId, address: u64)
        requires
            old(self).wf(),
        ensures
            final(self).wf(),
            old(self).uses_complete() ==> final(self).uses_complete(),
            operands_issued(old(self)@) ==> operands_issued(final(self)@),
            final(self).blocks == old(self).blocks,
            final(self).uses@.len() <= old(self).uses@.len(),
            final(self)@ == (BodyView {
                names: unlabelled(old(self)@.names, block, address),
                ..old(self)@
            }),
            crate::body::edit::same_frame(*old(self), *final(self)),
    {
        let ghost before = *self;
        let mine = match self.names.label_holder(address) {
            Some(holder) => holder == LocalValueId::BasicBlock(block),
            None => false,
        };
        if mine {
            self.names.forget_label(address);
        }
        proof {
            lemma_same_storage(before, *self);
        }
    }
}

/// Whether `name` is a known name that is written as `text`.
pub open spec fn read_as_text(
    names: NamesView<LocalValueId>,
    text: Option<String>,
    name: Option<Name>,
) -> bool {
    match (text, name) {
        (Some(text), Some(name)) => name.base.raw() < names.bases.len() && names.text_of(name)
            == text@,
        (None, None) => true,
        _ => false,
    }
}

/// `names` without the label of `block` at `address`.
pub open spec fn unlabelled(
    names: NamesView<LocalValueId>,
    block: LocalBlockId,
    address: u64,
) -> NamesView<LocalValueId> {
    if names.labels.contains_key(address) && names.labels[address] == LocalValueId::BasicBlock(
        block,
    ) {
        NamesView { labels: names.labels.remove(address), ..names }
    } else {
        names
    }
}

/// Whether something has the label of an address, or is called like it.
pub open spec fn address_taken(names: NamesView<LocalValueId>, address: u64) -> bool {
    names.labels.contains_key(address) || exists|i: u32|
        i < names.bases.len() && names.bases[i as int] == hex(address as nat)
            && #[trigger] names.held.contains_key(
            Name { base: crate::base::BaseId::new(i), suffix: 0 },
        )
}

/// `name` is `wanted` or, where that is taken in `names` with the strings
/// `bases`, its base with the first free suffix.
pub open spec fn unique_from(
    names: NamesView<LocalValueId>,
    bases: Seq<Seq<char>>,
    wanted: Name,
    name: Name,
) -> bool {
    let grown = NamesView { bases, ..names };
    &&& name.base == wanted.base
    &&& if grown.is_taken(wanted) {
        LocalNames::first_free(grown, wanted.base, name.suffix)
    } else {
        name == wanted
    }
}

/// `name` is the name for `text`, made unique.
pub open spec fn uniquely_named(
    a: NamesView<LocalValueId>,
    b: NamesView<LocalValueId>,
    text: Seq<char>,
    name: Name,
) -> bool {
    exists|wanted: Name|
        {
            &&& wanted.base.raw() < b.bases.len()
            &&& reads_as(text, b.bases[wanted.base.raw() as int], wanted.suffix)
            &&& #[trigger] unique_from(a, b.bases, wanted, name)
        }
}

/// A name under which nothing is found is free.
proof fn lemma_not_taken(
    before: NamesView<LocalValueId>,
    after: NamesView<LocalValueId>,
    text: Seq<char>,
    name: Name,
)
    requires
        forall|other: LocalValueId| !#[trigger] before.found(text, other),
        after.held == before.held,
        after.labels == before.labels,
        forall|i: int| 0 <= i < before.bases.len() ==> after.bases[i] == before.bases[i],
        reads_as(text, after.bases[name.base.raw() as int], name.suffix),
        before.held.contains_key(name) ==> name.base.raw() < before.bases.len(),
    ensures
        !after.is_taken(name),
{
    if after.held.contains_key(name) {
        assert(before.found(text, before.held[name]));
    }
    if name.suffix == 0 && after.labelled(after.text_of(name)) {
        let a = choose|a: u64|
            after.labels.contains_key(a) && #[trigger] hex(a as nat) == after.text_of(name);
        assert(before.found(text, before.labels[a]));
    }
}

/// A value that is named is found under the name or had it; a name is refused
/// exactly where another value has it and the value itself has not, and then
/// nothing changes. What else there is stays.
pub proof fn law_a_taken_name_is_refused(
    a: BodyView,
    b: BodyView,
    id: LocalValueId,
    text: Seq<char>,
    result: Result<(), Error>,
    other: LocalValueId,
)
    requires
        rename_outcome(a, b, id, text, result),
        id is Instruction || id is BasicBlock || id is BlockParam,
    ensures
        result is Ok ==> b.names.found(text, id),
        result is Err ==> b == a && exists|x: LocalValueId|
            x != id && #[trigger] a.names.found(text, x),
        other != id && a.names.found(text, other) && !a.names.found(text, id) ==> result is Err,
        b.edges == a.edges,
        b.roster == a.roster,
        b.root == a.root,
        b.insns_issued == a.insns_issued,
{
    if result is Ok && !a.names.found(text, id) {
        let name = choose|name: Name|
            {
                &&& #[trigger] renamed(a, b, id, name)
                &&& reads_as(text, b.names.bases[name.base.raw() as int], name.suffix)
            };
        assert(b.names.held.contains_key(name) && b.names.held[name] == id);
    }
}

/// The name of a value as it is written: its own where it has one, and for a
/// block without one its address.
pub proof fn law_a_value_is_called_by_its_name(body: BodyView, id: LocalValueId)
    ensures
        own_name(body, id) matches Some(name) ==> name_text(body, id) == Some(
            body.names.text_of(name),
        ),
        id matches LocalValueId::BasicBlock(b) ==> (own_name(body, id) is None
            && body.blocks[b].address is Some ==> name_text(body, id) == Some(
            hex(body.blocks[b].address->0 as nat),
        )),
        own_name(body, id) is None && !(id is BasicBlock) ==> name_text(body, id) is None,
{
}

} // verus!
