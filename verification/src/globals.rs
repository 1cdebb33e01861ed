//! The names of the values that no function holds: functions, storage
//! locations and constants have one table, so that no two of them share a
//! name. A memory space is no value, and its name is not in the table.

use crate::context::{Context, Shared};
use crate::error::Error;
use crate::names::{reads_as, LocalNames, Name, NamesView};
use crate::text::hex;
use crate::value::ValueId;
use vstd::prelude::*;
use vstd::string::*;

verus! {

broadcast use crate::base::group_bases;

/// `b` has the strings of `a`, and perhaps one more, and `id` under `name`.
pub open spec fn name_added(
    a: NamesView<ValueId>,
    b: NamesView<ValueId>,
    id: ValueId,
    name: Name,
) -> bool {
    &&& a.bases.len() <= b.bases.len() <= a.bases.len() + 1
    &&& forall|i: int| 0 <= i < a.bases.len() ==> b.bases[i] == a.bases[i]
    &&& name.base.raw() < b.bases.len()
    &&& b.labels == a.labels
    &&& b.held == a.held.insert(name, id)
}

/// Whether `name` is the name for `text` in `b`, made unique against `a`.
pub open spec fn unique_for(
    a: NamesView<ValueId>,
    b: NamesView<ValueId>,
    text: Seq<char>,
    name: Name,
) -> bool {
    exists|wanted: Name|
        {
            &&& #[trigger] wanted_for(b, text, wanted)
            &&& name.base == wanted.base
            &&& if (NamesView { bases: b.bases, ..a }).is_taken(wanted) {
                LocalNames::first_free(
                    NamesView { bases: b.bases, ..a },
                    wanted.base,
                    name.suffix,
                )
            } else {
                name == wanted
            }
        }
}

/// Whether `text` is read as `wanted`.
pub open spec fn wanted_for(names: NamesView<ValueId>, text: Seq<char>, wanted: Name) -> bool {
    wanted.base.raw() < names.bases.len() && reads_as(
        text,
        names.bases[wanted.base.raw() as int],
        wanted.suffix,
    )
}

/// `b` is `a` with `id` under `is`, which `after` is read as, and no longer
/// under `was`, which `before` is read as.
pub open spec fn name_replaced(
    a: NamesView<ValueId>,
    b: NamesView<ValueId>,
    id: ValueId,
    before: Seq<char>,
    was: Name,
    after: Seq<char>,
    is: Name,
) -> bool {
    &&& a.bases.len() <= b.bases.len() <= a.bases.len() + 2
    &&& forall|i: int| 0 <= i < a.bases.len() ==> b.bases[i] == a.bases[i]
    &&& b.labels == a.labels
    &&& wanted_for(b, before, was)
    &&& wanted_for(b, after, is)
    &&& b.held == (if a.held.contains_key(was) && a.held[was] == id {
        a.held.remove(was)
    } else {
        a.held
    }).insert(is, id)
}

/// `b` is `a` with `id` under the name `text` is read as, in place of the one
/// `before` is read as.
pub open spec fn name_entered(
    a: NamesView<ValueId>,
    b: NamesView<ValueId>,
    id: ValueId,
    before: Option<Seq<char>>,
    text: Seq<char>,
) -> bool {
    if before is Some {
        exists|was: Name, is: Name| #[trigger]
            name_replaced(a, b, id, before->0, was, text, is)
    } else {
        exists|is: Name| #[trigger] name_added(a, b, id, is) && wanted_for(b, text, is)
    }
}

/// What naming `id` after `text`, in place of the name `before` is read as,
/// does to a table, and when it is refused.
pub open spec fn name_updated(
    a: NamesView<ValueId>,
    b: NamesView<ValueId>,
    id: ValueId,
    before: Option<Seq<char>>,
    text: Seq<char>,
    result: Result<(), Error>,
) -> bool {
    match result {
        Ok(_) => {
            &&& b.found(text, id)
            &&& if a.found(text, id) {
                b == a
            } else {
                &&& forall|other: ValueId| !#[trigger] a.found(text, other)
                &&& name_entered(a, b, id, before, text)
            }
        },
        Err(e) => {
            &&& e matches Error::DuplicateName(t)
            &&& t@ == text
            &&& b == a
            &&& exists|other: ValueId| other != id && #[trigger] a.found(text, other)
        },
    }
}

/// A name under which nothing is found is free.
pub(crate) proof fn lemma_free(
    before: NamesView<ValueId>,
    after: NamesView<ValueId>,
    text: Seq<char>,
    name: Name,
)
    requires
        forall|other: ValueId| !#[trigger] before.found(text, other),
        after.held == before.held,
        after.labels == before.labels,
        forall|i: int| 0 <= i < before.bases.len() ==> after.bases[i] == before.bases[i],
        reads_as(text, after.bases[name.base.raw() as int], name.suffix),
        before.held.contains_key(name) ==> name.base.raw() < before.bases.len(),
    ensures
        !after.is_taken(name),
{
    if after.held.contains_key(name) {
        assert(before.found(text, before.held[name]));
    }
    if name.suffix == 0 && after.labelled(after.text_of(name)) {
        let a = choose|a: u64|
            after.labels.contains_key(a) && #[trigger] hex(a as nat) == after.text_of(name);
        assert(before.found(text, before.labels[a]));
    }
}

impl Shared {
    /// The value called `name`.
    pub fn get_named(&self, name: &str) -> (id: Option<ValueId>)
        requires
            self.wf(),
        ensures
            match id {
                Some(id) => self.name_map@.found(name@, id),
                None => forall|other: ValueId| !#[trigger] self.name_map@.found(name@, other),
            },
            self.name_map@.answers(name@, id),
            forall|other: ValueId| #[trigger]
                self.name_map@.found(name@, other) ==> id == Some(other),
    {
        self.name_map.get(name)
    }

    /// Names a value that no function holds. Where another one has that name
    /// the name is refused; where the value itself has it, nothing changes. It
    /// gives up the name that `old_name` is read as, where it has it.
    pub fn update_name(&mut self, name: &str, id: ValueId, old_name: Option<&str>) -> (result:
        Result<(), Error>)
        requires
            old(self).wf(),
            id.arena_function() is None,
            old(self).name_map@.bases.len() + (if old_name is Some {
                1int
            } else {
                0
            }) < crate::base::BASE_LIMIT,
        ensures
            final(self).wf(),
            *final(self) == (Shared { name_map: final(self).name_map, ..*old(self) }),
            old(self).name_map@.found(name@, id) || result is Err ==> *final(self) == *old(self),
            name_updated(
                old(self).name_map@,
                final(self).name_map@,
                id,
                match old_name {
                    Some(text) => Some(text@),
                    None => None,
                },
                name@,
                result,
            ),
    {
        let ghost before = self.name_map@;
        if let Some(holder) = self.name_map.get(name) {
            if holder != id {
                return Err(Error::DuplicateName(String::from_str(name)));
            }
            return Ok(());
        }
        let wanted = self.name_map.parse(name);
        let ghost read = self.name_map@;
        proof {
            lemma_free(before, read, name@, wanted);
        }
        if let Some(held) = old_name {
            let was = self.name_map.parse(held);
            let ghost both_read = self.name_map@;
            proof {
                assert(both_read.bases[wanted.base.raw() as int]
                    == read.bases[wanted.base.raw() as int]);
                assert(both_read.text_of(wanted) == read.text_of(wanted));
            }
            let mine = match self.name_map.holder(was) {
                Some(holder) => holder == id,
                None => false,
            };
            if mine {
                self.name_map.forget(was);
            }
            let registered = self.name_map.register(wanted, id);
            proof {
                assert(registered is Ok);
                let after = self.name_map@;
                assert(after.held.contains_key(wanted) && after.held[wanted] == id);
                assert(reads_as(name@, after.bases[wanted.base.raw() as int], wanted.suffix));
                assert(after.found(name@, id));
                let given = Some(held@);
                assert(name_replaced(before, after, id, given->0, was, name@, wanted));
                assert(name_entered(before, after, id, given, name@));
            }
        } else {
            let registered = self.name_map.register(wanted, id);
            proof {
                assert(registered is Ok);
                let after = self.name_map@;
                assert(after.held.contains_key(wanted) && after.held[wanted] == id);
                assert(reads_as(name@, after.bases[wanted.base.raw() as int], wanted.suffix));
                assert(after.found(name@, id));
                assert(name_added(before, after, id, wanted));
                assert(wanted_for(after, name@, wanted));
                assert(name_entered(before, after, id, None, name@));
            }
        }
        Ok(())
    }
}

impl Context {
    /// The names of what no function holds.
    pub open spec fn names(&self) -> NamesView<ValueId> {
        self.shared.name_map@
    }

    /// The value called `name`, of those that no function holds.
    pub fn get_named(&self, name: &str) -> (id: Option<ValueId>)
        requires
            self.wf(),
        ensures
            match id {
                Some(id) => self.names().found(name@, id),
                None => forall|other: ValueId| !#[trigger] self.names().found(name@, other),
            },
            self.names().answers(name@, id),
            forall|other: ValueId| #[trigger]
                self.names().found(name@, other) ==> id == Some(other),
    {
        self.shared.get_named(name)
    }
}

/// A value that is named is found under the name, a name that another value has
/// is refused and nothing changes, and no other value loses its name.
pub proof fn law_a_name_is_given_once(
    a: NamesView<ValueId>,
    b: NamesView<ValueId>,
    id: ValueId,
    before: Option<Seq<char>>,
    text: Seq<char>,
    result: Result<(), Error>,
    other: ValueId,
    name: Name,
)
    requires
        name_updated(a, b, id, before, text, result),
        forall|n: Name| #[trigger] a.held.contains_key(n) ==> n.base.raw() < a.bases.len(),
    ensures
        result is Ok ==> b.found(text, id),
        result is Err ==> b == a,
        other != id && a.found(text, other) && !a.found(text, id) ==> result is Err,
        a.held.contains_key(name) && a.held[name] != id ==> b.held.contains_key(name)
            && b.held[name] == a.held[name],
        b.labels == a.labels,
{
    if result is Ok && !a.found(text, id) {
        assert(name_entered(a, b, id, before, text));
        if before is Some {
            let (was, is) = choose|was: Name, is: Name| #[trigger]
                name_replaced(a, b, id, before->0, was, text, is);
            if a.held.contains_key(is) {
                assert(reads_as(text, a.bases[is.base.raw() as int], is.suffix));
                assert(a.found(text, a.held[is]));
            }
        } else {
            let is = choose|is: Name| #[trigger]
                name_added(a, b, id, is) && wanted_for(b, text, is);
            if a.held.contains_key(is) {
                assert(reads_as(text, a.bases[is.base.raw() as int], is.suffix));
                assert(a.found(text, a.held[is]));
            }
        }
    }
}

} // verus!
