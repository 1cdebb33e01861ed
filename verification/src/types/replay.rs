//! Taking the type table apart into its types, and building it again.

use crate::types::intern::known;
use crate::types::{
    admissible, field_views, table_ok, AggregateField, TypeManager, TypeRepr, TypeView,
};
use vstd::prelude::*;
use vstd::string::*;

verus! {

/// What a list of types is.
pub open spec fn type_views(reprs: Seq<TypeRepr>) -> Seq<TypeView> {
    reprs.map_values(|r: TypeRepr| r@)
}

/// The table that asking for the first `n` of `types` in order builds; `None`
/// where one of them cannot be built when its turn comes.
pub open spec fn replayed(types: Seq<TypeView>, n: nat) -> Option<Seq<TypeView>>
    decreases n,
{
    if n == 0 {
        Some(Seq::empty())
    } else {
        match replayed(types, (n - 1) as nat) {
            Some(t) => {
                let v = types[n - 1];
                if t.len() >= u32::MAX || !admissible(t, v) {
                    None
                } else if known(t, v) {
                    Some(t)
                } else {
                    Some(t.push(v))
                }
            },
            None => None,
        }
    }
}

/// Once a type could not be built, nothing is.
proof fn lemma_refused(types: Seq<TypeView>, i: nat, n: nat)
    requires
        i <= n,
        replayed(types, i) is None,
    ensures
        replayed(types, n) is None,
    decreases n - i,
{
    if i < n {
        lemma_refused(types, i, (n - 1) as nat);
    }
}

/// Building a table again from its own types, in order, gives the same table:
/// every id means what it meant.
pub proof fn law_a_table_replays_to_itself(t: Seq<TypeView>, n: nat)
    requires
        table_ok(t),
        n <= t.len() <= u32::MAX,
    ensures
        replayed(t, n) == Some(t.take(n as int)),
    decreases n,
{
    if n == 0 {
        assert(t.take(0) =~= Seq::empty());
    } else {
        law_a_table_replays_to_itself(t, (n - 1) as nat);
        let u = t.take(n - 1);
        let v = t[n - 1];
        assert(admissible(u, v));
        assert forall|i: int| 0 <= i < u.len() implies !(#[trigger] u[i]).same_as(v) by {
            assert(u[i] == t[i]);
        }
        assert(t.take(n as int) =~= u.push(v));
    }
}

impl AggregateField {
    fn copy_all(fields: &Vec<AggregateField>) -> (copies: Vec<AggregateField>)
        ensures
            field_views(copies@) == field_views(fields@),
    {
        let mut copies: Vec<AggregateField> = Vec::new();
        let mut i: usize = 0;
        while i < fields.len()
            invariant
                i <= fields.len(),
                copies.len() == i,
                forall|k: int| 0 <= k < i ==> (#[trigger] copies@[k])@ == fields@[k]@,
            decreases fields.len() - i,
        {
            copies.push(fields[i].copy());
            i = i + 1;
        }
        proof {
            assert(field_views(copies@) =~= field_views(fields@));
        }
        copies
    }
}

impl Clone for TypeRepr {
    fn clone(&self) -> (copy: Self)
        ensures
            copy@ == self@,
    {
        match self {
            TypeRepr::Int { size } => TypeRepr::Int { size: *size },
            TypeRepr::Bool => TypeRepr::Bool,
            TypeRepr::SpaceAddress { size, space } => TypeRepr::SpaceAddress {
                size: *size,
                space: *space,
            },
            TypeRepr::Aggregate { fields } => TypeRepr::Aggregate {
                fields: AggregateField::copy_all(fields),
            },
            TypeRepr::Struct { name, size, fields } => TypeRepr::Struct {
                name: String::from_str(name.as_str()),
                size: *size,
                fields: AggregateField::copy_all(fields),
            },
            TypeRepr::StructPointer { size, pointee } => TypeRepr::StructPointer {
                size: *size,
                pointee: *pointee,
            },
            TypeRepr::Array { elem, count } => TypeRepr::Array { elem: *elem, count: *count },
            TypeRepr::List { elem, bound } => TypeRepr::List { elem: *elem, bound: *bound },
        }
    }
}

impl TypeManager {
    /// The types of the table, in the order of their ids.
    pub fn reprs(&self) -> (reprs: Vec<TypeRepr>)
        ensures
            type_views(reprs@) == self@,
    {
        let mut reprs: Vec<TypeRepr> = Vec::new();
        let mut i: usize = 0;
        while i < self.entries.len()
            invariant
                i <= self.entries.len(),
                reprs.len() == i,
                forall|k: int| 0 <= k < i ==> (#[trigger] reprs@[k])@ == self@[k],
            decreases self.entries.len() - i,
        {
            let copy = self.entries[i].repr.clone();
            proof {
                assert(self@[i as int] == self.entries@[i as int].repr@);
            }
            reprs.push(copy);
            i = i + 1;
        }
        proof {
            assert(type_views(reprs@) =~= self@);
        }
        reprs
    }

    /// The table that asking for `reprs` in order builds, if each can be built
    /// when its turn comes.
    pub fn from_reprs(reprs: &Vec<TypeRepr>) -> (types: Option<TypeManager>)
        ensures
            match replayed(type_views(reprs@), reprs@.len()) {
                Some(t) => types matches Some(m) && m.wf() && m@ == t,
                None => types is None,
            },
            table_ok(type_views(reprs@)) && reprs@.len() <= u32::MAX ==> (types matches Some(m)
                && m@ == type_views(reprs@)),
    {
        let ghost views = type_views(reprs@);
        let mut types = TypeManager::new();
        let mut i: usize = 0;
        proof {
            if table_ok(views) && reprs@.len() <= u32::MAX {
                law_a_table_replays_to_itself(views, reprs@.len());
                assert(views.take(views.len() as int) =~= views);
            }
        }
        while i < reprs.len()
            invariant
                types.wf(),
                i <= reprs.len(),
                views == type_views(reprs@),
                replayed(views, i as nat) == Some(types@),
                table_ok(views) && reprs@.len() <= u32::MAX ==> replayed(views, reprs@.len())
                    == Some(views),
            decreases reprs.len() - i,
        {
            proof {
                assert(views[i as int] == reprs@[i as int]@);
            }
            if types.entries.len() >= u32::MAX as usize || types.measure(&reprs[i]).is_none() {
                proof {
                    assert(replayed(views, (i + 1) as nat) is None);
                    lemma_refused(views, (i + 1) as nat, reprs@.len());
                }
                return None;
            }
            let id = types.intern(reprs[i].clone());
            i = i + 1;
        }
        Some(types)
    }
}

} // verus!
