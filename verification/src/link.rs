//! Optional identifiers and addresses without a word for the option.
//!
//! A link is as wide as the index it holds: the absent link is the one index
//! that no table ever issues.

use crate::ids::Identifier;
use std::marker::PhantomData;
use vstd::prelude::*;

verus! {

/// An optional identifier in four bytes.
pub struct Link<Id> {
    pub raw: u32,
    pub id: PhantomData<Id>,
}

impl<Id> Clone for Link<Id> {
    fn clone(&self) -> (copy: Self)
        ensures
            copy == *self,
    {
        Link { raw: self.raw, id: PhantomData }
    }
}

impl<Id> Copy for Link<Id> {

}

impl<Id: Identifier> Link<Id> {
    /// The index of the identifier that is linked, if one is.
    pub open spec fn target(self) -> Option<int> {
        if self.raw == u32::MAX {
            None
        } else {
            Some(self.raw as int)
        }
    }

    /// Whether the link holds an identifier that there is.
    pub open spec fn wf(self) -> bool {
        self.target() matches Some(i) ==> Id::covers(i)
    }

    /// The link that holds nothing.
    pub fn none() -> (link: Self)
        ensures
            link.wf(),
            link.target() is None,
    {
        Link { raw: u32::MAX, id: PhantomData }
    }

    /// What is linked.
    pub fn get(self) -> (id: Option<Id>)
        requires
            self.wf(),
        ensures
            match id {
                Some(id) => self.target() == Some(id.spec_index()),
                None => self.target() is None,
            },
    {
        if self.raw == u32::MAX {
            None
        } else {
            Some(Id::from_index(self.raw as usize))
        }
    }

    /// The link that holds `id`, whose index is below the last one.
    pub fn of(id: Option<Id>) -> (link: Self)
        requires
            id matches Some(id) ==> id.spec_index() < u32::MAX,
        ensures
            link.wf(),
            link.target() == (match id {
                Some(id) => Some(id.spec_index()),
                None => None,
            }),
    {
        match id {
            Some(id) => {
                let i: usize = id.to_index();
                Link { raw: i as u32, id: PhantomData }
            },
            None => Link::none(),
        }
    }

    /// Replaces what is linked.
    pub fn set(&mut self, id: Option<Id>)
        requires
            id matches Some(id) ==> id.spec_index() < u32::MAX,
        ensures
            final(self).wf(),
            final(self).target() == (match id {
                Some(id) => Some(id.spec_index()),
                None => None,
            }),
    {
        *self = Link::of(id);
    }

    /// Takes out what is linked.
    pub fn take(&mut self) -> (id: Option<Id>)
        requires
            old(self).wf(),
        ensures
            final(self).wf(),
            final(self).target() is None,
            match id {
                Some(id) => old(self).target() == Some(id.spec_index()),
                None => old(self).target() is None,
            },
    {
        let id = self.get();
        *self = Link::none();
        id
    }
}

/// What is put into a link comes out of it.
pub proof fn law_a_link_gives_back<Id: Identifier>(link: Link<Id>, put: Id, got: Id)
    requires
        link.target() == Some(put.spec_index()),
        link.target() == Some(got.spec_index()),
    ensures
        put == got,
{
    Id::lemma_one_identifier(put, got);
}

/// An optional address in eight bytes: the absent one is the last address.
#[derive(Clone, Copy, Debug, PartialEq, Eq, Structural, Hash)]
pub struct PackedAddress(pub u64);

impl PackedAddress {
    /// The address, if there is one.
    pub open spec fn address(self) -> Option<u64> {
        if self.0 == u64::MAX {
            None
        } else {
            Some(self.0)
        }
    }

    /// No address.
    pub fn none() -> (packed: Self)
        ensures
            packed.address() is None,
    {
        PackedAddress(u64::MAX)
    }

    /// An address other than the last one, or none.
    pub fn of(address: Option<u64>) -> (packed: Self)
        requires
            address != Some(u64::MAX),
        ensures
            packed.address() == address,
    {
        match address {
            Some(address) => PackedAddress(address),
            None => PackedAddress(u64::MAX),
        }
    }

    pub fn get(self) -> (address: Option<u64>)
        ensures
            address == self.address(),
    {
        if self.0 == u64::MAX {
            None
        } else {
            Some(self.0)
        }
    }

    pub fn set(&mut self, address: Option<u64>)
        requires
            address != Some(u64::MAX),
        ensures
            final(self).address() == address,
    {
        *self = PackedAddress::of(address);
    }
}

} // verus!
