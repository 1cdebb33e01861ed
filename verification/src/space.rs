//! Memory spaces.

use crate::ids::{FunctionId, LocalTempSpaceId, SpaceId, TempSpaceId};
use vstd::prelude::*;

verus! {

/// A memory space, seen from inside a function's body: one the module
/// shares, or a scratch space of the body.
#[derive(Clone, Copy, Debug, PartialEq, Eq, Structural, Hash)]
pub enum LocalMemorySpaceId {
    Shared(SpaceId),
    Temp(LocalTempSpaceId),
}

/// A memory space, seen from anywhere in the module.
#[derive(Clone, Copy, Debug, PartialEq, Eq, Structural, Hash)]
pub enum MemorySpaceId {
    Shared(SpaceId),
    Temp(TempSpaceId),
}

impl LocalMemorySpaceId {
    /// Stamps the owning function `func` onto a scratch space.
    pub fn qualify(self, func: FunctionId) -> (space: MemorySpaceId)
        ensures
            space == match self {
                LocalMemorySpaceId::Shared(id) => MemorySpaceId::Shared(id),
                LocalMemorySpaceId::Temp(local) => MemorySpaceId::Temp(TempSpaceId { func, local }),
            },
    {
        match self {
            LocalMemorySpaceId::Shared(id) => MemorySpaceId::Shared(id),
            LocalMemorySpaceId::Temp(local) => MemorySpaceId::Temp(TempSpaceId::new(func, local)),
        }
    }
}

} // verus!
