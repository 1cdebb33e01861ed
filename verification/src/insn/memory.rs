//! Memory access.

use crate::space::LocalMemorySpaceId;
use crate::value::LocalValueId;
use vstd::prelude::*;

verus! {

/// Reads `size` bytes at `ptr` in `space`.
#[derive(Clone, Copy, Debug, PartialEq, Eq, Structural, Hash)]
pub struct Load {
    pub space: LocalMemorySpaceId,
    pub ptr: LocalValueId,
    pub size: usize,
}

/// Writes `src`, of `size` bytes, at `ptr` in `space`.
#[derive(Clone, Copy, Debug, PartialEq, Eq, Structural, Hash)]
pub struct Store {
    pub space: LocalMemorySpaceId,
    pub ptr: LocalValueId,
    pub src: LocalValueId,
    pub size: usize,
}

impl Store {
    /// The load that reads what this store writes.
    pub fn get_matching_load(&self) -> (load: Load)
        ensures
            load == (Load { space: self.space, ptr: self.ptr, size: self.size }),
    {
        Load { space: self.space, ptr: self.ptr, size: self.size }
    }
}

} // verus!
