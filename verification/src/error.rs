//! What can go wrong.

use crate::ids::BlockId;
use vstd::prelude::*;

verus! {

/// Why an edit was refused.
#[derive(Debug)]
pub enum Error {
    /// The name is taken.
    DuplicateName(String),
    /// The address is taken.
    DuplicateAddress(u64),
    /// The function has another entry block already.
    FunctionRootMismatch { expected: BlockId, actual: BlockId },
}

} // verus!
