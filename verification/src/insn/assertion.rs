//! Declared conditions.

use crate::value::LocalValueId;
use vstd::prelude::*;

verus! {

/// Declares that `condition` holds on every execution that reaches it.
#[derive(Clone, Copy, Debug, PartialEq, Eq, Structural, Hash)]
pub struct Assert {
    pub condition: LocalValueId,
}

} // verus!
