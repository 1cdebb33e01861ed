//! The effects of calling a function.

use crate::function::footprint::Footprint;
use crate::ids::{SpaceId, VarnodeId};
use crate::insn::terminator::Callee;
use vstd::prelude::*;

verus! {

/// The registers that a call may read and write, those of its callees among
/// them.
#[derive(Clone, Debug, PartialEq, Eq)]
pub struct RegisterEffectSets {
    pub reads: Vec<VarnodeId>,
    pub writes: Vec<VarnodeId>,
}

/// A register whose value on return is computed by a function of its own, and
/// not carried in what is returned.
#[derive(Clone, Copy, Debug, PartialEq, Eq, Structural)]
pub struct DerivedOutput {
    pub register: VarnodeId,
    /// A pure function that returns the register's value.
    pub projection: Callee,
}

/// Which register each parameter binds, and each part of what is returned.
#[derive(Clone, Debug, PartialEq, Eq)]
pub struct RegisterInterfaceMap {
    /// One register per parameter.
    pub inputs: Vec<VarnodeId>,
    /// One register per returned part, the real results first.
    pub outputs: Vec<VarnodeId>,
    /// How many of `outputs` are real results; the rest is undefined.
    pub returns: usize,
    pub projections: Vec<DerivedOutput>,
}

/// How far the analysis of a function's register effects has come.
#[derive(Clone, Debug, PartialEq, Eq)]
pub enum RegisterChannelState {
    /// Not analysed.
    Unsolved,
    /// Nothing can be known.
    Top,
    /// The registers are known.
    Solved(RegisterEffectSets),
    /// The function takes and returns its registers by value.
    Materialized(RegisterInterfaceMap),
}

impl Default for RegisterChannelState {
    fn default() -> (state: Self)
        ensures
            state is Unsolved,
    {
        RegisterChannelState::Unsolved
    }
}

impl RegisterChannelState {
    /// The interface, once registers are taken and returned by value.
    pub fn materialized(&self) -> (map: Option<&RegisterInterfaceMap>)
        ensures
            map == (match *self {
                RegisterChannelState::Materialized(map) => Some(&map),
                _ => None,
            }),
    {
        match self {
            RegisterChannelState::Materialized(map) => Some(map),
            _ => None,
        }
    }

    /// Whether the registers are known.
    pub fn is_solved(&self) -> (b: bool)
        ensures
            b == (self is Solved || self is Materialized),
    {
        matches!(self, RegisterChannelState::Solved(_) | RegisterChannelState::Materialized(_))
    }
}

/// The spaces other than registers that a function may write.
#[derive(Clone, Debug, PartialEq, Eq)]
pub enum WrittenSpacesState {
    /// Not analysed.
    Unstamped,
    /// Any space.
    Unbounded,
    /// These and no other.
    Bounded(Vec<SpaceId>),
}

/// The verdict of [`WrittenSpacesState`], borrowed.
#[derive(Clone, Copy, Debug, PartialEq, Eq)]
pub enum WrittenSpaces<'a> {
    Unstamped,
    Unbounded,
    Bounded(&'a Vec<SpaceId>),
}

impl Default for WrittenSpacesState {
    fn default() -> (state: Self)
        ensures
            state is Unstamped,
    {
        WrittenSpacesState::Unstamped
    }
}

/// What the address of an [`InterfaceSlot`] is relative to.
#[derive(Clone, Copy, Debug, PartialEq, Eq, Structural)]
pub enum SlotBase {
    /// The argument at this position.
    Arg(usize),
    /// An absolute address.
    Global(u64),
    /// No expression of the base is known.
    Unmappable,
}

/// The memory that an input is loaded from, or an output stored to: `size`
/// bytes at `base + offset`.
#[derive(Clone, Copy, Debug, PartialEq, Eq, Structural)]
pub struct InterfaceSlot {
    pub base: SlotBase,
    pub offset: i64,
    pub size: usize,
}

impl InterfaceSlot {
    /// Whether the address can be expressed at a call.
    pub fn is_bindable(&self) -> (b: bool)
        ensures
            b == !(self.base is Unmappable),
    {
        !matches!(self.base, SlotBase::Unmappable)
    }
}

/// Where each input from memory comes from, and each output to memory goes.
#[derive(Clone, Debug, PartialEq, Eq)]
pub struct MemoryInterfaceMap {
    pub inputs: Vec<InterfaceSlot>,
    pub outputs: Vec<InterfaceSlot>,
}

/// What is known of a function's memory effects. Each part may be unknown
/// while another is known.
#[derive(Clone, Debug, PartialEq, Eq)]
pub struct MemoryChannelState {
    pub coarse: WrittenSpacesState,
    /// All that the function may touch outside itself; `None` where that
    /// cannot be expressed.
    pub precise: Option<Footprint>,
    pub materialized: Option<MemoryInterfaceMap>,
}

impl MemoryChannelState {
    /// Whether nothing is known.
    pub open spec fn is_blank(&self) -> bool {
        self.coarse is Unstamped && self.precise is None && self.materialized is None
    }

    /// The interface, once memory is taken and returned by value.
    pub fn materialized(&self) -> (map: Option<&MemoryInterfaceMap>)
        ensures
            map == (match self.materialized {
                Some(map) => Some(&map),
                None => None,
            }),
    {
        match &self.materialized {
            Some(map) => Some(map),
            None => None,
        }
    }
}

impl Default for MemoryChannelState {
    fn default() -> (state: Self)
        ensures
            state.is_blank(),
    {
        MemoryChannelState {
            coarse: WrittenSpacesState::Unstamped,
            precise: None,
            materialized: None,
        }
    }
}

/// The effects of calling a function, on registers and on memory.
#[derive(Clone, Debug, PartialEq, Eq)]
pub struct FunctionEffects {
    pub register: RegisterChannelState,
    pub memory: MemoryChannelState,
}

impl FunctionEffects {
    /// Whether nothing is known.
    pub open spec fn is_blank(&self) -> bool {
        self.register is Unsolved && self.memory.is_blank()
    }

    /// The register interface, once registers are taken and returned by value.
    pub fn materialized(&self) -> (map: Option<&RegisterInterfaceMap>)
        ensures
            map == (match self.register {
                RegisterChannelState::Materialized(map) => Some(&map),
                _ => None,
            }),
    {
        self.register.materialized()
    }

    /// Whether the registers are known.
    pub fn is_solved(&self) -> (b: bool)
        ensures
            b == (self.register is Solved || self.register is Materialized),
    {
        self.register.is_solved()
    }
}

impl Default for FunctionEffects {
    fn default() -> (effects: Self)
        ensures
            effects.is_blank(),
    {
        FunctionEffects {
            register: RegisterChannelState::Unsolved,
            memory: MemoryChannelState::default(),
        }
    }
}

} // verus!
