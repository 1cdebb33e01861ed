//! Identifiers.
//!
//! Everything the representation stores lives in a table and is named by its
//! index there. Each table has its own index type, so that an index of one
//! table cannot be used in another. Instructions, blocks, block parameters
//! and scratch values are stored per function: outside their function they
//! are named by a composite of the function and the local index.

use crate::text::{dec, decimal};
use vstd::prelude::*;
use vstd::string::*;

verus! {

/// A function of the module.
#[derive(Clone, Copy, Debug, PartialEq, Eq, Structural, PartialOrd, Ord, Hash)]
pub struct FunctionId(pub u32);

impl From<u32> for FunctionId {
    fn from(raw: u32) -> (id: Self) {
        FunctionId(raw)
    }
}

impl vstd::std_specs::convert::FromSpecImpl<u32> for FunctionId {
    open spec fn obeys_from_spec() -> bool {
        true
    }

    open spec fn from_spec(raw: u32) -> Self {
        FunctionId(raw)
    }
}

impl FunctionId {
    /// The index this identifier stands for.
    pub fn index(self) -> (index: usize)
        ensures
            index == self.0,
    {
        self.0 as usize
    }
}

/// An instruction, within its function.
#[derive(Clone, Copy, Debug, PartialEq, Eq, Structural, PartialOrd, Ord, Hash)]
pub struct LocalInsnId(pub u32);

impl From<u32> for LocalInsnId {
    fn from(raw: u32) -> (id: Self) {
        LocalInsnId(raw)
    }
}

impl vstd::std_specs::convert::FromSpecImpl<u32> for LocalInsnId {
    open spec fn obeys_from_spec() -> bool {
        true
    }

    open spec fn from_spec(raw: u32) -> Self {
        LocalInsnId(raw)
    }
}

impl LocalInsnId {
    /// The index this identifier stands for.
    pub fn index(self) -> (index: usize)
        ensures
            index == self.0,
    {
        self.0 as usize
    }
}

/// A basic block, within its function.
#[derive(Clone, Copy, Debug, PartialEq, Eq, Structural, PartialOrd, Ord, Hash)]
pub struct LocalBlockId(pub u32);

impl From<u32> for LocalBlockId {
    fn from(raw: u32) -> (id: Self) {
        LocalBlockId(raw)
    }
}

impl vstd::std_specs::convert::FromSpecImpl<u32> for LocalBlockId {
    open spec fn obeys_from_spec() -> bool {
        true
    }

    open spec fn from_spec(raw: u32) -> Self {
        LocalBlockId(raw)
    }
}

impl LocalBlockId {
    /// The index this identifier stands for.
    pub fn index(self) -> (index: usize)
        ensures
            index == self.0,
    {
        self.0 as usize
    }
}

/// A block parameter, within its function.
#[derive(Clone, Copy, Debug, PartialEq, Eq, Structural, PartialOrd, Ord, Hash)]
pub struct LocalParamId(pub u32);

impl From<u32> for LocalParamId {
    fn from(raw: u32) -> (id: Self) {
        LocalParamId(raw)
    }
}

impl vstd::std_specs::convert::FromSpecImpl<u32> for LocalParamId {
    open spec fn obeys_from_spec() -> bool {
        true
    }

    open spec fn from_spec(raw: u32) -> Self {
        LocalParamId(raw)
    }
}

impl LocalParamId {
    /// The index this identifier stands for.
    pub fn index(self) -> (index: usize)
        ensures
            index == self.0,
    {
        self.0 as usize
    }
}

/// A scratch value, within its function.
#[derive(Clone, Copy, Debug, PartialEq, Eq, Structural, PartialOrd, Ord, Hash)]
pub struct LocalTempId(pub u32);

impl From<u32> for LocalTempId {
    fn from(raw: u32) -> (id: Self) {
        LocalTempId(raw)
    }
}

impl vstd::std_specs::convert::FromSpecImpl<u32> for LocalTempId {
    open spec fn obeys_from_spec() -> bool {
        true
    }

    open spec fn from_spec(raw: u32) -> Self {
        LocalTempId(raw)
    }
}

impl LocalTempId {
    /// The index this identifier stands for.
    pub fn index(self) -> (index: usize)
        ensures
            index == self.0,
    {
        self.0 as usize
    }
}

/// A scratch memory space, within its function.
#[derive(Clone, Copy, Debug, PartialEq, Eq, Structural, PartialOrd, Ord, Hash)]
pub struct LocalTempSpaceId(pub u32);

impl From<u32> for LocalTempSpaceId {
    fn from(raw: u32) -> (id: Self) {
        LocalTempSpaceId(raw)
    }
}

impl vstd::std_specs::convert::FromSpecImpl<u32> for LocalTempSpaceId {
    open spec fn obeys_from_spec() -> bool {
        true
    }

    open spec fn from_spec(raw: u32) -> Self {
        LocalTempSpaceId(raw)
    }
}

impl LocalTempSpaceId {
    /// The index this identifier stands for.
    pub fn index(self) -> (index: usize)
        ensures
            index == self.0,
    {
        self.0 as usize
    }
}

/// A control-flow edge, within its function.
#[derive(Clone, Copy, Debug, PartialEq, Eq, Structural, PartialOrd, Ord, Hash)]
pub struct EdgeId(pub u32);

impl From<u32> for EdgeId {
    fn from(raw: u32) -> (id: Self) {
        EdgeId(raw)
    }
}

impl vstd::std_specs::convert::FromSpecImpl<u32> for EdgeId {
    open spec fn obeys_from_spec() -> bool {
        true
    }

    open spec fn from_spec(raw: u32) -> Self {
        EdgeId(raw)
    }
}

impl EdgeId {
    /// The index this identifier stands for.
    pub fn index(self) -> (index: usize)
        ensures
            index == self.0,
    {
        self.0 as usize
    }
}

/// A use edge, within its function.
#[derive(Clone, Copy, Debug, PartialEq, Eq, Structural, PartialOrd, Ord, Hash)]
pub struct UseId(pub u32);

impl From<u32> for UseId {
    fn from(raw: u32) -> (id: Self) {
        UseId(raw)
    }
}

impl vstd::std_specs::convert::FromSpecImpl<u32> for UseId {
    open spec fn obeys_from_spec() -> bool {
        true
    }

    open spec fn from_spec(raw: u32) -> Self {
        UseId(raw)
    }
}

impl UseId {
    /// The index this identifier stands for.
    pub fn index(self) -> (index: usize)
        ensures
            index == self.0,
    {
        self.0 as usize
    }
}

/// A type of the module's type table.
#[derive(Clone, Copy, Debug, PartialEq, Eq, Structural, PartialOrd, Ord, Hash)]
pub struct TypeId(pub u32);

impl From<u32> for TypeId {
    fn from(raw: u32) -> (id: Self) {
        TypeId(raw)
    }
}

impl vstd::std_specs::convert::FromSpecImpl<u32> for TypeId {
    open spec fn obeys_from_spec() -> bool {
        true
    }

    open spec fn from_spec(raw: u32) -> Self {
        TypeId(raw)
    }
}

impl TypeId {
    /// The index this identifier stands for.
    pub fn index(self) -> (index: usize)
        ensures
            index == self.0,
    {
        self.0 as usize
    }
}

/// An integer constant of the module.
#[derive(Clone, Copy, Debug, PartialEq, Eq, Structural, PartialOrd, Ord, Hash)]
pub struct LiteralId(pub usize);

impl From<usize> for LiteralId {
    fn from(raw: usize) -> (id: Self) {
        LiteralId(raw)
    }
}

impl vstd::std_specs::convert::FromSpecImpl<usize> for LiteralId {
    open spec fn obeys_from_spec() -> bool {
        true
    }

    open spec fn from_spec(raw: usize) -> Self {
        LiteralId(raw)
    }
}

impl LiteralId {
    /// The index this identifier stands for.
    pub fn index(self) -> (index: usize)
        ensures
            index == self.0,
    {
        self.0
    }
}

/// A byte string of the module.
#[derive(Clone, Copy, Debug, PartialEq, Eq, Structural, PartialOrd, Ord, Hash)]
pub struct BytesId(pub usize);

impl From<usize> for BytesId {
    fn from(raw: usize) -> (id: Self) {
        BytesId(raw)
    }
}

impl vstd::std_specs::convert::FromSpecImpl<usize> for BytesId {
    open spec fn obeys_from_spec() -> bool {
        true
    }

    open spec fn from_spec(raw: usize) -> Self {
        BytesId(raw)
    }
}

impl BytesId {
    /// The index this identifier stands for.
    pub fn index(self) -> (index: usize)
        ensures
            index == self.0,
    {
        self.0
    }
}

/// A poison value of the module.
#[derive(Clone, Copy, Debug, PartialEq, Eq, Structural, PartialOrd, Ord, Hash)]
pub struct PoisonId(pub usize);

impl From<usize> for PoisonId {
    fn from(raw: usize) -> (id: Self) {
        PoisonId(raw)
    }
}

impl vstd::std_specs::convert::FromSpecImpl<usize> for PoisonId {
    open spec fn obeys_from_spec() -> bool {
        true
    }

    open spec fn from_spec(raw: usize) -> Self {
        PoisonId(raw)
    }
}

impl PoisonId {
    /// The index this identifier stands for.
    pub fn index(self) -> (index: usize)
        ensures
            index == self.0,
    {
        self.0
    }
}

/// A named memory location of the module.
#[derive(Clone, Copy, Debug, PartialEq, Eq, Structural, PartialOrd, Ord, Hash)]
pub struct VarnodeId(pub usize);

impl From<usize> for VarnodeId {
    fn from(raw: usize) -> (id: Self) {
        VarnodeId(raw)
    }
}

impl vstd::std_specs::convert::FromSpecImpl<usize> for VarnodeId {
    open spec fn obeys_from_spec() -> bool {
        true
    }

    open spec fn from_spec(raw: usize) -> Self {
        VarnodeId(raw)
    }
}

impl VarnodeId {
    /// The index this identifier stands for.
    pub fn index(self) -> (index: usize)
        ensures
            index == self.0,
    {
        self.0
    }
}

/// A memory space of the module.
#[derive(Clone, Copy, Debug, PartialEq, Eq, Structural, PartialOrd, Ord, Hash)]
pub struct SpaceId(pub usize);

impl From<usize> for SpaceId {
    fn from(raw: usize) -> (id: Self) {
        SpaceId(raw)
    }
}

impl vstd::std_specs::convert::FromSpecImpl<usize> for SpaceId {
    open spec fn obeys_from_spec() -> bool {
        true
    }

    open spec fn from_spec(raw: usize) -> Self {
        SpaceId(raw)
    }
}

impl SpaceId {
    /// The index this identifier stands for.
    pub fn index(self) -> (index: usize)
        ensures
            index == self.0,
    {
        self.0
    }
}

/// A user-defined operation of the module.
#[derive(Clone, Copy, Debug, PartialEq, Eq, Structural, PartialOrd, Ord, Hash)]
pub struct PCodeOpId(pub usize);

impl From<usize> for PCodeOpId {
    fn from(raw: usize) -> (id: Self) {
        PCodeOpId(raw)
    }
}

impl vstd::std_specs::convert::FromSpecImpl<usize> for PCodeOpId {
    open spec fn obeys_from_spec() -> bool {
        true
    }

    open spec fn from_spec(raw: usize) -> Self {
        PCodeOpId(raw)
    }
}

impl PCodeOpId {
    /// The index this identifier stands for.
    pub fn index(self) -> (index: usize)
        ensures
            index == self.0,
    {
        self.0
    }
}

/// An instruction and the function that holds it.
#[derive(Clone, Copy, Debug, PartialEq, Eq, Structural, PartialOrd, Ord, Hash)]
pub struct InstructionId {
    pub func: FunctionId,
    pub local: LocalInsnId,
}

impl InstructionId {
    pub fn new(func: FunctionId, local: LocalInsnId) -> (id: Self)
        ensures
            id == (InstructionId { func, local }),
    {
        InstructionId { func, local }
    }

    /// The local index, for storage inside `func`, which must be the
    /// function that holds the value.
    pub fn localize(self, func: FunctionId) -> (local: LocalInsnId)
        requires
            self.func == func,
        ensures
            local == self.local,
    {
        self.local
    }
}

/// A basic block and the function that holds it.
#[derive(Clone, Copy, Debug, PartialEq, Eq, Structural, PartialOrd, Ord, Hash)]
pub struct BlockId {
    pub func: FunctionId,
    pub local: LocalBlockId,
}

impl BlockId {
    pub fn new(func: FunctionId, local: LocalBlockId) -> (id: Self)
        ensures
            id == (BlockId { func, local }),
    {
        BlockId { func, local }
    }

    /// The local index, for storage inside `func`, which must be the
    /// function that holds the value.
    pub fn localize(self, func: FunctionId) -> (local: LocalBlockId)
        requires
            self.func == func,
        ensures
            local == self.local,
    {
        self.local
    }
}

/// A block parameter and the function that holds it.
#[derive(Clone, Copy, Debug, PartialEq, Eq, Structural, PartialOrd, Ord, Hash)]
pub struct BlockParamId {
    pub func: FunctionId,
    pub local: LocalParamId,
}

impl BlockParamId {
    pub fn new(func: FunctionId, local: LocalParamId) -> (id: Self)
        ensures
            id == (BlockParamId { func, local }),
    {
        BlockParamId { func, local }
    }

    /// The local index, for storage inside `func`, which must be the
    /// function that holds the value.
    pub fn localize(self, func: FunctionId) -> (local: LocalParamId)
        requires
            self.func == func,
        ensures
            local == self.local,
    {
        self.local
    }
}

/// A scratch value and the function that holds it.
#[derive(Clone, Copy, Debug, PartialEq, Eq, Structural, PartialOrd, Ord, Hash)]
pub struct TempId {
    pub func: FunctionId,
    pub local: LocalTempId,
}

impl TempId {
    pub fn new(func: FunctionId, local: LocalTempId) -> (id: Self)
        ensures
            id == (TempId { func, local }),
    {
        TempId { func, local }
    }

    /// The local index, for storage inside `func`, which must be the
    /// function that holds the value.
    pub fn localize(self, func: FunctionId) -> (local: LocalTempId)
        requires
            self.func == func,
        ensures
            local == self.local,
    {
        self.local
    }
}

/// A scratch memory space and the function that holds it.
#[derive(Clone, Copy, Debug, PartialEq, Eq, Structural, PartialOrd, Ord, Hash)]
pub struct TempSpaceId {
    pub func: FunctionId,
    pub local: LocalTempSpaceId,
}

impl TempSpaceId {
    pub fn new(func: FunctionId, local: LocalTempSpaceId) -> (id: Self)
        ensures
            id == (TempSpaceId { func, local }),
    {
        TempSpaceId { func, local }
    }

    /// The local index, for storage inside `func`, which must be the
    /// function that holds the value.
    pub fn localize(self, func: FunctionId) -> (local: LocalTempSpaceId)
        requires
            self.func == func,
        ensures
            local == self.local,
    {
        self.local
    }
}

/// An identifier that stands for an index.
pub trait Identifier: Sized + Copy {
    /// The index this identifier stands for.
    spec fn spec_index(self) -> int;

    /// Whether some identifier stands for the index `i`.
    spec fn covers(i: int) -> bool;

    /// The identifier of the index `i`.
    fn from_index(i: usize) -> (id: Self)
        requires
            Self::covers(i as int),
        ensures
            id.spec_index() == i,
    ;

    /// The index this identifier stands for.
    fn to_index(self) -> (i: usize)
        ensures
            i == self.spec_index(),
            Self::covers(i as int),
    ;

    /// An index has one identifier.
    proof fn lemma_one_identifier(a: Self, b: Self)
        requires
            a.spec_index() == b.spec_index(),
        ensures
            a == b,
    ;
}

impl Identifier for LocalInsnId {
    open spec fn spec_index(self) -> int {
        self.0 as int
    }

    open spec fn covers(i: int) -> bool {
        0 <= i <= u32::MAX
    }

    fn from_index(i: usize) -> (id: Self) {
        LocalInsnId(i as u32)
    }

    fn to_index(self) -> (i: usize) {
        self.0 as usize
    }

    proof fn lemma_one_identifier(a: Self, b: Self) {
    }
}

impl Identifier for LocalBlockId {
    open spec fn spec_index(self) -> int {
        self.0 as int
    }

    open spec fn covers(i: int) -> bool {
        0 <= i <= u32::MAX
    }

    fn from_index(i: usize) -> (id: Self) {
        LocalBlockId(i as u32)
    }

    fn to_index(self) -> (i: usize) {
        self.0 as usize
    }

    proof fn lemma_one_identifier(a: Self, b: Self) {
    }
}

impl Identifier for LocalParamId {
    open spec fn spec_index(self) -> int {
        self.0 as int
    }

    open spec fn covers(i: int) -> bool {
        0 <= i <= u32::MAX
    }

    fn from_index(i: usize) -> (id: Self) {
        LocalParamId(i as u32)
    }

    fn to_index(self) -> (i: usize) {
        self.0 as usize
    }

    proof fn lemma_one_identifier(a: Self, b: Self) {
    }
}

impl Identifier for UseId {
    open spec fn spec_index(self) -> int {
        self.0 as int
    }

    open spec fn covers(i: int) -> bool {
        0 <= i <= u32::MAX
    }

    fn from_index(i: usize) -> (id: Self) {
        UseId(i as u32)
    }

    fn to_index(self) -> (i: usize) {
        self.0 as usize
    }

    proof fn lemma_one_identifier(a: Self, b: Self) {
    }
}

impl Identifier for FunctionId {
    open spec fn spec_index(self) -> int {
        self.0 as int
    }

    open spec fn covers(i: int) -> bool {
        0 <= i <= u32::MAX
    }

    fn from_index(i: usize) -> (id: Self) {
        FunctionId(i as u32)
    }

    fn to_index(self) -> (i: usize) {
        self.0 as usize
    }

    proof fn lemma_one_identifier(a: Self, b: Self) {
    }
}

impl Identifier for LiteralId {
    open spec fn spec_index(self) -> int {
        self.0 as int
    }

    open spec fn covers(i: int) -> bool {
        0 <= i <= usize::MAX
    }

    fn from_index(i: usize) -> (id: Self) {
        LiteralId(i)
    }

    fn to_index(self) -> (i: usize) {
        self.0
    }

    proof fn lemma_one_identifier(a: Self, b: Self) {
    }
}

impl Identifier for BytesId {
    open spec fn spec_index(self) -> int {
        self.0 as int
    }

    open spec fn covers(i: int) -> bool {
        0 <= i <= usize::MAX
    }

    fn from_index(i: usize) -> (id: Self) {
        BytesId(i)
    }

    fn to_index(self) -> (i: usize) {
        self.0
    }

    proof fn lemma_one_identifier(a: Self, b: Self) {
    }
}

impl Identifier for PoisonId {
    open spec fn spec_index(self) -> int {
        self.0 as int
    }

    open spec fn covers(i: int) -> bool {
        0 <= i <= usize::MAX
    }

    fn from_index(i: usize) -> (id: Self) {
        PoisonId(i)
    }

    fn to_index(self) -> (i: usize) {
        self.0
    }

    proof fn lemma_one_identifier(a: Self, b: Self) {
    }
}

impl Identifier for VarnodeId {
    open spec fn spec_index(self) -> int {
        self.0 as int
    }

    open spec fn covers(i: int) -> bool {
        0 <= i <= usize::MAX
    }

    fn from_index(i: usize) -> (id: Self) {
        VarnodeId(i)
    }

    fn to_index(self) -> (i: usize) {
        self.0
    }

    proof fn lemma_one_identifier(a: Self, b: Self) {
    }
}

impl Identifier for SpaceId {
    open spec fn spec_index(self) -> int {
        self.0 as int
    }

    open spec fn covers(i: int) -> bool {
        0 <= i <= usize::MAX
    }

    fn from_index(i: usize) -> (id: Self) {
        SpaceId(i)
    }

    fn to_index(self) -> (i: usize) {
        self.0
    }

    proof fn lemma_one_identifier(a: Self, b: Self) {
    }
}

/// How the id of something within a function is written: the function and the
/// index in it.
pub open spec fn pair_text(func: FunctionId, local: u32) -> Seq<char> {
    dec(func.0 as nat) + ":"@ + dec(local as nat)
}

fn pair(func: FunctionId, local: u32) -> (text: String)
    ensures
        text@ == pair_text(func, local),
{
    let mut text = decimal(func.0 as u64);
    text.append(":");
    text.append(decimal(local as u64).as_str());
    text
}

impl InstructionId {
    /// How the id is written.
    pub fn render(self) -> (text: String)
        ensures
            text@ == pair_text(self.func, self.local.0),
    {
        pair(self.func, self.local.0)
    }
}

impl BlockId {
    /// How the id is written.
    pub fn render(self) -> (text: String)
        ensures
            text@ == pair_text(self.func, self.local.0),
    {
        pair(self.func, self.local.0)
    }
}

impl BlockParamId {
    /// How the id is written.
    pub fn render(self) -> (text: String)
        ensures
            text@ == pair_text(self.func, self.local.0),
    {
        pair(self.func, self.local.0)
    }
}

impl TempId {
    /// How the id is written.
    pub fn render(self) -> (text: String)
        ensures
            text@ == pair_text(self.func, self.local.0),
    {
        pair(self.func, self.local.0)
    }
}

impl TempSpaceId {
    /// How the id is written.
    pub fn render(self) -> (text: String)
        ensures
            text@ == pair_text(self.func, self.local.0),
    {
        pair(self.func, self.local.0)
    }
}

} // verus!
