//! How single things are written.

use crate::context::Context;
use crate::ids::{BlockId, BlockParamId, FunctionId, InstructionId, LiteralId, TempId, TypeId};
use crate::insn::terminator::Callee;
use crate::literal::SymbolicRef;
use crate::segment::Link;
use crate::space::LocalMemorySpaceId;
use crate::text::{dec, decimal, hex, hex_name};
use crate::types::query::{nameable, type_text};
use crate::types::{FieldView, TypeView};
use crate::value::ValueId;
use vstd::prelude::*;
use vstd::string::*;

verus! {

/// A text, and whether it can be made.
pub struct Text {
    pub chars: Seq<char>,
    pub ok: bool,
}

impl Text {
    pub open spec fn of(chars: Seq<char>) -> Text {
        Text { chars, ok: true }
    }

    /// A text that can be made where `ok` holds.
    pub open spec fn given(ok: bool, chars: Seq<char>) -> Text {
        Text { chars, ok }
    }

    /// Both texts, one after the other.
    pub open spec fn cat(self, other: Text) -> Text {
        Text { chars: self.chars + other.chars, ok: self.ok && other.ok }
    }
}

/// Two texts, one after the other.
pub(crate) fn both(a: &str, b: &str) -> (text: String)
    ensures
        text@ == a@ + b@,
{
    let mut text = String::from_str(a);
    text.append(b);
    text
}

/// Three texts, one after the other.
pub(crate) fn three(a: &str, b: &str, c: &str) -> (text: String)
    ensures
        text@ == a@ + b@ + c@,
{
    let mut text = String::from_str(a);
    text.append(b);
    text.append(c);
    text
}

/// How std writes a text between quotes, with what needs it escaped.
pub uninterp spec fn debug_text(text: Seq<char>) -> Seq<char>;

/// Wraps `<str as std::fmt::Debug>::fmt`, through `format!`: the text between
/// quotes, escaped. What is escaped, and how, is not stated here; the result
/// depends on the text alone.
#[verifier::external_body]
pub(crate) fn quoted(text: &str) -> (result: String)
    ensures
        result@ == debug_text(text@),
{
    format!("{:?}", text)
}

/// Whether a block of `func` is out of sight for a view of `owner`.
pub open spec fn foreign(owner: Option<FunctionId>, func: FunctionId) -> bool {
    owner is Some && owner != Some(func)
}

pub(crate) fn is_foreign(owner: Option<FunctionId>, func: FunctionId) -> (b: bool)
    ensures
        b == foreign(owner, func),
{
    match owner {
        Some(owner) => owner != func,
        None => false,
    }
}

impl Context {
    // The display names of types.

    /// The display name of a type.
    pub open spec fn type_label(&self, id: TypeId) -> Text {
        Text::given(
            self.shared.types.has(id) && nameable(self.shared.types@, id.0 as int),
            type_text(self.shared.types@, id.0 as int),
        )
    }

    // The names of values.

    /// `%name`, or `%tmp` and the local index.
    pub open spec fn insn_label(&self, id: InstructionId) -> Seq<char> {
        match self.body_of(id.func).insn_rec(id.local).name {
            Some(name) => "%"@ + self.body_of(id.func)@.names.text_of(name),
            None => "%tmp"@ + hex(id.local.0 as nat),
        }
    }

    pub(crate) fn insn_atom(&self, id: InstructionId) -> (text: String)
        requires
            self.wf(),
            self.has_insn(id),
        ensures
            text@ == self.insn_label(id),
    {
        proof {
            assert(self.body_ok(id.func.0 as int));
        }
        let body = &self.bodies[id.func.0 as usize];
        proof {
            assert(body@.insns.contains_key(id.local));
            assert(body@.insns[id.local].name == body.insn_rec(id.local).name);
        }
        match body.insns.get(id.local.0).name {
            Some(name) => {
                let text = body.names.render(name);
                both("%", text.as_str())
            },
            None => {
                let text = hex_name(id.local.0 as u64);
                both("%tmp", text.as_str())
            },
        }
    }

    /// `@name`, or `@param` and the local index.
    pub open spec fn param_label(&self, id: BlockParamId) -> Seq<char> {
        match self.body_of(id.func).param_rec(id.local).name {
            Some(name) => "@"@ + self.body_of(id.func)@.names.text_of(name),
            None => "@param"@ + hex(id.local.0 as nat),
        }
    }

    pub(crate) fn param_atom(&self, id: BlockParamId) -> (text: String)
        requires
            self.wf(),
            self.has_param(id),
        ensures
            text@ == self.param_label(id),
    {
        proof {
            assert(self.body_ok(id.func.0 as int));
        }
        let body = &self.bodies[id.func.0 as usize];
        proof {
            assert(body@.params.contains_key(id.local));
            assert(body@.params[id.local].name == body.param_rec(id.local).name);
        }
        match body.params.get(id.local.0).name {
            Some(name) => {
                let text = body.names.render(name);
                both("@", text.as_str())
            },
            None => {
                let text = hex_name(id.local.0 as u64);
                both("@param", text.as_str())
            },
        }
    }

    /// The name of a scratch value, or `tmp` and the local index.
    pub open spec fn temp_label(&self, id: TempId) -> Seq<char> {
        match self.body_of(id.func).temps@[id.local.0 as int].name {
            Some(name) => self.body_of(id.func)@.names.text_of(name),
            None => "tmp"@ + hex(id.local.0 as nat),
        }
    }

    pub(crate) fn temp_atom(&self, id: TempId) -> (text: String)
        requires
            self.wf(),
            self.has_temp(id),
        ensures
            text@ == self.temp_label(id),
    {
        proof {
            assert(self.body_ok(id.func.0 as int));
        }
        let body = &self.bodies[id.func.0 as usize];
        proof {
            assert(body@.temps[id.local.0 as int].name == body.temps@[id.local.0 as int].name);
        }
        match body.temps[id.local.0 as usize].name {
            Some(name) => body.names.render(name),
            None => {
                let text = hex_name(id.local.0 as u64);
                both("tmp", text.as_str())
            },
        }
    }

    /// The name of a block: its own, or else its address.
    pub open spec fn block_name(&self, id: BlockId) -> Option<Seq<char>> {
        let block = self.body_of(id.func).block_rec(id.local);
        match block.name {
            Some(name) => Some(self.body_of(id.func)@.names.text_of(name)),
            None => match block.address {
                Some(address) => Some(hex(address as nat)),
                None => None,
            },
        }
    }

    /// The name of a block, if it has one.
    pub fn name_of_block(&self, id: BlockId) -> (name: Option<String>)
        requires
            self.wf(),
            self.has_block(id),
        ensures
            match self.block_name(id) {
                Some(text) => name matches Some(name) && name@ == text,
                None => name is None,
            },
    {
        proof {
            assert(self.body_ok(id.func.0 as int));
        }
        let body = &self.bodies[id.func.0 as usize];
        proof {
            assert(body@.blocks.contains_key(id.local));
            assert(body@.blocks[id.local].name == body.block_rec(id.local).name);
        }
        let block = body.blocks.get(id.local.0);
        match block.name {
            Some(name) => Some(body.names.render(name)),
            None => match block.address {
                Some(address) => Some(hex_name(address)),
                None => None,
            },
        }
    }

    /// The name of a block, or `unnamed`.
    pub open spec fn block_label(&self, id: BlockId) -> Seq<char> {
        match self.block_name(id) {
            Some(name) => name,
            None => "unnamed"@,
        }
    }

    pub(crate) fn block_atom(&self, id: BlockId) -> (text: String)
        requires
            self.wf(),
            self.has_block(id),
        ensures
            text@ == self.block_label(id),
    {
        match self.name_of_block(id) {
            Some(name) => name,
            None => String::from_str("unnamed"),
        }
    }

    /// A block of another function: its function and its index.
    pub open spec fn foreign_block_label(id: BlockId) -> Seq<char> {
        "<"@ + dec(id.func.0 as nat) + ":"@ + dec(id.local.0 as nat) + ">"@
    }

    pub(crate) fn foreign_block_atom(id: BlockId) -> (text: String)
        ensures
            text@ == Self::foreign_block_label(id),
    {
        let mut text = String::from_str("<");
        let func = decimal(id.func.0 as u64);
        let local = decimal(id.local.0 as u64);
        text.append(func.as_str());
        text.append(":");
        text.append(local.as_str());
        text.append(">");
        text
    }

    // Constants.

    /// How a literal is written, for a view of `owner`: by its symbolic
    /// meaning where it has one that is in sight, as a truth value where it is
    /// one, and otherwise as a number.
    pub open spec fn literal_label(&self, owner: Option<FunctionId>, id: LiteralId) -> Text {
        let literal = self.shared.literals@[id.0 as int];
        let number = "&<0x"@ + hex(literal.value as nat) + ">"@;
        match literal.symbolic {
            Some(SymbolicRef::Block(block)) => if foreign(owner, block.func) {
                Text::of(number)
            } else {
                Text::given(
                    self.has_block(block),
                    match self.block_name(block) {
                        Some(name) => "&<"@ + name + ">"@,
                        None => number,
                    },
                )
            },
            Some(SymbolicRef::Function(func)) => Text::given(
                self.has_function(func),
                "&<"@ + self.interface_of(func).name@ + ">"@,
            ),
            Some(SymbolicRef::String(text)) => Text::of("&"@ + debug_text(text@)),
            None => Text::given(
                self.shared.types.has(literal.type_id),
                if self.shared.types@[literal.type_id.0 as int] == TypeView::Bool {
                    if literal.value != 0 {
                        "true"@
                    } else {
                        "false"@
                    }
                } else {
                    "0x"@ + hex(literal.value as nat)
                },
            ),
        }
    }

    pub(crate) fn literal_atom_view(&self, owner: Option<FunctionId>, id: LiteralId) -> (text:
        String)
        requires
            self.wf(),
            self.shared.literals.has(id),
            self.literal_label(owner, id).ok,
        ensures
            text@ == self.literal_label(owner, id).chars,
    {
        let literal = self.shared.literals.get(id);
        let digits = hex_name(literal.value);
        match &literal.symbolic {
            Some(SymbolicRef::Block(block)) => {
                if is_foreign(owner, block.func) {
                    three("&<0x", digits.as_str(), ">")
                } else {
                    match self.name_of_block(*block) {
                        Some(name) => three("&<", name.as_str(), ">"),
                        None => three("&<0x", digits.as_str(), ">"),
                    }
                }
            },
            Some(SymbolicRef::Function(func)) => three(
                "&<",
                self.interfaces[func.0 as usize].name.as_str(),
                ">",
            ),
            Some(SymbolicRef::String(text)) => {
                let quote = quoted(text.as_str());
                both("&", quote.as_str())
            },
            None => {
                if self.shared.types.is_bool(literal.type_id) {
                    if literal.value != 0 {
                        String::from_str("true")
                    } else {
                        String::from_str("false")
                    }
                } else {
                    both("0x", digits.as_str())
                }
            },
        }
    }

    // Spaces, functions and arguments.

    /// The name of a space, `space: ` and its index where it has none, or
    /// `$temp` and the local index of a scratch space.
    pub open spec fn space_label(&self, space: LocalMemorySpaceId) -> Text {
        match space {
            LocalMemorySpaceId::Shared(id) => Text::given(
                self.shared.spaces.has(id),
                match self.shared.spaces.at(id).name {
                    Some(name) => name@,
                    None => "space: "@ + dec(id.0 as nat),
                },
            ),
            LocalMemorySpaceId::Temp(local) => Text::of("$temp"@ + dec(local.0 as nat)),
        }
    }

    pub(crate) fn space_atom(&self, space: LocalMemorySpaceId) -> (text: String)
        requires
            self.space_label(space).ok,
        ensures
            text@ == self.space_label(space).chars,
    {
        match space {
            LocalMemorySpaceId::Shared(id) => match &self.shared.spaces.get(id).name {
                Some(name) => String::from_str(name.as_str()),
                None => {
                    let n = decimal(id.0 as u64);
                    both("space: ", n.as_str())
                },
            },
            LocalMemorySpaceId::Temp(local) => {
                let n = decimal(local.0 as u64);
                both("$temp", n.as_str())
            },
        }
    }

    /// The name of a callee; a placeholder has a number.
    pub open spec fn callee_label(&self, callee: Callee) -> Text {
        match callee {
            Callee::Real(id) => Text::given(self.has_function(id), self.interface_of(id).name@),
            Callee::Minted(slot) => Text::of("<minted:"@ + dec(slot as nat) + ">"@),
        }
    }

    /// What a callee refers to: nothing, where it is a placeholder.
    pub open spec fn callee_link(callee: Callee) -> Option<Link> {
        match callee {
            Callee::Real(id) => Some(Link::Function(id)),
            Callee::Minted(_) => None,
        }
    }

    pub(crate) fn callee_name_link(&self, callee: Callee) -> (r: (String, Option<Link>))
        requires
            self.callee_label(callee).ok,
        ensures
            r.0@ == self.callee_label(callee).chars,
            r.1 == Self::callee_link(callee),
    {
        match callee {
            Callee::Real(id) => (
                String::from_str(self.interfaces[id.0 as usize].name.as_str()),
                Some(Link::Function(id)),
            ),
            Callee::Minted(slot) => {
                let n = decimal(slot as u64);
                (three("<minted:", n.as_str(), ">"), None)
            },
        }
    }

    /// The name of the parameter of the entry block of `func` at `index`.
    pub open spec fn root_param_name(&self, func: FunctionId, index: int) -> Option<Seq<char>> {
        let body = self.body_of(func);
        match body.root {
            Some(root) => {
                let params = body.block_rec(root).params@;
                if 0 <= index < params.len() {
                    match body.param_rec(params[index]).name {
                        Some(name) => Some(body@.names.text_of(name)),
                        None => None,
                    }
                } else {
                    None
                }
            },
            None => None,
        }
    }

    /// Whether the entry block of `func` and its parameter at `index` can be
    /// read.
    pub open spec fn root_readable(&self, func: FunctionId, index: int) -> bool {
        let body = self.body_of(func);
        match body.root {
            Some(root) => body.has_block(root) && (index < body.block_rec(root).params@.len()
                ==> body.has_param(body.block_rec(root).params@[index])),
            None => true,
        }
    }

    /// The name of the input of `func` at `index`: that of the parameter of
    /// its entry block, or else that of the external call interface.
    pub open spec fn input_name(&self, func: FunctionId, index: int) -> Option<Seq<char>> {
        match self.root_param_name(func, index) {
            Some(name) => Some(name),
            None => self.interface_of(func).extern_arg_name(index),
        }
    }

    /// The name of the input of `func` at `index`.
    pub fn input_arg_name(&self, func: FunctionId, index: usize) -> (name: Option<String>)
        requires
            self.wf(),
            self.has_function(func),
            self.root_readable(func, index as int),
        ensures
            match self.input_name(func, index as int) {
                Some(text) => name matches Some(name) && name@ == text,
                None => name is None,
            },
    {
        proof {
            assert(self.body_ok(func.0 as int));
        }
        let body = &self.bodies[func.0 as usize];
        if let Some(root) = body.root {
            let params = &body.blocks.get(root.0).params;
            if index < params.len() {
                let param = params[index];
                proof {
                    assert(body@.params.contains_key(param));
                    assert(body@.params[param].name == body.param_rec(param).name);
                }
                if let Some(name) = body.params.get(param.0).name {
                    return Some(body.names.render(name));
                }
            }
        }
        match self.interfaces[func.0 as usize].extern_name(index) {
            Some(name) => Some(String::from_str(name.as_str())),
            None => None,
        }
    }

    /// The name before an argument of a direct call. A view of another
    /// function sees the callee's interface alone.
    pub open spec fn call_arg_label(
        &self,
        owner: Option<FunctionId>,
        callee: Callee,
        index: int,
    ) -> Text {
        let place = "@arg"@ + dec(index as nat) + "="@;
        match callee {
            Callee::Real(target) => Text::given(
                self.has_function(target) && (foreign(owner, target) || self.root_readable(
                    target,
                    index,
                )),
                match if foreign(owner, target) {
                    self.interface_of(target).extern_arg_name(index)
                } else {
                    self.input_name(target, index)
                } {
                    Some(name) => "@"@ + name + "="@,
                    None => place,
                },
            ),
            Callee::Minted(_) => Text::of(place),
        }
    }

    pub(crate) fn call_arg_name(
        &self,
        owner: Option<FunctionId>,
        callee: Callee,
        index: usize,
    ) -> (text: String)
        requires
            self.wf(),
            self.call_arg_label(owner, callee, index as int).ok,
        ensures
            text@ == self.call_arg_label(owner, callee, index as int).chars,
    {
        let n = decimal(index as u64);
        match callee {
            Callee::Real(target) => {
                let name = if is_foreign(owner, target) {
                    match self.interfaces[target.0 as usize].extern_name(index) {
                        Some(name) => Some(String::from_str(name.as_str())),
                        None => None,
                    }
                } else {
                    self.input_arg_name(target, index)
                };
                match name {
                    Some(name) => three("@", name.as_str(), "="),
                    None => three("@arg", n.as_str(), "="),
                }
            },
            Callee::Minted(_) => three("@arg", n.as_str(), "="),
        }
    }

    // Fields.

    /// The name of field `index` of a value of the type stored with `agg`.
    pub open spec fn extract_field(&self, agg: ValueId, index: int) -> Option<Seq<char>> {
        match self.stored_type(agg) {
            Some(ty) => match self.shared.types@[ty.0 as int].fields() {
                Some(fields) if 0 <= index < fields.len() => Some(fields[index].name),
                _ => None,
            },
            None => None,
        }
    }

    /// Whether the type stored with `value` can be read.
    pub open spec fn type_readable(&self, value: ValueId) -> bool {
        self.has_value(value) && (self.stored_type(value) matches Some(ty)
            ==> self.shared.types.has(ty))
    }

    /// The name of the field at `index` of the aggregate `agg`.
    pub fn extract_field_name(&self, agg: ValueId, index: usize) -> (name: Option<&String>)
        requires
            self.wf(),
            self.type_readable(agg),
        ensures
            match self.extract_field(agg, index as int) {
                Some(text) => name matches Some(name) && name@ == text,
                None => name is None,
            },
    {
        match self.stored_type_of(agg) {
            Some(ty) => self.shared.types.field_name(ty, index),
            None => None,
        }
    }

    /// Whether the type stored with `value` and, if it is a pointer, the type it
    /// points to can be read.
    pub open spec fn pointee_readable(&self, value: ValueId) -> bool {
        self.type_readable(value) && (self.stored_type(value) matches Some(ty) ==> (
        self.shared.types@[ty.0 as int] matches TypeView::StructPointer { size, pointee }
            ==> self.shared.types.has(pointee)))
    }

    /// The name of the field at byte `offset` of the struct that `base`, by
    /// the type stored with it, points to.
    pub open spec fn gep_field(&self, base: ValueId, offset: usize) -> Option<Seq<char>> {
        match self.stored_type(base) {
            Some(ty) => match self.shared.types@[ty.0 as int] {
                TypeView::StructPointer { size, pointee } => match self.shared.types@[pointee.0 as int].fields() {
                    Some(fields) => field_at(fields, offset),
                    None => None,
                },
                _ => None,
            },
            None => None,
        }
    }

    /// The name of the field at byte `offset` of the struct that `base`
    /// points to.
    pub fn gep_field_name(&self, base: ValueId, offset: usize) -> (name: Option<&String>)
        requires
            self.wf(),
            self.pointee_readable(base),
        ensures
            match self.gep_field(base, offset) {
                Some(text) => name matches Some(name) && name@ == text,
                None => name is None,
            },
    {
        let ty = match self.stored_type_of(base) {
            Some(ty) => ty,
            None => {
                return None;
            },
        };
        let pointee = match self.shared.types.pointee_of(ty) {
            Some(pointee) => pointee,
            None => {
                return None;
            },
        };
        match self.shared.types.field_by_offset(pointee, offset) {
            Some((i, field)) => {
                proof {
                    lemma_field_at(
                        self.shared.types@[pointee.0 as int].fields()->0,
                        offset,
                        i as int,
                    );
                }
                Some(&field.name)
            },
            None => {
                proof {
                    if let Some(fields) = self.shared.types@[pointee.0 as int].fields() {
                        lemma_no_field_at(fields, offset);
                    }
                }
                None
            },
        }
    }
}

/// The name of the first field at byte `offset`.
pub open spec fn field_at(fields: Seq<FieldView>, offset: usize) -> Option<Seq<char>>
    decreases fields.len(),
{
    if fields.len() == 0 {
        None
    } else if fields[0].offset == offset {
        Some(fields[0].name)
    } else {
        field_at(fields.skip(1), offset)
    }
}

proof fn lemma_field_at(fields: Seq<FieldView>, offset: usize, i: int)
    requires
        0 <= i < fields.len(),
        fields[i].offset == offset,
        forall|k: int| 0 <= k < i ==> (#[trigger] fields[k]).offset != offset,
    ensures
        field_at(fields, offset) == Some(fields[i].name),
    decreases i,
{
    if i > 0 {
        let rest = fields.skip(1);
        assert(rest[i - 1] == fields[i]);
        assert forall|k: int| 0 <= k < i - 1 implies (#[trigger] rest[k]).offset != offset by {
            assert(rest[k] == fields[k + 1]);
        }
        assert(fields[0].offset != offset);
        lemma_field_at(rest, offset, i - 1);
    }
}

proof fn lemma_no_field_at(fields: Seq<FieldView>, offset: usize)
    requires
        forall|k: int| 0 <= k < fields.len() ==> (#[trigger] fields[k]).offset != offset,
    ensures
        field_at(fields, offset) is None,
    decreases fields.len(),
{
    if fields.len() > 0 {
        let rest = fields.skip(1);
        assert(fields[0].offset != offset);
        assert forall|k: int| 0 <= k < rest.len() implies (#[trigger] rest[k]).offset != offset by {
            assert(rest[k] == fields[k + 1]);
        }
        lemma_no_field_at(rest, offset);
    }
}

} // verus!
