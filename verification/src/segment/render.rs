//! The rendering of values, instructions, blocks and functions.

use crate::constants::bytes_text;
use crate::context::{Context, Shared};
use crate::function::interface::{FunctionInterface, FunctionKind};
use crate::function::refs::in_listing_order;
use crate::ids::{BlockId, FunctionId, InstructionId, LiteralId, LocalBlockId};
use crate::literal::SymbolicRef;
use crate::segment::atoms::{both, debug_text, foreign, quoted, three, Text};
use crate::segment::depth::{
    law_blocks_do_not_depend_on_depth, law_instructions_do_not_depend_on_depth,
    law_values_do_not_depend_on_depth,
};
use crate::segment::line::{block_text, insn_line, line_text, value_line, Line};
use crate::segment::listing::block_listing;
use crate::segment::write::{statement, Seg};
use crate::segment::{join, token_views, Link, Token, TokenKind, TokenView};
use crate::text::{decimal, hex, hex_name};
use crate::types::TypeView;
use crate::types::query::{nameable, type_text};
use crate::value::ValueId;
use vstd::prelude::*;
use vstd::string::*;

verus! {

/// Whether a value can be rendered: all that its tokens name is there, and no
/// block is written within itself.
pub open spec fn value_renders(c: Context, o: Option<FunctionId>, id: ValueId) -> bool {
    value_line(c, o, id, 1).ok || exists|d: nat| (#[trigger] value_line(c, o, id, d)).ok
}

/// Whether an instruction can be rendered.
pub open spec fn insn_renders(c: Context, o: Option<FunctionId>, id: InstructionId) -> bool {
    insn_line(c, o, id, 1).ok || exists|d: nat| (#[trigger] insn_line(c, o, id, d)).ok
}

/// Whether a block can be rendered.
pub open spec fn block_renders(c: Context, o: Option<FunctionId>, id: BlockId) -> bool {
    block_text(c, o, id, 1).ok || exists|d: nat| (#[trigger] block_text(c, o, id, d)).ok
}

/// An instruction as tokens, for a view of `owner` or of the whole module.
pub fn instruction_segments(ctx: &Context, owner: Option<FunctionId>, id: InstructionId) -> (tokens:
    Vec<Token>)
    requires
        ctx.wf(),
        insn_renders(*ctx, owner, id),
    ensures
        forall|d: nat|
            (#[trigger] insn_line(*ctx, owner, id, d)).ok ==> token_views(tokens@) == insn_line(
                *ctx,
                owner,
                id,
                d,
            ).tokens,
{
    let ghost d = choose|d: nat| (#[trigger] insn_line(*ctx, owner, id, d)).ok;
    let seg = statement(ctx, owner, id, Ghost(d));
    proof {
        assert forall|e: nat| (#[trigger] insn_line(*ctx, owner, id, e)).ok implies seg@.tokens
            == insn_line(*ctx, owner, id, e).tokens by {
            law_instructions_do_not_depend_on_depth(*ctx, owner, id, d, e);
        }
    }
    seg.out
}

/// The text of an instruction: that of its tokens, one after the other.
pub fn statement_text(ctx: &Context, owner: Option<FunctionId>, id: InstructionId) -> (text: String)
    requires
        ctx.wf(),
        insn_renders(*ctx, owner, id),
    ensures
        forall|d: nat|
            (#[trigger] insn_line(*ctx, owner, id, d)).ok ==> text@ == line_text(
                insn_line(*ctx, owner, id, d),
            ).chars,
{
    let tokens = instruction_segments(ctx, owner, id);
    join(&tokens)
}

/// A value as tokens, for the whole module.
pub fn value_tokens(ctx: &Context, id: ValueId) -> (tokens: Vec<Token>)
    requires
        ctx.wf(),
        value_renders(*ctx, None, id),
    ensures
        forall|d: nat|
            (#[trigger] value_line(*ctx, None, id, d)).ok ==> token_views(tokens@) == value_line(
                *ctx,
                None,
                id,
                d,
            ).tokens,
{
    value_tokens_view(ctx, None, id)
}

/// A value as tokens, for a view of `owner` or of the whole module. A view of
/// one function cannot write out a block of another.
pub fn value_tokens_view(ctx: &Context, owner: Option<FunctionId>, id: ValueId) -> (tokens: Vec<
    Token,
>)
    requires
        ctx.wf(),
        value_renders(*ctx, owner, id),
        id matches ValueId::BasicBlock(block) ==> !foreign(owner, block.func),
    ensures
        forall|d: nat|
            (#[trigger] value_line(*ctx, owner, id, d)).ok ==> token_views(tokens@) == value_line(
                *ctx,
                owner,
                id,
                d,
            ).tokens,
{
    let ghost d = choose|d: nat| (#[trigger] value_line(*ctx, owner, id, d)).ok;
    let mut seg = Seg::new(ctx, owner);
    seg.value(id, Ghost(d));
    proof {
        assert forall|e: nat| (#[trigger] value_line(*ctx, owner, id, e)).ok implies seg@.tokens
            == value_line(*ctx, owner, id, e).tokens by {
            law_values_do_not_depend_on_depth(*ctx, owner, id, d, e);
            assert(Line::empty().cat(value_line(*ctx, owner, id, d)).tokens =~= value_line(
                *ctx,
                owner,
                id,
                d,
            ).tokens);
        }
    }
    seg.out
}

/// How a literal is written, for the whole module.
pub fn literal_atom(ctx: &Context, id: LiteralId) -> (text: String)
    requires
        ctx.wf(),
        ctx.shared.literals.has(id),
        ctx.literal_label(None, id).ok,
    ensures
        text@ == ctx.literal_label(None, id).chars,
{
    ctx.literal_atom_view(None, id)
}

/// The text of a block.
pub fn block_display(ctx: &Context, owner: Option<FunctionId>, id: BlockId) -> (text: String)
    requires
        ctx.wf(),
        block_renders(*ctx, owner, id),
    ensures
        forall|d: nat|
            (#[trigger] block_text(*ctx, owner, id, d)).ok ==> text@ == block_text(
                *ctx,
                owner,
                id,
                d,
            ).chars,
{
    let ghost d = choose|d: nat| (#[trigger] block_text(*ctx, owner, id, d)).ok;
    let text = block_listing(ctx, owner, id, Ghost(d));
    proof {
        assert forall|e: nat| (#[trigger] block_text(*ctx, owner, id, e)).ok implies text@
            == block_text(*ctx, owner, id, e).chars by {
            law_blocks_do_not_depend_on_depth(*ctx, owner, id, d, e);
        }
    }
    text
}

/// The first `n` blocks of a function, one after the other.
pub open spec fn blocks_text(
    c: Context,
    func: FunctionId,
    locals: Seq<LocalBlockId>,
    n: nat,
    depth: nat,
) -> Seq<char>
    decreases n,
{
    if n == 0 {
        Seq::empty()
    } else {
        blocks_text(c, func, locals, (n - 1) as nat, depth) + block_text(
            c,
            None,
            BlockId { func, local: locals[n - 1] },
            depth,
        ).chars
    }
}

/// The first line of a function.
pub open spec fn function_head(face: FunctionInterface) -> Seq<char> {
    if face.is_external {
        "extern fn "@ + face.name@ + ";\n"@
    } else if face.kind is Lambda {
        "lambda "@ + face.name@ + ":\n"@
    } else {
        "fn "@ + face.name@ + ":\n"@
    }
}

/// Whether all blocks of a function can be rendered within depth `d`.
pub open spec fn blocks_render(c: Context, func: FunctionId, d: nat) -> bool {
    forall|k: int|
        0 <= k < c.body_of(func).roster@.len() ==> block_text(
            c,
            None,
            BlockId { func, local: #[trigger] c.body_of(func).roster@[k] },
            d,
        ).ok
}

/// A listed block can be rendered where all blocks of the function can.
proof fn lemma_listed_renders(
    c: Context,
    func: FunctionId,
    locals: Seq<LocalBlockId>,
    i: int,
    d: nat,
)
    requires
        blocks_render(c, func, d),
        locals.to_multiset() == c.body_of(func).roster@.to_multiset(),
        0 <= i < locals.len(),
    ensures
        block_text(c, None, BlockId { func, local: locals[i] }, d).ok,
{
    let roster = c.body_of(func).roster@;
    locals.to_multiset_ensures();
    roster.to_multiset_ensures();
    assert(locals.contains(locals[i]));
    assert(roster.to_multiset().count(locals[i]) > 0);
    assert(roster.contains(locals[i]));
    let k = choose|k: int| 0 <= k < roster.len() && roster[k] == locals[i];
    assert(block_text(c, None, BlockId { func, local: roster[k] }, d).ok);
}

/// The text of a function: its first line and, where it has a body, its blocks
/// by address.
pub fn function_display(ctx: &Context, func: FunctionId) -> (text: String)
    requires
        ctx.wf(),
        ctx.has_function(func),
        ctx.interface_of(func).is_external || exists|d: nat| #[trigger]
            blocks_render(*ctx, func, d),
    ensures
        ctx.interface_of(func).is_external ==> text@ == function_head(ctx.interface_of(func)),
        !ctx.interface_of(func).is_external ==> exists|locals: Seq<LocalBlockId>, d: nat|
            {
                &&& in_listing_order(ctx.body_of(func), locals)
                &&& locals.to_multiset() == ctx.body_of(func).roster@.to_multiset()
                &&& text@ == function_head(ctx.interface_of(func)) + #[trigger] blocks_text(
                    *ctx,
                    func,
                    locals,
                    locals.len(),
                    d,
                )
                &&& blocks_render(*ctx, func, d)
            },
{
    let face = &ctx.interfaces[func.0 as usize];
    if face.is_external {
        return three("extern fn ", face.name.as_str(), ";\n");
    }
    let head = match face.kind {
        FunctionKind::Machine => three("fn ", face.name.as_str(), ":\n"),
        FunctionKind::Lambda => three("lambda ", face.name.as_str(), ":\n"),
    };
    let ghost d = choose|d: nat| #[trigger] blocks_render(*ctx, func, d);
    proof {
        assert(ctx.body_ok(func.0 as int));
    }
    let locals = ctx.bodies[func.0 as usize].listed_blocks();
    let mut text = String::new();
    let mut i: usize = 0;
    while i < locals.len()
        invariant
            ctx.wf(),
            blocks_render(*ctx, func, d),
            locals@.to_multiset() == ctx.body_of(func).roster@.to_multiset(),
            i <= locals.len(),
            text@ == blocks_text(*ctx, func, locals@, i as nat, d),
        decreases locals.len() - i,
    {
        proof {
            lemma_listed_renders(*ctx, func, locals@, i as int, d);
        }
        let block = block_listing(ctx, None, BlockId::new(func, locals[i]), Ghost(d));
        text.append(block.as_str());
        i = i + 1;
    }
    both(head.as_str(), text.as_str())
}

// Values that the module shares, from what is shared alone.

impl Shared {
    /// How a literal is written where no function is in sight: blocks and
    /// functions are numbers.
    pub open spec fn literal_label(&self, id: LiteralId) -> Text {
        let literal = self.literals@[id.0 as int];
        match literal.symbolic {
            Some(SymbolicRef::Block(_)) | Some(SymbolicRef::Function(_)) => Text::of(
                "&<0x"@ + hex(literal.value as nat) + ">"@,
            ),
            Some(SymbolicRef::String(text)) => Text::of("&"@ + debug_text(text@)),
            None => Text::given(
                self.types.has(literal.type_id),
                if self.types@[literal.type_id.0 as int] == TypeView::Bool {
                    if literal.value != 0 {
                        "true"@
                    } else {
                        "false"@
                    }
                } else {
                    "0x"@ + hex(literal.value as nat)
                },
            ),
        }
    }

    fn literal_text(&self, id: LiteralId) -> (text: String)
        requires
            self.wf(),
            self.literals.has(id),
            self.literal_label(id).ok,
        ensures
            text@ == self.literal_label(id).chars,
    {
        let literal = self.literals.get(id);
        let digits = hex_name(literal.value);
        match &literal.symbolic {
            Some(SymbolicRef::Block(_)) | Some(SymbolicRef::Function(_)) => three(
                "&<0x",
                digits.as_str(),
                ">",
            ),
            Some(SymbolicRef::String(text)) => {
                let quote = quoted(text.as_str());
                both("&", quote.as_str())
            },
            None => {
                if self.types.is_bool(literal.type_id) {
                    if literal.value != 0 {
                        String::from_str("true")
                    } else {
                        String::from_str("false")
                    }
                } else {
                    both("0x", digits.as_str())
                }
            },
        }
    }

    /// The type before a value, and the value.
    pub open spec fn typed(
        &self,
        type_id: crate::ids::TypeId,
        text: Text,
        kind: TokenKind,
        id: ValueId,
    ) -> Line {
        Line {
            tokens: seq![
                TokenView {
                    text: type_text(self.types@, type_id.0 as int) + " "@,
                    kind: TokenKind::Type,
                    link: None,
                },
                TokenView { text: text.chars, kind, link: Some(Link::Value(id)) },
            ],
            ok: self.types.has(type_id) && nameable(self.types@, type_id.0 as int) && text.ok,
        }
    }

    /// The tokens of a value that the module shares; other values have none.
    pub open spec fn value_line(&self, id: ValueId) -> Line {
        match id {
            ValueId::Literal(l) => {
                let line = self.typed(
                    self.literals@[l.0 as int].type_id,
                    self.literal_label(l),
                    TokenKind::Literal,
                    id,
                );
                line.given(self.literals.has(l))
            },
            ValueId::Bytes(b) => {
                let line = self.typed(
                    self.bytes.at(b).type_id,
                    Text::of(bytes_text(self.bytes.at(b).data@)),
                    TokenKind::Bytes,
                    id,
                );
                line.given(self.bytes.has(b))
            },
            ValueId::Varnode(v) => {
                let varnode = self.varnodes.at(v);
                Line::empty().given(self.varnodes.has(v)).width(varnode.size).push(
                    varnode.name@,
                    TokenKind::Varnode,
                    Some(Link::Value(id)),
                )
            },
            ValueId::Poison(p) => {
                let line = self.typed(
                    self.poisons.at(p).type_id,
                    Text::of("poison"@),
                    TokenKind::Literal,
                    id,
                );
                line.given(self.poisons.has(p))
            },
            _ => Line::empty().given(false),
        }
    }
}

/// A value that the module shares as tokens, from what is shared alone.
pub fn value_tokens_shared(shared: &Shared, id: ValueId) -> (tokens: Vec<Token>)
    requires
        shared.wf(),
        shared.value_line(id).ok,
    ensures
        token_views(tokens@) == shared.value_line(id).tokens,
{
    let link = Some(Link::Value(id));
    let mut tokens: Vec<Token> = Vec::new();
    match id {
        ValueId::Literal(l) => {
            let name = shared.types.display_name(shared.literals.get(l).type_id);
            tokens.push(
                Token { text: both(name.as_str(), " "), kind: TokenKind::Type, link: None },
            );
            tokens.push(Token { text: shared.literal_text(l), kind: TokenKind::Literal, link });
        },
        ValueId::Bytes(b) => {
            let bytes = shared.bytes.get(b);
            let name = shared.types.display_name(bytes.type_id);
            tokens.push(
                Token { text: both(name.as_str(), " "), kind: TokenKind::Type, link: None },
            );
            tokens.push(Token { text: bytes.render(), kind: TokenKind::Bytes, link });
        },
        ValueId::Varnode(v) => {
            let varnode = shared.varnodes.get(v);
            let bits = decimal(varnode.size as u64 * 8);
            tokens.push(
                Token { text: three("i", bits.as_str(), " "), kind: TokenKind::Type, link: None },
            );
            let name = String::from_str(varnode.name.as_str());
            tokens.push(Token { text: name, kind: TokenKind::Varnode, link });
        },
        ValueId::Poison(p) => {
            let name = shared.types.display_name(shared.poisons.get(p).type_id);
            tokens.push(
                Token { text: both(name.as_str(), " "), kind: TokenKind::Type, link: None },
            );
            let word = String::from_str("poison");
            tokens.push(Token { text: word, kind: TokenKind::Literal, link });
        },
        _ => {},
    }
    proof {
        assert(token_views(tokens@) =~= shared.value_line(id).tokens);
    }
    tokens
}

/// What is shared renders alike with and without the rest of the module,
/// except for literals that stand for a block or a function.
pub proof fn law_shared_values_render_alike(c: Context, o: Option<FunctionId>, id: ValueId, d: nat)
    requires
        value_line(c, o, id, d).ok,
        id is Literal || id is Bytes || id is Varnode || id is Poison,
        id matches ValueId::Literal(l) ==> !(c.shared.literals@[l.0 as int].symbolic matches Some(
            SymbolicRef::Block(_),
        )) && !(c.shared.literals@[l.0 as int].symbolic matches Some(SymbolicRef::Function(_))),
    ensures
        c.shared.value_line(id).ok,
        c.shared.value_line(id).tokens == value_line(c, o, id, d).tokens,
{
    assert(c.shared.value_line(id).tokens =~= value_line(c, o, id, d).tokens);
}

} // verus!
