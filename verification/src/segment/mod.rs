//! Instructions as text.
//!
//! An instruction is rendered as a run of tokens, each with what it is and
//! what it refers to; the text of an instruction is that of its tokens, one
//! after the other. What is rendered here is defined over a view of the
//! module: the whole of it, or the part that one function may see.

pub mod atoms;
pub mod blocks;
pub mod depth;
pub mod labels;
pub mod laws;
pub mod line;
pub mod listing;
pub mod render;
pub mod runs;
pub mod values;
pub mod write;

use crate::ids::{BlockId, FunctionId};
use crate::value::ValueId;
use vstd::prelude::*;
use vstd::string::*;

verus! {

/// What a token is.
#[derive(Clone, Copy, Debug, PartialEq, Eq, Structural)]
pub enum TokenKind {
    /// The name of a type, or the width of an access or a cast.
    Type,
    /// The result of an instruction.
    Variable,
    /// A block parameter, or the name of an argument.
    BlockParam,
    /// A storage location.
    Varnode,
    /// A constant or an offset.
    Literal,
    /// A constant of bytes.
    Bytes,
    /// A reserved word.
    Keyword,
    Operator,
    Punctuation,
    /// The label of a block.
    Label,
    /// The name of a field.
    Field,
    /// A function.
    Function,
    /// A memory space.
    Space,
}

/// What a token refers to.
#[derive(Clone, Copy, Debug, PartialEq, Eq, Structural)]
pub enum Link {
    Value(ValueId),
    Function(FunctionId),
    Block(BlockId),
}

/// A run of text.
#[derive(Debug)]
pub struct Token {
    pub text: String,
    pub kind: TokenKind,
    pub link: Option<Link>,
}

/// What a token is, as values.
pub struct TokenView {
    pub text: Seq<char>,
    pub kind: TokenKind,
    pub link: Option<Link>,
}

impl View for Token {
    type V = TokenView;

    open spec fn view(&self) -> TokenView {
        TokenView { text: self.text@, kind: self.kind, link: self.link }
    }
}

/// What a run of tokens is.
pub open spec fn token_views(tokens: Seq<Token>) -> Seq<TokenView> {
    tokens.map_values(|t: Token| t@)
}

/// The text of the first `n` tokens.
pub open spec fn joined(tokens: Seq<TokenView>, n: int) -> Seq<char>
    decreases n,
{
    if n <= 0 {
        Seq::empty()
    } else {
        joined(tokens, n - 1) + tokens[n - 1].text
    }
}

/// The text of tokens, one after the other.
pub fn join(tokens: &Vec<Token>) -> (text: String)
    ensures
        text@ == joined(token_views(tokens@), tokens@.len() as int),
{
    let mut text = String::new();
    let mut i: usize = 0;
    while i < tokens.len()
        invariant
            i <= tokens.len(),
            text@ == joined(token_views(tokens@), i as int),
        decreases tokens.len() - i,
    {
        text.append(tokens[i].text.as_str());
        i = i + 1;
    }
    text
}

} // verus!
