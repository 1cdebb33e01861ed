//! Constants that are no numbers.

use crate::ids::TypeId;
use crate::text::digit_char;
use vstd::prelude::*;
use vstd::string::*;

verus! {

/// Bytes in the order of their addresses, without a meaning as a number. Two
/// constants with the same bytes are two constants.
#[derive(Clone, Debug, PartialEq, Eq)]
pub struct Bytes {
    pub data: Vec<u8>,
    /// A type as wide as the bytes.
    pub type_id: TypeId,
}

/// A value whose bits are undefined. Two of one type are two values.
#[derive(Clone, Copy, Debug, PartialEq, Eq, Structural, Hash)]
pub struct Poison {
    pub type_id: TypeId,
}

/// A byte as two hexadecimal digits after `\x`.
pub open spec fn byte_text(byte: u8) -> Seq<char> {
    seq!['\\', 'x', digit_char(byte as int / 16), digit_char(byte as int % 16)]
}

/// The first `n` bytes, escaped.
pub open spec fn escaped(data: Seq<u8>, n: int) -> Seq<char>
    decreases n,
{
    if n <= 0 {
        Seq::empty()
    } else {
        escaped(data, n - 1) + byte_text(data[n - 1])
    }
}

/// Bytes as a literal: `b"\x00\xff"`.
pub open spec fn bytes_text(data: Seq<u8>) -> Seq<char> {
    seq!['b', '"'] + escaped(data, data.len() as int) + seq!['"']
}

impl Bytes {
    pub fn data(&self) -> (data: &Vec<u8>)
        ensures
            *data == self.data,
    {
        &self.data
    }

    pub fn type_id(&self) -> (id: TypeId)
        ensures
            id == self.type_id,
    {
        self.type_id
    }

    /// How many bytes there are.
    pub fn size(&self) -> (n: usize)
        ensures
            n == self.data@.len(),
    {
        self.data.len()
    }

    /// The bytes as a literal.
    pub fn render(&self) -> (text: String)
        ensures
            text@ == bytes_text(self.data@),
    {
        let mut text = String::from_str("b\"");
        proof {
            reveal_strlit("b\"");
            reveal_strlit("\\x");
            reveal_strlit("\"");
            assert(text@ =~= seq!['b', '"'] + escaped(self.data@, 0));
        }
        let mut i: usize = 0;
        while i < self.data.len()
            invariant
                i <= self.data.len(),
                text@ == seq!['b', '"'] + escaped(self.data@, i as int),
            decreases self.data.len() - i,
        {
            let byte: u8 = self.data[i];
            let ghost before = text@;
            text.append("\\x");
            push_digit(&mut text, byte / 16);
            push_digit(&mut text, byte % 16);
            proof {
                reveal_strlit("\\x");
                assert(text@ =~= before + byte_text(byte));
                assert(text@ =~= seq!['b', '"'] + escaped(self.data@, i + 1));
            }
            i = i + 1;
        }
        text.append("\"");
        proof {
            reveal_strlit("\"");
            assert(text@ =~= bytes_text(self.data@));
        }
        text
    }
}

/// Appends a hexadecimal digit.
fn push_digit(text: &mut String, digit: u8)
    requires
        digit < 16,
    ensures
        final(text)@ == old(text)@.push(digit_char(digit as int)),
{
    let s = crate::text::hex_name(digit as u64);
    proof {
        assert(s@ =~= seq![digit_char(digit as int)]);
        assert(old(text)@ + s@ =~= old(text)@.push(digit_char(digit as int)));
    }
    text.append(s.as_str());
}

impl Poison {
    pub fn type_id(&self) -> (id: TypeId)
        ensures
            id == self.type_id,
    {
        self.type_id
    }
}

} // verus!
