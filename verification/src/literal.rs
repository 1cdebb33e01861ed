//! Integer constants.
//!
//! A literal is a number of a type, which gives its width, and may have a
//! symbolic meaning besides: the address of a block or a function, or a
//! string.

use crate::fx::KeyMap;
use crate::ids::{BlockId, FunctionId, LiteralId, TypeId};
use vstd::arithmetic::power2::{lemma2_to64, lemma2_to64_rest, pow2};
use vstd::bits::lemma_u64_low_bits_mask_is_mod;
use vstd::prelude::*;

verus! {

/// What a number stands for besides its value.
#[derive(Clone, Debug, PartialEq, Eq)]
pub enum SymbolicRef {
    /// It is the address of this block.
    Block(BlockId),
    /// It is the entry address of this function.
    Function(FunctionId),
    /// It points to this string.
    String(String),
}

/// An integer constant.
#[derive(Clone, Debug, PartialEq, Eq)]
pub struct Literal {
    /// The number, which may be wider than the type.
    pub value: u64,
    pub type_id: TypeId,
    pub symbolic: Option<SymbolicRef>,
}

/// The low `size` bytes of `value`.
pub open spec fn low_bytes(value: u64, size: usize) -> int {
    if size >= 8 {
        value as int
    } else {
        value as int % pow2((size * 8) as nat) as int
    }
}

/// The mask of the low `size` bytes.
pub fn mask_of_size(size: usize) -> (mask: u64)
    ensures
        size >= 8 ==> mask == u64::MAX,
        size < 8 ==> mask == pow2((size * 8) as nat) - 1,
        forall|value: u64| (#[trigger] (value & mask)) == low_bytes(value, size),
{
    if size >= 8 {
        proof {
            assert forall|value: u64| (#[trigger] (value & u64::MAX)) == low_bytes(value, size) by {
                assert(value & u64::MAX == value) by (bit_vector)
                    requires
                        u64::MAX == 0xffff_ffff_ffff_ffffu64,
                ;
            }
        }
        u64::MAX
    } else {
        proof {
            lemma2_to64();
            lemma2_to64_rest();
            let bits = (size * 8) as nat;
            assert(bits == 0 || bits == 8 || bits == 16 || bits == 24 || bits == 32 || bits == 40
                || bits == 48 || bits == 56);
            vstd::bits::lemma_u64_shl_is_mul(1, bits as u64);
            vstd::bits::lemma_low_bits_mask_values();
            assert forall|value: u64|
                (#[trigger] (value & ((pow2(bits) - 1) as u64))) == low_bytes(value, size) by {
                lemma_u64_low_bits_mask_is_mod(value, bits);
            }
        }
        (1u64 << (size * 8)) - 1
    }
}

/// The low `size` bytes of `value`.
pub fn mask_to_size(value: u64, size: usize) -> (masked: u64)
    ensures
        masked == low_bytes(value, size),
{
    value & mask_of_size(size)
}

/// Where constants of the number `value` and the type `type_id` are found.
pub open spec fn literal_key(value: int, type_id: TypeId) -> int {
    value * 0x1_0000_0000 + type_id.0
}

/// The table of literals. Numbers that have no symbolic meaning are there once
/// for each type.
pub struct LiteralInterner {
    pub literals: Vec<Literal>,
    pub found: KeyMap<usize>,
}

impl View for LiteralInterner {
    type V = Seq<Literal>;

    open spec fn view(&self) -> Seq<Literal> {
        self.literals@
    }
}

/// The first literal of `s` without a symbolic meaning whose key is `k`.
pub open spec fn first_plain(s: Seq<Literal>, k: int, i: int) -> bool {
    &&& plain_at(s, k, i)
    &&& forall|j: int| 0 <= j < i ==> !#[trigger] plain_at(s, k, j)
}

/// Whether the literal at `i` has no symbolic meaning, and the key `k`.
pub open spec fn plain_at(s: Seq<Literal>, k: int, i: int) -> bool {
    &&& 0 <= i < s.len()
    &&& s[i].symbolic is None
    &&& literal_key(s[i].value as int, s[i].type_id) == k
}

fn key_of(value: u64, type_id: TypeId) -> (key: u128)
    ensures
        key == literal_key(value as int, type_id),
{
    value as u128 * 0x1_0000_0000 + type_id.0 as u128
}

/// A key has one number and one type.
proof fn lemma_literal_key(v: u64, t: TypeId, w: u64, u: TypeId)
    requires
        literal_key(v as int, t) == literal_key(w as int, u),
    ensures
        v == w,
        t == u,
{
}

/// `b` is the table `a` after a request for the number `v` of the type
/// `type_id`, which gave `id`: the literal that was there, or a new one.
pub open spec fn requested(
    a: LiteralInterner,
    v: int,
    type_id: TypeId,
    b: LiteralInterner,
    id: LiteralId,
) -> bool {
    match a.finds(v, type_id) {
        Some(there) => id == there && b == a,
        None => id.0 == a@.len() && b@ == a@.push(
            Literal { value: v as u64, type_id, symbolic: None },
        ) && (forall|w: u64, u: TypeId| #[trigger]
            b.finds(w as int, u) == (if w == v && u == type_id {
                Some(id)
            } else {
                a.finds(w as int, u)
            })),
    }
}

impl LiteralInterner {
    /// What is found is a literal of the number and the type looked for.
    pub open spec fn wf(&self) -> bool {
        forall|k: u128| #[trigger]
            self.found@.contains_key(k) ==> self.found@[k] < self@.len() && literal_key(
                self@[self.found@[k] as int].value as int,
                self@[self.found@[k] as int].type_id,
            ) == k
    }

    /// Whether `id` names a literal.
    pub open spec fn has(&self, id: LiteralId) -> bool {
        id.0 < self@.len()
    }

    /// The literal that a request for the number `value` of the type
    /// `type_id` finds.
    pub open spec fn finds(&self, value: int, type_id: TypeId) -> Option<LiteralId> {
        let k = literal_key(value, type_id) as u128;
        if self.found@.contains_key(k) {
            Some(LiteralId(self.found@[k]))
        } else {
            None
        }
    }

    pub fn new() -> (table: Self)
        ensures
            table.wf(),
            table@ == Seq::<Literal>::empty(),
            forall|v: int, t: TypeId| #[trigger] table.finds(v, t) is None,
    {
        LiteralInterner { literals: Vec::new(), found: KeyMap::new() }
    }

    /// The one literal for the low `size` bytes of `value`, of the type
    /// `type_id`, made if need be.
    pub fn get_or_make_typed_literal(&mut self, value: u64, type_id: TypeId, size: usize) -> (id:
        LiteralId)
        requires
            old(self).wf(),
        ensures
            final(self).wf(),
            requested(*old(self), low_bytes(value, size), type_id, *final(self), id),
            final(self).finds(low_bytes(value, size), type_id) == Some(id),
            final(self).has(id),
            final(self)@[id.0 as int].value == low_bytes(value, size),
            final(self)@[id.0 as int].type_id == type_id,
    {
        let value: u64 = mask_to_size(value, size);
        let key: u128 = key_of(value, type_id);
        if let Some(there) = self.found.get(key) {
            proof {
                let l = self@[there as int];
                lemma_literal_key(l.value, l.type_id, value, type_id);
            }
            return LiteralId(there);
        }
        let i: usize = self.literals.len();
        self.literals.push(Literal { value, type_id, symbolic: None });
        self.found.insert(key, i);
        proof {
            assert forall|w: u64, u: TypeId| #[trigger]
                self.finds(w as int, u) == (if w == value && u == type_id {
                    Some(LiteralId(i))
                } else {
                    old(self).finds(w as int, u)
                }) by {
                if literal_key(w as int, u) == key {
                    lemma_literal_key(w, u, value, type_id);
                }
            }
        }
        LiteralId(i)
    }

    /// Appends a literal as it is; it will not be found by its number.
    pub fn push_literal(&mut self, literal: Literal) -> (id: LiteralId)
        requires
            old(self).wf(),
        ensures
            final(self).wf(),
            final(self)@ == old(self)@.push(literal),
            id.0 == old(self)@.len(),
            forall|v: int, t: TypeId| #[trigger] final(self).finds(v, t) == old(self).finds(v, t),
    {
        let i: usize = self.literals.len();
        self.literals.push(literal);
        LiteralId(i)
    }

    /// The literals with their names, in the order they came in.
    pub fn iter(&self) -> (pairs: Vec<(LiteralId, &Literal)>)
        ensures
            pairs@.len() == self@.len(),
            forall|i: int|
                0 <= i < pairs@.len() ==> (#[trigger] pairs@[i]).0.0 == i && *pairs@[i].1
                    == self@[i],
    {
        let n: usize = self.literals.len();
        let mut pairs: Vec<(LiteralId, &Literal)> = Vec::new();
        let mut i: usize = 0;
        while i < n
            invariant
                n == self@.len(),
                n == self.literals@.len(),
                i <= n,
                pairs@.len() == i,
                forall|j: int|
                    0 <= j < i ==> (#[trigger] pairs@[j]).0.0 == j && *pairs@[j].1 == self@[j],
            decreases n - i,
        {
            pairs.push((LiteralId(i), &self.literals[i]));
            i = i + 1;
        }
        pairs
    }

    /// Gives the literal `id` a symbolic meaning; its number and its type stay.
    pub fn set_symbolic(&mut self, id: LiteralId, symbolic: Option<SymbolicRef>)
        requires
            old(self).wf(),
            old(self).has(id),
        ensures
            final(self).wf(),
            final(self)@ == old(self)@.update(
                id.0 as int,
                (Literal { symbolic, ..old(self)@[id.0 as int] }),
            ),
            forall|v: int, t: TypeId| #[trigger] final(self).finds(v, t) == old(self).finds(v, t),
    {
        let value: u64 = self.literals[id.0].value;
        let type_id = self.literals[id.0].type_id;
        self.literals.set(id.0, Literal { value, type_id, symbolic });
    }

    pub fn len(&self) -> (n: usize)
        ensures
            n == self@.len(),
    {
        self.literals.len()
    }

    pub fn is_empty(&self) -> (b: bool)
        ensures
            b == (self@.len() == 0),
    {
        self.literals.len() == 0
    }

    /// The literal `id`.
    pub fn get(&self, id: LiteralId) -> (literal: &Literal)
        requires
            self.has(id),
        ensures
            *literal == self@[id.0 as int],
    {
        &self.literals[id.0]
    }

    /// The table of the given literals, in which the first of those without a
    /// symbolic meaning is found by its number and type.
    pub fn from_literals(literals: Vec<Literal>) -> (table: Self)
        ensures
            table.wf(),
            table@ == literals@,
            forall|v: u64, t: TypeId|
                match #[trigger] table.finds(v as int, t) {
                    Some(id) => first_plain(literals@, literal_key(v as int, t), id.0 as int),
                    None => forall|i: int|
                        !#[trigger] plain_at(literals@, literal_key(v as int, t), i),
                },
    {
        let mut found: KeyMap<usize> = KeyMap::new();
        let mut i: usize = 0;
        while i < literals.len()
            invariant
                i <= literals.len(),
                forall|k: u128| #[trigger]
                    found@.contains_key(k) ==> first_plain(literals@, k as int, found@[k] as int),
                forall|k: u128, j: int|
                    0 <= j < i && #[trigger] plain_at(literals@, k as int, j)
                        ==> #[trigger] found@.contains_key(k),
            decreases literals.len() - i,
        {
            if literals[i].symbolic.is_none() {
                let key: u128 = key_of(literals[i].value, literals[i].type_id);
                if !found.contains_key(key) {
                    found.insert(key, i);
                    proof {
                        assert forall|j: int| 0 <= j < i implies !#[trigger] plain_at(
                            literals@,
                            key as int,
                            j,
                        ) by {}
                        assert(plain_at(literals@, key as int, i as int));
                    }
                }
            }
            i = i + 1;
        }
        let table = LiteralInterner { literals, found };
        proof {
            assert forall|v: u64, t: TypeId| true implies (match #[trigger] table.finds(
                v as int,
                t,
            ) {
                Some(id) => first_plain(literals@, literal_key(v as int, t), id.0 as int),
                None => forall|i: int|
                    !#[trigger] plain_at(literals@, literal_key(v as int, t), i),
            }) by {
                let k = literal_key(v as int, t);
                assert(0 <= k <= u128::MAX);
                assert(k as u128 as int == k);
            }
        }
        table
    }
}

/// A second request for a number of a type gives the literal of the first and
/// changes nothing.
pub proof fn law_a_constant_has_one_literal(
    a: LiteralInterner,
    v: u64,
    type_id: TypeId,
    b: LiteralInterner,
    first: LiteralId,
    c: LiteralInterner,
    second: LiteralId,
)
    requires
        requested(a, v as int, type_id, b, first),
        requested(b, v as int, type_id, c, second),
    ensures
        first == second,
        c == b,
{
    assert(b.finds(v as int, type_id) == Some(first));
}

/// Different numbers, or numbers of different types, get different literals.
pub proof fn law_different_constants_have_different_literals(
    a: LiteralInterner,
    v: u64,
    t: TypeId,
    b: LiteralInterner,
    first: LiteralId,
    w: u64,
    u: TypeId,
    c: LiteralInterner,
    second: LiteralId,
)
    requires
        b.wf(),
        requested(a, v as int, t, b, first),
        requested(b, w as int, u, c, second),
        v != w || t != u,
    ensures
        first != second,
{
    assert(b.finds(v as int, t) == Some(first));
    if b.finds(w as int, u) is Some && first == second {
        lemma_literal_key(v, t, w, u);
    }
}

/// A literal that was pushed as it is never comes out of a request.
pub proof fn law_a_pushed_literal_is_not_found(
    a: LiteralInterner,
    b: LiteralInterner,
    id: LiteralId,
    v: u64,
    type_id: TypeId,
)
    requires
        a.wf(),
        id.0 == a@.len(),
        b.finds(v as int, type_id) == a.finds(v as int, type_id),
    ensures
        b.finds(v as int, type_id) != Some(id),
{
}

} // verus!
