//! Function-local names, kept as what they derive from.
//!
//! Nearly every name of a body is one of two derived kinds: a load named
//! after its register (`rax`, then `rax_1`, `rax_2` and so on) and a block
//! labelled with its address in hexadecimal. A [`Name`] is a base that the
//! body's table interns and a suffix, written `base` or `base_<n>`; a block
//! at an address with no name of its own is labelled with the address and
//! holds no name at all.
//!
//! The rule is the one a flat table of strings would give: a taken bare name
//! gets the first free `base_<n>` with `n >= 1`, and a name given as
//! `base_<n>` takes that slot. A block's label counts as taken against a name
//! spelled the same way, and the other way round.

use crate::base::BaseId;
use crate::error::Error;
use crate::fx::{KeyMap, TextIndex};
use crate::text::{
    all_digits, dec, decimal, digit_value, hex, hex_name, lemma_digits, lemma_spelled, spelled,
};
use vstd::prelude::*;
use vstd::string::*;

verus! {

broadcast use crate::base::group_bases;

/// A function-local name: a base and a suffix, written `base` for suffix 0
/// and `base_<suffix>` otherwise.
#[derive(Clone, Copy, Debug, PartialEq, Eq, Structural, Hash)]
pub struct Name {
    pub base: BaseId,
    pub suffix: u32,
}

impl Name {
    pub fn new(base: BaseId, suffix: u32) -> (name: Self)
        ensures
            name == (Name { base, suffix }),
    {
        Name { base, suffix }
    }

    pub fn base(self) -> (base: BaseId)
        ensures
            base == self.base,
    {
        self.base
    }

    pub fn suffix(self) -> (suffix: u32)
        ensures
            suffix == self.suffix,
    {
        self.suffix
    }
}

/// How a base and a suffix are written.
pub open spec fn spelling(base: Seq<char>, suffix: u32) -> Seq<char> {
    if suffix == 0 {
        base
    } else {
        base + seq!['_'] + dec(suffix as nat)
    }
}

/// Whether `text` is no suffixed form of any base.
pub open spec fn is_bare(text: Seq<char>) -> bool {
    forall|base: Seq<char>, n: u32|
        n > 0 && base.len() > 0 ==> text != #[trigger] spelling(base, n)
}

/// Whether `text` is read as `base` with `suffix`: as the suffixed form it
/// is, or else as a bare base.
pub open spec fn reads_as(text: Seq<char>, base: Seq<char>, suffix: u32) -> bool {
    &&& spelling(base, suffix) == text
    &&& if suffix == 0 {
        is_bare(text)
    } else {
        base.len() > 0
    }
}

/// A text is read in one way only.
pub proof fn law_a_name_reads_one_way(
    text: Seq<char>,
    base: Seq<char>,
    suffix: u32,
    other_base: Seq<char>,
    other_suffix: u32,
)
    requires
        reads_as(text, base, suffix),
        reads_as(text, other_base, other_suffix),
    ensures
        base == other_base,
        suffix == other_suffix,
{
    if suffix > 0 && other_suffix > 0 {
        lemma_digits(suffix as nat, 10);
        lemma_digits(other_suffix as nat, 10);
        let tail = dec(suffix as nat);
        let other_tail = dec(other_suffix as nat);
        assert(text =~= base + seq!['_'] + tail);
        assert(text =~= other_base + seq!['_'] + other_tail);
        assert(text[base.len() as int] == '_');
        assert(text[other_base.len() as int] == '_');
        assert(digit_value('_') is None);
        if base.len() < other_base.len() {
            let k = other_base.len() - base.len() - 1;
            assert((base + seq!['_'] + tail)[other_base.len() as int] == tail[k]);
            assert(digit_value(tail[k]) is Some);
        } else if other_base.len() < base.len() {
            let k = base.len() - other_base.len() - 1;
            assert((other_base + seq!['_'] + other_tail)[base.len() as int] == other_tail[k]);
            assert(digit_value(other_tail[k]) is Some);
        }
        assert(base =~= text.take(base.len() as int));
        assert(other_base =~= text.take(base.len() as int));
        assert(tail =~= text.skip(base.len() as int + 1));
        assert(other_tail =~= text.skip(base.len() as int + 1));
    }
}

/// A name with a suffix reads as it is written, and so does a bare name
/// that is no suffixed form of another.
pub proof fn law_names_read_as_they_are_written(base: Seq<char>, suffix: u32)
    requires
        if suffix == 0 {
            is_bare(base)
        } else {
            base.len() > 0
        },
    ensures
        reads_as(spelling(base, suffix), base, suffix),
{
}

/// The number that the first digits spell is at most the number that all of
/// them spell.
proof fn lemma_spelled_grows(s: Seq<char>, k: int, radix: nat)
    requires
        0 <= k <= s.len(),
        2 <= radix <= 16,
        all_digits(s, radix as int),
    ensures
        spelled(s.take(k), radix) <= spelled(s, radix),
    decreases s.len() - k,
{
    if k == s.len() {
        assert(s.take(k) =~= s);
    } else {
        lemma_spelled_grows(s, k + 1, radix);
        assert(s.take(k + 1).drop_last() =~= s.take(k));
        assert(digit_value(s[k]) is Some);
        assert(s.take(k + 1).last() == s[k]);
        assert(spelled(s.take(k), radix) * radix >= spelled(s.take(k), radix)) by (nonlinear_arith)
            requires
                radix >= 2,
        ;
    }
}

/// The value of a character as a digit below `radix`.
fn digit_of(c: char, radix: u64) -> (d: Option<u64>)
    requires
        radix <= 16,
    ensures
        d == match digit_value(c) {
            Some(v) => if v < radix {
                Some(v as u64)
            } else {
                None
            },
            None => None,
        },
{
    let d: u64 = if '0' <= c && c <= '9' {
        (c as u32 - '0' as u32) as u64
    } else if 'a' <= c && c <= 'f' {
        (c as u32 - 'a' as u32) as u64 + 10
    } else {
        return None;
    };
    if d < radix {
        Some(d)
    } else {
        None
    }
}

/// The number that `text` spells from position `start` on, if all of it is
/// digits and the number does not exceed `limit`.
fn read_number(text: &str, start: usize, radix: u64, limit: u64) -> (n: Option<u64>)
    requires
        2 <= radix <= 16,
        start <= text@.len() <= usize::MAX,
    ensures
        match n {
            Some(v) => all_digits(text@.skip(start as int), radix as int) && v == spelled(
                text@.skip(start as int),
                radix as nat,
            ) && v <= limit,
            None => !all_digits(text@.skip(start as int), radix as int) || spelled(
                text@.skip(start as int),
                radix as nat,
            ) > limit,
        },
{
    let len: usize = text.unicode_len();
    let ghost s = text@.skip(start as int);
    let mut value: u64 = 0;
    let mut k: usize = start;
    while k < len
        invariant
            2 <= radix <= 16,
            len == text@.len(),
            start <= k <= len,
            s == text@.skip(start as int),
            value <= limit,
            value == spelled(s.take(k - start), radix as nat),
            forall|j: int|
                0 <= j < k - start ==> (#[trigger] digit_value(s[j]) matches Some(d) && d < radix),
        decreases len - k,
    {
        let c: char = text.get_char(k);
        proof {
            assert(s[k - start] == c);
        }
        match digit_of(c, radix) {
            None => {
                return None;
            },
            Some(d) => {
                proof {
                    assert(0 <= value * radix <= 0xffff_ffff_ffff_ffff * 16) by (nonlinear_arith)
                        requires
                            0 <= value <= 0xffff_ffff_ffff_ffff,
                            0 <= radix <= 16,
                    ;
                }
                let next: u128 = (value as u128) * (radix as u128) + (d as u128);
                proof {
                    assert(s.take(k - start + 1).drop_last() =~= s.take(k - start));
                    assert(s.take(k - start + 1).last() == c);
                    assert(next == spelled(s.take(k - start + 1), radix as nat));
                }
                if next > limit as u128 {
                    proof {
                        if all_digits(s, radix as int) {
                            lemma_spelled_grows(s, k - start + 1, radix as nat);
                        }
                    }
                    return None;
                }
                value = next as u64;
            },
        }
        k = k + 1;
    }
    proof {
        assert(s.take(k - start) =~= s);
    }
    Some(value)
}

/// The base and suffix that `text` is read as: `tmp_7` is `("tmp", 7)`; a
/// name with no `_<digits>` tail, or one whose digits are not how a suffix is
/// written (`tmp_07`, `tmp_0`), is a bare base.
pub fn split_suffix(text: &str) -> (r: (&str, u32))
    ensures
        reads_as(text@, r.0@, r.1),
{
    let len: usize = text.unicode_len();
    let mut at: usize = len;
    while at > 0 && digit_of(text.get_char(at - 1), 10).is_some()
        invariant
            len == text@.len(),
            at <= len,
            forall|j: int|
                at <= j < len ==> (#[trigger] digit_value(text@[j]) matches Some(d) && d < 10),
        decreases at,
    {
        at = at - 1;
    }
    proof {
        // A suffixed form ends in the digits of its suffix, after a `_`,
        // which is no digit: the run of digits found above is all of them.
        assert forall|base: Seq<char>, n: u32|
            n > 0 && base.len() > 0 && text@ == #[trigger] spelling(base, n) implies at
            == base.len() + 1 && text@.skip(at as int) == dec(n as nat) by {
            lemma_digits(n as nat, 10);
            let tail = dec(n as nat);
            assert(text@[base.len() as int] == '_');
            assert(digit_value('_') is None);
            if at <= base.len() {
                assert(digit_value(text@[base.len() as int]) is Some);
            }
            if at > base.len() + 1 {
                assert(text@[at - 1] == tail[at - 1 - base.len() - 1]);
                assert(digit_value(tail[at - 1 - base.len() - 1]) is Some);
            }
            assert(text@.skip(at as int) =~= tail);
        }
    }
    if at < len && at > 1 && text.get_char(at - 1) == '_' && text.get_char(at) != '0' {
        let number: Option<u64> = read_number(text, at, 10, u32::MAX as u64);
        proof {
            let tail = text@.skip(at as int);
            assert forall|k: int| 0 <= k < tail.len() implies (#[trigger] digit_value(
                tail[k],
            ) matches Some(d) && d < 10) by {
                assert(tail[k] == text@[at + k]);
                assert(digit_value(text@[at + k]) is Some);
            }
            lemma_spelled(tail, 10);
        }
        if let Some(n) = number {
            let base: &str = text.substring_char(0, at - 1);
            proof {
                assert(text@ =~= spelling(base@, n as u32));
            }
            return (base, n as u32);
        }
    }
    proof {
        assert forall|base: Seq<char>, n: u32| n > 0 && base.len() > 0 implies text@
            != #[trigger] spelling(base, n) by {
            if text@ == spelling(base, n) {
                lemma_digits(n as nat, 10);
                let tail = text@.skip(at as int);
                assert(tail == dec(n as nat));
                assert(text@[at as int] == tail[0]);
                assert(text@[at - 1] == '_');
                assert(all_digits(tail, 10));
            }
        }
    }
    (text, 0)
}

/// Whether no address is written as `text`.
pub open spec fn spells_no_address(text: Seq<char>) -> bool {
    forall|address: u64| #[trigger] hex(address as nat) != text
}

/// The address that `text` labels, if it is one: lowercase hexadecimal
/// without leading zeros, at most sixteen digits.
pub fn hex_value(text: &str) -> (address: Option<u64>)
    ensures
        match address {
            Some(a) => hex(a as nat) == text@,
            None => spells_no_address(text@),
        },
{
    let len: usize = text.unicode_len();
    proof {
        assert forall|a: u64| #[trigger] hex(a as nat) == text@ implies len > 0 && (len > 1
            ==> text@[0] != '0') && all_digits(text@, 16) && spelled(text@, 16) == a by {
            lemma_digits(a as nat, 16);
        }
        assert(text@.skip(0) =~= text@);
    }
    if len == 0 || (len > 1 && text.get_char(0) == '0') {
        return None;
    }
    let number: Option<u64> = read_number(text, 0, 16, u64::MAX);
    proof {
        if let Some(a) = number {
            lemma_spelled(text@, 16);
        }
    }
    number
}

/// `base_<suffix>`.
fn suffixed(base: &str, suffix: u32) -> (name: String)
    requires
        suffix > 0,
    ensures
        name@ == spelling(base@, suffix),
{
    let mut name: String = String::from_str(base);
    proof {
        reveal_strlit("_");
    }
    name.append("_");
    name.append(decimal(suffix as u64).as_str());
    proof {
        assert(name@ =~= spelling(base@, suffix));
    }
    name
}

/// The names of one base, by suffix.
pub struct Suffixes<Id> {
    /// The address this base spells, when it is one: a block labelled with it
    /// excludes the bare name.
    pub hex: Option<u64>,
    /// The value holding `base_<n>` at index `n`; index 0 is the bare base.
    pub taken: Vec<Option<Id>>,
    /// No suffix from 1 up to this one is free, so minting resumes here.
    pub hint: u32,
    /// Whether some name of this base may be in the far map, because its
    /// suffix was far past the end of `taken` when it was registered.
    pub far: bool,
}

/// How far past its end a suffix may extend a base's vector rather than go to
/// the far map.
pub const NEAR: usize = 4096;

/// A body's table from names to values.
pub struct LocalNames<Id> {
    pub bases: Vec<String>,
    pub index: TextIndex,
    /// Parallel to `bases`.
    pub suffixes: Vec<Suffixes<Id>>,
    /// Names whose suffix is far past their base's vector.
    pub far: KeyMap<Id>,
    /// The bases that spell an address, by the address.
    pub hex_bases: KeyMap<u32>,
    /// The blocks labelled with an address and no name, by address.
    pub labels: KeyMap<Id>,
}

/// What a name table holds: its bases, the value under each name, and the
/// block under each label.
pub struct NamesView<Id> {
    pub bases: Seq<Seq<char>>,
    pub held: Map<Name, Id>,
    pub labels: Map<u64, Id>,
}

/// A base and a suffix as one key.
pub open spec fn far_key(base: int, suffix: int) -> int {
    base * 0x1_0000_0000 + suffix
}

fn pack_name(name: Name) -> (key: u128)
    ensures
        key == far_key(name.base.raw() as int, name.suffix as int),
{
    (name.base.raw() as u128) * 0x1_0000_0000u128 + (name.suffix as u128)
}

impl<Id> NamesView<Id> {
    /// How `name` is written.
    pub open spec fn text_of(self, name: Name) -> Seq<char> {
        spelling(self.bases[name.base.raw() as int], name.suffix)
    }

    /// Whether a block is labelled with `text`.
    pub open spec fn labelled(self, text: Seq<char>) -> bool {
        exists|a: u64| self.labels.contains_key(a) && #[trigger] hex(a as nat) == text
    }

    /// Whether there are fewer names than suffixes, so that every base has a
    /// free one.
    pub open spec fn few(self) -> bool {
        self.held.dom().len() + 1 < u32::MAX
    }

    /// Whether `name` is taken, by a value or by a label spelled like it.
    pub open spec fn is_taken(self, name: Name) -> bool {
        self.held.contains_key(name) || (name.suffix == 0 && self.labelled(self.text_of(name)))
    }

    /// The value under the name that `text` reads as, or labelled with the
    /// address it spells.
    pub open spec fn found(self, text: Seq<char>, id: Id) -> bool {
        ||| exists|name: Name|
            {
                &&& self.held.contains_key(name)
                &&& self.held[name] == id
                &&& #[trigger] reads_as(text, self.bases[name.base.raw() as int], name.suffix)
            }
        ||| exists|a: u64|
            {
                &&& self.labels.contains_key(a)
                &&& self.labels[a] == id
                &&& #[trigger] hex(a as nat) == text
            }
    }

    /// Whether `id` holds the name that `text` reads as.
    pub open spec fn held_as(self, text: Seq<char>, id: Id) -> bool {
        exists|name: Name|
            {
                &&& self.held.contains_key(name)
                &&& self.held[name] == id
                &&& #[trigger] reads_as(text, self.bases[name.base.raw() as int], name.suffix)
            }
    }

    /// Whether `id` is labelled with the address that `text` spells.
    pub open spec fn labelled_as(self, text: Seq<char>, id: Id) -> bool {
        exists|a: u64|
            {
                &&& self.labels.contains_key(a)
                &&& self.labels[a] == id
                &&& #[trigger] hex(a as nat) == text
            }
    }

    /// Whether looking `text` up gives `answer`: what holds the name or, where
    /// nothing does, what is labelled with the address.
    pub open spec fn answers(self, text: Seq<char>, answer: Option<Id>) -> bool {
        &&& forall|id: Id| #[trigger] self.held_as(text, id) ==> answer == Some(id)
        &&& (forall|id: Id| !#[trigger] self.held_as(text, id)) ==> forall|id: Id| #[trigger]
            self.labelled_as(text, id) ==> answer == Some(id)
        &&& answer matches Some(id) ==> self.held_as(text, id) || self.labelled_as(text, id)
    }

    /// Whether every name held reads as it is written: no bare name looks
    /// like a suffixed one, and no suffixed one lacks a base.
    pub open spec fn canonical(self) -> bool {
        forall|name: Name| #[trigger]
            self.held.contains_key(name) ==> reads_as(
                self.text_of(name),
                self.bases[name.base.raw() as int],
                name.suffix,
            )
    }
}

impl<Id> LocalNames<Id> {
    /// The value holding `name`, if any.
    pub open spec fn holder_of(&self, name: Name) -> Option<Id> {
        let near = self.suffixes@[name.base.raw() as int].taken@;
        let key = far_key(name.base.raw() as int, name.suffix as int) as u128;
        if name.suffix < near.len() && near[name.suffix as int] is Some {
            near[name.suffix as int]
        } else if self.far@.contains_key(key) {
            Some(self.far@[key])
        } else {
            None
        }
    }

    pub open spec fn base_text(&self, base: int) -> Seq<char> {
        self.bases@[base]@
    }

    /// The strings and the table over them agree.
    pub open spec fn index_ok(&self) -> bool {
        &&& self.bases@.len() == self.suffixes@.len()
        &&& self.bases@.len() <= crate::base::BASE_LIMIT
        &&& forall|i: int|
            0 <= i < self.bases@.len() ==> self.index@.contains_key(#[trigger] self.base_text(i))
                && self.index@[self.base_text(i)] == i
        &&& forall|t: Seq<char>| #[trigger]
            self.index@.contains_key(t) ==> self.index@[t] < self.bases@.len() && self.base_text(
                self.index@[t] as int,
            ) == t
    }

    /// The bases that spell an address are listed under it.
    pub open spec fn hex_ok(&self) -> bool {
        &&& forall|i: int|
            0 <= i < self.bases@.len() ==> match (#[trigger] self.suffixes@[i]).hex {
                Some(a) => hex(a as nat) == self.base_text(i) && self.hex_bases@.contains_key(
                    a as u128,
                ) && self.hex_bases@[a as u128] == i,
                None => spells_no_address(self.base_text(i)),
            }
        &&& forall|a: u64| #[trigger]
            self.hex_bases@.contains_key(a as u128) ==> self.hex_bases@[a as u128]
                < self.bases@.len() && self.suffixes@[self.hex_bases@[a as u128] as int].hex
                == Some(a)
    }

    /// If the far map holds `name`, its base is known and no vector holds it.
    pub open spec fn far_entry_ok(&self, name: Name) -> bool {
        self.far@.contains_key(far_key(name.base.raw() as int, name.suffix as int) as u128) ==> {
            &&& name.base.raw() < self.bases@.len()
            &&& self.suffixes@[name.base.raw() as int].far
            &&& !(name.suffix < self.suffixes@[name.base.raw() as int].taken@.len()
                && self.suffixes@[name.base.raw() as int].taken@[name.suffix as int] is Some)
        }
    }

    pub open spec fn far_ok(&self) -> bool {
        forall|name: Name| #[trigger] self.far_entry_ok(name)
    }

    /// Below a base's hint no suffix is free.
    pub open spec fn hints_ok(&self) -> bool {
        forall|name: Name|
            name.base.raw() < self.bases@.len() && 1 <= name.suffix < self.suffixes@[name.base.raw() as int].hint
                ==> (#[trigger] self.holder_of(name)) is Some
    }

    /// No label is spelled like a name that is held.
    pub open spec fn labels_ok(&self) -> bool {
        forall|i: int, a: u64|
            0 <= i < self.bases@.len() && (#[trigger] self.suffixes@[i]).hex == Some(a)
                && #[trigger] self.labels@.contains_key(a as u128) ==> self.holder_of(
                Name { base: BaseId::new(i as u32), suffix: 0 },
            ) is None
    }

    /// Every key of the far map packs a name, and every label is an address.
    pub open spec fn keys_ok(&self) -> bool {
        &&& forall|key: u128| #[trigger]
            self.far@.contains_key(key) ==> key < far_key(crate::base::BASE_LIMIT as int, 0)
        &&& forall|key: u128| #[trigger] self.labels@.contains_key(key) ==> key <= u64::MAX
    }

    pub open spec fn wf(&self) -> bool {
        &&& self.keys_ok()
        &&& self.index_ok()
        &&& self.hex_ok()
        &&& self.far_ok()
        &&& self.hints_ok()
        &&& self.labels_ok()
    }
}

impl<Id> View for LocalNames<Id> {
    type V = NamesView<Id>;

    open spec fn view(&self) -> NamesView<Id> {
        NamesView {
            bases: self.bases@.map_values(|s: String| s@),
            held: Map::new(
                |name: Name| name.base.raw() < self.bases@.len() && self.holder_of(name) is Some,
                |name: Name| self.holder_of(name)->0,
            ),
            labels: Map::new(
                |a: u64| self.labels@.contains_key(a as u128),
                |a: u64| self.labels@[a as u128],
            ),
        }
    }
}

/// Different names have different keys.
proof fn lemma_far_key(a: Name, b: Name)
    ensures
        0 <= far_key(a.base.raw() as int, a.suffix as int) < far_key(
            crate::base::BASE_LIMIT as int,
            0,
        ),
        far_key(a.base.raw() as int, a.suffix as int) == far_key(b.base.raw() as int, b.suffix as int)
            ==> a == b,
{
}

impl<Id: Copy> LocalNames<Id> {
    pub fn new() -> (names: Self)
        ensures
            names.wf(),
            names@.bases == Seq::<Seq<char>>::empty(),
            names@.held == Map::<Name, Id>::empty(),
            names@.labels == Map::<u64, Id>::empty(),
    {
        let names = LocalNames {
            bases: Vec::new(),
            index: TextIndex::new(),
            suffixes: Vec::new(),
            far: KeyMap::new(),
            hex_bases: KeyMap::new(),
            labels: KeyMap::new(),
        };
        proof {
            assert(names@.bases =~= Seq::<Seq<char>>::empty());
            assert(names@.held =~= Map::<Name, Id>::empty());
            assert(names@.labels =~= Map::<u64, Id>::empty());
        }
        names
    }

    /// The base `base`, if it is interned.
    pub fn base(&self, base: &str) -> (id: Option<BaseId>)
        requires
            self.wf(),
        ensures
            match id {
                Some(id) => id.raw() < self@.bases.len() && self@.bases[id.raw() as int] == base@,
                None => forall|i: int| 0 <= i < self@.bases.len() ==> self@.bases[i] != base@,
            },
    {
        match self.index.get(base) {
            Some(raw) => {
                proof {
                    assert(self@.bases[raw as int] == self.base_text(raw as int));
                }
                Some(BaseId::new(raw))
            },
            None => {
                proof {
                    assert forall|i: int| 0 <= i < self@.bases.len() implies self@.bases[i]
                        != base@ by {
                        assert(self@.bases[i] == self.base_text(i));
                    }
                }
                None
            },
        }
    }

    /// The base `base`, interned.
    pub fn intern(&mut self, base: &str) -> (id: BaseId)
        requires
            old(self).wf(),
            old(self)@.bases.len() < crate::base::BASE_LIMIT,
        ensures
            final(self).wf(),
            id.raw() < final(self)@.bases.len(),
            final(self)@.bases[id.raw() as int] == base@,
            final(self)@.bases == (if old(self)@.bases.contains(base@) {
                old(self)@.bases
            } else {
                old(self)@.bases.push(base@)
            }),
            final(self)@.held == old(self)@.held,
            final(self)@.labels == old(self)@.labels,
    {
        if let Some(id) = self.base(base) {
            return id;
        }
        let raw: u32 = self.bases.len() as u32;
        let address: Option<u64> = hex_value(base);
        if let Some(a) = address {
            self.hex_bases.insert(a as u128, raw);
        }
        self.bases.push(String::from_str(base));
        self.index.insert(String::from_str(base), raw);
        self.suffixes.push(Suffixes { hex: address, taken: Vec::new(), hint: 1, far: false });
        proof {
            let n = raw as int;
            assert(self@.bases =~= old(self)@.bases.push(base@));
            assert forall|i: int| 0 <= i < n implies self.base_text(i) == old(self).base_text(i)
                && self.base_text(i) != base@ by {
                assert(old(self)@.bases[i] == old(self).base_text(i));
            }
            assert forall|name: Name| name.base.raw() < n implies self.holder_of(name) == old(
                self,
            ).holder_of(name) by {}
            assert forall|name: Name| name.base.raw() == n implies self.holder_of(name) is None by {
                assert(old(self).far_entry_ok(name));
            }
            assert(self@.held =~= old(self)@.held);
            assert(self.index_ok());
            assert(self.hex_ok()) by {
                assert forall|a: u64| #[trigger]
                    self.hex_bases@.contains_key(a as u128) implies self.hex_bases@[a as u128]
                    < self.bases@.len() && self.suffixes@[self.hex_bases@[a as u128] as int].hex
                    == Some(a) by {
                    if address != Some(a) {
                        assert(old(self).hex_bases@.contains_key(a as u128));
                    }
                }
                assert forall|i: int| 0 <= i < self.bases@.len() implies match (
                #[trigger] self.suffixes@[i]).hex {
                    Some(a) => hex(a as nat) == self.base_text(i) && self.hex_bases@.contains_key(
                        a as u128,
                    ) && self.hex_bases@[a as u128] == i,
                    None => spells_no_address(self.base_text(i)),
                } by {
                    if i < n {
                        assert(self.suffixes@[i] == old(self).suffixes@[i]);
                    }
                }
            }
            assert(self.far_ok()) by {
                assert forall|name: Name| #[trigger] self.far_entry_ok(name) by {
                    assert(old(self).far_entry_ok(name));
                }
            }
            assert(self.hints_ok());
            assert(self.labels_ok()) by {
                assert forall|i: int, a: u64|
                    0 <= i < self.bases@.len() && (#[trigger] self.suffixes@[i]).hex == Some(a)
                        && #[trigger] self.labels@.contains_key(a as u128) implies self.holder_of(
                    Name { base: BaseId::new(i as u32), suffix: 0 },
                ) is None by {
                    if i < n {
                        assert(self.suffixes@[i] == old(self).suffixes@[i]);
                        assert(old(self).holder_of(Name { base: BaseId::new(i as u32), suffix: 0 }) is None);
                    }
                }
            }
        }
        BaseId::new(raw)
    }

    /// The name `text` reads as, with its base interned.
    pub fn parse(&mut self, text: &str) -> (name: Name)
        requires
            old(self).wf(),
            old(self)@.bases.len() < crate::base::BASE_LIMIT,
        ensures
            final(self).wf(),
            name.base.raw() < final(self)@.bases.len(),
            reads_as(text@, final(self)@.bases[name.base.raw() as int], name.suffix),
            forall|i: int|
                0 <= i < old(self)@.bases.len() ==> final(self)@.bases[i] == old(self)@.bases[i],
            old(self)@.bases.len() <= final(self)@.bases.len() <= old(self)@.bases.len() + 1,
            final(self)@.held == old(self)@.held,
            final(self)@.labels == old(self)@.labels,
    {
        let split: (&str, u32) = split_suffix(text);
        let base: BaseId = self.intern(split.0);
        Name::new(base, split.1)
    }

    /// How `name` is written.
    pub fn render(&self, name: Name) -> (text: String)
        requires
            self.wf(),
            name.base.raw() < self@.bases.len(),
        ensures
            text@ == self@.text_of(name),
    {
        let base: &String = &self.bases[name.base.raw() as usize];
        if name.suffix == 0 {
            String::from_str(base.as_str())
        } else {
            suffixed(base.as_str(), name.suffix)
        }
    }

    /// The value holding `name`, if any.
    pub fn holder(&self, name: Name) -> (id: Option<Id>)
        requires
            self.wf(),
            name.base.raw() < self@.bases.len(),
        ensures
            id == (if self@.held.contains_key(name) {
                Some(self@.held[name])
            } else {
                None
            }),
            id == self.holder_of(name),
    {
        let suffixes: &Suffixes<Id> = &self.suffixes[name.base.raw() as usize];
        let at: usize = name.suffix as usize;
        proof {
            assert(self.far_entry_ok(name));
        }
        if at < suffixes.taken.len() {
            if let Some(id) = suffixes.taken[at] {
                return Some(id);
            }
        }
        if suffixes.far {
            self.far.get(pack_name(name))
        } else {
            None
        }
    }

    /// Whether `name` is taken, by a value or by a label spelled like it.
    pub fn is_taken(&self, name: Name) -> (b: bool)
        requires
            self.wf(),
            name.base.raw() < self@.bases.len(),
        ensures
            b == self@.is_taken(name),
    {
        if self.holder(name).is_some() {
            return true;
        }
        proof {
            let i = name.base.raw() as int;
            assert(self@.bases[i] == self.base_text(i));
            let s = self.suffixes@[i];
            if name.suffix == 0 {
                if let Some(a) = s.hex {
                    assert(self@.labels.contains_key(a) ==> self@.labelled(self.base_text(i)));
                    if self@.labelled(self.base_text(i)) {
                        let b = choose|b: u64|
                            self@.labels.contains_key(b) && #[trigger] hex(b as nat)
                                == self.base_text(i);
                        crate::text::law_digits_are_unique(a as nat, b as nat, 16);
                    }
                }
            }
        }
        if name.suffix != 0 {
            return false;
        }
        match self.suffixes[name.base.raw() as usize].hex {
            Some(address) => self.labels.contains_key(address as u128),
            None => false,
        }
    }

    /// The value holding the name `text` reads as, or labelled with the
    /// address it spells, if any.
    pub fn get(&self, text: &str) -> (id: Option<Id>)
        requires
            self.wf(),
        ensures
            match id {
                Some(id) => self@.found(text@, id),
                None => forall|other: Id| !#[trigger] self@.found(text@, other),
            },
            self@.answers(text@, id),
            forall|other: Id| #[trigger] self@.found(text@, other) ==> id == Some(other),
    {
        let split: (&str, u32) = split_suffix(text);
        let suffix: u32 = split.1;
        let known: Option<BaseId> = self.base(split.0);
        if let Some(base) = known {
            if let Some(id) = self.holder(Name::new(base, suffix)) {
                proof {
                    let name = Name { base, suffix };
                    assert(self@.held.contains_key(name) && self@.held[name] == id && reads_as(
                        text@,
                        self@.bases[name.base.raw() as int],
                        name.suffix,
                    ));
                    assert(self@.held_as(text@, id));
                    assert forall|other: Id| #[trigger] self@.held_as(text@, other) implies id
                        == other by {
                        let x = choose|x: Name|
                            {
                                &&& self@.held.contains_key(x)
                                &&& self@.held[x] == other
                                &&& #[trigger] reads_as(
                                    text@,
                                    self@.bases[x.base.raw() as int],
                                    x.suffix,
                                )
                            };
                        let i = x.base.raw() as int;
                        law_a_name_reads_one_way(
                            text@,
                            self@.bases[i],
                            x.suffix,
                            split.0@,
                            suffix,
                        );
                        assert(self@.bases[i] == self.base_text(i));
                        assert(self@.bases[base.raw() as int] == self.base_text(base.raw() as int));
                        assert(self.index@[split.0@] == i);
                        assert(x == name);
                    }
                    assert forall|a: u64| self@.labels.contains_key(a) implies #[trigger] hex(
                        a as nat,
                    ) != text@ by {
                        if hex(a as nat) == text@ {
                            lemma_digits(a as nat, 16);
                            if suffix != 0 {
                                let k = split.0@.len() as int;
                                assert(text@[k] == '_');
                                assert(digit_value(text@[k]) is Some);
                            }
                            let s = self.suffixes@[base.raw() as int];
                            assert(self@.bases[base.raw() as int] == self.base_text(base.raw() as int));
                            assert(s.hex is Some);
                            crate::text::law_digits_are_unique(s.hex->0 as nat, a as nat, 16);
                            assert(self.labels@.contains_key(a as u128));
                        }
                    }
                    assert forall|other: Id| #[trigger] self@.found(text@, other) implies id
                        == other by {
                        assert(self@.held_as(text@, other));
                    }
                }
                return Some(id);
            }
        }
        proof {
            assert forall|name: Name|
                self@.held.contains_key(name) && #[trigger] reads_as(
                    text@,
                    self@.bases[name.base.raw() as int],
                    name.suffix,
                ) implies false by {
                let i = name.base.raw() as int;
                law_a_name_reads_one_way(
                    text@,
                    self@.bases[i],
                    name.suffix,
                    split.0@,
                    suffix,
                );
                assert(self@.bases[i] == self.base_text(i));
                if let Some(base) = known {
                    assert(self@.bases[base.raw() as int] == self.base_text(base.raw() as int));
                    assert(self.index@[split.0@] == i);
                    assert(self.index@[split.0@] == base.raw());
                    assert(name == (Name { base, suffix }));
                }
            }
            if suffix != 0 {
                assert forall|a: u64| #[trigger] hex(a as nat) != text@ by {
                    if hex(a as nat) == text@ {
                        lemma_digits(a as nat, 16);
                        let k = split.0@.len() as int;
                        assert(text@[k] == '_');
                        assert(digit_value(text@[k]) is Some);
                    }
                }
            }
        }
        if suffix == 0 {
            if let Some(address) = hex_value(text) {
                let label: Option<Id> = self.labels.get(address as u128);
                proof {
                    if label is Some {
                        assert(self@.labels.contains_key(address) && hex(address as nat) == text@);
                    }
                    assert forall|b: u64| #[trigger] hex(b as nat) == text@ implies b == address by {
                        crate::text::law_digits_are_unique(b as nat, address as nat, 16);
                    }
                }
                return label;
            }
        }
        None
    }

    /// Puts `id` into the vector of `name`'s base, growing it as needed.
    fn put_near(&mut self, name: Name, id: Id)
        requires
            old(self).wf(),
            name.base.raw() < old(self)@.bases.len(),
            !old(self)@.is_taken(name),
        ensures
            final(self).wf(),
            final(self)@ == (NamesView {
                held: old(self)@.held.insert(name, id),
                ..old(self)@
            }),
            forall|i: int|
                0 <= i < old(self).suffixes@.len() ==> (#[trigger] final(self).suffixes@[i]).hint == old(
                    self,
                ).suffixes@[i].hint,
    {
        let at: usize = name.suffix as usize;
        let base: usize = name.base.raw() as usize;
        let ghost before = *self;
        proof {
            assert(before.holder_of(name) is None);
            assert(before.far_entry_ok(name));
        }
        while self.suffixes[base].taken.len() <= at
            invariant
                base == name.base.raw(),
                at == name.suffix,
                base < self.suffixes@.len(),
                before.suffixes@.len() == self.suffixes@.len(),
                self.suffixes@[base as int].taken@.len() >= before.suffixes@[base as int].taken@.len(),
                forall|i: int|
                    0 <= i < self.suffixes@.len() && i != base ==> self.suffixes@[i]
                        == before.suffixes@[i],
                self.suffixes@[base as int].hex == before.suffixes@[base as int].hex,
                self.suffixes@[base as int].hint == before.suffixes@[base as int].hint,
                self.suffixes@[base as int].far == before.suffixes@[base as int].far,
                forall|k: int|
                    0 <= k < self.suffixes@[base as int].taken@.len() ==> (
                    #[trigger] self.suffixes@[base as int].taken@[k]) == (if k
                        < before.suffixes@[base as int].taken@.len() {
                        before.suffixes@[base as int].taken@[k]
                    } else {
                        None
                    }),
                self.bases == before.bases,
                self.index == before.index,
                self.far == before.far,
                self.hex_bases == before.hex_bases,
                self.labels == before.labels,
            decreases at + 1 - self.suffixes@[base as int].taken@.len(),
        {
            self.suffixes[base].taken.push(None);
        }
        self.suffixes[base].taken.set(at, Some(id));
        proof {
            assert forall|other: Name| other.base.raw() < self.bases@.len() implies self.holder_of(other)
                == (if other == name {
                Some(id)
            } else {
                before.holder_of(other)
            }) by {}
            assert forall|other: Name| #[trigger] self.far_entry_ok(other) by {
                assert(before.far_entry_ok(other));
                lemma_far_key(other, name);
            }
            self.lemma_held_grew(before, name, id);
        }
    }

    /// What the table knows of its bases depends on the bases alone.
    proof fn lemma_same_bases(self, before: Self)
        requires
            before.index_ok(),
            before.hex_ok(),
            self.bases == before.bases,
            self.index == before.index,
            self.hex_bases == before.hex_bases,
            self.suffixes@.len() == before.suffixes@.len(),
            forall|i: int|
                0 <= i < before.suffixes@.len() ==> (#[trigger] self.suffixes@[i]).hex
                    == before.suffixes@[i].hex,
        ensures
            self.index_ok(),
            self.hex_ok(),
    {
        assert forall|i: int| 0 <= i < self.bases@.len() implies match (#[trigger] self.suffixes@[i]).hex {
            Some(a) => hex(a as nat) == self.base_text(i) && self.hex_bases@.contains_key(
                a as u128,
            ) && self.hex_bases@[a as u128] == i,
            None => spells_no_address(self.base_text(i)),
        } by {
            assert(self.suffixes@[i].hex == before.suffixes@[i].hex);
            assert(before.base_text(i) == self.base_text(i));
        }
        assert(self.hex_ok());
        assert(self.index_ok()) by {
            assert forall|i: int| 0 <= i < self.bases@.len() implies self.index@.contains_key(
                #[trigger] self.base_text(i),
            ) && self.index@[self.base_text(i)] == i by {
                assert(before.base_text(i) == self.base_text(i));
            }
            assert forall|t: Seq<char>| #[trigger] self.index@.contains_key(t) implies self.index@[t]
                < self.bases@.len() && self.base_text(self.index@[t] as int) == t by {
                assert(before.base_text(self.index@[t] as int) == t);
            }
        }
    }

    /// Adding one holder to a table keeps it well formed, whichever tier the
    /// name went to.
    proof fn lemma_held_grew(self, before: Self, name: Name, id: Id)
        requires
            before.wf(),
            name.base.raw() < before.bases@.len(),
            !before@.is_taken(name),
            self.bases == before.bases,
            self.index == before.index,
            self.hex_bases == before.hex_bases,
            self.labels == before.labels,
            self.suffixes@.len() == before.suffixes@.len(),
            forall|i: int|
                0 <= i < before.suffixes@.len() ==> (#[trigger] self.suffixes@[i]).hex
                    == before.suffixes@[i].hex && self.suffixes@[i].hint == before.suffixes@[i].hint,
            forall|other: Name|
                other.base.raw() < self.bases@.len() ==> (#[trigger] self.holder_of(other)) == (if other
                    == name {
                    Some(id)
                } else {
                    before.holder_of(other)
                }),
        ensures
            self.index_ok(),
            self.hex_ok(),
            self.hints_ok(),
            self.labels_ok(),
            self@ == (NamesView { held: before@.held.insert(name, id), ..before@ }),
    {
        assert(self@.held =~= before@.held.insert(name, id));
        self.lemma_same_bases(before);
        assert(self.labels_ok()) by {
            assert forall|i: int, a: u64|
                0 <= i < self.bases@.len() && (#[trigger] self.suffixes@[i]).hex == Some(a)
                    && #[trigger] self.labels@.contains_key(a as u128) implies self.holder_of(
                Name { base: BaseId::new(i as u32), suffix: 0 },
            ) is None by {
                let other = Name { base: BaseId::new(i as u32), suffix: 0 };
                assert(before.suffixes@[i].hex == Some(a));
                assert(before.holder_of(other) is None);
                if other == name {
                    assert(before@.bases[i] == before.base_text(i));
                    assert(before@.labels.contains_key(a) && hex(a as nat) == before@.bases[i]);
                }
            }
        }
    }

    /// Registers `name` for `id`, unless the name is taken.
    pub fn register(&mut self, name: Name, id: Id) -> (result: Result<(), Error>)
        requires
            old(self).wf(),
            name.base.raw() < old(self)@.bases.len(),
        ensures
            final(self).wf(),
            match result {
                Ok(_) => !old(self)@.is_taken(name) && final(self)@ == (NamesView {
                    held: old(self)@.held.insert(name, id),
                    ..old(self)@
                }),
                Err(e) => old(self)@.is_taken(name) && *final(self) == *old(self) && (
                e matches Error::DuplicateName(text) && text@ == old(self)@.text_of(name)),
            },
    {
        if self.is_taken(name) {
            return Err(Error::DuplicateName(self.render(name)));
        }
        let at: usize = name.suffix as usize;
        let base: usize = name.base.raw() as usize;
        let len: usize = self.suffixes[base].taken.len();
        if at < len || at - len < NEAR {
            self.put_near(name, id);
        } else {
            let ghost before = *self;
            self.suffixes[base].far = true;
            self.far.insert(pack_name(name), id);
            proof {
                assert(before.holder_of(name) is None);
                assert forall|other: Name| other.base.raw() < self.bases@.len() implies self.holder_of(
                    other,
                ) == (if other == name {
                    Some(id)
                } else {
                    before.holder_of(other)
                }) by {
                    lemma_far_key(other, name);
                }
                assert forall|other: Name| #[trigger] self.far_entry_ok(other) by {
                    assert(before.far_entry_ok(other));
                    lemma_far_key(other, name);
                }
                self.lemma_held_grew(before, name, id);
            }
        }
        Ok(())
    }

    /// Whether `suffix` is the first free one of `base`, from 1 on.
    pub open spec fn first_free(names: NamesView<Id>, base: BaseId, suffix: u32) -> bool {
        &&& suffix >= 1
        &&& !names.held.contains_key(Name { base, suffix })
        &&& forall|n: u32|
            1 <= n < suffix ==> #[trigger] names.held.contains_key(Name { base, suffix: n })
    }

    /// Whether some suffix of `base` is free, below the last.
    pub open spec fn has_free(names: NamesView<Id>, base: BaseId) -> bool {
        exists|n: u32|
            1 <= n < u32::MAX && !#[trigger] names.held.contains_key(Name { base, suffix: n })
    }

    /// The first free suffix of `base` from 1 on.
    fn next_free(&self, base: BaseId) -> (suffix: u32)
        requires
            self.wf(),
            base.raw() < self@.bases.len(),
            Self::has_free(self@, base),
        ensures
            Self::first_free(self@, base, suffix),
            suffix < u32::MAX,
    {
        let hint: u32 = self.suffixes[base.raw() as usize].hint;
        let mut suffix: u32 = if hint >= 1 {
            hint
        } else {
            1
        };
        let ghost free = choose|n: u32|
            1 <= n < u32::MAX && !#[trigger] self@.held.contains_key(Name { base, suffix: n });
        proof {
            assert forall|n: u32| 1 <= n < suffix implies #[trigger] self@.held.contains_key(
                Name { base, suffix: n },
            ) by {
                assert(self.holder_of(Name { base, suffix: n }) is Some);
            }
            assert(suffix <= free) by {
                if suffix > free {
                    assert(self@.held.contains_key(Name { base, suffix: free }));
                }
            }
        }
        while self.holder(Name::new(base, suffix)).is_some()
            invariant
                self.wf(),
                base.raw() < self@.bases.len(),
                1 <= suffix <= free < u32::MAX,
                !self@.held.contains_key(Name { base, suffix: free }),
                forall|n: u32|
                    1 <= n < suffix ==> #[trigger] self@.held.contains_key(Name { base, suffix: n }),
            decreases free - suffix,
        {
            proof {
                assert(suffix != free);
            }
            suffix = suffix + 1;
        }
        suffix
    }

    /// Registers `id` under `base` or, if that is taken, under the first free
    /// `base_<n>`, and returns the name it got.
    pub fn register_unique(&mut self, base: BaseId, id: Id) -> (name: Name)
        requires
            old(self).wf(),
            base.raw() < old(self)@.bases.len(),
            Self::has_free(old(self)@, base),
        ensures
            final(self).wf(),
            final(self)@ == (NamesView { held: old(self)@.held.insert(name, id), ..old(self)@ }),
            name.base == base,
            if old(self)@.is_taken(Name { base, suffix: 0 }) {
                Self::first_free(old(self)@, base, name.suffix)
            } else {
                name.suffix == 0
            },
    {
        let bare: Name = Name::new(base, 0);
        if !self.is_taken(bare) {
            self.put_near(bare, id);
            return bare;
        }
        let suffix: u32 = self.next_free(base);
        let name: Name = Name::new(base, suffix);
        self.put_near(name, id);
        let ghost before = *self;
        self.suffixes[base.raw() as usize].hint = suffix + 1;
        proof {
            assert forall|other: Name| other.base.raw() < self.bases@.len() implies self.holder_of(other)
                == before.holder_of(other) by {}
            assert(self@.held =~= before@.held);
            assert forall|other: Name| #[trigger] self.far_entry_ok(other) by {
                assert(before.far_entry_ok(other));
            }
            self.lemma_same_tiers(before);
            assert forall|other: Name|
                other.base.raw() < self.bases@.len() && 1 <= other.suffix
                    < self.suffixes@[other.base.raw() as int].hint implies (#[trigger] self.holder_of(
                other,
            )) is Some by {
                if other.base == base {
                    assert(before@.held.contains_key(Name { base, suffix: other.suffix }));
                } else {
                    assert(before.holder_of(other) is Some);
                }
            }
        }
        name
    }

    /// A table that holds what another does, over the same bases and labels,
    /// is as well formed, its hints aside.
    proof fn lemma_same_tiers(self, before: Self)
        requires
            before.wf(),
            self.bases == before.bases,
            self.index == before.index,
            self.hex_bases == before.hex_bases,
            self.labels == before.labels,
            self.suffixes@.len() == before.suffixes@.len(),
            forall|i: int|
                0 <= i < before.suffixes@.len() ==> (#[trigger] self.suffixes@[i]).hex
                    == before.suffixes@[i].hex,
            forall|other: Name|
                other.base.raw() < self.bases@.len() && (#[trigger] self.holder_of(other)) is Some
                    ==> before.holder_of(other) is Some,
        ensures
            self.index_ok(),
            self.hex_ok(),
            self.labels_ok(),
    {
        self.lemma_same_bases(before);
        assert(self.labels_ok()) by {
            assert forall|i: int, a: u64|
                0 <= i < self.bases@.len() && (#[trigger] self.suffixes@[i]).hex == Some(a)
                    && #[trigger] self.labels@.contains_key(a as u128) implies self.holder_of(
                Name { base: BaseId::new(i as u32), suffix: 0 },
            ) is None by {
                assert(before.suffixes@[i].hex == Some(a));
                assert(before.holder_of(Name { base: BaseId::new(i as u32), suffix: 0 }) is None);
            }
        }
    }

    /// The name `name` would become if registered now: itself when free, else
    /// its base's first free `base_<n>`. Registers nothing.
    pub fn peek_unique(&self, name: Name) -> (free: Name)
        requires
            self.wf(),
            name.base.raw() < self@.bases.len(),
            Self::has_free(self@, name.base),
        ensures
            free.base == name.base,
            if self@.is_taken(name) {
                Self::first_free(self@, name.base, free.suffix)
            } else {
                free == name
            },
    {
        if !self.is_taken(name) {
            return name;
        }
        Name::new(name.base, self.next_free(name.base))
    }

    /// Forgets `name`, so that the next mint of its base may reuse the suffix.
    pub fn forget(&mut self, name: Name)
        requires
            old(self).wf(),
            name.base.raw() < old(self)@.bases.len(),
        ensures
            final(self).wf(),
            final(self)@ == (NamesView { held: old(self)@.held.remove(name), ..old(self)@ }),
    {
        let ghost before = *self;
        let at: usize = name.suffix as usize;
        let base: usize = name.base.raw() as usize;
        if name.suffix < self.suffixes[base].hint {
            self.suffixes[base].hint = name.suffix;
        }
        if at < self.suffixes[base].taken.len() {
            self.suffixes[base].taken.set(at, None);
        }
        if self.suffixes[base].far {
            self.far.remove(pack_name(name));
        }
        proof {
            assert(before.far_entry_ok(name));
            assert forall|other: Name| other.base.raw() < self.bases@.len() implies self.holder_of(other)
                == (if other == name {
                None
            } else {
                before.holder_of(other)
            }) by {
                lemma_far_key(other, name);
                assert(before.far_entry_ok(other));
            }
            assert(self@.held =~= before@.held.remove(name));
            assert forall|other: Name| #[trigger] self.far_entry_ok(other) by {
                assert(before.far_entry_ok(other));
                lemma_far_key(other, name);
            }
            self.lemma_same_tiers(before);
            assert forall|other: Name|
                other.base.raw() < self.bases@.len() && 1 <= other.suffix
                    < self.suffixes@[other.base.raw() as int].hint implies (#[trigger] self.holder_of(
                other,
            )) is Some by {
                assert(before.holder_of(other) is Some);
            }
        }
    }

    /// Labels `id`, a block at `address` with no name, with the address,
    /// unless a name or another label is spelled like it: the block then
    /// needs a name of its own.
    pub fn label(&mut self, address: u64, id: Id) -> (result: Result<(), Error>)
        requires
            old(self).wf(),
        ensures
            final(self).wf(),
            ({
                let taken = old(self)@.labels.contains_key(address) || exists|i: u32|
                    i < old(self)@.bases.len() && old(self)@.bases[i as int] == hex(address as nat)
                        && #[trigger] old(self)@.held.contains_key(
                        Name { base: BaseId::new(i), suffix: 0 },
                    );
                match result {
                    Ok(_) => !taken && final(self)@ == (NamesView {
                        labels: old(self)@.labels.insert(address, id),
                        ..old(self)@
                    }),
                    Err(e) => taken && *final(self) == *old(self) && (
                    e matches Error::DuplicateName(text) && text@ == hex(address as nat)),
                }
            }),
    {
        let spelled_by: Option<u32> = self.hex_bases.get(address as u128);
        if let Some(raw) = spelled_by {
            proof {
                assert(self@.bases[raw as int] == self.base_text(raw as int));
                let s = self.suffixes@[raw as int];
            }
            if self.holder(Name::new(BaseId::new(raw), 0)).is_some() {
                return Err(Error::DuplicateName(hex_name(address)));
            }
        }
        proof {
            assert forall|i: u32|
                i < self@.bases.len() && self@.bases[i as int] == hex(address as nat) implies spelled_by
                == Some(i) && !#[trigger] self@.held.contains_key(
                Name { base: BaseId::new(i), suffix: 0 },
            ) by {
                assert(self@.bases[i as int] == self.base_text(i as int));
                let s = self.suffixes@[i as int];
                assert(s.hex is Some);
                crate::text::law_digits_are_unique(s.hex->0 as nat, address as nat, 16);
            }
        }
        if self.labels.contains_key(address as u128) {
            return Err(Error::DuplicateName(hex_name(address)));
        }
        let ghost before = *self;
        self.labels.insert(address as u128, id);
        proof {
            assert(self@.labels =~= before@.labels.insert(address, id));
            assert forall|other: Name| self.holder_of(other) == before.holder_of(other) by {}
            assert(self@.held =~= before@.held);
            assert forall|other: Name| #[trigger] self.far_entry_ok(other) by {
                assert(before.far_entry_ok(other));
            }
            self.lemma_same_bases(before);
            assert(self.hints_ok()) by {
                assert forall|other: Name|
                    other.base.raw() < self.bases@.len() && 1 <= other.suffix
                        < self.suffixes@[other.base.raw() as int].hint implies (
                #[trigger] self.holder_of(other)) is Some by {
                    assert(before.holder_of(other) is Some);
                }
            }
            assert(self.labels_ok()) by {
                assert forall|i: int, a: u64|
                    0 <= i < self.bases@.len() && (#[trigger] self.suffixes@[i]).hex == Some(a)
                        && #[trigger] self.labels@.contains_key(a as u128) implies self.holder_of(
                    Name { base: BaseId::new(i as u32), suffix: 0 },
                ) is None by {
                    assert(before.suffixes@[i].hex == Some(a));
                    let other = Name { base: BaseId::new(i as u32), suffix: 0 };
                    if a == address {
                        assert(self@.bases[i] == before.base_text(i));
                        assert(!before@.held.contains_key(Name { base: BaseId::new(i as u32), suffix: 0 }));
                    } else {
                        assert(before.labels@.contains_key(a as u128));
                        assert(before.holder_of(other) is None);
                    }
                }
            }
        }
        Ok(())
    }

    /// The block labelled with `address`, if any.
    pub fn label_holder(&self, address: u64) -> (id: Option<Id>)
        ensures
            id == (if self@.labels.contains_key(address) {
                Some(self@.labels[address])
            } else {
                None
            }),
    {
        self.labels.get(address as u128)
    }

    /// Forgets the label at `address`.
    pub fn forget_label(&mut self, address: u64)
        requires
            old(self).wf(),
        ensures
            final(self).wf(),
            final(self)@ == (NamesView { labels: old(self)@.labels.remove(address), ..old(self)@ }),
    {
        let ghost before = *self;
        self.labels.remove(address as u128);
        proof {
            assert(self@.labels =~= before@.labels.remove(address));
            assert forall|other: Name| self.holder_of(other) == before.holder_of(other) by {}
            assert(self@.held =~= before@.held);
            assert forall|other: Name| #[trigger] self.far_entry_ok(other) by {
                assert(before.far_entry_ok(other));
            }
            self.lemma_same_bases(before);
            assert(self.hints_ok()) by {
                assert forall|other: Name|
                    other.base.raw() < self.bases@.len() && 1 <= other.suffix
                        < self.suffixes@[other.base.raw() as int].hint implies (
                #[trigger] self.holder_of(other)) is Some by {
                    assert(before.holder_of(other) is Some);
                }
            }
            assert(self.labels_ok()) by {
                assert forall|i: int, a: u64|
                    0 <= i < self.bases@.len() && (#[trigger] self.suffixes@[i]).hex == Some(a)
                        && #[trigger] self.labels@.contains_key(a as u128) implies self.holder_of(
                    Name { base: BaseId::new(i as u32), suffix: 0 },
                ) is None by {
                    assert(before.suffixes@[i].hex == Some(a));
                    assert(before.labels@.contains_key(a as u128));
                    assert(before.holder_of(Name { base: BaseId::new(i as u32), suffix: 0 }) is None);
                }
            }
        }
    }

    /// Forgets every name and label, keeping the bases.
    pub fn clear(&mut self)
        requires
            old(self).wf(),
        ensures
            final(self).wf(),
            final(self)@.bases == old(self)@.bases,
            final(self)@.held == Map::<Name, Id>::empty(),
            final(self)@.labels == Map::<u64, Id>::empty(),
    {
        let ghost before = *self;
        self.far.clear();
        self.labels.clear();
        let n: usize = self.suffixes.len();
        let mut k: usize = 0;
        while k < n
            invariant
                n == self.suffixes@.len(),
                self.suffixes@.len() == before.suffixes@.len(),
                k <= n,
                forall|i: int|
                    0 <= i < n ==> (#[trigger] self.suffixes@[i]).hex == before.suffixes@[i].hex,
                forall|i: int|
                    0 <= i < k ==> (#[trigger] self.suffixes@[i]).taken@.len() == 0
                        && self.suffixes@[i].hint == 1,
                self.bases == before.bases,
                self.index == before.index,
                self.hex_bases == before.hex_bases,
                self.far@ == Map::<u128, Id>::empty(),
                self.labels@ == Map::<u128, Id>::empty(),
            decreases n - k,
        {
            self.suffixes[k].taken.clear();
            self.suffixes[k].hint = 1;
            self.suffixes[k].far = false;
            k = k + 1;
        }
        proof {
            self.lemma_same_bases(before);
            assert forall|other: Name| other.base.raw() < self.bases@.len() implies self.holder_of(other)
                is None by {
                assert(self.suffixes@[other.base.raw() as int].taken@.len() == 0);
            }
            assert(self@.held =~= Map::<Name, Id>::empty());
            assert(self@.labels =~= Map::<u64, Id>::empty());
            assert forall|other: Name| #[trigger] self.far_entry_ok(other) by {}
        }
    }

    /// The interned bases, in the order of their ids.
    pub fn bases(&self) -> (bases: &Vec<String>)
        ensures
            bases@.map_values(|s: String| s@) == self@.bases,
    {
        &self.bases
    }

    /// A table over `bases`, all different, that holds nothing yet.
    pub fn from_bases(bases: Vec<String>) -> (names: Self)
        requires
            bases@.len() < crate::base::BASE_LIMIT,
            forall|i: int, j: int|
                0 <= i < j < bases@.len() ==> (#[trigger] bases@[i])@ != (#[trigger] bases@[j])@,
        ensures
            names.wf(),
            names@.bases == bases@.map_values(|s: String| s@),
            names@.held == Map::<Name, Id>::empty(),
            names@.labels == Map::<u64, Id>::empty(),
    {
        let mut names: Self = Self::new();
        let n: usize = bases.len();
        let mut k: usize = 0;
        let ghost texts = bases@.map_values(|s: String| s@);
        while k < n
            invariant
                n == bases@.len(),
                n < crate::base::BASE_LIMIT,
                k <= n,
                texts == bases@.map_values(|s: String| s@),
                forall|i: int, j: int|
                    0 <= i < j < bases@.len() ==> (#[trigger] bases@[i])@ != (
                    #[trigger] bases@[j])@,
                names.wf(),
                names@.bases == texts.take(k as int),
                names@.held == Map::<Name, Id>::empty(),
                names@.labels == Map::<u64, Id>::empty(),
            decreases n - k,
        {
            let id: BaseId = names.intern(bases[k].as_str());
            proof {
                let text = bases@[k as int]@;
                if texts.take(k as int).contains(text) {
                    let i = choose|i: int|
                        0 <= i < texts.take(k as int).len() && texts.take(k as int)[i] == text;
                    assert(bases@[i]@ == texts[i]);
                    assert(false);
                }
                assert(texts.take(k + 1) =~= texts.take(k as int).push(text));
            }
            k = k + 1;
        }
        proof {
            assert(texts.take(n as int) =~= texts);
        }
        names
    }
}

/// One entry of a name table: a name that is held, or a label.
pub enum NameKey {
    Held(Name),
    Label(u64),
}

impl<Id> NamesView<Id> {
    /// Whether the table has this entry.
    pub open spec fn has_entry(self, key: NameKey) -> bool {
        match key {
            NameKey::Held(name) => self.held.contains_key(name),
            NameKey::Label(address) => self.labels.contains_key(address),
        }
    }

    /// How the entry is written.
    pub open spec fn entry_text(self, key: NameKey) -> Seq<char> {
        match key {
            NameKey::Held(name) => self.text_of(name),
            NameKey::Label(address) => hex(address as nat),
        }
    }

    /// The value under the entry.
    pub open spec fn entry_id(self, key: NameKey) -> Id {
        match key {
            NameKey::Held(name) => self.held[name],
            NameKey::Label(address) => self.labels[address],
        }
    }

    /// Whether `listed` lists the entries `keys`, as written and with their
    /// values.
    pub open spec fn lists(self, listed: Seq<(String, Id)>, keys: Seq<NameKey>) -> bool {
        &&& listed.len() == keys.len()
        &&& keys.no_duplicates()
        &&& forall|i: int|
            0 <= i < keys.len() ==> {
                &&& self.has_entry(#[trigger] keys[i])
                &&& listed[i].0@ == self.entry_text(keys[i])
                &&& listed[i].1 == self.entry_id(keys[i])
            }
    }
}

impl<Id: Copy> LocalNames<Id> {
    /// Every name and the value holding it, labels written out, in no
    /// particular order.
    pub fn entries(&self) -> (listed: Vec<(String, Id)>)
        requires
            self.wf(),
        ensures
            exists|keys: Seq<NameKey>|
                {
                    &&& #[trigger] self@.lists(listed@, keys)
                    &&& forall|key: NameKey| self@.has_entry(key) ==> #[trigger] keys.contains(key)
                },
    {
        let mut listed: Vec<(String, Id)> = Vec::new();
        let ghost mut keys: Seq<NameKey> = Seq::empty();
        let bases: usize = self.bases.len();
        let mut b: usize = 0;
        while b < bases
            invariant
                self.wf(),
                bases == self.bases@.len(),
                b <= bases,
                self@.lists(listed@, keys),
                forall|name: Name|
                    #![trigger keys.contains(NameKey::Held(name))]
                    keys.contains(NameKey::Held(name)) <==> name.base.raw() < b && self.near(name),
                forall|a: u64| !#[trigger] keys.contains(NameKey::Label(a)),
            decreases bases - b,
        {
            let count: usize = self.suffixes[b].taken.len();
            let mut k: usize = 0;
            while k < count && k <= u32::MAX as usize
                invariant
                    self.wf(),
                    bases == self.bases@.len(),
                    b < bases,
                    count == self.suffixes@[b as int].taken@.len(),
                    k <= count,
                    k <= u32::MAX + 1,
                    self@.lists(listed@, keys),
                    forall|name: Name|
                        #![trigger keys.contains(NameKey::Held(name))]
                        keys.contains(NameKey::Held(name)) <==> (name.base.raw() < b || (name.base.raw() == b
                            && name.suffix < k)) && self.near(name),
                    forall|a: u64| !#[trigger] keys.contains(NameKey::Label(a)),
                decreases count - k,
            {
                let slot: Option<Id> = self.suffixes[b].taken[k];
                let name: Name = Name::new(BaseId::new(b as u32), k as u32);
                if let Some(id) = slot {
                    let ghost before = keys;
                    proof {
                        keys = keys.push(NameKey::Held(name));
                        assert(self.holder_of(name) == Some(id));
                        assert(self@.bases[b as int] == self.base_text(b as int));
                        lemma_push_contains(before, NameKey::Held(name));
                    }
                    listed.push((self.render(name), id));
                    proof {
                        assert(self@.lists(listed@, keys));
                    }
                }
                k = k + 1;
            }
            b = b + 1;
        }
        let far: Vec<(u128, Id)> = self.far.pairs();
        let n: usize = far.len();
        let mut f: usize = 0;
        while f < n
            invariant
                self.wf(),
                n == far@.len(),
                f <= n,
                forall|i: int|
                    0 <= i < far@.len() ==> self.far@.contains_key((#[trigger] far@[i]).0)
                        && self.far@[far@[i].0] == far@[i].1,
                forall|i: int, j: int|
                    0 <= i < far@.len() && 0 <= j < far@.len() && i != j ==> (
                    #[trigger] far@[i]).0 != (#[trigger] far@[j]).0,
                self@.lists(listed@, keys),
                forall|name: Name|
                    #![trigger keys.contains(NameKey::Held(name))]
                    keys.contains(NameKey::Held(name)) <==> (name.base.raw() < self.bases@.len()
                        && self.near(name)) || exists|i: int|
                        0 <= i < f && (#[trigger] far@[i]).0 == far_key(
                            name.base.raw() as int,
                            name.suffix as int,
                        ),
                forall|a: u64| !#[trigger] keys.contains(NameKey::Label(a)),
            decreases n - f,
        {
            let packed: u128 = far[f].0;
            proof {
                assert(self.far@.contains_key(far@[f as int].0));
            }
            let name: Name = Name::new(
                BaseId::new((packed / 0x1_0000_0000) as u32),
                (packed % 0x1_0000_0000) as u32,
            );
            let id: Id = far[f].1;
            let ghost before = keys;
            proof {
                assert(packed == far_key(name.base.raw() as int, name.suffix as int));
                assert(self.far_entry_ok(name));
                assert(self.holder_of(name) == Some(id));
                assert(!self.near(name));
                assert(!before.contains(NameKey::Held(name)));
                keys = keys.push(NameKey::Held(name));
                lemma_push_contains(before, NameKey::Held(name));
            }
            listed.push((self.render(name), id));
            f = f + 1;
            proof {
                assert(self@.lists(listed@, keys));
                assert forall|other: Name|
                    #![trigger keys.contains(NameKey::Held(other))]
                    keys.contains(NameKey::Held(other)) <==> (other.base.raw() < self.bases@.len()
                        && self.near(other)) || exists|i: int|
                        0 <= i < f && (#[trigger] far@[i]).0 == far_key(
                            other.base.raw() as int,
                            other.suffix as int,
                        ) by {
                    lemma_far_key(other, name);
                    assert(before.contains(NameKey::Held(other)) <==> (other.base.raw()
                        < self.bases@.len() && self.near(other)) || exists|i: int|
                        0 <= i < f - 1 && (#[trigger] far@[i]).0 == far_key(
                            other.base.raw() as int,
                            other.suffix as int,
                        ));
                    if other == name {
                        assert(far@[f - 1].0 == far_key(other.base.raw() as int, other.suffix as int));
                    }
                }
            }
        }
        let labels: Vec<(u128, Id)> = self.labels.pairs();
        let m: usize = labels.len();
        let mut l: usize = 0;
        proof {
            assert forall|name: Name| #[trigger]
                keys.contains(NameKey::Held(name)) <==> self@.held.contains_key(name) by {
                assert(self.far_entry_ok(name));
                let key = far_key(name.base.raw() as int, name.suffix as int) as u128;
                if self.far@.contains_key(key) {
                    assert(exists|i: int| 0 <= i < far@.len() && (#[trigger] far@[i]).0 == key);
                }
            }
        }
        while l < m
            invariant
                self.wf(),
                m == labels@.len(),
                l <= m,
                forall|i: int|
                    0 <= i < labels@.len() ==> self.labels@.contains_key((#[trigger] labels@[i]).0)
                        && self.labels@[labels@[i].0] == labels@[i].1,
                forall|i: int, j: int|
                    0 <= i < labels@.len() && 0 <= j < labels@.len() && i != j ==> (
                    #[trigger] labels@[i]).0 != (#[trigger] labels@[j]).0,
                self@.lists(listed@, keys),
                forall|name: Name| #[trigger]
                    keys.contains(NameKey::Held(name)) <==> self@.held.contains_key(name),
                forall|a: u64|
                    #![trigger keys.contains(NameKey::Label(a))]
                    keys.contains(NameKey::Label(a)) <==> exists|i: int|
                        0 <= i < l && (#[trigger] labels@[i]).0 == a,
            decreases m - l,
        {
            proof {
                assert(self.labels@.contains_key(labels@[l as int].0));
            }
            let address: u64 = labels[l].0 as u64;
            let id: Id = labels[l].1;
            let ghost before = keys;
            proof {
                assert(!before.contains(NameKey::Label(address)));
                keys = keys.push(NameKey::Label(address));
                lemma_push_contains(before, NameKey::Label(address));
            }
            listed.push((hex_name(address), id));
            l = l + 1;
            proof {
                assert(self@.lists(listed@, keys));
                assert forall|a: u64|
                    #![trigger keys.contains(NameKey::Label(a))]
                    keys.contains(NameKey::Label(a)) <==> exists|i: int|
                        0 <= i < l && (#[trigger] labels@[i]).0 == a by {
                    assert(before.contains(NameKey::Label(a)) <==> exists|i: int|
                        0 <= i < l - 1 && (#[trigger] labels@[i]).0 == a);
                    if a == address {
                        assert(labels@[l - 1].0 == a);
                    }
                }
            }
        }
        proof {
            assert forall|key: NameKey| self@.has_entry(key) implies #[trigger] keys.contains(
                key,
            ) by {
                match key {
                    NameKey::Held(name) => {
                        assert(keys.contains(NameKey::Held(name)));
                    },
                    NameKey::Label(a) => {
                        assert(exists|i: int|
                            0 <= i < labels@.len() && (#[trigger] labels@[i]).0 == a as u128);
                        assert(keys.contains(NameKey::Label(a)));
                    },
                }
            }
            assert(self@.lists(listed@, keys));
        }
        listed
    }

    /// Whether `name` is held in its base's vector.
    pub open spec fn near(&self, name: Name) -> bool {
        let taken = self.suffixes@[name.base.raw() as int].taken@;
        name.suffix < taken.len() && taken[name.suffix as int] is Some
    }
}

/// What a longer sequence contains.
proof fn lemma_push_contains<T>(s: Seq<T>, x: T)
    ensures
        forall|y: T| #[trigger] s.push(x).contains(y) <==> s.contains(y) || y == x,
        s.no_duplicates() && !s.contains(x) ==> s.push(x).no_duplicates(),
{
    assert forall|y: T| #[trigger] s.push(x).contains(y) <==> s.contains(y) || y == x by {
        if s.contains(y) {
            let i = choose|i: int| 0 <= i < s.len() && s[i] == y;
            assert(s.push(x)[i] == y);
        }
        if y == x {
            assert(s.push(x)[s.len() as int] == y);
        }
    }
}

/// A table of canonical names is one flat map from strings to values: two
/// entries that are written alike are the same entry, and looking a string up
/// finds exactly the value of the entry that is written so.
pub proof fn law_the_table_is_one_map<Id>(names: LocalNames<Id>, a: NameKey, b: NameKey, id: Id)
    requires
        names.wf(),
        names@.canonical(),
        names@.has_entry(a),
    ensures
        names@.has_entry(b) && names@.entry_text(a) == names@.entry_text(b) ==> a == b,
        names@.found(names@.entry_text(a), id) <==> id == names@.entry_id(a),
{
    let v = names@;
    let text = v.entry_text(a);
    assert forall|x: Name, y: Name|
        v.held.contains_key(x) && v.held.contains_key(y) && v.text_of(x) == v.text_of(y) implies x
        == y by {
        assert(v.held.contains_key(x));
        law_a_name_reads_one_way(
            v.text_of(x),
            v.bases[x.base.raw() as int],
            x.suffix,
            v.bases[y.base.raw() as int],
            y.suffix,
        );
        assert(v.bases[x.base.raw() as int] == names.base_text(x.base.raw() as int));
        assert(v.bases[y.base.raw() as int] == names.base_text(y.base.raw() as int));
        assert(names.index@[names.base_text(x.base.raw() as int)] == x.base.raw());
    }
    assert forall|x: Name, c: u64|
        v.held.contains_key(x) && v.labels.contains_key(c) implies (#[trigger] v.text_of(x))
        != #[trigger] hex(c as nat) by {
        let i = x.base.raw() as int;
        assert(v.bases[i] == names.base_text(i));
        lemma_digits(c as nat, 16);
        if v.text_of(x) == hex(c as nat) {
            if x.suffix == 0 {
                let s = names.suffixes@[i];
                assert(s.hex is Some);
                crate::text::law_digits_are_unique(s.hex->0 as nat, c as nat, 16);
                assert(names.labels@.contains_key(c as u128));
                assert(names.holder_of(Name { base: BaseId::new(i as u32), suffix: 0 }) is None);
                assert(x == (Name { base: BaseId::new(i as u32), suffix: 0 }));
            } else {
                let k = v.bases[i].len() as int;
                assert(v.text_of(x)[k] == '_');
                assert(digit_value(hex(c as nat)[k]) is Some);
            }
        }
    }
    assert forall|c: u64, d: u64| #[trigger] hex(c as nat) == #[trigger] hex(d as nat) implies c
        == d by {
        crate::text::law_digits_are_unique(c as nat, d as nat, 16);
    }
    match a {
        NameKey::Held(x) => {
            assert(v.held.contains_key(x) && reads_as(text, v.bases[x.base.raw() as int], x.suffix));
            assert forall|y: Name|
                v.held.contains_key(y) && #[trigger] reads_as(
                    text,
                    v.bases[y.base.raw() as int],
                    y.suffix,
                ) implies y == x by {
                assert(v.text_of(y) == text);
            }
        },
        NameKey::Label(c) => {
            assert(v.labels.contains_key(c) && hex(c as nat) == text);
            assert forall|y: Name|
                v.held.contains_key(y) && #[trigger] reads_as(
                    text,
                    v.bases[y.base.raw() as int],
                    y.suffix,
                ) implies false by {
                assert(v.text_of(y) == text);
            }
        },
    }
}

/// What is registered under a canonical name is found under the name's text
/// until it is forgotten, and then no longer.
pub proof fn law_registered_is_found<Id>(
    before: LocalNames<Id>,
    after: LocalNames<Id>,
    name: Name,
    id: Id,
)
    requires
        before.wf(),
        after.wf(),
        before@.canonical(),
        name.base.raw() < before@.bases.len(),
        reads_as(before@.text_of(name), before@.bases[name.base.raw() as int], name.suffix),
        !before@.is_taken(name),
        after@ == (NamesView { held: before@.held.insert(name, id), ..before@ }),
    ensures
        after@.canonical(),
        after@.found(after@.text_of(name), id),
        forall|other: Id| !#[trigger] before@.found(before@.text_of(name), other),
{
    assert(after@.canonical());
    law_the_table_is_one_map(after, NameKey::Held(name), NameKey::Held(name), id);
    assert forall|other: Id| !#[trigger] before@.found(before@.text_of(name), other) by {
        let text = before@.text_of(name);
        if before@.found(text, other) {
            if exists|a: u64|
                before@.labels.contains_key(a) && before@.labels[a] == other && #[trigger] hex(
                    a as nat,
                ) == text {
                let a = choose|a: u64|
                    before@.labels.contains_key(a) && before@.labels[a] == other && #[trigger] hex(
                        a as nat,
                    ) == text;
                assert(after@.has_entry(NameKey::Label(a)));
                law_the_table_is_one_map(after, NameKey::Held(name), NameKey::Label(a), id);
            } else {
                let x = choose|x: Name|
                    before@.held.contains_key(x) && before@.held[x] == other && #[trigger] reads_as(
                        text,
                        before@.bases[x.base.raw() as int],
                        x.suffix,
                    );
                law_the_table_is_one_map(after, NameKey::Held(name), NameKey::Held(x), id);
            }
        }
    }
}

/// A table holds finitely many names.
pub proof fn law_names_are_finitely_many<Id>(names: NamesView<Id>)
    ensures
        names.held.dom().finite(),
{
    let w = 0x1_0000_0000int;
    let codes = vstd::set_lib::set_int_range(0, w * w);
    let decode = |k: int| Name { base: BaseId::new((k / w) as u32), suffix: (k % w) as u32 };
    vstd::set_lib::lemma_int_range(0, w * w);
    vstd::set_lib::lemma_map_size_bound(codes, codes.map(decode), decode);
    assert(names.held.dom().subset_of(codes.map(decode))) by {
        assert forall|x: Name| names.held.dom().contains(x) implies codes.map(decode).contains(x) by {
            let k = x.base.raw() * w + x.suffix;
            assert(k / w == x.base.raw() && k % w == x.suffix);
            assert(codes.contains(k));
            assert(decode(k) == x);
        }
    }
    vstd::set_lib::lemma_set_subset_finite(codes.map(decode), names.held.dom());
}

/// Where there are fewer names than suffixes, every base has a free one.
pub proof fn law_a_suffix_is_free<Id: Copy>(names: NamesView<Id>, base: BaseId)
    requires
        names.few(),
    ensures
        LocalNames::has_free(names, base),
{
    law_names_are_finitely_many(names);
    if !LocalNames::<Id>::has_free(names, base) {
        let suffixes = vstd::set_lib::set_int_range(1, u32::MAX as int);
        let name = |n: int| Name { base, suffix: n as u32 };
        let all = suffixes.map(name);
        vstd::set_lib::lemma_int_range(1, u32::MAX as int);
        assert(vstd::relations::injective_on(name, suffixes)) by {
            assert forall|a: int, b: int|
                suffixes.contains(a) && suffixes.contains(b) && #[trigger] name(a) == #[trigger] name(
                    b,
                ) implies a == b by {
                assert(name(a).suffix == name(b).suffix);
            }
        }
        vstd::set_lib::lemma_map_size(suffixes, all, name);
        assert(all.subset_of(names.held.dom())) by {
            assert forall|x: Name| all.contains(x) implies names.held.dom().contains(x) by {
                let n = choose|n: int| suffixes.contains(n) && x == name(n);
                assert(names.held.contains_key(Name { base, suffix: n as u32 }));
            }
        }
        vstd::set_lib::lemma_len_subset(all, names.held.dom());
    }
}

/// A suffix is written after an underscore in decimal, and read back as what it
/// is; without one the base stands alone.
pub proof fn law_a_suffix_is_read_back(base: Seq<char>, suffix: u32)
    ensures
        suffix == 0 ==> spelling(base, suffix) == base,
        suffix > 0 ==> {
            let text = spelling(base, suffix);
            let n = base.len() as int;
            text.len() > n + 1 && text.take(n) == base && text[n] == '_' && spelled(
                text.skip(n + 1),
                10,
            ) == suffix
        },
{
    if suffix > 0 {
        lemma_digits(suffix as nat, 10);
        let text = spelling(base, suffix);
        let n = base.len() as int;
        assert(text.take(n) =~= base);
        assert(text.skip(n + 1) =~= dec(suffix as nat));
    }
}

} // verus!
