//! Numbers as text.
//!
//! Names carry decimal suffixes (`rax_7`) and blocks are labelled with their
//! address in hexadecimal. The functions here write both and read them back,
//! and the lemmas say that reading inverts writing.

use vstd::prelude::*;
use vstd::string::*;

verus! {

/// The digit that stands for `d`, in lower case from ten on.
pub open spec fn digit_char(d: int) -> char {
    if d < 10 {
        (0x30 + d) as u8 as char
    } else {
        (0x57 + d) as u8 as char
    }
}

/// The digits of `n` to the base `radix`, most significant first and without
/// leading zeros.
pub open spec fn digits(n: nat, radix: nat) -> Seq<char>
    decreases n,
    via digits_terminate
{
    if n < radix || radix < 2 {
        seq![digit_char(n as int)]
    } else {
        digits(n / radix, radix).push(digit_char((n % radix) as int))
    }
}

#[via_fn]
proof fn digits_terminate(n: nat, radix: nat) {
    if n >= radix && radix >= 2 {
        assert(n / radix < n) by (nonlinear_arith)
            requires
                n >= radix,
                radix >= 2,
        ;
    }
}

/// `n` in decimal.
pub open spec fn dec(n: nat) -> Seq<char> {
    digits(n, 10)
}

/// `n` in lowercase hexadecimal.
pub open spec fn hex(n: nat) -> Seq<char> {
    digits(n, 16)
}

/// The value of a digit, if `c` is one below sixteen.
pub open spec fn digit_value(c: char) -> Option<int> {
    if '0' <= c <= '9' {
        Some(c as int - '0' as int)
    } else if 'a' <= c <= 'f' {
        Some(c as int - 'a' as int + 10)
    } else {
        None
    }
}

/// Whether every character of `s` is a digit below `radix`.
pub open spec fn all_digits(s: Seq<char>, radix: int) -> bool {
    forall|k: int| 0 <= k < s.len() ==> (#[trigger] digit_value(s[k]) matches Some(d) && d < radix)
}

/// The number that a sequence of digits spells.
pub open spec fn spelled(s: Seq<char>, radix: nat) -> nat
    decreases s.len(),
{
    if s.len() == 0 {
        0
    } else {
        spelled(s.drop_last(), radix) * radix + digit_value(s.last())->0 as nat
    }
}

/// The value of a digit's character is the digit.
pub proof fn lemma_digit_value(d: int)
    requires
        0 <= d < 16,
    ensures
        digit_value(digit_char(d)) == Some(d),
        d == 0 <==> digit_char(d) == '0',
{
    if d < 10 {
        assert((0x30 + d) as u8 as char as int == 0x30 + d);
    } else {
        assert((0x57 + d) as u8 as char as int == 0x57 + d);
    }
}

/// The digits of a number spell it, are digits, and start with a zero only
/// for zero itself.
pub proof fn lemma_digits(n: nat, radix: nat)
    requires
        2 <= radix <= 16,
    ensures
        digits(n, radix).len() > 0,
        all_digits(digits(n, radix), radix as int),
        spelled(digits(n, radix), radix) == n,
        digits(n, radix)[0] == '0' <==> n == 0,
        n < radix <==> digits(n, radix).len() == 1,
    decreases n,
{
    let s = digits(n, radix);
    if n < radix {
        lemma_digit_value(n as int);
        assert(s.drop_last() =~= Seq::<char>::empty());
        assert(spelled(Seq::<char>::empty(), radix) == 0);
        assert(spelled(s, radix) == 0 * radix + n);
    } else {
        assert(0 < n / radix < n) by (nonlinear_arith)
            requires
                n >= radix,
                radix >= 2,
        ;
        vstd::arithmetic::div_mod::lemma_fundamental_div_mod(n as int, radix as int);
        vstd::arithmetic::div_mod::lemma_mod_bound(n as int, radix as int);
        lemma_digits(n / radix, radix);
        lemma_digit_value((n % radix) as int);
        let t = digits(n / radix, radix);
        assert(s.drop_last() =~= t);
        assert(s == t.push(digit_char((n % radix) as int)));
        assert forall|k: int| 0 <= k < s.len() implies (#[trigger] digit_value(s[k]) matches Some(d)
            && d < radix) by {
            if k < t.len() {
                assert(s[k] == t[k]);
                assert(digit_value(t[k]) is Some);
            }
        }
        assert((n / radix) * radix == radix * (n / radix)) by (nonlinear_arith);
    }
}

/// Digits without a leading zero are the digits of the number they spell.
pub proof fn lemma_spelled(s: Seq<char>, radix: nat)
    requires
        2 <= radix <= 16,
        s.len() > 0,
        all_digits(s, radix as int),
        s.len() > 1 ==> s[0] != '0',
    ensures
        digits(spelled(s, radix), radix) == s,
        s[0] != '0' ==> spelled(s, radix) > 0,
    decreases s.len(),
{
    let n = spelled(s, radix);
    let t = s.drop_last();
    let d = digit_value(s.last())->0;
    assert(digit_value(s[s.len() - 1]) is Some);
    assert(0 <= d < radix);
    assert(digit_char(d) == s.last()) by {
        if d < 10 {
            assert((0x30 + d) as u8 as char as int == s.last() as int);
        } else {
            assert((0x57 + d) as u8 as char as int == s.last() as int);
        }
    }
    lemma_digit_value(d);
    if t.len() == 0 {
        assert(spelled(t, radix) == 0);
        assert(0 * radix == 0);
        assert(s =~= seq![digit_char(d)]);
    } else {
        assert forall|k: int| 0 <= k < t.len() implies (#[trigger] digit_value(t[k]) matches Some(d)
            && d < radix) by {
            assert(t[k] == s[k]);
            assert(digit_value(s[k]) is Some);
        }
        assert(t[0] == s[0]);
        lemma_spelled(t, radix);
        let q = spelled(t, radix);
        assert(q > 0);
        assert(n == q * radix + d);
        vstd::arithmetic::div_mod::lemma_fundamental_div_mod_converse(
            n as int,
            radix as int,
            q as int,
            d,
        );
        assert(n >= radix) by (nonlinear_arith)
            requires
                n == q * radix + d,
                q >= 1,
                d >= 0,
        ;
        assert(digits(n, radix) =~= s);
    }
}

/// Different numbers have different digits.
pub proof fn law_digits_are_unique(a: nat, b: nat, radix: nat)
    requires
        2 <= radix <= 16,
        digits(a, radix) == digits(b, radix),
    ensures
        a == b,
{
    lemma_digits(a, radix);
    lemma_digits(b, radix);
}

/// The text of one digit.
fn digit_text(d: u8) -> (s: &'static str)
    requires
        d < 16,
    ensures
        s@ == seq![digit_char(d as int)],
{
    proof {
        reveal_strlit("0");
        reveal_strlit("1");
        reveal_strlit("2");
        reveal_strlit("3");
        reveal_strlit("4");
        reveal_strlit("5");
        reveal_strlit("6");
        reveal_strlit("7");
        reveal_strlit("8");
        reveal_strlit("9");
        reveal_strlit("a");
        reveal_strlit("b");
        reveal_strlit("c");
        reveal_strlit("d");
        reveal_strlit("e");
        reveal_strlit("f");
    }
    let s = match d {
        0 => "0",
        1 => "1",
        2 => "2",
        3 => "3",
        4 => "4",
        5 => "5",
        6 => "6",
        7 => "7",
        8 => "8",
        9 => "9",
        10 => "a",
        11 => "b",
        12 => "c",
        13 => "d",
        14 => "e",
        _ => "f",
    };
    proof {
        assert(s@ =~= seq![digit_char(d as int)]);
    }
    s
}

fn number_text(n: u64, radix: u64) -> (s: String)
    requires
        2 <= radix <= 16,
    ensures
        s@ == digits(n as nat, radix as nat),
    decreases n,
{
    if n < radix {
        String::from_str(digit_text(n as u8))
    } else {
        proof {
            assert(n / radix < n) by (nonlinear_arith)
                requires
                    n >= radix,
                    radix >= 2,
            ;
        }
        let mut s = number_text(n / radix, radix);
        s.append(digit_text((n % radix) as u8));
        proof {
            assert(s@ =~= digits(n as nat, radix as nat));
        }
        s
    }
}

/// `n` in decimal.
pub fn decimal(n: u64) -> (s: String)
    ensures
        s@ == dec(n as nat),
{
    number_text(n, 10)
}

/// `n` in lowercase hexadecimal, as a block at that address is labelled.
pub fn hex_name(n: u64) -> (s: String)
    ensures
        s@ == hex(n as nat),
{
    number_text(n, 16)
}

} // verus!
