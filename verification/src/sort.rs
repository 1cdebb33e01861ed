//! Putting things into the order of their texts.

use vstd::prelude::*;
use vstd::string::*;

verus! {

/// Whether `a` comes before `b` in dictionary order, by code points.
pub open spec fn text_less(a: Seq<char>, b: Seq<char>) -> bool
    decreases a.len(),
{
    if b.len() == 0 {
        false
    } else if a.len() == 0 {
        true
    } else {
        a[0] < b[0] || (a[0] == b[0] && text_less(a.skip(1), b.skip(1)))
    }
}

/// The order is total, and no text is before itself.
pub proof fn lemma_text_order(a: Seq<char>, b: Seq<char>, c: Seq<char>)
    ensures
        !text_less(a, a),
        text_less(a, b) || text_less(b, a) || a == b,
        text_less(a, b) && text_less(b, c) ==> text_less(a, c),
    decreases a.len() + b.len() + c.len(),
{
    if a.len() > 0 {
        lemma_text_order(a.skip(1), Seq::empty(), Seq::empty());
    }
    if a.len() == 0 && b.len() == 0 {
        assert(a =~= b);
    }
    if a.len() > 0 && b.len() > 0 {
        lemma_text_order(
            a.skip(1),
            b.skip(1),
            if c.len() > 0 {
                c.skip(1)
            } else {
                c
            },
        );
        if a[0] == b[0] && a.skip(1) == b.skip(1) {
            assert(a =~= seq![a[0]] + a.skip(1));
            assert(b =~= seq![b[0]] + b.skip(1));
        }
    }
}

/// Whether `a` comes before `b` in dictionary order.
pub fn comes_before(a: &str, b: &str) -> (before: bool)
    ensures
        before == text_less(a@, b@),
{
    let m: usize = a.unicode_len();
    let n: usize = b.unicode_len();
    let mut i: usize = 0;
    proof {
        assert(a@.skip(0) =~= a@);
        assert(b@.skip(0) =~= b@);
    }
    while i < m && i < n
        invariant
            m == a@.len(),
            n == b@.len(),
            i <= m,
            i <= n,
            text_less(a@, b@) == text_less(a@.skip(i as int), b@.skip(i as int)),
        decreases m - i,
    {
        let x: char = a.get_char(i);
        let y: char = b.get_char(i);
        proof {
            assert(a@.skip(i as int)[0] == x);
            assert(b@.skip(i as int)[0] == y);
            assert(a@.skip(i as int).skip(1) =~= a@.skip(i + 1));
            assert(b@.skip(i as int).skip(1) =~= b@.skip(i + 1));
        }
        if x < y {
            return true;
        }
        if y < x {
            return false;
        }
        i = i + 1;
    }
    i == m && i < n
}

/// Something that has a text it is ordered by.
pub trait Lettered: Sized {
    spec fn text(&self) -> Seq<char>;

    fn letters(&self) -> (text: &str)
        ensures
            text@ == self.text(),
    ;
}

impl Lettered for String {
    open spec fn text(&self) -> Seq<char> {
        self@
    }

    fn letters(&self) -> (text: &str) {
        self.as_str()
    }
}

/// Whether the texts of `s` ascend.
pub open spec fn in_order<T: Lettered>(s: Seq<T>) -> bool {
    forall|i: int, j: int|
        0 <= i < j < s.len() ==> !text_less((#[trigger] s[j]).text(), (#[trigger] s[i]).text())
}

/// How many items at the front of `s` are not after `item`.
pub open spec fn rank_in<T: Lettered>(s: Seq<T>, item: T) -> int
    decreases s.len(),
{
    if s.len() == 0 || text_less(item.text(), s[0].text()) {
        0
    } else {
        1 + rank_in(s.skip(1), item)
    }
}

/// The first `n` of `items` in order; those of equal texts keep theirs.
pub open spec fn sorted<T: Lettered>(items: Seq<T>, n: int) -> Seq<T>
    decreases n,
{
    if n <= 0 {
        Seq::empty()
    } else {
        let s = sorted(items, n - 1);
        s.insert(rank_in(s, items[n - 1]), items[n - 1])
    }
}

pub(crate) proof fn lemma_rank<T: Lettered>(s: Seq<T>, item: T)
    ensures
        0 <= rank_in(s, item) <= s.len(),
        forall|k: int|
            0 <= k < rank_in(s, item) ==> !text_less(item.text(), (#[trigger] s[k]).text()),
        rank_in(s, item) < s.len() ==> text_less(item.text(), s[rank_in(s, item)].text()),
    decreases s.len(),
{
    if s.len() > 0 && !text_less(item.text(), s[0].text()) {
        lemma_rank(s.skip(1), item);
        assert forall|k: int| 0 <= k < rank_in(s, item) implies !text_less(
            item.text(),
            (#[trigger] s[k]).text(),
        ) by {
            if k > 0 {
                assert(s[k] == s.skip(1)[k - 1]);
            }
        }
    }
}

/// What [`sort`] gives has the items it was given, in ascending order.
pub proof fn law_sorted_is_an_ordered_rearrangement<T: Lettered>(items: Seq<T>, n: int)
    requires
        0 <= n <= items.len(),
    ensures
        sorted(items, n).to_multiset() == items.take(n).to_multiset(),
        in_order(sorted(items, n)),
        sorted(items, n).len() == n,
    decreases n,
{
    if n == 0 {
        assert(items.take(0) =~= Seq::<T>::empty());
    } else {
        law_sorted_is_an_ordered_rearrangement(items, n - 1);
        let s = sorted(items, n - 1);
        let item = items[n - 1];
        let k = rank_in(s, item);
        lemma_rank(s, item);
        vstd::seq_lib::to_multiset_insert(s, k, item);
        assert(items.take(n) =~= items.take(n - 1).push(item));
        items.take(n - 1).to_multiset_ensures();
        let t = s.insert(k, item);
        assert forall|i: int, j: int| 0 <= i < j < t.len() implies !text_less(
            (#[trigger] t[j]).text(),
            (#[trigger] t[i]).text(),
        ) by {
            if j == k {
                assert(t[i] == s[i]);
                assert(!text_less(item.text(), s[i].text()));
            } else if i == k {
                assert(t[j] == s[j - 1]);
                lemma_text_order(s[j - 1].text(), item.text(), s[k].text());
                lemma_text_order(item.text(), s[k].text(), s[j - 1].text());
                lemma_text_order(s[j - 1].text(), item.text(), s[j - 1].text());
                lemma_text_order(s[j - 1].text(), s[k].text(), s[j - 1].text());
                if j - 1 > k {
                    assert(!text_less(s[j - 1].text(), s[k].text()));
                }
            } else if i < k && j > k {
                assert(t[i] == s[i] && t[j] == s[j - 1]);
            } else if i > k {
                assert(t[i] == s[i - 1] && t[j] == s[j - 1]);
            }
        }
    }
}

/// Puts `items` into the order of their texts; those of equal texts keep
/// theirs.
pub fn sort<T: Lettered>(items: Vec<T>) -> (result: Vec<T>)
    ensures
        result@ == sorted(items@, items@.len() as int),
        result@.to_multiset() == items@.to_multiset(),
        in_order(result@),
{
    let ghost all = items@;
    let mut rest = items;
    let mut result: Vec<T> = Vec::new();
    let mut reversed: Vec<T> = Vec::new();
    while rest.len() > 0
        invariant
            all.len() == rest.len() + reversed.len(),
            forall|k: int| 0 <= k < rest.len() ==> rest@[k] == all[k],
            forall|k: int| 0 <= k < reversed.len() ==> reversed@[k] == all[all.len() - 1 - k],
        decreases rest.len(),
    {
        match rest.pop() {
            Some(item) => {
                reversed.push(item);
            },
            None => {},
        }
    }
    while reversed.len() > 0
        invariant
            result@ == sorted(all, all.len() - reversed.len()),
            reversed.len() <= all.len(),
            forall|k: int| 0 <= k < reversed.len() ==> reversed@[k] == all[all.len() - 1 - k],
        decreases reversed.len(),
    {
        let ghost n = all.len() - reversed.len();
        match reversed.pop() {
            Some(item) => {
                let ghost s = result@;
                let mut k: usize = 0;
                proof {
                    assert(s.skip(0) =~= s);
                }
                while k < result.len() && !comes_before(item.letters(), result[k].letters())
                    invariant
                        result@ == s,
                        k <= s.len(),
                        rank_in(s, item) == k + rank_in(s.skip(k as int), item),
                    decreases s.len() - k,
                {
                    proof {
                        assert(s.skip(k as int)[0] == s[k as int]);
                        assert(s.skip(k as int).skip(1) =~= s.skip(k + 1));
                    }
                    k = k + 1;
                }
                proof {
                    if k < s.len() {
                        assert(s.skip(k as int)[0] == s[k as int]);
                    }
                }
                result.insert(k, item);
                proof {
                    assert(result@ =~= s.insert(rank_in(s, item), item));
                    assert(item == all[n]);
                }
            },
            None => {},
        }
    }
    proof {
        law_sorted_is_an_ordered_rearrangement(all, all.len() as int);
        assert(all.take(all.len() as int) =~= all);
    }
    result
}

/// Where no two texts are equal, the order in which the items come does not
/// matter.
pub proof fn law_sorting_forgets_the_order<T: Lettered>(a: Seq<T>, b: Seq<T>)
    requires
        a.to_multiset() == b.to_multiset(),
        forall|i: int, j: int|
            0 <= i < a.len() && 0 <= j < a.len() && i != j ==> (#[trigger] a[i]).text() != (
            #[trigger] a[j]).text(),
    ensures
        sorted(a, a.len() as int) == sorted(b, b.len() as int),
{
    law_sorted_is_an_ordered_rearrangement(a, a.len() as int);
    law_sorted_is_an_ordered_rearrangement(b, b.len() as int);
    assert(a.take(a.len() as int) =~= a);
    assert(b.take(b.len() as int) =~= b);
    let s = sorted(a, a.len() as int);
    let t = sorted(b, b.len() as int);
    assert forall|x: T, y: T|
        s.to_multiset().count(x) > 0 && s.to_multiset().count(y) > 0 && x.text()
            == y.text() implies x == y by {
        a.to_multiset_ensures();
        assert(a.contains(x) && a.contains(y));
        let i = choose|i: int| 0 <= i < a.len() && a[i] == x;
        let j = choose|j: int| 0 <= j < a.len() && a[j] == y;
        if i != j {
            assert(a[i].text() != a[j].text());
        }
    }
    lemma_one_order(s, t);
}

/// Two ordered sequences of the same items, of which no two differ and have
/// one text, are equal.
proof fn lemma_one_order<T: Lettered>(s: Seq<T>, t: Seq<T>)
    requires
        s.to_multiset() == t.to_multiset(),
        in_order(s),
        in_order(t),
        forall|x: T, y: T|
            s.to_multiset().count(x) > 0 && s.to_multiset().count(y) > 0 && x.text() == y.text()
                ==> x == y,
    ensures
        s == t,
    decreases s.len(),
{
    s.to_multiset_ensures();
    t.to_multiset_ensures();
    assert(s.len() == t.len());
    if s.len() == 0 {
        assert(s =~= t);
    } else {
        let x = s[0];
        let y = t[0];
        assert(s.contains(x) && t.contains(y));
        assert(s.to_multiset().count(x) > 0 && t.to_multiset().count(y) > 0);
        assert(t.contains(x) && s.contains(y));
        let i = choose|i: int| 0 <= i < t.len() && t[i] == x;
        let j = choose|j: int| 0 <= j < s.len() && s[j] == y;
        if i > 0 {
            assert(!text_less(t[i].text(), t[0].text()));
        }
        if j > 0 {
            assert(!text_less(s[j].text(), s[0].text()));
        }
        if x.text() != y.text() {
            lemma_text_total(x.text(), y.text());
        }
        assert(x == y);
        let s2 = s.skip(1);
        let t2 = t.skip(1);
        assert(s =~= seq![x] + s2);
        assert(t =~= seq![x] + t2);
        assert(s2 =~= s.remove(0));
        assert(t2 =~= t.remove(0));
        vstd::seq_lib::to_multiset_remove(s, 0);
        vstd::seq_lib::to_multiset_remove(t, 0);
        assert(s2.to_multiset() =~= t2.to_multiset());
        assert forall|i: int, j: int| 0 <= i < j < s2.len() implies !text_less(
            (#[trigger] s2[j]).text(),
            (#[trigger] s2[i]).text(),
        ) by {
            assert(s2[i] == s[i + 1] && s2[j] == s[j + 1]);
        }
        assert forall|i: int, j: int| 0 <= i < j < t2.len() implies !text_less(
            (#[trigger] t2[j]).text(),
            (#[trigger] t2[i]).text(),
        ) by {
            assert(t2[i] == t[i + 1] && t2[j] == t[j + 1]);
        }
        assert forall|x: T, y: T|
            s2.to_multiset().count(x) > 0 && s2.to_multiset().count(y) > 0 && x.text()
                == y.text() implies x == y by {
            assert(s.to_multiset().count(x) > 0);
            assert(s.to_multiset().count(y) > 0);
        }
        lemma_one_order(s2, t2);
    }
}

/// Of two different texts one is before the other.
proof fn lemma_text_total(a: Seq<char>, b: Seq<char>)
    requires
        a != b,
    ensures
        text_less(a, b) || text_less(b, a),
    decreases a.len(),
{
    if a.len() > 0 && b.len() > 0 && a[0] == b[0] {
        assert(a =~= seq![a[0]] + a.skip(1));
        assert(b =~= seq![b[0]] + b.skip(1));
        lemma_text_total(a.skip(1), b.skip(1));
    } else if a.len() == 0 && b.len() == 0 {
        assert(a =~= b);
    }
}

/// The first character that differs decides, the lower code point before the
/// higher; and a text is before what goes on after it.
pub proof fn law_the_first_difference_decides(
    common: Seq<char>,
    a: Seq<char>,
    b: Seq<char>,
)
    ensures
        a.len() > 0 && b.len() > 0 && a[0] < b[0] ==> text_less(common + a, common + b) && !text_less(
            common + b,
            common + a,
        ),
        b.len() > 0 ==> text_less(common, common + b) && !text_less(common + b, common),
    decreases common.len(),
{
    if common.len() == 0 {
        assert(common + a =~= a);
        assert(common + b =~= b);
    } else {
        let rest = common.skip(1);
        law_the_first_difference_decides(rest, a, b);
        assert((common + a).skip(1) =~= rest + a);
        assert((common + b).skip(1) =~= rest + b);
    }
}

} // verus!
