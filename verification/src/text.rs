//! Texts as sequences of characters: their order, and sorting by it.

use vstd::prelude::*;
use vstd::seq_lib::{to_multiset_build, to_multiset_insert};

verus! {

/// `a` comes before `b`, or is `b`, where the two are compared from
/// position `i` on: character by character, by code point, and a text comes
/// before every longer text that starts with it.
pub open spec fn le_from(a: Seq<char>, b: Seq<char>, i: int) -> bool
    decreases a.len() - i,
{
    if i < 0 || i >= a.len() {
        true
    } else if i >= b.len() {
        false
    } else if a[i] != b[i] {
        (a[i] as u32) < (b[i] as u32)
    } else {
        le_from(a, b, i + 1)
    }
}

/// The lexicographic order of texts: `a` comes before `b`, or is `b`.
pub open spec fn text_le(a: Seq<char>, b: Seq<char>) -> bool {
    le_from(a, b, 0)
}

/// Each text comes before, or is, every text after it.
pub open spec fn sorted(s: Seq<Seq<char>>) -> bool {
    forall|i: int, j: int| 0 <= i <= j < s.len() ==> text_le(#[trigger] s[i], #[trigger] s[j])
}

/// The texts that a sequence of strings holds.
pub open spec fn texts(v: Seq<String>) -> Seq<Seq<char>> {
    v.map_values(|s: String| s@)
}

proof fn lemma_code_points_differ(a: char, b: char)
    requires
        a != b,
    ensures
        a as u32 != b as u32,
{
}

proof fn lemma_le_from_total(a: Seq<char>, b: Seq<char>, i: int)
    requires
        0 <= i,
    ensures
        le_from(a, b, i) || le_from(b, a, i),
    decreases a.len() - i,
{
    if i < a.len() && i < b.len() {
        if a[i] == b[i] {
            lemma_le_from_total(a, b, i + 1);
        } else {
            lemma_code_points_differ(a[i], b[i]);
        }
    }
}

proof fn lemma_le_from_trans(a: Seq<char>, b: Seq<char>, c: Seq<char>, i: int)
    requires
        0 <= i,
        le_from(a, b, i),
        le_from(b, c, i),
    ensures
        le_from(a, c, i),
    decreases a.len() - i,
{
    if i < a.len() && i < b.len() && i < c.len() && a[i] == b[i] && b[i] == c[i] {
        lemma_le_from_trans(a, b, c, i + 1);
    }
}

proof fn lemma_le_from_antisym(a: Seq<char>, b: Seq<char>, i: int)
    requires
        0 <= i <= a.len(),
        i <= b.len(),
        le_from(a, b, i),
        le_from(b, a, i),
    ensures
        a.len() == b.len(),
        forall|j: int| i <= j < a.len() ==> a[j] == b[j],
    decreases a.len() - i,
{
    if i < a.len() && i < b.len() {
        lemma_le_from_antisym(a, b, i + 1);
    }
}

/// Of two texts, one comes before the other or they are the same.
pub proof fn lemma_text_le_total(a: Seq<char>, b: Seq<char>)
    ensures
        text_le(a, b) || text_le(b, a),
{
    lemma_le_from_total(a, b, 0);
}

/// The order of texts is transitive.
pub proof fn lemma_text_le_trans(a: Seq<char>, b: Seq<char>, c: Seq<char>)
    requires
        text_le(a, b),
        text_le(b, c),
    ensures
        text_le(a, c),
{
    lemma_le_from_trans(a, b, c, 0);
}

/// Two texts that come before each other are the same text.
pub proof fn lemma_text_le_antisym(a: Seq<char>, b: Seq<char>)
    requires
        text_le(a, b),
        text_le(b, a),
    ensures
        a == b,
{
    lemma_le_from_antisym(a, b, 0);
    assert(a =~= b);
}

/// There is one way to sort: two sorted sequences that hold the same texts,
/// each as often as the other, are the same sequence.
pub proof fn lemma_sorted_unique(a: Seq<Seq<char>>, b: Seq<Seq<char>>)
    requires
        sorted(a),
        sorted(b),
        a.to_multiset() == b.to_multiset(),
    ensures
        a == b,
    decreases a.len(),
{
    a.to_multiset_ensures();
    b.to_multiset_ensures();
    if a.len() == 0 {
        assert(a =~= b);
    } else {
        let x = a.last();
        let y = b.last();
        // The last text of each occurs in the other, so each comes before
        // the other.
        assert(a.contains(x)) by {
            assert(a[a.len() - 1] == x);
        }
        assert(b.contains(y)) by {
            assert(b[b.len() - 1] == y);
        }
        assert(b.contains(x)) by {
            assert(a.to_multiset().count(x) > 0);
            assert(b.to_multiset().count(x) > 0);
        }
        assert(a.contains(y)) by {
            assert(b.to_multiset().count(y) > 0);
            assert(a.to_multiset().count(y) > 0);
        }
        let i = choose|i: int| 0 <= i < b.len() && b[i] == x;
        let j = choose|j: int| 0 <= j < a.len() && a[j] == y;
        assert(text_le(b[i], b[b.len() - 1]));
        assert(text_le(a[j], a[a.len() - 1]));
        lemma_text_le_antisym(x, y);
        let front_a = a.drop_last();
        let front_b = b.drop_last();
        assert(front_a.push(x) =~= a);
        assert(front_b.push(y) =~= b);
        to_multiset_build(front_a, x);
        to_multiset_build(front_b, y);
        assert(front_a.to_multiset() =~= a.to_multiset().remove(x));
        assert(front_b.to_multiset() =~= b.to_multiset().remove(y));
        assert(sorted(front_a)) by {
            assert forall|p: int, q: int| 0 <= p <= q < front_a.len() implies text_le(
                #[trigger] front_a[p],
                #[trigger] front_a[q],
            ) by {
                assert(text_le(a[p], a[q]));
            }
        }
        assert(sorted(front_b)) by {
            assert forall|p: int, q: int| 0 <= p <= q < front_b.len() implies text_le(
                #[trigger] front_b[p],
                #[trigger] front_b[q],
            ) by {
                assert(text_le(b[p], b[q]));
            }
        }
        lemma_sorted_unique(front_a, front_b);
    }
}

/// Whether two strings hold the same text.
pub fn same_text(a: &str, b: &str) -> (r: bool)
    ensures
        r == (a@ == b@),
{
    let n = a.unicode_len();
    if n != b.unicode_len() {
        return false;
    }
    let mut i: usize = 0;
    while i < n
        invariant
            i <= n,
            n == a@.len(),
            n == b@.len(),
            forall|j: int| 0 <= j < i ==> a@[j] == b@[j],
        decreases n - i,
    {
        if a.get_char(i) != b.get_char(i) {
            return false;
        }
        i += 1;
    }
    assert(a@ =~= b@);
    true
}

/// Whether `a` comes before `b` in the order of texts, or is `b`.
pub fn text_le_exec(a: &str, b: &str) -> (r: bool)
    ensures
        r == text_le(a@, b@),
{
    let n = a.unicode_len();
    let m = b.unicode_len();
    let mut i: usize = 0;
    while i < n && i < m
        invariant
            i <= n,
            i <= m,
            n == a@.len(),
            m == b@.len(),
            text_le(a@, b@) == le_from(a@, b@, i as int),
        decreases n - i,
    {
        let ca = a.get_char(i);
        let cb = b.get_char(i);
        if ca != cb {
            return (ca as u32) < (cb as u32);
        }
        i += 1;
    }
    i >= n
}

/// The same texts in ascending order. Equal texts are all kept.
pub fn sort_texts(v: Vec<String>) -> (out: Vec<String>)
    ensures
        sorted(texts(out@)),
        texts(out@).to_multiset() == texts(v@).to_multiset(),
{
    let mut out: Vec<String> = Vec::new();
    let mut i: usize = 0;
    assert(texts(v@.take(0)) =~= texts(out@));
    while i < v.len()
        invariant
            i <= v.len(),
            sorted(texts(out@)),
            texts(out@).to_multiset() == texts(v@.take(i as int)).to_multiset(),
        decreases v.len() - i,
    {
        let x = v[i].clone();
        let mut p: usize = 0;
        while p < out.len() && text_le_exec(out[p].as_str(), x.as_str())
            invariant
                p <= out.len(),
                forall|j: int| 0 <= j < p ==> text_le(#[trigger] texts(out@)[j], x@),
            decreases out.len() - p,
        {
            p += 1;
        }
        let ghost before = texts(out@);
        out.insert(p, x);
        proof {
            let after = texts(out@);
            assert(after =~= before.insert(p as int, x@));
            to_multiset_insert(before, p as int, x@);
            assert(texts(v@.take(i as int + 1)) =~= texts(v@.take(i as int)).push(x@));
            to_multiset_build(texts(v@.take(i as int)), x@);
            assert forall|j: int, k: int| 0 <= j <= k < after.len() implies text_le(
                #[trigger] after[j],
                #[trigger] after[k],
            ) by {
                if k < p {
                    assert(after[j] == before[j] && after[k] == before[k]);
                } else if k == p {
                    if j < p {
                        assert(after[j] == before[j]);
                    } else {
                        lemma_text_le_total(x@, x@);
                    }
                } else {
                    assert(after[k] == before[k - 1]);
                    if j < p {
                        assert(after[j] == before[j]);
                    } else {
                        // `x` comes before the text that stood at `p`.
                        assert(!text_le(before[p as int], x@));
                        lemma_text_le_total(before[p as int], x@);
                        if j == p {
                            lemma_text_le_trans(x@, before[p as int], before[k - 1]);
                        } else {
                            assert(after[j] == before[j - 1]);
                        }
                    }
                }
            }
        }
        i += 1;
    }
    assert(v@.take(v.len() as int) =~= v@);
    out
}

} // verus!
