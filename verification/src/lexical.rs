//! Lexicographic order on text, the order of `String`'s `Ord` (code point by
//! code point, which is the order of the UTF-8 bytes), and sorted lists of
//! distinct texts.
use vstd::prelude::*;

use crate::groups::text_views;
use crate::observability::business::string_views;

verus! {

/// `a` comes strictly before `b`.
pub open spec fn lex_lt(a: Seq<char>, b: Seq<char>) -> bool
    decreases a.len(),
{
    if b.len() == 0 {
        false
    } else if a.len() == 0 {
        true
    } else if a[0] != b[0] {
        a[0] < b[0]
    } else {
        lex_lt(a.drop_first(), b.drop_first())
    }
}

/// Each text comes strictly before the next: sorted, no text twice.
pub open spec fn strictly_sorted(s: Seq<Seq<char>>) -> bool {
    forall|i: int, j: int| 0 <= i < j < s.len() ==> lex_lt(#[trigger] s[i], #[trigger] s[j])
}

pub proof fn lemma_lex_irreflexive(a: Seq<char>)
    ensures
        !lex_lt(a, a),
    decreases a.len(),
{
    if a.len() > 0 {
        lemma_lex_irreflexive(a.drop_first());
    }
}

pub proof fn lemma_lex_trichotomy(a: Seq<char>, b: Seq<char>)
    ensures
        a == b || lex_lt(a, b) || lex_lt(b, a),
        !(lex_lt(a, b) && lex_lt(b, a)),
    decreases a.len(),
{
    if a.len() > 0 && b.len() > 0 {
        if a[0] == b[0] {
            lemma_lex_trichotomy(a.drop_first(), b.drop_first());
            if a.drop_first() == b.drop_first() {
                assert(a =~= seq![a[0]] + a.drop_first());
                assert(b =~= seq![b[0]] + b.drop_first());
            }
        }
    } else if a.len() == 0 && b.len() == 0 {
        assert(a =~= b);
    }
}

pub proof fn lemma_lex_transitive(a: Seq<char>, b: Seq<char>, c: Seq<char>)
    requires
        lex_lt(a, b),
        lex_lt(b, c),
    ensures
        lex_lt(a, c),
    decreases a.len(),
{
    if a.len() > 0 && b.len() > 0 && c.len() > 0 {
        if a[0] == b[0] && b[0] == c[0] {
            lemma_lex_transitive(a.drop_first(), b.drop_first(), c.drop_first());
        }
    }
}

/// Whether `a` comes strictly before `b`.
pub fn lex_less(a: &Vec<char>, b: &Vec<char>) -> (r: bool)
    ensures
        r == lex_lt(a@, b@),
{
    let mut i: usize = 0;
    assert(a@.skip(0) =~= a@);
    assert(b@.skip(0) =~= b@);
    while i < a.len() && i < b.len() && a[i] == b[i]
        invariant
            i <= a@.len(),
            i <= b@.len(),
            lex_lt(a@, b@) == lex_lt(a@.skip(i as int), b@.skip(i as int)),
        decreases a.len() - i,
    {
        assert(a@.skip(i as int).drop_first() =~= a@.skip(i + 1));
        assert(b@.skip(i as int).drop_first() =~= b@.skip(i + 1));
        i = i + 1;
    }
    if i == b.len() {
        false
    } else if i == a.len() {
        true
    } else {
        assert(a@.skip(i as int)[0] == a@[i as int]);
        assert(b@.skip(i as int)[0] == b@[i as int]);
        a[i] < b[i]
    }
}

/// The texts of `items`, sorted, each once.
pub fn sorted_distinct(items: &Vec<String>) -> (r: Vec<String>)
    ensures
        strictly_sorted(string_views(r@)),
        forall|t: Seq<char>| string_views(r@).contains(t) <==> string_views(items@).contains(t),
{
    let mut out: Vec<String> = Vec::new();
    let mut i: usize = 0;
    while i < items.len()
        invariant
            i <= items@.len(),
            strictly_sorted(string_views(out@)),
            forall|t: Seq<char>| string_views(out@).contains(t) <==> string_views(items@).take(i as int).contains(t),
        decreases items.len() - i,
    {
        let x = crate::text::chars_of(items[i].as_str());
        let ghost o0 = string_views(out@);
        let mut p: usize = 0;
        while p < out.len() && lex_less(&crate::text::chars_of(out[p].as_str()), &x)
            invariant
                p <= out@.len(),
                o0 == string_views(out@),
                forall|q: int| 0 <= q < p ==> lex_lt(#[trigger] o0[q], x@),
            decreases out.len() - p,
        {
            p = p + 1;
        }
        let dup = p < out.len() && crate::text::chars_eq(&crate::text::chars_of(out[p].as_str()), &x);
        assert(string_views(items@).take(i + 1) =~= string_views(items@).take(i as int).push(x@));
        if !dup {
            out.insert(p, items[i].clone());
            proof {
                let o1 = string_views(out@);
                assert(o1 =~= o0.insert(p as int, x@));
                if p < o0.len() {
                    lemma_lex_trichotomy(o0[p as int], x@);
                }
                assert forall|a: int, b: int| 0 <= a < b < o1.len() implies lex_lt(#[trigger] o1[a], #[trigger] o1[b]) by {
                    if a < p && b < p {
                        assert(o1[a] == o0[a] && o1[b] == o0[b]);
                    } else if a < p && b == p {
                        assert(o1[a] == o0[a]);
                    } else if a < p {
                        assert(o1[a] == o0[a] && o1[b] == o0[b - 1]);
                        lemma_lex_transitive(o0[a], x@, o0[p as int]);
                        if b - 1 > p {
                            lemma_lex_transitive(o0[a], o0[p as int], o0[b - 1]);
                        }
                    } else if a == p {
                        assert(o1[b] == o0[b - 1]);
                        if b - 1 > p {
                            lemma_lex_transitive(x@, o0[p as int], o0[b - 1]);
                        }
                    } else {
                        assert(o1[a] == o0[a - 1] && o1[b] == o0[b - 1]);
                    }
                }
                let prev = string_views(items@).take(i as int);
                let next = string_views(items@).take(i + 1);
                assert(next =~= prev.push(x@));
                assert forall|t: Seq<char>| o1.contains(t) <==> next.contains(t) by {
                    if next.contains(t) && t != x@ {
                        let k = choose|k: int| 0 <= k < next.len() && next[k] == t;
                        assert(k < prev.len());
                        assert(prev[k] == t);
                        assert(prev.contains(t));
                        assert(o0.contains(t));
                    }
                    if t == x@ {
                        assert(next[i as int] == t);
                    }
                    if o1.contains(t) {
                        let k = choose|k: int| 0 <= k < o1.len() && o1[k] == t;
                        if k < p {
                            assert(o0[k] == t);
                        } else if k > p {
                            assert(o0[k - 1] == t);
                        }
                    }
                    if o0.contains(t) {
                        let k = choose|k: int| 0 <= k < o0.len() && o0[k] == t;
                        if k < p {
                            assert(o1[k] == t);
                        } else {
                            assert(o1[k + 1] == t);
                        }
                    }
                    if t == x@ {
                        assert(o1[p as int] == t);
                    }
                    if o0.contains(t) {
                        assert(prev.contains(t));
                        let k = choose|k: int| 0 <= k < prev.len() && prev[k] == t;
                        assert(next[k] == t);
                    }
                }
            }
        } else {
            proof {
                let prev = string_views(items@).take(i as int);
                let next = string_views(items@).take(i + 1);
                assert(o0[p as int] == x@);
                assert forall|t: Seq<char>| o0.contains(t) <==> next.contains(t) by {
                    if next.contains(t) && t != x@ {
                        let k = choose|k: int| 0 <= k < next.len() && next[k] == t;
                        assert(prev[k] == t);
                        assert(prev.contains(t));
                    }
                    if o0.contains(t) {
                        assert(prev.contains(t));
                        let k = choose|k: int| 0 <= k < prev.len() && prev[k] == t;
                        assert(next[k] == t);
                    }
                    if t == x@ {
                        assert(next[i as int] == t);
                    }
                }
            }
        }
        i = i + 1;
    }
    assert(string_views(items@).take(items@.len() as int) =~= string_views(items@));
    out
}

/// The first position from `j` on whose key comes after `k`, or the length.
pub open spec fn text_upper_from<T>(s: Seq<(Seq<char>, T)>, k: Seq<char>, j: int) -> int
    decreases s.len() - j,
{
    if j < 0 || j >= s.len() {
        s.len() as int
    } else if lex_lt(k, s[j].0) {
        j
    } else {
        text_upper_from(s, k, j + 1)
    }
}

/// Entries ordered by key, equal keys in their original order.
pub open spec fn sort_text_keyed<T>(s: Seq<(Seq<char>, T)>) -> Seq<(Seq<char>, T)>
    decreases s.len(),
{
    if s.len() == 0 {
        s
    } else {
        let p = sort_text_keyed(s.drop_last());
        p.insert(text_upper_from(p, s.last().0, 0), s.last())
    }
}

pub open spec fn text_keyed<T>(items: Seq<T>, keys: Seq<Seq<char>>) -> Seq<(Seq<char>, T)> {
    Seq::new(items.len(), |i: int| (keys[i], items[i]))
}

/// `items` ordered by `keys` (one per item), stably.
pub open spec fn sorted_by_text_keys<T>(items: Seq<T>, keys: Seq<Seq<char>>) -> Seq<T> {
    sort_text_keyed(text_keyed(items, keys)).map_values(|p: (Seq<char>, T)| p.1)
}

/// Orders `items` by `keys`, equal keys keeping their order.
pub fn sort_by_text_keys<T>(items: Vec<T>, keys: Vec<Vec<char>>) -> (r: Vec<T>)
    requires
        items@.len() == keys@.len(),
    ensures
        r@ == sorted_by_text_keys(items@, text_views(keys@)),
{
    let ghost kv = text_views(keys@);
    let ghost all = text_keyed(items@, kv);
    let mut rest = items;
    let mut rest_keys = keys;
    let mut out: Vec<T> = Vec::new();
    let mut out_keys: Vec<Vec<char>> = Vec::new();
    let mut i: usize = 0;
    let n = rest.len();
    while rest.len() > 0
        invariant
            n == all.len(),
            i + rest@.len() == n,
            rest@.len() == rest_keys@.len(),
            text_keyed(rest@, text_views(rest_keys@)) =~= all.skip(i as int),
            out@.len() == out_keys@.len(),
            text_keyed(out@, text_views(out_keys@)) =~= sort_text_keyed(all.take(i as int)),
        decreases rest@.len(),
    {
        let ghost cur = text_keyed(out@, text_views(out_keys@));
        let ghost r0 = rest@;
        let ghost s0 = rest_keys@;
        let x = rest.remove(0);
        let k = rest_keys.remove(0);
        assert(all[i as int] == (k@, x)) by {
            assert(all.skip(i as int)[0] == all[i as int]);
            assert(text_keyed(r0, text_views(s0))[0] == (s0[0]@, r0[0]));
        }
        let mut j: usize = 0;
        while j < out_keys.len() && !lex_less(&k, &out_keys[j])
            invariant
                j <= out_keys@.len(),
                out@.len() == out_keys@.len(),
                cur == text_keyed(out@, text_views(out_keys@)),
                text_upper_from(cur, k@, 0) == text_upper_from(cur, k@, j as int),
            decreases out_keys@.len() - j,
        {
            assert(cur[j as int].0 == out_keys@[j as int]@);
            j = j + 1;
        }
        assert(text_upper_from(cur, k@, j as int) == j as int) by {
            if j < out_keys.len() {
                assert(cur[j as int].0 == out_keys@[j as int]@);
            }
        }
        let ghost kk = k@;
        out.insert(j, x);
        out_keys.insert(j, k);
        assert(all.take(i + 1).drop_last() =~= all.take(i as int));
        assert(text_keyed(out@, text_views(out_keys@)) =~= cur.insert(j as int, (kk, x)));
        assert forall|m: int| 0 <= m < rest@.len() implies #[trigger] text_keyed(
            rest@,
            text_views(rest_keys@),
        )[m] == all.skip(i + 1)[m] by {
            assert(rest@[m] == r0[m + 1]);
            assert(rest_keys@[m] == s0[m + 1]);
            assert(text_keyed(r0, text_views(s0))[m + 1] == all.skip(i as int)[m + 1]);
        }
        i = i + 1;
        assert(text_keyed(rest@, text_views(rest_keys@)) =~= all.skip(i as int));
    }
    assert(all.take(n as int) =~= all);
    assert(text_keyed(out@, text_views(out_keys@)).map_values(|p: (Seq<char>, T)| p.1) =~= out@);
    out
}

proof fn lemma_text_upper_same<A, B>(s1: Seq<(Seq<char>, A)>, s2: Seq<(Seq<char>, B)>, k: Seq<char>, j: int)
    requires
        s1.len() == s2.len(),
        forall|i: int| 0 <= i < s1.len() ==> s1[i].0 == s2[i].0,
    ensures
        text_upper_from(s1, k, j) == text_upper_from(s2, k, j),
    decreases s1.len() - j,
{
    if 0 <= j < s1.len() && !lex_lt(k, s1[j].0) {
        lemma_text_upper_same(s1, s2, k, j + 1);
    }
}

proof fn lemma_text_upper_bounds<T>(s: Seq<(Seq<char>, T)>, k: Seq<char>, j: int)
    requires
        0 <= j <= s.len(),
    ensures
        j <= text_upper_from(s, k, j) <= s.len(),
    decreases s.len() - j,
{
    if j < s.len() && !lex_lt(k, s[j].0) {
        lemma_text_upper_bounds(s, k, j + 1);
    }
}

proof fn lemma_sort_text_keyed_map<A, B>(s1: Seq<(Seq<char>, A)>, s2: Seq<(Seq<char>, B)>, f: spec_fn(A) -> B)
    requires
        s1.len() == s2.len(),
        forall|i: int| 0 <= i < s1.len() ==> #[trigger] s2[i] == (s1[i].0, f(s1[i].1)),
    ensures
        sort_text_keyed(s1).len() == s1.len(),
        sort_text_keyed(s2).len() == s2.len(),
        forall|i: int| 0 <= i < sort_text_keyed(s1).len() ==> #[trigger] sort_text_keyed(s2)[i] == (
            sort_text_keyed(s1)[i].0,
            f(sort_text_keyed(s1)[i].1),
        ),
    decreases s1.len(),
{
    if s1.len() > 0 {
        let p1 = s1.drop_last();
        let p2 = s2.drop_last();
        assert forall|i: int| 0 <= i < p1.len() implies #[trigger] p2[i] == (p1[i].0, f(p1[i].1)) by {
            assert(p2[i] == s2[i]);
        }
        lemma_sort_text_keyed_map(p1, p2, f);
        let q1 = sort_text_keyed(p1);
        let q2 = sort_text_keyed(p2);
        assert(s2.last() == (s1.last().0, f(s1.last().1))) by {
            assert(s2.last() == s2[s2.len() - 1]);
        }
        lemma_text_upper_same(q1, q2, s1.last().0, 0);
        lemma_text_upper_bounds(q1, s1.last().0, 0);
        let pos = text_upper_from(q1, s1.last().0, 0);
        let r1 = q1.insert(pos, s1.last());
        let r2 = q2.insert(pos, s2.last());
        assert(sort_text_keyed(s1) == r1);
        assert(sort_text_keyed(s2) == r2);
        assert forall|i: int| 0 <= i < r1.len() implies #[trigger] r2[i] == (r1[i].0, f(r1[i].1)) by {
            if i < pos {
                assert(r1[i] == q1[i] && r2[i] == q2[i]);
            } else if i > pos {
                assert(r1[i] == q1[i - 1] && r2[i] == q2[i - 1]);
            }
        }
    }
}

/// Sorting by text keys commutes with mapping the items.
pub proof fn lemma_sorted_by_text_keys_map<A, B>(items: Seq<A>, keys: Seq<Seq<char>>, f: spec_fn(A) -> B)
    requires
        items.len() == keys.len(),
    ensures
        sorted_by_text_keys(items, keys).map_values(f) == sorted_by_text_keys(items.map_values(f), keys),
        sorted_by_text_keys(items, keys).len() == items.len(),
{
    let s1 = text_keyed(items, keys);
    let s2 = text_keyed(items.map_values(f), keys);
    assert forall|i: int| 0 <= i < s1.len() implies #[trigger] s2[i] == (s1[i].0, f(s1[i].1)) by {}
    lemma_sort_text_keyed_map(s1, s2, f);
    assert(sorted_by_text_keys(items, keys).map_values(f) =~= sorted_by_text_keys(items.map_values(f), keys));
}

} // verus!
