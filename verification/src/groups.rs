//! Grouping by key: the distinct keys of a list in the order they first
//! appear.
use vstd::prelude::*;

use crate::text::chars_eq;

verus! {

/// The distinct elements of `s`, each where it first occurs.
pub open spec fn dedup_first<T>(s: Seq<T>) -> Seq<T>
    decreases s.len(),
{
    if s.len() == 0 {
        s
    } else {
        let d = dedup_first(s.drop_last());
        if d.contains(s.last()) {
            d
        } else {
            d.push(s.last())
        }
    }
}

pub open spec fn no_repeats<T>(s: Seq<T>) -> bool {
    forall|i: int, j: int| 0 <= i < s.len() && 0 <= j < s.len() && i != j ==> s[i] != s[j]
}

/// `dedup_first` keeps every element once and adds none.
pub proof fn lemma_dedup_first<T>(s: Seq<T>)
    ensures
        no_repeats(dedup_first(s)),
        forall|x: T| dedup_first(s).contains(x) <==> s.contains(x),
        dedup_first(s).len() <= s.len(),
    decreases s.len(),
{
    if s.len() > 0 {
        let p = s.drop_last();
        let d = dedup_first(p);
        lemma_dedup_first(p);
        assert forall|x: T| dedup_first(s).contains(x) implies s.contains(x) by {
            if d.contains(x) {
                assert(p.contains(x));
                let i = choose|i: int| 0 <= i < p.len() && p[i] == x;
                assert(s[i] == p[i]);
            } else {
                assert(x == s.last());
                assert(s[s.len() - 1] == x);
            }
        }
        assert forall|x: T| s.contains(x) implies dedup_first(s).contains(x) by {
            let i = choose|i: int| 0 <= i < s.len() && s[i] == x;
            if i < s.len() - 1 {
                assert(p[i] == s[i]);
                assert(p.contains(x));
                assert(d.contains(x));
                if !d.contains(s.last()) {
                    let k = choose|k: int| 0 <= k < d.len() && d[k] == x;
                    assert(d.push(s.last())[k] == x);
                }
            } else {
                if !d.contains(s.last()) {
                    assert(d.push(s.last())[d.len() as int] == x);
                }
            }
        }
    }
}

/// A list of distinct elements drawn from `u` is no longer than `u`.
pub proof fn lemma_distinct_within<T>(s: Seq<T>, u: Seq<T>)
    requires
        no_repeats(s),
        forall|k: int| 0 <= k < s.len() ==> u.contains(#[trigger] s[k]),
    ensures
        s.len() <= u.len(),
{
    assert(s.no_duplicates());
    s.unique_seq_to_set();
    u.lemma_cardinality_of_set();
    assert(s.to_set().subset_of(u.to_set())) by {
        assert forall|x: T| s.to_set().contains(x) implies u.to_set().contains(x) by {
            let k = choose|k: int| 0 <= k < s.len() && s[k] == x;
        }
    }
    vstd::set_lib::lemma_len_subset(s.to_set(), u.to_set());
}

/// The elements of `a` that occur in `b`, in order.
pub open spec fn shared_elements<T>(a: Seq<T>, b: Seq<T>) -> Seq<T>
    decreases a.len(),
{
    if a.len() == 0 {
        Seq::empty()
    } else {
        let rest = shared_elements(a.drop_last(), b);
        if b.contains(a.last()) {
            rest.push(a.last())
        } else {
            rest
        }
    }
}

/// The shared elements of a list without repeats have none either, all
/// occur in `b`, and all come from `a`.
pub proof fn lemma_shared_elements<T>(a: Seq<T>, b: Seq<T>)
    requires
        no_repeats(a),
    ensures
        no_repeats(shared_elements(a, b)),
        forall|k: int| 0 <= k < shared_elements(a, b).len() ==> b.contains(#[trigger] shared_elements(a, b)[k]),
        forall|k: int| 0 <= k < shared_elements(a, b).len() ==> a.contains(#[trigger] shared_elements(a, b)[k]),
        shared_elements(a, b).len() <= b.len(),
    decreases a.len(),
{
    if a.len() > 0 {
        let p = a.drop_last();
        assert(no_repeats(p)) by {
            assert forall|i: int, j: int| 0 <= i < p.len() && 0 <= j < p.len() && i != j implies p[i] != p[j] by {
                assert(p[i] == a[i] && p[j] == a[j]);
            }
        }
        lemma_shared_elements(p, b);
        let sp = shared_elements(p, b);
        let sa = shared_elements(a, b);
        assert forall|k: int| 0 <= k < sa.len() implies a.contains(#[trigger] sa[k]) by {
            if k < sp.len() {
                assert(sa[k] == sp[k]);
                assert(p.contains(sp[k]));
                let i = choose|i: int| 0 <= i < p.len() && p[i] == sp[k];
                assert(a[i] == sp[k]);
            } else {
                assert(a[a.len() - 1] == sa[k]);
            }
        }
        assert forall|k: int| 0 <= k < sa.len() implies b.contains(#[trigger] sa[k]) by {
            if k < sp.len() {
                assert(sa[k] == sp[k]);
            }
        }
        if b.contains(a.last()) {
            assert(!sp.contains(a.last())) by {
                if sp.contains(a.last()) {
                    let k = choose|k: int| 0 <= k < sp.len() && sp[k] == a.last();
                    assert(p.contains(sp[k]));
                    let i = choose|i: int| 0 <= i < p.len() && p[i] == sp[k];
                    assert(a[i] == a[a.len() - 1]);
                }
            }
            assert forall|i: int, j: int| 0 <= i < sa.len() && 0 <= j < sa.len() && i != j implies sa[i] != sa[j] by {
                if i < sp.len() && j < sp.len() {
                    assert(sa[i] == sp[i] && sa[j] == sp[j]);
                } else if i < sp.len() {
                    assert(sa[i] == sp[i]);
                    assert(sp.contains(sp[i]));
                } else if j < sp.len() {
                    assert(sa[j] == sp[j]);
                }
            }
        }
        lemma_distinct_within(sa, b);
    }
}

/// Rearranging a list (same elements, as often) keeps its mapped values free
/// of repeats.
pub proof fn lemma_permutation_no_repeats<A, B>(a: Seq<A>, b: Seq<A>, f: spec_fn(A) -> B)
    requires
        no_repeats(a.map_values(f)),
        a.to_multiset() == b.to_multiset(),
    ensures
        no_repeats(b.map_values(f)),
{
    broadcast use vstd::seq_lib::to_multiset_remove, vstd::seq_lib::to_multiset_contains;

    a.to_multiset_ensures();
    b.to_multiset_ensures();
    assert forall|i: int, j: int| 0 <= i < b.len() && 0 <= j < b.len() && i != j implies b.map_values(f)[i] != b.map_values(
        f,
    )[j] by {
        if f(b[i]) == f(b[j]) {
            assert(b.contains(b[i]));
            assert(b.to_multiset().count(b[i]) > 0);
            assert(a.to_multiset().count(b[i]) > 0);
            assert(a.contains(b[i]));
            assert(b.contains(b[j]));
            assert(b.to_multiset().count(b[j]) > 0);
            assert(a.to_multiset().count(b[j]) > 0);
            assert(a.contains(b[j]));
            let p = choose|p: int| 0 <= p < a.len() && a[p] == b[i];
            let q = choose|q: int| 0 <= q < a.len() && a[q] == b[j];
            assert(a.map_values(f)[p] == f(b[i]));
            assert(a.map_values(f)[q] == f(b[j]));
            assert(p == q);
            let x = b[i];
            let br = b.remove(i);
            let jj = if j < i { j } else { j - 1 };
            assert(br[jj] == x);
            assert(br.contains(x));
            assert(br.to_multiset() == b.to_multiset().remove(x));
            assert(br.to_multiset().count(x) > 0);
            let ar = a.remove(p);
            assert(!ar.contains(x)) by {
                if ar.contains(x) {
                    let m = choose|m: int| 0 <= m < ar.len() && ar[m] == x;
                    let mm = if m < p { m } else { m + 1 };
                    assert(a[mm] == x);
                    assert(a.map_values(f)[mm] == f(x));
                }
            }
            assert(ar.to_multiset() == a.to_multiset().remove(x));
            assert(ar.to_multiset().count(x) == 0);
        }
    }
}

/// The positions of `key` in `keys`, in increasing order.
pub open spec fn positions_of(keys: Seq<Seq<char>>, key: Seq<char>) -> Seq<usize>
    decreases keys.len(),
{
    if keys.len() == 0 {
        Seq::empty()
    } else {
        let r = positions_of(keys.drop_last(), key);
        if keys.last() == key {
            r.push((keys.len() - 1) as usize)
        } else {
            r
        }
    }
}

proof fn lemma_positions_bound(keys: Seq<Seq<char>>, key: Seq<char>)
    ensures
        forall|k: int| 0 <= k < positions_of(keys, key).len() ==> #[trigger] positions_of(keys, key)[k] < keys.len(),
    decreases keys.len(),
{
    if keys.len() > 0 {
        lemma_positions_bound(keys.drop_last(), key);
        let r = positions_of(keys.drop_last(), key);
        assert forall|k: int| 0 <= k < positions_of(keys, key).len() implies #[trigger] positions_of(keys, key)[k]
            < keys.len() by {
            if k < r.len() {
                assert(positions_of(keys, key)[k] == r[k]);
            }
        }
    }
}

/// The positions of `key` in `keys`.
pub fn positions_exec(keys: &Vec<Vec<char>>, key: &Vec<char>) -> (r: Vec<usize>)
    ensures
        r@ == positions_of(text_views(keys@), key@),
        forall|k: int| 0 <= k < r@.len() ==> #[trigger] r@[k] < keys@.len(),
{
    let mut out: Vec<usize> = Vec::new();
    let mut i: usize = 0;
    while i < keys.len()
        invariant
            i <= keys@.len(),
            out@ == positions_of(text_views(keys@).take(i as int), key@),
            forall|k: int| 0 <= k < out@.len() ==> #[trigger] out@[k] < i,
        decreases keys.len() - i,
    {
        assert(text_views(keys@).take(i + 1).drop_last() =~= text_views(keys@).take(i as int));
        assert(text_views(keys@).take(i + 1).last() == keys@[i as int]@);
        if chars_eq(&keys[i], key) {
            out.push(i);
        }
        i = i + 1;
    }
    assert(text_views(keys@).take(keys@.len() as int) =~= text_views(keys@));
    out
}

pub open spec fn text_views(v: Seq<Vec<char>>) -> Seq<Seq<char>> {
    v.map_values(|t: Vec<char>| t@)
}

pub fn contains_text(v: &Vec<Vec<char>>, x: &Vec<char>) -> (r: bool)
    ensures
        r == text_views(v@).contains(x@),
{
    let mut i: usize = 0;
    while i < v.len()
        invariant
            i <= v@.len(),
            forall|j: int| 0 <= j < i ==> v@[j]@ != x@,
        decreases v.len() - i,
    {
        if chars_eq(&v[i], x) {
            assert(text_views(v@)[i as int] == x@);
            return true;
        }
        i = i + 1;
    }
    proof {
        if text_views(v@).contains(x@) {
            let j = choose|j: int| 0 <= j < text_views(v@).len() && text_views(v@)[j] == x@;
            assert(v@[j]@ == x@);
        }
    }
    false
}

/// The distinct texts of `v`, each where it first occurs.
pub fn dedup_texts(v: &Vec<Vec<char>>) -> (r: Vec<Vec<char>>)
    ensures
        text_views(r@) == dedup_first(text_views(v@)),
{
    let mut out: Vec<Vec<char>> = Vec::new();
    let mut i: usize = 0;
    while i < v.len()
        invariant
            i <= v@.len(),
            text_views(out@) == dedup_first(text_views(v@).take(i as int)),
        decreases v.len() - i,
    {
        assert(text_views(v@).take(i + 1).drop_last() =~= text_views(v@).take(i as int));
        assert(text_views(v@).take(i + 1).last() == v@[i as int]@);
        if !contains_text(&out, &v[i]) {
            let ghost o0 = text_views(out@);
            out.push(crate::text::slice(&v[i], 0, v[i].len()));
            assert(v@[i as int]@.subrange(0, v@[i as int]@.len() as int) =~= v@[i as int]@);
            assert(text_views(out@) =~= o0.push(v@[i as int]@));
        }
        i = i + 1;
    }
    assert(text_views(v@).take(v@.len() as int) =~= text_views(v@));
    out
}

} // verus!
