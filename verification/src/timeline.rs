//! Stable ordering of records by a timestamp: records with equal stamps keep
//! the order they came in, as `sort_by_key` keeps them.
use vstd::prelude::*;

verus! {

/// The first position from `j` on whose stamp is later than `k`, or the
/// length when there is none.
pub open spec fn upper_from<T>(s: Seq<(u64, T)>, k: u64, j: int) -> int
    decreases s.len() - j,
{
    if j < 0 || j >= s.len() {
        s.len() as int
    } else if s[j].0 > k {
        j
    } else {
        upper_from(s, k, j + 1)
    }
}

/// `x` inserted after every entry whose stamp is not later than its own.
pub open spec fn insert_stamped<T>(s: Seq<(u64, T)>, x: (u64, T)) -> Seq<(u64, T)> {
    s.insert(upper_from(s, x.0, 0), x)
}

/// The entries ordered by stamp, equal stamps in their original order.
pub open spec fn sort_stamped<T>(s: Seq<(u64, T)>) -> Seq<(u64, T)>
    decreases s.len(),
{
    if s.len() == 0 {
        s
    } else {
        insert_stamped(sort_stamped(s.drop_last()), s.last())
    }
}

pub open spec fn stamped<T>(items: Seq<T>, stamps: Seq<u64>) -> Seq<(u64, T)> {
    Seq::new(items.len(), |i: int| (stamps[i], items[i]))
}

pub open spec fn unstamped<T>(s: Seq<(u64, T)>) -> Seq<T> {
    s.map_values(|p: (u64, T)| p.1)
}

pub open spec fn stamps_of<T>(s: Seq<(u64, T)>) -> Seq<u64> {
    s.map_values(|p: (u64, T)| p.0)
}

/// `items` ordered by `stamps` (one stamp per item), stably.
pub open spec fn sorted_by_stamps<T>(items: Seq<T>, stamps: Seq<u64>) -> Seq<T> {
    unstamped(sort_stamped(stamped(items, stamps)))
}

pub open spec fn is_sorted_stamps<T>(s: Seq<(u64, T)>) -> bool {
    forall|i: int, j: int| 0 <= i <= j < s.len() ==> s[i].0 <= s[j].0
}

proof fn lemma_upper_from_props<T>(s: Seq<(u64, T)>, k: u64, j: int)
    requires
        0 <= j <= s.len(),
    ensures
        j <= upper_from(s, k, j) <= s.len(),
        forall|m: int| j <= m < upper_from(s, k, j) ==> s[m].0 <= k,
        upper_from(s, k, j) < s.len() ==> s[upper_from(s, k, j)].0 > k,
    decreases s.len() - j,
{
    if j < s.len() && s[j].0 <= k {
        lemma_upper_from_props(s, k, j + 1);
    }
}

proof fn lemma_insert_sorted<T>(s: Seq<(u64, T)>, x: (u64, T))
    requires
        is_sorted_stamps(s),
    ensures
        is_sorted_stamps(insert_stamped(s, x)),
        insert_stamped(s, x).len() == s.len() + 1,
        insert_stamped(s, x).to_multiset() == s.to_multiset().insert(x),
{
    let p = upper_from(s, x.0, 0);
    lemma_upper_from_props(s, x.0, 0);
    let r = s.insert(p, x);
    assert forall|i: int, j: int| 0 <= i <= j < r.len() implies r[i].0 <= r[j].0 by {
        if i < p && j < p {
        } else if i < p && j == p {
        } else if i < p {
            assert(r[j] == s[j - 1]);
        } else if i == p && j == p {
        } else if i == p {
            assert(r[j] == s[j - 1]);
        } else {
            assert(r[i] == s[i - 1]);
            assert(r[j] == s[j - 1]);
        }
    }
    s.to_multiset_ensures();
    vstd::seq_lib::lemma_seq_union_to_multiset_commutative(s.take(p), s.skip(p));
    assert(s =~= s.take(p) + s.skip(p));
    assert(r =~= s.take(p).push(x) + s.skip(p));
    vstd::seq_lib::lemma_multiset_commutative(s.take(p).push(x), s.skip(p));
    vstd::seq_lib::lemma_multiset_commutative(s.take(p), s.skip(p));
    s.take(p).to_multiset_ensures();
}

/// The stable sort orders by stamp and keeps every entry, each as often as
/// it came.
pub proof fn lemma_sort_stamped<T>(s: Seq<(u64, T)>)
    ensures
        is_sorted_stamps(sort_stamped(s)),
        sort_stamped(s).len() == s.len(),
        sort_stamped(s).to_multiset() == s.to_multiset(),
    decreases s.len(),
{
    if s.len() == 0 {
    } else {
        lemma_sort_stamped(s.drop_last());
        lemma_insert_sorted(sort_stamped(s.drop_last()), s.last());
        s.drop_last().to_multiset_ensures();
        assert(s =~= s.drop_last().push(s.last()));
    }
}

proof fn lemma_upper_same_stamps<A, B>(s1: Seq<(u64, A)>, s2: Seq<(u64, B)>, k: u64, j: int)
    requires
        s1.len() == s2.len(),
        forall|i: int| 0 <= i < s1.len() ==> s1[i].0 == s2[i].0,
    ensures
        upper_from(s1, k, j) == upper_from(s2, k, j),
    decreases s1.len() - j,
{
    if 0 <= j < s1.len() && s1[j].0 <= k {
        lemma_upper_same_stamps(s1, s2, k, j + 1);
    }
}

/// Sorting looks at the stamps alone: mapping the payloads before or after
/// sorting gives the same entries.
pub proof fn lemma_sort_stamped_map<A, B>(s1: Seq<(u64, A)>, s2: Seq<(u64, B)>, f: spec_fn(A) -> B)
    requires
        s1.len() == s2.len(),
        forall|i: int| 0 <= i < s1.len() ==> #[trigger] s2[i] == (s1[i].0, f(s1[i].1)),
    ensures
        sort_stamped(s1).len() == sort_stamped(s2).len(),
        forall|i: int| 0 <= i < sort_stamped(s1).len() ==> #[trigger] sort_stamped(s2)[i] == (
            sort_stamped(s1)[i].0,
            f(sort_stamped(s1)[i].1),
        ),
    decreases s1.len(),
{
    if s1.len() > 0 {
        let p1 = s1.drop_last();
        let p2 = s2.drop_last();
        assert forall|i: int| 0 <= i < p1.len() implies #[trigger] p2[i] == (p1[i].0, f(p1[i].1)) by {
            assert(p2[i] == s2[i]);
        }
        lemma_sort_stamped_map(p1, p2, f);
        lemma_sort_stamped(p1);
        lemma_sort_stamped(p2);
        let q1 = sort_stamped(p1);
        let q2 = sort_stamped(p2);
        assert(s2.last() == (s1.last().0, f(s1.last().1))) by {
            assert(s2.last() == s2[s2.len() - 1]);
        }
        lemma_upper_same_stamps(q1, q2, s1.last().0, 0);
        let pos = upper_from(q1, s1.last().0, 0);
        lemma_upper_from_props(q1, s1.last().0, 0);
        let r1 = q1.insert(pos, s1.last());
        let r2 = q2.insert(pos, s2.last());
        assert(sort_stamped(s1) == r1);
        assert(sort_stamped(s2) == r2);
        assert forall|i: int| 0 <= i < r1.len() implies #[trigger] r2[i] == (r1[i].0, f(r1[i].1)) by {
            if i < pos {
                assert(r1[i] == q1[i] && r2[i] == q2[i]);
            } else if i > pos {
                assert(r1[i] == q1[i - 1] && r2[i] == q2[i - 1]);
            }
        }
    }
}

/// Sorting by stamps commutes with mapping the items.
pub proof fn lemma_sorted_by_stamps_map<A, B>(items: Seq<A>, stamps: Seq<u64>, f: spec_fn(A) -> B)
    requires
        items.len() == stamps.len(),
    ensures
        sorted_by_stamps(items, stamps).map_values(f) == sorted_by_stamps(items.map_values(f), stamps),
{
    let s1 = stamped(items, stamps);
    let s2 = stamped(items.map_values(f), stamps);
    assert forall|i: int| 0 <= i < s1.len() implies #[trigger] s2[i] == (s1[i].0, f(s1[i].1)) by {}
    lemma_sort_stamped_map(s1, s2, f);
    assert(sorted_by_stamps(items, stamps).map_values(f) =~= sorted_by_stamps(items.map_values(f), stamps));
}

/// Every item of the sorted list is one of the items sorted.
pub proof fn lemma_sorted_by_stamps_elements<T>(items: Seq<T>, stamps: Seq<u64>)
    requires
        items.len() == stamps.len(),
    ensures
        sorted_by_stamps(items, stamps).len() == items.len(),
        forall|k: int| 0 <= k < items.len() ==> items.contains(#[trigger] sorted_by_stamps(items, stamps)[k]),
{
    let st = stamped(items, stamps);
    lemma_sort_stamped(st);
    let ss = sort_stamped(st);
    assert forall|k: int| 0 <= k < items.len() implies items.contains(#[trigger] sorted_by_stamps(items, stamps)[k]) by {
        let p = ss[k];
        ss.to_multiset_ensures();
        st.to_multiset_ensures();
        assert(ss.contains(p));
        assert(ss.to_multiset().count(p) > 0);
        assert(st.to_multiset().count(p) > 0);
        assert(st.contains(p));
        let i = choose|i: int| 0 <= i < st.len() && st[i] == p;
        assert(items[i] == p.1);
        assert(sorted_by_stamps(items, stamps)[k] == p.1);
    }
}

/// Sorting keeps every item, each as often as it came.
pub proof fn lemma_sort_stamped_items<T>(s: Seq<(u64, T)>)
    ensures
        unstamped(sort_stamped(s)).to_multiset() == unstamped(s).to_multiset(),
    decreases s.len(),
{
    broadcast use vstd::seq_lib::to_multiset_build, vstd::seq_lib::to_multiset_insert;

    if s.len() > 0 {
        let p = s.drop_last();
        lemma_sort_stamped_items(p);
        let q = sort_stamped(p);
        lemma_sort_stamped(p);
        let pos = upper_from(q, s.last().0, 0);
        lemma_upper_from_props(q, s.last().0, 0);
        assert(unstamped(q.insert(pos, s.last())) =~= unstamped(q).insert(pos, s.last().1));
        assert(unstamped(s) =~= unstamped(p).push(s.last().1));
    }
}

/// Items sorted by stamps computed from them come out in stamp order.
pub proof fn lemma_sorted_by_own_stamps<T>(items: Seq<T>, f: spec_fn(T) -> u64)
    ensures
        sorted_by_stamps(items, items.map_values(f)).len() == items.len(),
        forall|i: int, j: int|
            0 <= i <= j < items.len() ==> f(#[trigger] sorted_by_stamps(items, items.map_values(f))[i]) <= f(
                #[trigger] sorted_by_stamps(items, items.map_values(f))[j],
            ),
        sorted_by_stamps(items, items.map_values(f)).to_multiset() == items.to_multiset(),
{
    let st = stamped(items, items.map_values(f));
    lemma_sort_stamped(st);
    lemma_sort_stamped_items(st);
    let ss = sort_stamped(st);
    assert(unstamped(st) =~= items);
    assert forall|k: int| 0 <= k < ss.len() implies (#[trigger] ss[k]).0 == f(ss[k].1) by {
        let p = ss[k];
        ss.to_multiset_ensures();
        st.to_multiset_ensures();
        assert(ss.contains(p));
        assert(ss.to_multiset().count(p) > 0);
        assert(st.to_multiset().count(p) > 0);
        assert(st.contains(p));
        let i = choose|i: int| 0 <= i < st.len() && st[i] == p;
    }
    let s = sorted_by_stamps(items, items.map_values(f));
    assert forall|i: int, j: int| 0 <= i <= j < items.len() implies f(#[trigger] s[i]) <= f(#[trigger] s[j]) by {
        assert(s[i] == ss[i].1);
        assert(s[j] == ss[j].1);
        assert(ss[i].0 <= ss[j].0);
    }
}

/// Orders `items` by `stamps`, equal stamps keeping their order.
pub fn sort_by_stamps<T>(items: Vec<T>, stamps: Vec<u64>) -> (r: Vec<T>)
    requires
        items@.len() == stamps@.len(),
    ensures
        r@ == sorted_by_stamps(items@, stamps@),
{
    let ghost all = stamped(items@, stamps@);
    let mut rest = items;
    let mut rest_stamps = stamps;
    let mut out: Vec<T> = Vec::new();
    let mut out_stamps: Vec<u64> = Vec::new();
    let mut i: usize = 0;
    let n = rest.len();
    while rest.len() > 0
        invariant
            n == all.len(),
            i + rest@.len() == n,
            rest@.len() == rest_stamps@.len(),
            stamped(rest@, rest_stamps@) =~= all.skip(i as int),
            out@.len() == out_stamps@.len(),
            stamped(out@, out_stamps@) =~= sort_stamped(all.take(i as int)),
        decreases rest@.len(),
    {
        let ghost cur = stamped(out@, out_stamps@);
        let ghost r0 = rest@;
        let ghost s0 = rest_stamps@;
        let x = rest.remove(0);
        let k = rest_stamps.remove(0);
        assert(all[i as int] == (k, x)) by {
            assert(all.skip(i as int)[0] == all[i as int]);
        }
        let mut j: usize = 0;
        while j < out_stamps.len() && out_stamps[j] <= k
            invariant
                j <= out_stamps@.len(),
                out@.len() == out_stamps@.len(),
                cur == stamped(out@, out_stamps@),
                upper_from(cur, k, 0) == upper_from(cur, k, j as int),
            decreases out_stamps@.len() - j,
        {
            assert(cur[j as int].0 == out_stamps@[j as int]);
            j = j + 1;
        }
        assert(upper_from(cur, k, j as int) == j as int) by {
            if j < out_stamps.len() {
                assert(cur[j as int].0 == out_stamps@[j as int]);
            }
        }
        out.insert(j, x);
        out_stamps.insert(j, k);
        assert(all.take(i + 1).drop_last() =~= all.take(i as int));
        assert(stamped(out@, out_stamps@) =~= insert_stamped(cur, (k, x)));
        assert forall|m: int| 0 <= m < rest@.len() implies #[trigger] stamped(rest@, rest_stamps@)[m]
            == all.skip(i + 1)[m] by {
            assert(rest@[m] == r0[m + 1]);
            assert(rest_stamps@[m] == s0[m + 1]);
            assert(stamped(r0, s0)[m + 1] == all.skip(i as int)[m + 1]);
        }
        i = i + 1;
        assert(stamped(rest@, rest_stamps@) =~= all.skip(i as int));
    }
    assert(all.take(n as int) =~= all);
    assert(unstamped(stamped(out@, out_stamps@)) =~= out@);
    out
}

} // verus!
