//! A string-keyed map held as a list of entries with distinct keys, in
//! insertion order. Its view is a `Map` from key text to the value's view.
use vstd::prelude::*;

use crate::text::{chars_eq_str, chars_of};

verus! {

/// Text values keyed by text.
pub type TextMap = KeyedMap<String>;

/// Entries in insertion order; no key occurs twice.
#[derive(Debug)]
pub struct KeyedMap<V> {
    entries: Vec<(String, V)>,
}

/// The map that a list of entries with distinct keys stands for.
pub open spec fn entries_map<V: View>(s: Seq<(String, V)>) -> Map<Seq<char>, V::V>
    decreases s.len(),
{
    if s.len() == 0 {
        Map::empty()
    } else {
        entries_map(s.drop_last()).insert(s.last().0@, s.last().1@)
    }
}

pub open spec fn keys_distinct<V>(s: Seq<(String, V)>) -> bool {
    forall|i: int, j: int| 0 <= i < s.len() && 0 <= j < s.len() && i != j ==> s[i].0@ != s[j].0@
}

/// Every key of the map is the key of some entry, and each entry's value is
/// what the map holds for its key.
pub proof fn lemma_entries_map<V: View>(s: Seq<(String, V)>)
    requires
        keys_distinct(s),
    ensures
        forall|k: Seq<char>| #[trigger]
            entries_map(s).contains_key(k) <==> exists|i: int| 0 <= i < s.len() && s[i].0@ == k,
        forall|i: int| 0 <= i < s.len() ==> #[trigger] entries_map(s)[s[i].0@] == s[i].1@,
        entries_map(s).dom().finite(),
        entries_map(s).dom().len() == s.len(),
    decreases s.len(),
{
    if s.len() > 0 {
        let t = s.drop_last();
        assert(keys_distinct(t));
        lemma_entries_map(t);
        assert forall|k: Seq<char>| #[trigger]
            entries_map(s).contains_key(k) <==> exists|i: int| 0 <= i < s.len() && s[i].0@ == k by {
            if entries_map(s).contains_key(k) && k != s.last().0@ {
                let i = choose|i: int| 0 <= i < t.len() && t[i].0@ == k;
                assert(s[i].0@ == k);
            }
            if exists|i: int| 0 <= i < s.len() && s[i].0@ == k {
                let i = choose|i: int| 0 <= i < s.len() && s[i].0@ == k;
                if i < s.len() - 1 {
                    assert(t[i].0@ == k);
                }
            }
        }
        assert forall|i: int| 0 <= i < s.len() implies #[trigger] entries_map(s)[s[i].0@]
            == s[i].1@ by {
            if i < s.len() - 1 {
                assert(t[i] == s[i]);
                assert(s[i].0@ != s.last().0@);
            }
        }
        assert(!entries_map(t).contains_key(s.last().0@)) by {
            if entries_map(t).contains_key(s.last().0@) {
                let i = choose|i: int| 0 <= i < t.len() && t[i].0@ == s.last().0@;
                assert(s[i].0@ == s[s.len() - 1].0@);
            }
        }
    }
}

/// Replacing the value of entry `j` replaces the value the map holds for its key.
pub proof fn lemma_entries_map_update<V: View>(s: Seq<(String, V)>, j: int, e: (String, V))
    requires
        keys_distinct(s),
        0 <= j < s.len(),
        e.0@ == s[j].0@,
    ensures
        keys_distinct(s.update(j, e)),
        entries_map(s.update(j, e)) == entries_map(s).insert(e.0@, e.1@),
    decreases s.len(),
{
    let u = s.update(j, e);
    assert(keys_distinct(u)) by {
        assert forall|a: int, b: int| 0 <= a < u.len() && 0 <= b < u.len() && a != b implies u[a].0@
            != u[b].0@ by {
            assert(u[a].0@ == s[a].0@);
            assert(u[b].0@ == s[b].0@);
        }
    }
    if j == s.len() - 1 {
        assert(u.drop_last() =~= s.drop_last());
        assert(entries_map(u) =~= entries_map(s).insert(e.0@, e.1@));
    } else {
        let t = s.drop_last();
        assert(keys_distinct(t));
        lemma_entries_map_update(t, j, e);
        assert(u.drop_last() =~= t.update(j, e));
        assert(s.last().0@ != e.0@);
        assert(entries_map(u) =~= entries_map(s).insert(e.0@, e.1@));
    }
}

/// Dropping entry `j` drops its key from the map.
pub proof fn lemma_entries_map_remove<V: View>(s: Seq<(String, V)>, j: int)
    requires
        keys_distinct(s),
        0 <= j < s.len(),
    ensures
        keys_distinct(s.remove(j)),
        entries_map(s.remove(j)) == entries_map(s).remove(s[j].0@),
{
    let r = s.remove(j);
    assert forall|a: int| 0 <= a < r.len() implies #[trigger] r[a] == s[if a < j { a } else { a + 1 }] by {}
    assert(keys_distinct(r)) by {
        assert forall|a: int, b: int| 0 <= a < r.len() && 0 <= b < r.len() && a != b implies r[a].0@ != r[b].0@ by {
            let aa = if a < j { a } else { a + 1 };
            let bb = if b < j { b } else { b + 1 };
            assert(r[a] == s[aa] && r[b] == s[bb]);
        }
    }
    lemma_entries_map(s);
    lemma_entries_map(r);
    let k0 = s[j].0@;
    assert forall|k: Seq<char>| #[trigger] entries_map(r).contains_key(k) <==> entries_map(s).remove(k0).contains_key(k) by {
        if entries_map(r).contains_key(k) {
            let a = choose|a: int| 0 <= a < r.len() && r[a].0@ == k;
            let aa = if a < j { a } else { a + 1 };
            assert(r[a] == s[aa]);
            assert(s[aa].0@ != k0);
        }
        if entries_map(s).remove(k0).contains_key(k) {
            let b = choose|b: int| 0 <= b < s.len() && s[b].0@ == k;
            assert(b != j);
            let a = if b < j { b } else { b - 1 };
            assert(r[a] == s[b]);
        }
    }
    assert forall|k: Seq<char>| entries_map(r).contains_key(k) implies #[trigger] entries_map(r)[k] == entries_map(s)[k] by {
        let a = choose|a: int| 0 <= a < r.len() && r[a].0@ == k;
        let aa = if a < j { a } else { a + 1 };
        assert(r[a] == s[aa]);
        assert(entries_map(r)[r[a].0@] == r[a].1@);
        assert(entries_map(s)[s[aa].0@] == s[aa].1@);
    }
    assert(entries_map(r) =~= entries_map(s).remove(k0));
}

impl<V: View> View for KeyedMap<V> {
    type V = Map<Seq<char>, V::V>;

    closed spec fn view(&self) -> Map<Seq<char>, V::V> {
        entries_map(self.entries@)
    }
}

impl<V> KeyedMap<V> {
    #[verifier::type_invariant]
    pub closed spec fn distinct(self) -> bool {
        keys_distinct(self.entries@)
    }
}

impl<V: View> KeyedMap<V> {
    /// The entries in the order they were first inserted.
    pub closed spec fn entry_seq(self) -> Seq<(String, V)> {
        self.entries@
    }

    pub proof fn lemma_view(self)
        requires
            self.distinct(),
        ensures
            keys_distinct(self.entry_seq()),
            self@ == entries_map(self.entry_seq()),
            forall|k: Seq<char>| #[trigger]
                self@.contains_key(k) <==> exists|i: int|
                    0 <= i < self.entry_seq().len() && self.entry_seq()[i].0@ == k,
            forall|i: int|
                0 <= i < self.entry_seq().len() ==> #[trigger] self@[self.entry_seq()[i].0@]
                    == self.entry_seq()[i].1@,
            self@.dom().finite(),
            self@.dom().len() == self.entry_seq().len(),
    {
        lemma_entries_map(self.entries@);
        assert(self@ == entries_map(self.entries@));
        assert forall|k: Seq<char>| #[trigger]
            self@.contains_key(k) <==> exists|i: int|
                0 <= i < self.entry_seq().len() && self.entry_seq()[i].0@ == k by {
            assert(self.entry_seq() == self.entries@);
            assert(self@.contains_key(k) == entries_map(self.entries@).contains_key(k));
            if self@.contains_key(k) {
                assert(entries_map(self.entries@).contains_key(k));
                let i = choose|i: int| 0 <= i < self.entries@.len() && self.entries@[i].0@ == k;
                assert(0 <= i < self.entry_seq().len() && self.entry_seq()[i].0@ == k);
            }
        }
    }

    pub fn new() -> (r: Self)
        ensures
            r@ == Map::<Seq<char>, V::V>::empty(),
            r.entry_seq().len() == 0,
    {
        let r = KeyedMap { entries: Vec::new() };
        assert(r@ =~= Map::<Seq<char>, V::V>::empty());
        r
    }

    pub fn len(&self) -> (r: usize)
        ensures
            r == self.entry_seq().len(),
            r == self@.dom().len(),
    {
        proof {
            use_type_invariant(self);
            self.lemma_view();
        }
        self.entries.len()
    }

    pub fn key_at(&self, i: usize) -> (r: &String)
        requires
            i < self.entry_seq().len(),
        ensures
            *r == self.entry_seq()[i as int].0,
    {
        &self.entries[i].0
    }

    pub fn value_at(&self, i: usize) -> (r: &V)
        requires
            i < self.entry_seq().len(),
        ensures
            *r == self.entry_seq()[i as int].1,
    {
        &self.entries[i].1
    }

    /// Position of the entry whose key is `key`.
    fn position(&self, key: &Vec<char>) -> (r: Option<usize>)
        ensures
            r matches Some(i) ==> i < self.entry_seq().len() && self.entry_seq()[i as int].0@
                == key@,
            r is None ==> !self@.contains_key(key@),
    {
        proof {
            use_type_invariant(self);
            self.lemma_view();
        }
        let mut i: usize = 0;
        while i < self.entries.len()
            invariant
                i <= self.entries@.len(),
                forall|j: int| 0 <= j < i ==> self.entries@[j].0@ != key@,
            decreases self.entries.len() - i,
        {
            let k = chars_of(self.entries[i].0.as_str());
            if crate::text::chars_eq(&k, key) {
                return Some(i);
            }
            i = i + 1;
        }
        None
    }

    /// The value held for `key`, as `BTreeMap::get`.
    pub fn get(&self, key: &str) -> (r: Option<&V>)
        ensures
            r matches Some(v) ==> self@.contains_key(key@) && v@ == self@[key@],
            r is None ==> !self@.contains_key(key@),
    {
        let kv = chars_of(key);
        match self.position(&kv) {
            Some(i) => {
                proof {
                    use_type_invariant(self);
                    self.lemma_view();
                }
                Some(&self.entries[i].1)
            },
            None => None,
        }
    }

    /// Whether the map holds `key`.
    pub fn contains_key(&self, key: &str) -> (r: bool)
        ensures
            r == self@.contains_key(key@),
    {
        self.get(key).is_some()
    }

    /// Sets the value for `key`, as `BTreeMap::insert`.
    pub fn insert(&mut self, key: String, value: V)
        ensures
            final(self)@ == old(self)@.insert(key@, value@),
    {
        proof {
            use_type_invariant(&*self);
            lemma_entries_map(self.entries@);
        }
        let kv = chars_of(key.as_str());
        match self.position(&kv) {
            Some(i) => {
                let ghost s = self.entries@;
                proof {
                    lemma_entries_map_update(s, i as int, (key, value));
                }
                let mut entries: Vec<(String, V)> = Vec::new();
                std::mem::swap(&mut entries, &mut self.entries);
                entries.set(i, (key, value));
                self.entries = entries;
            },
            None => {
                let ghost s = self.entries@;
                proof {
                    assert forall|j: int| 0 <= j < s.len() implies s[j].0@ != key@ by {
                        if s[j].0@ == key@ {
                            assert(entries_map(s).contains_key(key@));
                        }
                    }
                }
                let mut entries: Vec<(String, V)> = Vec::new();
                std::mem::swap(&mut entries, &mut self.entries);
                entries.push((key, value));
                assert(entries@.drop_last() =~= s);
                assert(keys_distinct(entries@));
                self.entries = entries;
            },
        }
    }

    /// Drops the entry for `key` and returns its value, as `BTreeMap::remove`.
    pub fn remove(&mut self, key: &str) -> (r: Option<V>)
        ensures
            final(self)@ == old(self)@.remove(key@),
            r matches Some(v) ==> old(self)@.contains_key(key@) && v@ == old(self)@[key@],
            r is None ==> !old(self)@.contains_key(key@),
    {
        proof {
            use_type_invariant(&*self);
            lemma_entries_map(self.entries@);
        }
        let kv = chars_of(key);
        match self.position(&kv) {
            Some(i) => {
                let ghost s = self.entries@;
                proof {
                    lemma_entries_map_remove(s, i as int);
                }
                let mut entries: Vec<(String, V)> = Vec::new();
                std::mem::swap(&mut entries, &mut self.entries);
                let (_, v) = entries.remove(i);
                self.entries = entries;
                Some(v)
            },
            None => {
                assert(self@.remove(key@) =~= self@);
                None
            },
        }
    }

    /// Sets the value for `key` only where the map holds none, as
    /// `entry(key).or_insert(value)`.
    pub fn insert_if_absent(&mut self, key: String, value: V)
        ensures
            final(self)@ == if old(self)@.contains_key(key@) {
                old(self)@
            } else {
                old(self)@.insert(key@, value@)
            },
    {
        if !self.contains_key(key.as_str()) {
            self.insert(key, value);
        }
    }
}

impl KeyedMap<String> {
    /// An entry-for-entry copy.
    pub fn duplicate(&self) -> (r: Self)
        ensures
            r@ == self@,
            r.entry_seq().len() == self.entry_seq().len(),
    {
        proof {
            use_type_invariant(self);
        }
        let mut entries: Vec<(String, String)> = Vec::new();
        let mut i: usize = 0;
        while i < self.entries.len()
            invariant
                i <= self.entries@.len(),
                keys_distinct(self.entries@),
                entries@.len() == i,
                forall|j: int| 0 <= j < i ==> (#[trigger] entries@[j]).0@ == self.entries@[j].0@
                    && entries@[j].1@ == self.entries@[j].1@,
            decreases self.entries.len() - i,
        {
            let k = self.entries[i].0.clone();
            let v = self.entries[i].1.clone();
            entries.push((k, v));
            i = i + 1;
        }
        proof {
            lemma_same_views(entries@, self.entries@);
        }
        KeyedMap { entries }
    }
}

/// How often each key occurs in `keys`.
pub open spec fn tally(keys: Seq<Seq<char>>) -> Map<Seq<char>, usize>
    decreases keys.len(),
{
    if keys.len() == 0 {
        Map::empty()
    } else {
        let m = tally(keys.drop_last());
        let k = keys.last();
        m.insert(
            k,
            if m.contains_key(k) {
                (m[k] + 1) as usize
            } else {
                1usize
            },
        )
    }
}

/// A key's count is at least one and at most the number of keys.
pub proof fn lemma_tally_bound(keys: Seq<Seq<char>>)
    requires
        keys.len() <= usize::MAX,
    ensures
        forall|k: Seq<char>| #[trigger] tally(keys).contains_key(k) ==> 1 <= tally(keys)[k] <= keys.len(),
    decreases keys.len(),
{
    if keys.len() > 0 {
        let m = tally(keys.drop_last());
        lemma_tally_bound(keys.drop_last());
        assert forall|k: Seq<char>| #[trigger] tally(keys).contains_key(k) implies 1 <= tally(keys)[k]
            <= keys.len() by {
            if k != keys.last() {
                assert(m.contains_key(k));
            } else if m.contains_key(k) {
                assert(m[k] <= keys.len() - 1);
            }
        }
    }
}

impl KeyedMap<usize> {
    /// Adds one to the count of `key`, as `*entry(key).or_insert(0) += 1`.
    pub fn increment(&mut self, key: String)
        requires
            old(self)@.contains_key(key@) ==> old(self)@[key@] < usize::MAX,
        ensures
            final(self)@ == old(self)@.insert(
                key@,
                if old(self)@.contains_key(key@) {
                    (old(self)@[key@] + 1) as usize
                } else {
                    1usize
                },
            ),
    {
        let next: usize = match self.get(key.as_str()) {
            Some(c) => *c + 1,
            None => 1,
        };
        self.insert(key, next);
    }
}

/// Entry lists with the same key and value views stand for the same map.
proof fn lemma_same_views(a: Seq<(String, String)>, b: Seq<(String, String)>)
    requires
        a.len() == b.len(),
        forall|j: int| 0 <= j < a.len() ==> (#[trigger] a[j]).0@ == b[j].0@ && a[j].1@ == b[j].1@,
        keys_distinct(b),
    ensures
        keys_distinct(a),
        entries_map(a) == entries_map(b),
    decreases a.len(),
{
    assert(keys_distinct(a)) by {
        assert forall|i: int, j: int| 0 <= i < a.len() && 0 <= j < a.len() && i != j implies a[i].0@
            != a[j].0@ by {
            assert(a[i].0@ == b[i].0@);
            assert(a[j].0@ == b[j].0@);
        }
    }
    if a.len() > 0 {
        assert forall|j: int| 0 <= j < a.drop_last().len() implies (#[trigger] a.drop_last()[j]).0@
            == b.drop_last()[j].0@ && a.drop_last()[j].1@ == b.drop_last()[j].1@ by {
            assert(a.drop_last()[j] == a[j]);
            assert(b.drop_last()[j] == b[j]);
        }
        assert(keys_distinct(b.drop_last()));
        lemma_same_views(a.drop_last(), b.drop_last());
        assert(a.last().0@ == b.last().0@);
    }
}

} // verus!
