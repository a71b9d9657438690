//! Learning assets: the kinds of learning events and assets, the filter a
//! retrieval applies to them, and the hashed bag of words that the hash
//! embedding provider counts before it normalises the vector.
use vstd::prelude::*;

use crate::digest::{stable_hash, str_default_hash};
use crate::keyed::KeyedMap;
use crate::text::{
    chars_eq_str, chars_of, lower, nonempty, nonempty_pieces, sep_pred, split_chars, split_chars_exec,
    string_of, to_lower, views, Separator,
};

verus! {

/// What a learning event records.
#[derive(Debug, Clone, Copy, PartialEq, Eq, Structural, Hash)]
pub enum LearningEventKind {
    Failure,
    Success,
    ToolCall,
    RouteDecision,
    Audit,
}

/// The kind of a learning asset.
#[derive(Debug, Clone, Copy, PartialEq, Eq, Structural, Hash)]
pub enum LearningAssetKind {
    ReflexionEpisode,
    Skill,
    CausalEdge,
    LearningSession,
    WitnessLog,
    ForgedToolManifest,
}

/// Which learning documents a retrieval may return: those of a session (or
/// global ones), of some kinds, with some metadata values.
#[derive(Debug)]
pub struct LearningFilter {
    pub session_id: Option<String>,
    pub asset_kinds: Vec<LearningAssetKind>,
    pub metadata: KeyedMap<String>,
}

impl LearningFilter {
    /// The filter that admits every document.
    pub fn any() -> (r: Self)
        ensures
            r.session_id is None,
            r.asset_kinds@.len() == 0,
            r.metadata@ == Map::<Seq<char>, Seq<char>>::empty(),
    {
        LearningFilter { session_id: None, asset_kinds: Vec::new(), metadata: KeyedMap::new() }
    }
}

/// A retrieval query of the sidecar index: the text, the filter and how
/// many documents to return.
#[derive(Debug)]
pub struct SidecarQuery {
    pub query: String,
    pub filter: LearningFilter,
    pub top_k: usize,
}

/// The filter admits a document of `session`, of kind `kind`, with metadata
/// `meta`: the session matches (or the document is global), the kind is one
/// of the filter's kinds (when it names any), and each metadata value the
/// filter names is the document's.
pub open spec fn filter_admits(
    filter: LearningFilter,
    session: Seq<char>,
    kind: LearningAssetKind,
    meta: Map<Seq<char>, Seq<char>>,
) -> bool {
    &&& (filter.session_id matches Some(s) ==> session == s@ || session == "global"@)
    &&& (filter.asset_kinds@.len() == 0 || filter.asset_kinds@.contains(kind))
    &&& forall|k: Seq<char>|
        #[trigger] filter.metadata@.contains_key(k) ==> meta.contains_key(k) && meta[k] == filter.metadata@[k]
}

/// Whether `filter` admits a document (see `filter_admits`).
pub fn matches_filter(
    filter: &LearningFilter,
    session: &str,
    kind: LearningAssetKind,
    meta: &KeyedMap<String>,
) -> (r: bool)
    ensures
        r == filter_admits(*filter, session@, kind, meta@),
{
    match &filter.session_id {
        Some(s) => {
            let sc = chars_of(session);
            if !chars_eq_str(&sc, s.as_str()) && !chars_eq_str(&sc, "global") {
                return false;
            }
        },
        None => {},
    }
    if filter.asset_kinds.len() > 0 {
        let mut found = false;
        let mut i: usize = 0;
        while i < filter.asset_kinds.len()
            invariant
                i <= filter.asset_kinds@.len(),
                found <==> exists|j: int| 0 <= j < i && filter.asset_kinds@[j] == kind,
            decreases filter.asset_kinds.len() - i,
        {
            if filter.asset_kinds[i] == kind {
                found = true;
            }
            i = i + 1;
        }
        if !found {
            return false;
        }
    }
    proof {
        use_type_invariant(&filter.metadata);
        filter.metadata.lemma_view();
    }
    let n = filter.metadata.len();
    let mut k: usize = 0;
    while k < n
        invariant
            n == filter.metadata.entry_seq().len(),
            k <= n,
            filter.metadata.distinct(),
            keys_view_ok(filter.metadata),
            forall|j: int|
                0 <= j < k ==> meta@.contains_key(#[trigger] filter.metadata.entry_seq()[j].0@)
                    && meta@[filter.metadata.entry_seq()[j].0@] == filter.metadata.entry_seq()[j].1@,
        decreases n - k,
    {
        let key = filter.metadata.key_at(k);
        let want = filter.metadata.value_at(k);
        match meta.get(key.as_str()) {
            Some(v) => {
                if !chars_eq_str(&chars_of(v.as_str()), want.as_str()) {
                    proof {
                        assert(filter.metadata@.contains_key(filter.metadata.entry_seq()[k as int].0@));
                    }
                    return false;
                }
            },
            None => {
                proof {
                    assert(filter.metadata@.contains_key(filter.metadata.entry_seq()[k as int].0@));
                }
                return false;
            },
        }
        k = k + 1;
    }
    proof {
        assert forall|key: Seq<char>| #[trigger] filter.metadata@.contains_key(key) implies meta@.contains_key(key)
            && meta@[key] == filter.metadata@[key] by {
            let j = choose|j: int| 0 <= j < filter.metadata.entry_seq().len() && filter.metadata.entry_seq()[j].0@ == key;
            assert(meta@.contains_key(filter.metadata.entry_seq()[j].0@));
        }
    }
    true
}

/// What `KeyedMap::lemma_view` says of a map's entries and view.
pub open spec fn keys_view_ok(m: KeyedMap<String>) -> bool {
    &&& forall|k: Seq<char>| #[trigger]
        m@.contains_key(k) <==> exists|i: int| 0 <= i < m.entry_seq().len() && m.entry_seq()[i].0@ == k
    &&& forall|i: int| 0 <= i < m.entry_seq().len() ==> #[trigger] m@[m.entry_seq()[i].0@] == m.entry_seq()[i].1@
}

/// Embeds texts as hashed bags of words of a fixed dimension.
#[derive(Debug, Clone, Copy)]
pub struct HashEmbeddingProvider {
    dimensions: usize,
}

/// The length of a hash embedding: the dimension asked for, at least 8.
pub open spec fn vector_len(dimensions: usize) -> nat {
    if dimensions < 8 {
        8
    } else {
        dimensions as nat
    }
}

/// The words of a text for hashing: its runs of ASCII letters and digits.
pub open spec fn hash_tokens(text: Seq<char>) -> Seq<Seq<char>> {
    nonempty(split_chars(text, sep_pred(Separator::NonAlnum)))
}

/// The position a word lands on: the hash of its lower-cased form, taken as
/// a `usize`, modulo the vector's length.
pub open spec fn token_bucket(token: Seq<char>, len: nat) -> nat {
    (str_default_hash(lower(token)) as usize) as nat % len
}

/// How many of `tokens` land on position `i`.
pub open spec fn bucket_count(tokens: Seq<Seq<char>>, len: nat, i: nat) -> nat
    decreases tokens.len(),
{
    if tokens.len() == 0 {
        0
    } else {
        bucket_count(tokens.drop_last(), len, i) + if token_bucket(tokens.last(), len) == i {
            1nat
        } else {
            0nat
        }
    }
}

impl HashEmbeddingProvider {
    pub closed spec fn dims(&self) -> usize {
        self.dimensions
    }

    pub fn new(dimensions: usize) -> (r: Self)
        ensures
            r.dims() == dimensions,
    {
        HashEmbeddingProvider { dimensions }
    }

    /// The dimension the provider was made with.
    pub fn dimensions(&self) -> (r: usize)
        ensures
            r == self.dims(),
    {
        self.dimensions
    }

    /// How many words of `text` land on each position of its embedding, before
    /// the vector is normalised to unit length.
    pub fn word_counts(&self, text: &str) -> (r: Vec<usize>)
        ensures
            r@.len() == vector_len(self.dims()),
            forall|i: int| 0 <= i < r@.len() ==> #[trigger] r@[i] == bucket_count(
                hash_tokens(text@),
                vector_len(self.dims()),
                i as nat,
            ),
    {
        let len: usize = if self.dimensions < 8 { 8 } else { self.dimensions };
        let mut counts: Vec<usize> = Vec::new();
        let mut z: usize = 0;
        while z < len
            invariant
                z <= len,
                counts@.len() == z,
                forall|i: int| 0 <= i < z ==> #[trigger] counts@[i] == 0,
            decreases len - z,
        {
            counts.push(0);
            z = z + 1;
        }
        let pieces = split_chars_exec(&chars_of(text), Separator::NonAlnum);
        let tokens = nonempty_pieces(&pieces);
        let ghost ts = views(tokens@);
        assert(ts == hash_tokens(text@));
        let mut t: usize = 0;
        while t < tokens.len()
            invariant
                len as nat == vector_len(self.dims()),
                len >= 8,
                ts == views(tokens@),
                t <= tokens@.len(),
                counts@.len() == len,
                forall|i: int| 0 <= i < len ==> #[trigger] counts@[i] == bucket_count(ts.subrange(0, t as int), len as nat, i as nat),
                forall|i: int| 0 <= i < len ==> #[trigger] counts@[i] <= t,
            decreases tokens.len() - t,
        {
            assert(ts.subrange(0, t + 1).drop_last() =~= ts.subrange(0, t as int));
            assert(ts.subrange(0, t + 1).last() == tokens@[t as int]@);
            let lowered = to_lower(&tokens[t]);
            let h = stable_hash(string_of(&lowered).as_str());
            let b: usize = (h as usize) % len;
            let ghost c0 = counts@;
            let old_count = counts[b];
            counts.set(b, old_count + 1);
            assert forall|i: int| 0 <= i < len implies #[trigger] counts@[i] == bucket_count(
                ts.subrange(0, t + 1),
                len as nat,
                i as nat,
            ) by {
                assert(counts@[i] == if i == b { c0[i] + 1 } else { c0[i] as int });
            }
            t = t + 1;
        }
        assert(ts.subrange(0, ts.len() as int) =~= ts);
        counts
    }
}

} // verus!
