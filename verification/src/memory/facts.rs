//! Statements as sets of tokens: the overlap of two statements, negation
//! markers, and the tests that decide whether a new statement repeats,
//! contradicts or upgrades a stored one.
use vstd::prelude::*;

use crate::groups::{dedup_first, dedup_texts, lemma_dedup_first, no_repeats, text_views};
use crate::lexical::{lex_lt, sorted_distinct, strictly_sorted};
use crate::memory::context::{normalize, normalize_spec, overlap, overlap_exec};
use crate::memory::supermemory::{split_sentences, split_sentences_spec};
use crate::observability::business::string_views;
use crate::text::{
    chars_of, contains, contains_str, lower, push_str, sep_pred, split_chars, split_chars_exec,
    string_of, to_lower, trim, trimmed, Separator,
};

verus! {

// ---------------------------------------------------------------------------
// Tokens and overlap.
// ---------------------------------------------------------------------------

/// Pieces of at least two characters.
pub open spec fn word_pieces(ps: Seq<Seq<char>>) -> Seq<Seq<char>>
    decreases ps.len(),
{
    if ps.len() == 0 {
        Seq::empty()
    } else {
        let rest = word_pieces(ps.drop_last());
        if ps.last().len() >= 2 {
            rest.push(ps.last())
        } else {
            rest
        }
    }
}

/// The distinct lower-cased runs of two or more ASCII letters and digits of a
/// statement, in order of first appearance.
pub open spec fn statement_tokens(text: Seq<char>) -> Seq<Seq<char>> {
    dedup_first(word_pieces(split_chars(text, sep_pred(Separator::NonAlnum))).map_values(|p: Seq<char>| lower(p)))
}

/// How many tokens two statements share.
pub open spec fn shared_tokens(left: Seq<char>, right: Seq<char>) -> nat {
    overlap(statement_tokens(left), statement_tokens(right))
}

pub(crate) fn token_chars(text: &Vec<char>) -> (r: Vec<Vec<char>>)
    ensures
        text_views(r@) == statement_tokens(text@),
{
    let parts = split_chars_exec(text, Separator::NonAlnum);
    let mut lowered: Vec<Vec<char>> = Vec::new();
    let mut i: usize = 0;
    while i < parts.len()
        invariant
            i <= parts@.len(),
            crate::text::views(parts@) == split_chars(text@, sep_pred(Separator::NonAlnum)),
            text_views(lowered@) == word_pieces(crate::text::views(parts@).take(i as int)).map_values(
                |p: Seq<char>| lower(p),
            ),
        decreases parts.len() - i,
    {
        let ghost pv = crate::text::views(parts@);
        assert(pv.take(i + 1).drop_last() =~= pv.take(i as int));
        assert(pv.take(i + 1).last() == parts@[i as int]@);
        if parts[i].len() >= 2 {
            let ghost l0 = text_views(lowered@);
            lowered.push(to_lower(&parts[i]));
            assert(text_views(lowered@) =~= l0.push(lower(parts@[i as int]@)));
            assert(word_pieces(pv.take(i + 1)).map_values(|p: Seq<char>| lower(p)) =~= word_pieces(
                pv.take(i as int),
            ).map_values(|p: Seq<char>| lower(p)).push(lower(parts@[i as int]@)));
        }
        i = i + 1;
    }
    assert(crate::text::views(parts@).take(parts@.len() as int) =~= crate::text::views(parts@));
    dedup_texts(&lowered)
}

fn strings_of(v: &Vec<Vec<char>>) -> (r: Vec<String>)
    ensures
        string_views(r@) == text_views(v@),
{
    let mut out: Vec<String> = Vec::new();
    let mut i: usize = 0;
    while i < v.len()
        invariant
            i <= v@.len(),
            string_views(out@) =~= text_views(v@).take(i as int),
        decreases v.len() - i,
    {
        let ghost o0 = string_views(out@);
        out.push(string_of(&v[i]));
        assert(string_views(out@) =~= o0.push(v@[i as int]@));
        assert(text_views(v@).take(i + 1) =~= text_views(v@).take(i as int).push(v@[i as int]@));
        i = i + 1;
    }
    assert(text_views(v@).take(v@.len() as int) =~= text_views(v@));
    out
}

fn chars_list(v: &Vec<String>) -> (r: Vec<Vec<char>>)
    ensures
        text_views(r@) == string_views(v@),
{
    let mut out: Vec<Vec<char>> = Vec::new();
    let mut i: usize = 0;
    while i < v.len()
        invariant
            i <= v@.len(),
            text_views(out@) =~= string_views(v@).take(i as int),
        decreases v.len() - i,
    {
        let ghost o0 = text_views(out@);
        out.push(chars_of(v[i].as_str()));
        assert(text_views(out@) =~= o0.push(v@[i as int]@));
        assert(string_views(v@).take(i + 1) =~= string_views(v@).take(i as int).push(v@[i as int]@));
        i = i + 1;
    }
    assert(string_views(v@).take(v@.len() as int) =~= string_views(v@));
    out
}

/// The tokens of a statement: its runs of ASCII letters and digits of two or
/// more characters, lower-cased, each once, in order of first appearance.
pub fn tokenize(text: &str) -> (r: Vec<String>)
    ensures
        string_views(r@) == statement_tokens(text@),
        no_repeats(string_views(r@)),
{
    let t = token_chars(&chars_of(text));
    proof {
        lemma_tokens_distinct(text@);
    }
    strings_of(&t)
}

/// How many tokens two statements share.
pub fn lexical_overlap(left: &str, right: &str) -> (r: usize)
    ensures
        r == shared_tokens(left@, right@),
{
    let a = token_chars(&chars_of(left));
    let b = token_chars(&chars_of(right));
    overlap_exec(&a, &b)
}

/// How many of the query terms occur among the tokens of `text`.
pub fn overlap_count(query_terms: &Vec<String>, text: &str) -> (r: usize)
    ensures
        r == overlap(string_views(query_terms@), statement_tokens(text@)),
{
    let q = chars_list(query_terms);
    let t = token_chars(&chars_of(text));
    overlap_exec(&q, &t)
}

pub proof fn lemma_tokens_distinct(text: Seq<char>)
    ensures
        no_repeats(statement_tokens(text)),
{
    lemma_dedup_first(
        word_pieces(split_chars(text, sep_pred(Separator::NonAlnum))).map_values(|p: Seq<char>| lower(p)),
    );
}

/// For a list without repeats, `overlap` counts the common elements of the
/// two lists taken as sets.
proof fn lemma_overlap_is_intersection(a: Seq<Seq<char>>, b: Seq<Seq<char>>)
    requires
        no_repeats(a),
    ensures
        overlap(a, b) == a.to_set().intersect(b.to_set()).len(),
        a.to_set().intersect(b.to_set()).finite(),
    decreases a.len(),
{
    vstd::seq_lib::seq_to_set_is_finite(a);
    if a.len() == 0 {
        assert(a.to_set().intersect(b.to_set()) =~= Set::empty());
    } else {
        let p = a.drop_last();
        let x = a.last();
        assert forall|i: int, j: int| 0 <= i < p.len() && 0 <= j < p.len() && i != j implies p[i] != p[j] by {
            assert(p[i] == a[i] && p[j] == a[j]);
        }
        lemma_overlap_is_intersection(p, b);
        vstd::seq_lib::seq_to_set_is_finite(p);
        assert(a.to_set() =~= p.to_set().insert(x)) by {
            assert(a =~= p.push(x));
            assert forall|y: Seq<char>| a.contains(y) <==> p.contains(y) || y == x by {
                if a.contains(y) {
                    let k = choose|k: int| 0 <= k < a.len() && a[k] == y;
                    if k < p.len() {
                        assert(p[k] == y);
                    }
                }
                if p.contains(y) {
                    let k = choose|k: int| 0 <= k < p.len() && p[k] == y;
                    assert(a[k] == y);
                }
                if y == x {
                    assert(a[a.len() - 1] == y);
                }
            }
        }
        assert(!p.to_set().contains(x)) by {
            if p.contains(x) {
                let k = choose|k: int| 0 <= k < p.len() && p[k] == x;
                assert(a[k] == a[a.len() - 1]);
            }
        }
        let ip = p.to_set().intersect(b.to_set());
        if b.contains(x) {
            assert(a.to_set().intersect(b.to_set()) =~= ip.insert(x));
        } else {
            assert(a.to_set().intersect(b.to_set()) =~= ip);
        }
    }
}

/// Two statements share as many tokens one way as the other.
pub proof fn law_lexical_overlap_symmetric(left: Seq<char>, right: Seq<char>)
    ensures
        shared_tokens(left, right) == shared_tokens(right, left),
{
    let a = statement_tokens(left);
    let b = statement_tokens(right);
    lemma_tokens_distinct(left);
    lemma_tokens_distinct(right);
    lemma_overlap_is_intersection(a, b);
    lemma_overlap_is_intersection(b, a);
    assert(a.to_set().intersect(b.to_set()) =~= b.to_set().intersect(a.to_set()));
}

// ---------------------------------------------------------------------------
// Normal form, negation and contradiction.
// ---------------------------------------------------------------------------

/// A statement with white space collapsed to single spaces, lower-cased.
pub fn normalize_fact_statement(text: &str) -> (r: String)
    ensures
        r@ == normalize_spec(text@),
{
    normalize(text)
}

/// Whether the lower-cased statement holds one of the negation markers.
pub open spec fn has_negation(text: Seq<char>) -> bool {
    let l = lower(text);
    ||| contains(l, " not "@)
    ||| contains(l, " never "@)
    ||| contains(l, " cannot "@)
    ||| contains(l, " can't "@)
    ||| contains(l, " wont "@)
    ||| contains(l, " won't "@)
    ||| contains(l, " no "@)
    ||| contains(l, " without "@)
    ||| contains(l, " dislike"@)
    ||| contains(l, " hate"@)
    ||| contains(l, " avoid"@)
}

/// Whether a statement negates (see `has_negation`).
pub fn contains_negation_markers(text: &str) -> (r: bool)
    ensures
        r == has_negation(text@),
{
    let l = to_lower(&chars_of(text));
    contains_str(&l, " not ") || contains_str(&l, " never ") || contains_str(&l, " cannot ")
        || contains_str(&l, " can't ") || contains_str(&l, " wont ") || contains_str(&l, " won't ")
        || contains_str(&l, " no ") || contains_str(&l, " without ") || contains_str(&l, " dislike")
        || contains_str(&l, " hate") || contains_str(&l, " avoid")
}

/// Two statements contradict when they share a token and exactly one of them
/// negates.
pub open spec fn contradicts(existing: Seq<char>, candidate: Seq<char>) -> bool {
    shared_tokens(existing, candidate) != 0 && has_negation(existing) != has_negation(candidate)
}

pub fn is_contradictory_statement(existing: &str, candidate: &str) -> (r: bool)
    ensures
        r == contradicts(existing@, candidate@),
{
    let shared = lexical_overlap(existing, candidate);
    if shared == 0 {
        return false;
    }
    contains_negation_markers(existing) != contains_negation_markers(candidate)
}

/// A statement holding any negation marker (in any ASCII case) is negated:
/// ` not `, ` never `, ` cannot `, ` can't `, ` wont `, ` won't `, ` no `,
/// ` without `, ` dislike`, ` hate` or ` avoid`; and only such a statement is.
pub proof fn law_negation_markers_negate(x: Seq<char>)
    ensures
        contains(lower(x), " not "@) ==> has_negation(x),
        contains(lower(x), " never "@) ==> has_negation(x),
        contains(lower(x), " cannot "@) ==> has_negation(x),
        contains(lower(x), " can't "@) ==> has_negation(x),
        contains(lower(x), " wont "@) ==> has_negation(x),
        contains(lower(x), " won't "@) ==> has_negation(x),
        contains(lower(x), " no "@) ==> has_negation(x),
        contains(lower(x), " without "@) ==> has_negation(x),
        contains(lower(x), " dislike"@) ==> has_negation(x),
        contains(lower(x), " hate"@) ==> has_negation(x),
        contains(lower(x), " avoid"@) ==> has_negation(x),
        has_negation(x) ==> (contains(lower(x), " not "@) || contains(lower(x), " never "@) || contains(lower(x), " cannot "@) || contains(lower(x), " can't "@) || contains(lower(x), " wont "@) || contains(lower(x), " won't "@) || contains(lower(x), " no "@) || contains(lower(x), " without "@) || contains(lower(x), " dislike"@) || contains(lower(x), " hate"@) || contains(lower(x), " avoid"@)),
{
}

/// A candidate that negates (holds a negation marker) contradicts a stored
/// statement it shares a token with and that does not negate.
pub proof fn law_negated_candidate_contradicts(e: Seq<char>, c: Seq<char>)
    requires
        shared_tokens(e, c) != 0,
        !has_negation(e),
        contains(lower(c), " not "@) || contains(lower(c), " never "@) || contains(lower(c), " cannot "@) || contains(lower(c), " can't "@) || contains(lower(c), " wont "@) || contains(lower(c), " won't "@) || contains(lower(c), " no "@) || contains(lower(c), " without "@) || contains(lower(c), " dislike"@) || contains(lower(c), " hate"@) || contains(lower(c), " avoid"@),
    ensures
        contradicts(e, c),
{
    law_negation_markers_negate(c);
}

/// Contradiction does not depend on which statement came first.
pub proof fn law_contradiction_is_symmetric(a: Seq<char>, b: Seq<char>)
    ensures
        contradicts(a, b) == contradicts(b, a),
{
    law_lexical_overlap_symmetric(a, b);
}

// ---------------------------------------------------------------------------
// Similarity.
// ---------------------------------------------------------------------------

/// Whether the Jaccard similarity of the two token sets, `|A ∩ B| / |A ∪ B|`
/// (zero when either is empty), is at least `percent / 100`.
pub open spec fn jaccard_at_least(left: Seq<char>, right: Seq<char>, percent: nat) -> bool {
    let a = statement_tokens(left).len();
    let b = statement_tokens(right).len();
    let shared = shared_tokens(left, right);
    a > 0 && b > 0 && 100 * shared >= percent * (a + b - shared)
}

fn jaccard_at_least_exec(left: &str, right: &str, percent: u8) -> (r: bool)
    ensures
        r == jaccard_at_least(left@, right@, percent as nat),
{
    let a = token_chars(&chars_of(left));
    let b = token_chars(&chars_of(right));
    let shared = overlap_exec(&a, &b);
    if a.len() == 0 || b.len() == 0 {
        return false;
    }
    assert(text_views(a@).len() == a@.len() && text_views(b@).len() == b@.len());
    let union: u128 = a.len() as u128 + b.len() as u128 - shared as u128;
    let lhs: u128 = 100 * (shared as u128);
    assert(percent as u128 * union <= 255 * 0x2_0000_0000_0000_0000u128) by (nonlinear_arith)
        requires
            union <= 0x2_0000_0000_0000_0000u128,
            percent <= 255,
    ;
    lhs >= percent as u128 * union
}

/// A new statement upgrades a stored one when they share two or more tokens,
/// or their token sets have a Jaccard similarity of at least 0.42.
pub open spec fn upgrades(existing: Seq<char>, candidate: Seq<char>) -> bool {
    shared_tokens(existing, candidate) >= 2 || jaccard_at_least(existing, candidate, 42)
}

pub fn should_update_memory(existing: &str, candidate: &str) -> (r: bool)
    ensures
        r == upgrades(existing@, candidate@),
{
    lexical_overlap(existing, candidate) >= 2 || jaccard_at_least_exec(existing, candidate, 42)
}

// ---------------------------------------------------------------------------
// Tags, summaries and action labels.
// ---------------------------------------------------------------------------

/// Whether `t` is one of the tags, lower-cased and not blank.
pub open spec fn merged_tag(tags: Seq<Seq<char>>, t: Seq<char>) -> bool {
    exists|k: int| 0 <= k < tags.len() && lower(tags[k]) == t && trim(t).len() > 0
}

/// Two strictly sorted lists of texts with the same elements are equal.
pub proof fn lemma_sorted_same_elements(a: Seq<Seq<char>>, b: Seq<Seq<char>>)
    requires
        strictly_sorted(a),
        strictly_sorted(b),
        forall|t: Seq<char>| a.contains(t) <==> b.contains(t),
    ensures
        a == b,
    decreases a.len(),
{
    if a.len() == 0 {
        if b.len() > 0 {
            assert(b.contains(b[0]));
        }
        assert(a =~= b);
    } else {
        if b.len() == 0 {
            assert(a.contains(a[0]));
        }
        assert(b.contains(a[0])) by {
            assert(a.contains(a[0]));
        }
        assert(a.contains(b[0])) by {
            assert(b.contains(b[0]));
        }
        let j = choose|j: int| 0 <= j < b.len() && b[j] == a[0];
        let i = choose|i: int| 0 <= i < a.len() && a[i] == b[0];
        if a[0] != b[0] {
            assert(j > 0 && i > 0);
            assert(lex_lt(b[0], b[j]));
            assert(lex_lt(a[0], a[i]));
            crate::lexical::lemma_lex_trichotomy(a[0], b[0]);
        }
        let a1 = a.drop_first();
        let b1 = b.drop_first();
        assert forall|t: Seq<char>| a1.contains(t) <==> b1.contains(t) by {
            if a1.contains(t) {
                let k = choose|k: int| 0 <= k < a1.len() && a1[k] == t;
                assert(a[k + 1] == t);
                assert(lex_lt(a[0], a[k + 1]));
                crate::lexical::lemma_lex_irreflexive(t);
                assert(b.contains(t));
                let m = choose|m: int| 0 <= m < b.len() && b[m] == t;
                assert(m != 0);
                assert(b1[m - 1] == t);
            }
            if b1.contains(t) {
                let k = choose|k: int| 0 <= k < b1.len() && b1[k] == t;
                assert(b[k + 1] == t);
                assert(lex_lt(b[0], b[k + 1]));
                crate::lexical::lemma_lex_irreflexive(t);
                assert(a.contains(t));
                let m = choose|m: int| 0 <= m < a.len() && a[m] == t;
                assert(m != 0);
                assert(a1[m - 1] == t);
            }
        }
        assert(strictly_sorted(a1)) by {
            assert forall|x: int, y: int| 0 <= x < y < a1.len() implies lex_lt(#[trigger] a1[x], #[trigger] a1[y]) by {
                assert(a1[x] == a[x + 1] && a1[y] == a[y + 1]);
            }
        }
        assert(strictly_sorted(b1)) by {
            assert forall|x: int, y: int| 0 <= x < y < b1.len() implies lex_lt(#[trigger] b1[x], #[trigger] b1[y]) by {
                assert(b1[x] == b[x + 1] && b1[y] == b[y + 1]);
            }
        }
        lemma_sorted_same_elements(a1, b1);
        assert(a =~= seq![a[0]] + a1);
        assert(b =~= seq![b[0]] + b1);
    }
}

/// The merged tag list of two tag lists: sorted, each once, holding the
/// lower-cased non-blank tags of both.
pub open spec fn merged_tags(existing: Seq<Seq<char>>, incoming: Seq<Seq<char>>) -> Seq<Seq<char>> {
    choose|s: Seq<Seq<char>>|
        strictly_sorted(s) && forall|t: Seq<char>| s.contains(t) <==> merged_tag(existing + incoming, t)
}

fn lowered_tags(tags: &Vec<String>) -> (r: Vec<String>)
    ensures
        forall|t: Seq<char>| string_views(r@).contains(t) <==> merged_tag(string_views(tags@), t),
{
    let ghost all = string_views(tags@);
    let mut kept: Vec<String> = Vec::new();
    let mut i: usize = 0;
    while i < tags.len()
        invariant
            i <= tags@.len(),
            all == string_views(tags@),
            forall|t: Seq<char>| string_views(kept@).contains(t) <==> merged_tag(all.take(i as int), t),
        decreases tags.len() - i,
    {
        let l = to_lower(&chars_of(tags[i].as_str()));
        let keep = trimmed(&l).len() > 0;
        let ghost k0 = string_views(kept@);
        if keep {
            kept.push(string_of(&l));
            assert(string_views(kept@) =~= k0.push(l@));
        }
        assert(all[i as int] == tags@[i as int]@);
        assert(k0.len() <= string_views(kept@).len());
        assert(forall|m: int| 0 <= m < k0.len() ==> #[trigger] string_views(kept@)[m] == k0[m]);
        assert forall|t: Seq<char>| string_views(kept@).contains(t) <==> merged_tag(all.take(i + 1), t) by {
            let a1 = all.take(i + 1);
            let a0 = all.take(i as int);
            if merged_tag(a1, t) {
                let k = choose|k: int| 0 <= k < a1.len() && lower(a1[k]) == t && trim(t).len() > 0;
                if k < i {
                    assert(a0[k] == a1[k]);
                    assert(merged_tag(a0, t));
                    assert(k0.contains(t));
                    let m = choose|m: int| 0 <= m < k0.len() && k0[m] == t;
                    assert(string_views(kept@)[m] == t);
                } else {
                    assert(string_views(kept@)[string_views(kept@).len() - 1] == t);
                }
            }
            if string_views(kept@).contains(t) {
                if k0.contains(t) {
                    let k = choose|k: int| 0 <= k < a0.len() && lower(a0[k]) == t && trim(t).len() > 0;
                    assert(a1[k] == a0[k]);
                } else {
                    assert(a1[i as int] == all[i as int]);
                }
            }
        }
        i = i + 1;
    }
    assert(all.take(all.len() as int) =~= all);
    kept
}

/// The tags of both lists, lower-cased, blank ones dropped, sorted, each once.
pub fn merge_tags(existing: &Vec<String>, incoming: &Vec<String>) -> (r: Vec<String>)
    ensures
        strictly_sorted(string_views(r@)),
        forall|t: Seq<char>|
            string_views(r@).contains(t) <==> merged_tag(string_views(existing@) + string_views(incoming@), t),
        string_views(r@) == merged_tags(string_views(existing@), string_views(incoming@)),
{
    let mut kept = lowered_tags(existing);
    let mut more = lowered_tags(incoming);
    let ghost k0 = string_views(kept@);
    let ghost m0 = string_views(more@);
    kept.append(&mut more);
    assert(string_views(kept@) =~= k0 + m0);
    let ghost all = string_views(existing@) + string_views(incoming@);
    assert forall|t: Seq<char>| string_views(kept@).contains(t) <==> merged_tag(all, t) by {
        let e = string_views(existing@);
        let n = string_views(incoming@);
        if merged_tag(all, t) {
            let k = choose|k: int| 0 <= k < all.len() && lower(all[k]) == t && trim(t).len() > 0;
            if k < e.len() {
                assert(all[k] == e[k]);
                assert(merged_tag(e, t));
                let m = choose|m: int| 0 <= m < k0.len() && k0[m] == t;
                assert((k0 + m0)[m] == t);
                assert(string_views(kept@)[m] == t);
            } else {
                assert(all[k] == n[k - e.len()]);
                assert(merged_tag(n, t));
                let m = choose|m: int| 0 <= m < m0.len() && m0[m] == t;
                assert((k0 + m0)[k0.len() + m] == t);
                assert(string_views(kept@)[k0.len() + m] == t);
            }
        }
        if string_views(kept@).contains(t) {
            let m = choose|m: int| 0 <= m < string_views(kept@).len() && string_views(kept@)[m] == t;
            assert((k0 + m0)[m] == t);
            if m < k0.len() {
                assert(k0[m] == t);
                assert(k0.contains(t));
                assert(merged_tag(e, t));
                let k = choose|k: int| 0 <= k < e.len() && lower(e[k]) == t && trim(t).len() > 0;
                assert(all[k] == e[k]);
            } else {
                assert(m0[m - k0.len()] == t);
                assert(m0.contains(t));
                assert(merged_tag(n, t));
                let k = choose|k: int| 0 <= k < n.len() && lower(n[k]) == t && trim(t).len() > 0;
                assert(all[e.len() + k] == n[k]);
            }
        }
    }
    let r = sorted_distinct(&kept);
    proof {
        let e = string_views(existing@);
        let n = string_views(incoming@);
        let m = merged_tags(e, n);
        assert(strictly_sorted(string_views(r@)) && forall|t: Seq<char>|
            string_views(r@).contains(t) <==> merged_tag(e + n, t));
        lemma_sorted_same_elements(string_views(r@), m);
    }
    r
}

/// The first sentence of a chunk (the whole text when it has none), trimmed,
/// and cut to 220 characters followed by `...` when longer.
pub open spec fn chunk_statement_spec(text: Seq<char>) -> Seq<char> {
    let sentences = split_sentences_spec(text);
    let first = trim(
        if sentences.len() > 0 {
            sentences[0]
        } else {
            text
        },
    );
    if first.len() <= 220 {
        first
    } else {
        first.take(220) + "..."@
    }
}

pub fn summarize_chunk_statement(text: &str) -> (r: String)
    ensures
        r@ == chunk_statement_spec(text@),
{
    let chars = chars_of(text);
    let sentences = split_sentences(&chars);
    let first = if sentences.len() > 0 {
        trimmed(&sentences[0])
    } else {
        trimmed(&chars)
    };
    if first.len() <= 220 {
        string_of(&first)
    } else {
        let mut head = crate::text::slice(&first, 0, 220);
        push_str(&mut head, "...");
        proof {
            reveal_strlit("...");
        }
        assert(head@ =~= first@.take(220) + "..."@);
        string_of(&head)
    }
}

/// What a write decision does with a candidate statement.
#[derive(Debug, Clone, Copy, PartialEq, Eq, Structural)]
pub enum MemoryWriteAction {
    Add,
    Update,
    Delete,
    NoChange,
}

pub open spec fn action_label(action: MemoryWriteAction) -> Seq<char> {
    match action {
        MemoryWriteAction::Add => "ADD"@,
        MemoryWriteAction::Update => "UPDATE"@,
        MemoryWriteAction::Delete => "DELETE"@,
        MemoryWriteAction::NoChange => "NONE"@,
    }
}

/// The label an action is recorded under: `ADD`, `UPDATE`, `DELETE` or `NONE`.
pub fn memory_write_action_label(action: MemoryWriteAction) -> (r: String)
    ensures
        r@ == action_label(action),
{
    let label = match action {
        MemoryWriteAction::Add => "ADD",
        MemoryWriteAction::Update => "UPDATE",
        MemoryWriteAction::Delete => "DELETE",
        MemoryWriteAction::NoChange => "NONE",
    };
    string_of(&chars_of(label))
}

} // verus!
