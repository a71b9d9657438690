//! The memory snippets offered to a prompt: the identity statement, the
//! long-term facts and recent conversation turns, scored against the user's
//! words, without repeats, best first.
use vstd::prelude::*;

use crate::config::{LearningConfig, MemoryConfig};
use crate::groups::{contains_text, dedup_first, dedup_texts, text_views};
use crate::memory::supermemory::SupermemoryKernel;
use crate::observability::business::string_views;
use crate::providers::ChatMessage;
use crate::text::{
    chars_eq, chars_of, is_blank, join, join_exec, lower, push_all, push_str, sep_pred, split_chars,
    split_chars_exec, string_of, to_lower, trim, trimmed, trimmed_nonblank, trimmed_nonblank_exec,
    Separator,
};
use crate::timeline::{lemma_sorted_by_stamps_elements, lemma_sorted_by_stamps_map, sort_by_stamps, sorted_by_stamps};

verus! {

/// Where a memory snippet comes from.
#[derive(Debug, Clone, Copy, PartialEq, Eq, Structural)]
pub enum MemoryTarget {
    Identity,
    LongTerm,
    History,
}

/// A piece of memory that may be put into a prompt.
#[derive(Debug)]
pub struct MemorySnippet {
    pub source: MemoryTarget,
    pub label: String,
    pub content: String,
    pub tags: Vec<String>,
    pub priority: usize,
}

/// What the memory is asked for: the user's words, the conversation so far,
/// and how many snippets may be returned.
#[derive(Debug)]
pub struct MemoryContextRequest<'a> {
    pub user_input: &'a str,
    pub session_history: &'a [ChatMessage],
    pub max_items: usize,
}

/// A snippet as plain values: source, label, content, tags, priority.
pub type SnippetModel = (MemoryTarget, Seq<char>, Seq<char>, Seq<Seq<char>>, usize);

pub open spec fn snippet_model(s: MemorySnippet) -> SnippetModel {
    (s.source, s.label@, s.content@, string_views(s.tags@), s.priority)
}

// ---------------------------------------------------------------------------
// Terms, overlap and scores.
// ---------------------------------------------------------------------------

/// Pieces of at least three characters.
pub open spec fn long_pieces(ps: Seq<Seq<char>>) -> Seq<Seq<char>>
    decreases ps.len(),
{
    if ps.len() == 0 {
        Seq::empty()
    } else {
        let rest = long_pieces(ps.drop_last());
        if ps.last().len() >= 3 {
            rest.push(ps.last())
        } else {
            rest
        }
    }
}

/// The distinct lower-cased runs of three or more ASCII letters and digits.
pub open spec fn memory_terms(text: Seq<char>) -> Seq<Seq<char>> {
    dedup_first(long_pieces(split_chars(text, sep_pred(Separator::NonAlnum))).map_values(|p: Seq<char>| lower(p)))
}

/// How many of the terms in `a` occur in `b`.
pub open spec fn overlap(a: Seq<Seq<char>>, b: Seq<Seq<char>>) -> nat
    decreases a.len(),
{
    if a.len() == 0 {
        0
    } else {
        overlap(a.drop_last(), b) + if b.contains(a.last()) {
            1nat
        } else {
            0nat
        }
    }
}

/// The text a snippet is scored on: its content and its tags.
pub open spec fn scored_text(m: SnippetModel) -> Seq<char> {
    m.2 + " "@ + join(m.3, " "@)
}

/// Priority, three points per shared term, and one more for conversation turns.
pub open spec fn score_spec(m: SnippetModel, query: Seq<Seq<char>>) -> int {
    m.4 + 3 * overlap(memory_terms(scored_text(m)), query) + if m.0 == MemoryTarget::History {
        1int
    } else {
        0int
    }
}

/// `trim`med, and cut to 140 characters followed by `...` when longer.
pub open spec fn compress_spec(content: Seq<char>) -> Seq<char> {
    let t = trim(content);
    if t.len() <= 140 {
        t
    } else {
        t.take(140) + "..."@
    }
}

/// Words separated by single spaces, lower-cased.
pub open spec fn normalize_spec(text: Seq<char>) -> Seq<char> {
    lower(join(trimmed_nonblank(split_chars(text, sep_pred(Separator::Whitespace))), " "@))
}

proof fn lemma_overlap_bound(a: Seq<Seq<char>>, b: Seq<Seq<char>>)
    ensures
        overlap(a, b) <= a.len(),
    decreases a.len(),
{
    if a.len() > 0 {
        lemma_overlap_bound(a.drop_last(), b);
    }
}

proof fn lemma_long_pieces_len(ps: Seq<Seq<char>>)
    ensures
        long_pieces(ps).len() <= ps.len(),
    decreases ps.len(),
{
    if ps.len() > 0 {
        lemma_long_pieces_len(ps.drop_last());
    }
}

fn text(s: &str) -> (r: String)
    ensures
        r@ == s@,
{
    string_of(&chars_of(s))
}

/// The distinct terms of a text (see `memory_terms`).
pub fn memory_terms_exec(text: &Vec<char>) -> (r: Vec<Vec<char>>)
    ensures
        text_views(r@) == memory_terms(text@),
{
    let parts = split_chars_exec(text, Separator::NonAlnum);
    let mut lowered: Vec<Vec<char>> = Vec::new();
    let mut i: usize = 0;
    while i < parts.len()
        invariant
            i <= parts@.len(),
            crate::text::views(parts@) == split_chars(text@, sep_pred(Separator::NonAlnum)),
            text_views(lowered@) == long_pieces(crate::text::views(parts@).take(i as int)).map_values(
                |p: Seq<char>| lower(p),
            ),
        decreases parts.len() - i,
    {
        let ghost pv = crate::text::views(parts@);
        assert(pv.take(i + 1).drop_last() =~= pv.take(i as int));
        assert(pv.take(i + 1).last() == parts@[i as int]@);
        if parts[i].len() >= 3 {
            let ghost l0 = text_views(lowered@);
            lowered.push(to_lower(&parts[i]));
            assert(text_views(lowered@) =~= l0.push(lower(parts@[i as int]@)));
            assert(long_pieces(pv.take(i + 1)).map_values(|p: Seq<char>| lower(p)) =~= long_pieces(
                pv.take(i as int),
            ).map_values(|p: Seq<char>| lower(p)).push(lower(parts@[i as int]@)));
        }
        i = i + 1;
    }
    assert(crate::text::views(parts@).take(parts@.len() as int) =~= crate::text::views(parts@));
    dedup_texts(&lowered)
}

/// How many terms of `a` occur in `b`.
pub fn overlap_exec(a: &Vec<Vec<char>>, b: &Vec<Vec<char>>) -> (r: usize)
    ensures
        r == overlap(text_views(a@), text_views(b@)),
        r <= a@.len(),
{
    let mut n: usize = 0;
    let mut i: usize = 0;
    while i < a.len()
        invariant
            i <= a@.len(),
            n == overlap(text_views(a@).take(i as int), text_views(b@)),
            n <= i,
        decreases a.len() - i,
    {
        assert(text_views(a@).take(i + 1).drop_last() =~= text_views(a@).take(i as int));
        assert(text_views(a@).take(i + 1).last() == a@[i as int]@);
        if contains_text(b, &a[i]) {
            n = n + 1;
        }
        i = i + 1;
    }
    assert(text_views(a@).take(a@.len() as int) =~= text_views(a@));
    n
}

/// The score of a snippet for the query terms (see `score_spec`).
pub fn score_snippet(snippet: &MemorySnippet, query_terms: &Vec<Vec<char>>) -> (r: usize)
    requires
        snippet.priority + 3 * query_terms@.len() + 1 <= usize::MAX,
    ensures
        r as int == score_spec(snippet_model(*snippet), text_views(query_terms@)),
{
    let mut scored = chars_of(snippet.content.as_str());
    push_str(&mut scored, " ");
    let mut tags: Vec<Vec<char>> = Vec::new();
    let mut i: usize = 0;
    while i < snippet.tags.len()
        invariant
            i <= snippet.tags@.len(),
            text_views(tags@) =~= string_views(snippet.tags@).take(i as int),
        decreases snippet.tags.len() - i,
    {
        let ghost t0 = text_views(tags@);
        tags.push(chars_of(snippet.tags[i].as_str()));
        assert(text_views(tags@) =~= t0.push(snippet.tags@[i as int]@));
        assert(string_views(snippet.tags@).take(i + 1) =~= string_views(snippet.tags@).take(i as int).push(
            snippet.tags@[i as int]@,
        ));
        i = i + 1;
    }
    assert(string_views(snippet.tags@).take(snippet.tags@.len() as int) =~= string_views(snippet.tags@));
    let joined = join_exec(&tags, " ");
    push_all(&mut scored, &joined);
    let terms = memory_terms_exec(&scored);
    let shared = overlap_exec(&terms, query_terms);
    proof {
        lemma_overlap_bound(text_views(terms@), text_views(query_terms@));
        assert(text_views(terms@).len() == terms@.len());
    }
    let shared_bounded = if shared <= query_terms.len() {
        shared
    } else {
        query_terms.len()
    };
    proof {
        crate::groups::lemma_dedup_first(
            long_pieces(split_chars(scored@, sep_pred(Separator::NonAlnum))).map_values(|p: Seq<char>| lower(p)),
        );
        lemma_overlap_in_bound(text_views(terms@), text_views(query_terms@));
    }
    let bonus: usize = match snippet.source {
        MemoryTarget::History => 1,
        _ => 0,
    };
    snippet.priority + shared_bounded * 3 + bonus
}

/// Distinct terms occur in the second list at most as often as it is long.
proof fn lemma_overlap_in_bound(a: Seq<Seq<char>>, b: Seq<Seq<char>>)
    requires
        crate::groups::no_repeats(a),
    ensures
        overlap(a, b) <= b.len(),
{
    lemma_overlap_shared(a, b);
    crate::groups::lemma_shared_elements(a, b);
}

proof fn lemma_overlap_shared(a: Seq<Seq<char>>, b: Seq<Seq<char>>)
    ensures
        overlap(a, b) == crate::groups::shared_elements(a, b).len(),
    decreases a.len(),
{
    if a.len() > 0 {
        lemma_overlap_shared(a.drop_last(), b);
    }
}

/// Trims a message and cuts it to 140 characters with `...` after.
pub fn compress_message(content: &str) -> (r: String)
    ensures
        r@ == compress_spec(content@),
{
    let t = trimmed(&chars_of(content));
    if t.len() <= 140 {
        string_of(&t)
    } else {
        let mut head = crate::text::slice(&t, 0, 140);
        push_str(&mut head, "...");
        string_of(&head)
    }
}

/// Collapses white space to single spaces and lower-cases.
pub fn normalize(text: &str) -> (r: String)
    ensures
        r@ == normalize_spec(text@),
{
    let parts = split_chars_exec(&chars_of(text), Separator::Whitespace);
    let words = trimmed_nonblank_exec(&parts);
    let joined = join_exec(&words, " ");
    string_of(&to_lower(&joined))
}

// ---------------------------------------------------------------------------
// Candidates.
// ---------------------------------------------------------------------------

/// What `str::to_uppercase` returns for a text.
pub uninterp spec fn upper_text(s: Seq<char>) -> Seq<char>;

/// Upper-cases a text with `str::to_uppercase` (full Unicode case mapping).
#[verifier::external_body]
fn upper_case(s: &str) -> (r: String)
    ensures
        r@ == upper_text(s@),
{
    s.to_uppercase()
}

pub open spec fn identity_text() -> Seq<char> {
    "Protect operator intent, maintain safe autonomy, and prefer verifiable actions over speculation."@
}

pub open spec fn runtime_text() -> Seq<char> {
    "AutoLoop uses Rust-first runtime boundaries, StateStore state, and MCP-compatible provider/tool adapters."@
}

pub open spec fn durable_text() -> Seq<char> {
    "Preserve durable facts such as anchors, permissions, and prior architecture decisions; skip repetitive summaries."@
}

/// The last six turns of a conversation, newest first.
pub open spec fn recent_turns(history: Seq<ChatMessage>) -> Seq<ChatMessage> {
    let n = if history.len() < 6 {
        history.len()
    } else {
        6
    };
    Seq::new(n, |i: int| history[history.len() - 1 - i])
}

/// The turns with something said.
pub open spec fn spoken_turns(ms: Seq<ChatMessage>) -> Seq<ChatMessage>
    decreases ms.len(),
{
    if ms.len() == 0 {
        Seq::empty()
    } else {
        let rest = spoken_turns(ms.drop_last());
        if trim(ms.last().content@).len() > 0 {
            rest.push(ms.last())
        } else {
            rest
        }
    }
}

/// A conversation turn as a snippet.
pub open spec fn turn_model(m: ChatMessage) -> SnippetModel {
    (
        MemoryTarget::History,
        "HISTORY/"@ + upper_text(m.role@),
        compress_spec(m.content@),
        memory_terms(m.content@),
        if m.role@ == "user"@ {
            7usize
        } else {
            5usize
        },
    )
}

/// The snippets one memory source contributes.
pub open spec fn target_models(t: MemoryTarget, history: Seq<ChatMessage>) -> Seq<SnippetModel> {
    match t {
        MemoryTarget::Identity => seq![
            (
                MemoryTarget::Identity,
                "IDENTITY"@,
                identity_text(),
                seq!["identity"@, "safety"@, "operator"@, "autonomy"@],
                10usize,
            ),
        ],
        MemoryTarget::LongTerm => seq![
            (
                MemoryTarget::LongTerm,
                "MEMORY"@,
                runtime_text(),
                seq!["autoloop"@, "rust"@, "state_store"@, "mcp"@],
                9usize,
            ),
            (
                MemoryTarget::LongTerm,
                "MEMORY"@,
                durable_text(),
                seq!["anchor"@, "knowledge"@, "permission"@, "history"@],
                8usize,
            ),
        ],
        MemoryTarget::History => spoken_turns(recent_turns(history)).map_values(|m: ChatMessage| turn_model(m)),
    }
}

/// The snippets of all the sources, source by source.
pub open spec fn candidate_models(targets: Seq<MemoryTarget>, history: Seq<ChatMessage>) -> Seq<SnippetModel>
    decreases targets.len(),
{
    if targets.len() == 0 {
        Seq::empty()
    } else {
        candidate_models(targets.drop_last(), history) + target_models(targets.last(), history)
    }
}

fn four_tags(a: &str, b: &str, c: &str, d: &str) -> (r: Vec<String>)
    ensures
        string_views(r@) == seq![a@, b@, c@, d@],
{
    let mut out: Vec<String> = Vec::new();
    out.push(text(a));
    out.push(text(b));
    out.push(text(c));
    out.push(text(d));
    assert(string_views(out@) =~= seq![a@, b@, c@, d@]);
    out
}

fn terms_to_strings(v: &Vec<Vec<char>>) -> (r: Vec<String>)
    ensures
        string_views(r@) == text_views(v@),
{
    let mut out: Vec<String> = Vec::new();
    let mut i: usize = 0;
    while i < v.len()
        invariant
            i <= v@.len(),
            string_views(out@) =~= text_views(v@).take(i as int),
        decreases v.len() - i,
    {
        let ghost o0 = string_views(out@);
        out.push(string_of(&v[i]));
        assert(string_views(out@) =~= o0.push(v@[i as int]@));
        assert(text_views(v@).take(i + 1) =~= text_views(v@).take(i as int).push(v@[i as int]@));
        i = i + 1;
    }
    assert(text_views(v@).take(v@.len() as int) =~= text_views(v@));
    out
}

fn push_target(out: &mut Vec<MemorySnippet>, t: MemoryTarget, history: &[ChatMessage])
    ensures
        final(out)@.map_values(|s: MemorySnippet| snippet_model(s)) == old(out)@.map_values(
            |s: MemorySnippet| snippet_model(s),
        ) + target_models(t, history@),
{
    let ghost o0 = out@.map_values(|s: MemorySnippet| snippet_model(s));
    match t {
        MemoryTarget::Identity => {
            let tags = four_tags("identity", "safety", "operator", "autonomy");
            out.push(
                MemorySnippet {
                    source: MemoryTarget::Identity,
                    label: text("IDENTITY"),
                    content: text(
                        "Protect operator intent, maintain safe autonomy, and prefer verifiable actions over speculation.",
                    ),
                    tags,
                    priority: 10,
                },
            );
            assert(out@.map_values(|s: MemorySnippet| snippet_model(s)) =~= o0 + target_models(t, history@));
        },
        MemoryTarget::LongTerm => {
            let tags1 = four_tags("autoloop", "rust", "state_store", "mcp");
            out.push(
                MemorySnippet {
                    source: MemoryTarget::LongTerm,
                    label: text("MEMORY"),
                    content: text(
                        "AutoLoop uses Rust-first runtime boundaries, StateStore state, and MCP-compatible provider/tool adapters.",
                    ),
                    tags: tags1,
                    priority: 9,
                },
            );
            let tags2 = four_tags("anchor", "knowledge", "permission", "history");
            out.push(
                MemorySnippet {
                    source: MemoryTarget::LongTerm,
                    label: text("MEMORY"),
                    content: text(
                        "Preserve durable facts such as anchors, permissions, and prior architecture decisions; skip repetitive summaries.",
                    ),
                    tags: tags2,
                    priority: 8,
                },
            );
            assert(out@.map_values(|s: MemorySnippet| snippet_model(s)) =~= o0 + target_models(t, history@));
        },
        MemoryTarget::History => {
            let ghost recent = recent_turns(history@);
            let n: usize = if history.len() < 6 {
                history.len()
            } else {
                6
            };
            let mut k: usize = 0;
            while k < n
                invariant
                    k <= n,
                    n == recent.len(),
                    n <= history@.len(),
                    recent == recent_turns(history@),
                    out@.map_values(|s: MemorySnippet| snippet_model(s)) == o0 + spoken_turns(recent.take(k as int)).map_values(
                        |m: ChatMessage| turn_model(m),
                    ),
                decreases n - k,
            {
                let m = &history[history.len() - 1 - k];
                assert(recent[k as int] == *m);
                assert(recent.take(k + 1).drop_last() =~= recent.take(k as int));
                assert(recent.take(k + 1).last() == *m);
                let content = chars_of(m.content.as_str());
                if !is_blank(&content) {
                    let terms = memory_terms_exec(&content);
                    let mut label = chars_of("HISTORY/");
                    let up = upper_case(m.role.as_str());
                    push_str(&mut label, up.as_str());
                    let role = chars_of(m.role.as_str());
                    let priority: usize = if crate::text::chars_eq_str(&role, "user") {
                        7
                    } else {
                        5
                    };
                    let ghost before = out@.map_values(|s: MemorySnippet| snippet_model(s));
                    out.push(
                        MemorySnippet {
                            source: MemoryTarget::History,
                            label: string_of(&label),
                            content: compress_message(m.content.as_str()),
                            tags: terms_to_strings(&terms),
                            priority,
                        },
                    );
                    assert(out@.map_values(|s: MemorySnippet| snippet_model(s)) =~= before.push(turn_model(*m)));
                    assert(spoken_turns(recent.take(k + 1)).map_values(|m: ChatMessage| turn_model(m)) =~= spoken_turns(
                        recent.take(k as int),
                    ).map_values(|m: ChatMessage| turn_model(m)).push(turn_model(*m)));
                }
                k = k + 1;
            }
            assert(recent.take(n as int) =~= recent);
        },
    }
}

/// The candidate snippets of the sources, in source order.
pub fn memory_candidates(targets: &Vec<MemoryTarget>, history: &[ChatMessage]) -> (r: Vec<MemorySnippet>)
    ensures
        r@.map_values(|s: MemorySnippet| snippet_model(s)) == candidate_models(targets@, history@),
{
    let mut out: Vec<MemorySnippet> = Vec::new();
    let mut i: usize = 0;
    while i < targets.len()
        invariant
            i <= targets@.len(),
            out@.map_values(|s: MemorySnippet| snippet_model(s)) == candidate_models(targets@.take(i as int), history@),
        decreases targets.len() - i,
    {
        assert(targets@.take(i + 1).drop_last() =~= targets@.take(i as int));
        push_target(&mut out, targets[i], history);
        i = i + 1;
    }
    assert(targets@.take(targets@.len() as int) =~= targets@);
    out
}

// ---------------------------------------------------------------------------
// Selection.
// ---------------------------------------------------------------------------

pub open spec fn normalized_contents(ms: Seq<SnippetModel>) -> Seq<Seq<char>> {
    ms.map_values(|m: SnippetModel| normalize_spec(m.2))
}

/// The snippets whose normalised content has not come before.
pub open spec fn distinct_content(ms: Seq<SnippetModel>) -> Seq<SnippetModel>
    decreases ms.len(),
{
    if ms.len() == 0 {
        ms
    } else {
        let d = distinct_content(ms.drop_last());
        if normalized_contents(d).contains(normalize_spec(ms.last().2)) {
            d
        } else {
            d.push(ms.last())
        }
    }
}

/// Stamps that order by priority, highest first.
pub open spec fn priority_stamps(ms: Seq<SnippetModel>) -> Seq<u64> {
    ms.map_values(|m: SnippetModel| (u64::MAX - m.4) as u64)
}

/// Stamps that order by score, highest first.
pub open spec fn score_stamps(ms: Seq<SnippetModel>, query: Seq<Seq<char>>) -> Seq<u64> {
    ms.map_values(|m: SnippetModel| (u64::MAX - score_spec(m, query)) as u64)
}

/// The snippets that score above zero.
pub open spec fn scoring(ms: Seq<SnippetModel>, query: Seq<Seq<char>>) -> Seq<SnippetModel>
    decreases ms.len(),
{
    if ms.len() == 0 {
        ms
    } else {
        let rest = scoring(ms.drop_last(), query);
        if score_spec(ms.last(), query) > 0 {
            rest.push(ms.last())
        } else {
            rest
        }
    }
}

/// Distinct snippets by score, then priority, highest first; those scoring
/// zero dropped.
pub open spec fn ranked(ms: Seq<SnippetModel>, query: Seq<Seq<char>>) -> Seq<SnippetModel> {
    let d = distinct_content(ms);
    let by_priority = sorted_by_stamps(d, priority_stamps(d));
    scoring(sorted_by_stamps(by_priority, score_stamps(by_priority, query)), query)
}

/// The first `max_items` ranked candidates.
pub open spec fn selection(
    targets: Seq<MemoryTarget>,
    history: Seq<ChatMessage>,
    query: Seq<Seq<char>>,
    max_items: usize,
) -> Seq<SnippetModel> {
    let r = ranked(candidate_models(targets, history), query);
    r.take(
        if max_items < r.len() {
            max_items as int
        } else {
            r.len() as int
        },
    )
}

pub open spec fn snippet_models(v: Seq<MemorySnippet>) -> Seq<SnippetModel> {
    v.map_values(|s: MemorySnippet| snippet_model(s))
}

proof fn lemma_candidate_priorities(targets: Seq<MemoryTarget>, history: Seq<ChatMessage>)
    ensures
        forall|k: int| 0 <= k < candidate_models(targets, history).len() ==> (#[trigger] candidate_models(
            targets,
            history,
        )[k]).4 <= 10,
    decreases targets.len(),
{
    if targets.len() > 0 {
        lemma_candidate_priorities(targets.drop_last(), history);
        let a = candidate_models(targets.drop_last(), history);
        let b = target_models(targets.last(), history);
        assert forall|k: int| 0 <= k < (a + b).len() implies (#[trigger] (a + b)[k]).4 <= 10 by {
            if k >= a.len() {
                assert((a + b)[k] == b[k - a.len()]);
            }
        }
    }
}

fn duplicate_snippet(s: &MemorySnippet) -> (r: MemorySnippet)
    ensures
        snippet_model(r) == snippet_model(*s),
{
    let mut tags: Vec<String> = Vec::new();
    let mut i: usize = 0;
    while i < s.tags.len()
        invariant
            i <= s.tags@.len(),
            string_views(tags@) =~= string_views(s.tags@).take(i as int),
        decreases s.tags.len() - i,
    {
        let ghost t0 = string_views(tags@);
        tags.push(s.tags[i].clone());
        assert(string_views(tags@) =~= t0.push(s.tags@[i as int]@));
        assert(string_views(s.tags@).take(i + 1) =~= string_views(s.tags@).take(i as int).push(s.tags@[i as int]@));
        i = i + 1;
    }
    assert(string_views(s.tags@).take(s.tags@.len() as int) =~= string_views(s.tags@));
    MemorySnippet {
        source: s.source,
        label: s.label.clone(),
        content: s.content.clone(),
        tags,
        priority: s.priority,
    }
}

/// Keeps the first snippet of each normalised content.
fn drop_repeated_content(items: Vec<MemorySnippet>) -> (r: Vec<MemorySnippet>)
    requires
        forall|k: int| 0 <= k < items@.len() ==> (#[trigger] items@[k]).priority <= 10,
    ensures
        snippet_models(r@) == distinct_content(snippet_models(items@)),
        forall|k: int| 0 <= k < r@.len() ==> (#[trigger] r@[k]).priority <= 10,
{
    let ghost all = snippet_models(items@);
    let ghost orig = items@;
    let mut rest = items;
    let mut kept: Vec<MemorySnippet> = Vec::new();
    let mut seen: Vec<Vec<char>> = Vec::new();
    let mut i: usize = 0;
    let n = rest.len();
    while rest.len() > 0
        invariant
            n == all.len(),
            all == snippet_models(orig),
            orig.len() == n,
            forall|k: int| 0 <= k < orig.len() ==> (#[trigger] orig[k]).priority <= 10,
            i + rest@.len() == n,
            rest@ =~= orig.skip(i as int),
            snippet_models(kept@) == distinct_content(all.take(i as int)),
            text_views(seen@) == normalized_contents(snippet_models(kept@)),
            forall|k: int| 0 <= k < kept@.len() ==> (#[trigger] kept@[k]).priority <= 10,
        decreases rest@.len(),
    {
        let ghost r0 = rest@;
        let s = rest.remove(0);
        assert(s == orig[i as int]) by {
            assert(orig.skip(i as int)[0] == orig[i as int]);
        }
        assert(all.take(i + 1).drop_last() =~= all.take(i as int));
        assert(all.take(i + 1).last() == snippet_model(s));
        let key = normalize(s.content.as_str());
        let kv = chars_of(key.as_str());
        if !contains_text(&seen, &kv) {
            let ghost k0 = snippet_models(kept@);
            let ghost s0 = text_views(seen@);
            kept.push(s);
            seen.push(kv);
            assert(snippet_models(kept@) =~= k0.push(snippet_model(orig[i as int])));
            assert(text_views(seen@) =~= s0.push(normalize_spec(orig[i as int].content@)));
            assert(normalized_contents(snippet_models(kept@)) =~= normalized_contents(k0).push(
                normalize_spec(orig[i as int].content@),
            ));
            assert forall|k: int| 0 <= k < kept@.len() implies (#[trigger] kept@[k]).priority <= 10 by {
                if k < kept@.len() - 1 {
                } else {
                    assert(kept@[k] == orig[i as int]);
                }
            }
        }
        i = i + 1;
        assert(rest@ =~= orig.skip(i as int)) by {
            assert forall|m: int| 0 <= m < rest@.len() implies rest@[m] == orig.skip(i as int)[m] by {
                assert(rest@[m] == r0[m + 1]);
            }
        }
    }
    assert(all.take(n as int) =~= all);
    kept
}

/// Orders snippets by a stamp computed from each.
fn stamps_by_priority(v: &Vec<MemorySnippet>) -> (r: Vec<u64>)
    ensures
        r@ == priority_stamps(snippet_models(v@)),
{
    let mut out: Vec<u64> = Vec::new();
    let mut i: usize = 0;
    while i < v.len()
        invariant
            i <= v@.len(),
            out@ =~= priority_stamps(snippet_models(v@)).take(i as int),
        decreases v.len() - i,
    {
        out.push(u64::MAX - (v[i].priority as u64));
        i = i + 1;
    }
    assert(priority_stamps(snippet_models(v@)).take(v@.len() as int) =~= priority_stamps(snippet_models(v@)));
    out
}

fn stamps_by_score(v: &Vec<MemorySnippet>, query: &Vec<Vec<char>>) -> (r: Vec<u64>)
    requires
        forall|k: int| 0 <= k < v@.len() ==> (#[trigger] v@[k]).priority <= 10,
        3 * query@.len() + 11 <= usize::MAX,
    ensures
        r@ == score_stamps(snippet_models(v@), text_views(query@)),
        r@.len() == v@.len(),
{
    let mut out: Vec<u64> = Vec::new();
    let mut i: usize = 0;
    while i < v.len()
        invariant
            i <= v@.len(),
            forall|k: int| 0 <= k < v@.len() ==> (#[trigger] v@[k]).priority <= 10,
            3 * query@.len() + 11 <= usize::MAX,
            out@ =~= score_stamps(snippet_models(v@), text_views(query@)).take(i as int),
        decreases v.len() - i,
    {
        assert(v@[i as int].priority <= 10);
        let sc = score_snippet(&v[i], query);
        out.push(u64::MAX - (sc as u64));
        i = i + 1;
    }
    assert(score_stamps(snippet_models(v@), text_views(query@)).take(v@.len() as int) =~= score_stamps(
        snippet_models(v@),
        text_views(query@),
    ));
    out
}

/// The snippets that fit the request best (see `selection`): distinct,
/// scored against the user's words, best first, at most `max_items`.
pub fn select_memories(targets: &Vec<MemoryTarget>, request: &MemoryContextRequest) -> (r: Vec<MemorySnippet>)
    requires
        3 * memory_terms(request.user_input@).len() + 11 <= usize::MAX,
    ensures
        snippet_models(r@) == selection(
            targets@,
            request.session_history@,
            memory_terms(request.user_input@),
            request.max_items,
        ),
{
    let query = memory_terms_exec(&chars_of(request.user_input));
    let ghost q = text_views(query@);
    assert(query@.len() == q.len());
    let cands = memory_candidates(targets, request.session_history);
    proof {
        lemma_candidate_priorities(targets@, request.session_history@);
        assert forall|k: int| 0 <= k < cands@.len() implies (#[trigger] cands@[k]).priority <= 10 by {
            assert(snippet_models(cands@)[k] == snippet_model(cands@[k]));
        }
    }
    let ghost cm = snippet_models(cands@);
    let kept = drop_repeated_content(cands);
    let ghost d = snippet_models(kept@);
    let prio = stamps_by_priority(&kept);
    let ghost kept_seq = kept@;
    let by_priority = sort_by_stamps(kept, prio);
    proof {
        lemma_sorted_by_stamps_map(kept_seq, prio@, |s: MemorySnippet| snippet_model(s));
        lemma_sorted_by_stamps_elements(kept_seq, prio@);
        assert forall|k: int| 0 <= k < by_priority@.len() implies (#[trigger] by_priority@[k]).priority <= 10 by {
            assert(kept_seq.contains(by_priority@[k]));
            let j = choose|j: int| 0 <= j < kept_seq.len() && kept_seq[j] == by_priority@[k];
        }
    }
    let ghost bp = snippet_models(by_priority@);
    assert(bp == sorted_by_stamps(d, priority_stamps(d)));
    let scores = stamps_by_score(&by_priority, &query);
    let ghost bp_seq = by_priority@;
    let by_score = sort_by_stamps(by_priority, scores);
    proof {
        lemma_sorted_by_stamps_map(bp_seq, scores@, |s: MemorySnippet| snippet_model(s));
        lemma_sorted_by_stamps_elements(bp_seq, scores@);
        assert forall|k: int| 0 <= k < by_score@.len() implies (#[trigger] by_score@[k]).priority <= 10 by {
            assert(bp_seq.contains(by_score@[k]));
            let j = choose|j: int| 0 <= j < bp_seq.len() && bp_seq[j] == by_score@[k];
        }
    }
    let ghost bs = snippet_models(by_score@);
    assert(bs == sorted_by_stamps(bp, score_stamps(bp, q)));
    let ghost all = bs;
    let ghost orig = by_score@;
    let mut rest = by_score;
    let mut out: Vec<MemorySnippet> = Vec::new();
    let mut i: usize = 0;
    let n = rest.len();
    while rest.len() > 0
        invariant
            n == all.len(),
            all == snippet_models(orig),
            orig.len() == n,
            forall|k: int| 0 <= k < orig.len() ==> (#[trigger] orig[k]).priority <= 10,
            3 * query@.len() + 11 <= usize::MAX,
            q == text_views(query@),
            i + rest@.len() == n,
            rest@ =~= orig.skip(i as int),
            snippet_models(out@) == scoring(all.take(i as int), q),
        decreases rest@.len(),
    {
        let ghost r0 = rest@;
        let s = rest.remove(0);
        assert(s == orig[i as int]) by {
            assert(orig.skip(i as int)[0] == orig[i as int]);
        }
        assert(all.take(i + 1).drop_last() =~= all.take(i as int));
        assert(all.take(i + 1).last() == snippet_model(s));
        let sc = score_snippet(&s, &query);
        if sc > 0 {
            let ghost o0 = snippet_models(out@);
            out.push(s);
            assert(snippet_models(out@) =~= o0.push(snippet_model(orig[i as int])));
        }
        i = i + 1;
        assert(rest@ =~= orig.skip(i as int)) by {
            assert forall|m: int| 0 <= m < rest@.len() implies rest@[m] == orig.skip(i as int)[m] by {
                assert(rest@[m] == r0[m + 1]);
            }
        }
    }
    assert(all.take(n as int) =~= all);
    let ghost ranked_models = snippet_models(out@);
    let limit = if request.max_items < out.len() {
        request.max_items
    } else {
        out.len()
    };
    out.truncate(limit);
    assert(snippet_models(out@) =~= ranked_models.take(limit as int));
    out
}

// ---------------------------------------------------------------------------
// The memory context of a prompt.
// ---------------------------------------------------------------------------

pub open spec fn snippet_labels(ms: Seq<SnippetModel>) -> Seq<Seq<char>> {
    ms.map_values(|m: SnippetModel| m.1)
}

pub open spec fn context_line(m: SnippetModel) -> Seq<char> {
    "- ["@ + m.1 + "] "@ + m.2
}

/// The memory block of a prompt: the selected snippets (at most five) by
/// priority, highest first, then label, one `- [label] content` line each.
pub open spec fn memory_context_spec(targets: Seq<MemoryTarget>, history: Seq<ChatMessage>, user_input: Seq<char>) -> Seq<char> {
    let sel = selection(targets, history, memory_terms(user_input), 5);
    if sel.len() == 0 {
        "- No memory signals selected."@
    } else {
        let by_label = crate::lexical::sorted_by_text_keys(sel, snippet_labels(sel));
        let ordered = sorted_by_stamps(by_label, priority_stamps(by_label));
        join(ordered.map_values(|m: SnippetModel| context_line(m)), "\n"@)
    }
}

/// The memory block for a prompt (see `memory_context_spec`).
pub fn memory_context(targets: &Vec<MemoryTarget>, user_input: &str, history: &[ChatMessage]) -> (r: String)
    requires
        3 * memory_terms(user_input@).len() + 11 <= usize::MAX,
    ensures
        r@ == memory_context_spec(targets@, history@, user_input@),
{
    let request = MemoryContextRequest { user_input, session_history: history, max_items: 5 };
    let selected = select_memories(targets, &request);
    if selected.len() == 0 {
        return text("- No memory signals selected.");
    }
    let ghost sel = snippet_models(selected@);
    let mut labels: Vec<Vec<char>> = Vec::new();
    let mut i: usize = 0;
    while i < selected.len()
        invariant
            i <= selected@.len(),
            text_views(labels@) =~= snippet_labels(snippet_models(selected@)).take(i as int),
        decreases selected.len() - i,
    {
        let ghost l0 = text_views(labels@);
        labels.push(chars_of(selected[i].label.as_str()));
        assert(text_views(labels@) =~= l0.push(selected@[i as int].label@));
        assert(snippet_labels(snippet_models(selected@)).take(i + 1) =~= snippet_labels(snippet_models(selected@)).take(
            i as int,
        ).push(selected@[i as int].label@));
        i = i + 1;
    }
    assert(snippet_labels(snippet_models(selected@)).take(selected@.len() as int) =~= snippet_labels(
        snippet_models(selected@),
    ));
    let ghost sel_seq = selected@;
    let by_label = crate::lexical::sort_by_text_keys(selected, labels);
    proof {
        crate::lexical::lemma_sorted_by_text_keys_map(sel_seq, snippet_labels(sel), |s: MemorySnippet| snippet_model(s));
    }
    let ghost bl = snippet_models(by_label@);
    assert(bl == crate::lexical::sorted_by_text_keys(sel, snippet_labels(sel)));
    let prio = stamps_by_priority(&by_label);
    let ghost bl_seq = by_label@;
    let ordered = sort_by_stamps(by_label, prio);
    proof {
        lemma_sorted_by_stamps_map(bl_seq, prio@, |s: MemorySnippet| snippet_model(s));
    }
    let ghost om = snippet_models(ordered@);
    assert(om == sorted_by_stamps(bl, priority_stamps(bl)));
    let mut lines: Vec<Vec<char>> = Vec::new();
    let mut k: usize = 0;
    while k < ordered.len()
        invariant
            k <= ordered@.len(),
            om == snippet_models(ordered@),
            text_views(lines@) =~= om.map_values(|m: SnippetModel| context_line(m)).take(k as int),
        decreases ordered.len() - k,
    {
        let mut line = chars_of("- [");
        push_str(&mut line, ordered[k].label.as_str());
        push_str(&mut line, "] ");
        push_str(&mut line, ordered[k].content.as_str());
        let ghost l0 = text_views(lines@);
        lines.push(line);
        assert(text_views(lines@) =~= l0.push(context_line(om[k as int])));
        assert(om.map_values(|m: SnippetModel| context_line(m)).take(k + 1) =~= om.map_values(
            |m: SnippetModel| context_line(m),
        ).take(k as int).push(context_line(om[k as int])));
        k = k + 1;
    }
    assert(om.map_values(|m: SnippetModel| context_line(m)).take(ordered@.len() as int) =~= om.map_values(
        |m: SnippetModel| context_line(m),
    ));
    assert(crate::text::views(lines@) =~= text_views(lines@));
    string_of(&join_exec(&lines, "\n"))
}

/// The memory sources of the agent and its supermemory kernel.
#[derive(Debug)]
pub struct MemorySubsystem {
    targets: Vec<MemoryTarget>,
    default_top_k: usize,
    supermemory: SupermemoryKernel,
}

/// The sources a configuration enables, in the order identity, long-term
/// memory, history.
pub open spec fn enabled_targets(config: MemoryConfig) -> Seq<MemoryTarget> {
    let a = if config.load_identity {
        seq![MemoryTarget::Identity]
    } else {
        Seq::empty()
    };
    let b = if config.load_memory_md {
        a.push(MemoryTarget::LongTerm)
    } else {
        a
    };
    if config.load_history_md {
        b.push(MemoryTarget::History)
    } else {
        b
    }
}

impl MemorySubsystem {
    pub closed spec fn targets_spec(&self) -> Seq<MemoryTarget> {
        self.targets@
    }

    pub closed spec fn top_k_spec(&self) -> usize {
        self.default_top_k
    }

    /// The enabled sources, and the learning loop's `top_k` (at least one).
    pub fn from_config(config: &MemoryConfig, learning: &LearningConfig) -> (r: Self)
        ensures
            r.targets_spec() == enabled_targets(*config),
            r.top_k_spec() == if learning.top_k > 1 {
                learning.top_k
            } else {
                1
            },
    {
        let mut targets: Vec<MemoryTarget> = Vec::new();
        if config.load_identity {
            targets.push(MemoryTarget::Identity);
        }
        if config.load_memory_md {
            targets.push(MemoryTarget::LongTerm);
        }
        if config.load_history_md {
            targets.push(MemoryTarget::History);
        }
        assert(targets@ =~= enabled_targets(*config));
        MemorySubsystem {
            targets,
            default_top_k: if learning.top_k > 1 {
                learning.top_k
            } else {
                1
            },
            supermemory: SupermemoryKernel::new(),
        }
    }

    /// At least one source must be enabled.
    pub fn validate(&self) -> (r: Result<(), String>)
        ensures
            r is Ok <==> self.targets_spec().len() > 0,
            r matches Err(m) ==> m@ == "at least one memory target should be enabled"@,
    {
        if self.targets.len() == 0 {
            return Err(text("at least one memory target should be enabled"));
        }
        Ok(())
    }

    pub fn load_targets(&self) -> (r: &[MemoryTarget])
        ensures
            r@ == self.targets_spec(),
    {
        self.targets.as_slice()
    }

    pub fn supermemory_kernel(&self) -> (r: &SupermemoryKernel)
        ensures
            r.chunk_char_target == 560,
            r.chunk_overlap_chars == 72,
            r.embedding_dimensions == 64,
    {
        proof {
            use_type_invariant(self);
        }
        &self.supermemory
    }

    #[verifier::type_invariant]
    spec fn kernel_is_standard(self) -> bool {
        &&& self.supermemory.chunk_char_target == 560
        &&& self.supermemory.chunk_overlap_chars == 72
        &&& self.supermemory.embedding_dimensions == 64
    }

    /// The snippets that fit the request best (see `selection`).
    pub fn select_relevant_memories(&self, request: &MemoryContextRequest) -> (r: Vec<MemorySnippet>)
        requires
            3 * memory_terms(request.user_input@).len() + 11 <= usize::MAX,
        ensures
            snippet_models(r@) == selection(
                self.targets_spec(),
                request.session_history@,
                memory_terms(request.user_input@),
                request.max_items,
            ),
    {
        select_memories(&self.targets, request)
    }

    /// The memory block of a prompt (see `memory_context_spec`).
    pub fn build_memory_context_for(&self, user_input: &str, session_history: &[ChatMessage]) -> (r: String)
        requires
            3 * memory_terms(user_input@).len() + 11 <= usize::MAX,
        ensures
            r@ == memory_context_spec(self.targets_spec(), session_history@, user_input@),
    {
        memory_context(&self.targets, user_input, session_history)
    }

    /// The memory block with no user input and no conversation.
    pub fn build_memory_context(&self) -> (r: String)
        ensures
            r@ == memory_context_spec(self.targets_spec(), Seq::empty(), Seq::empty()),
    {
        let empty: Vec<ChatMessage> = Vec::new();
        proof {
            reveal_strlit("");
            let e = Seq::<char>::empty();
            assert(""@ =~= e);
            let parts = split_chars(e, sep_pred(Separator::NonAlnum));
            assert(parts == seq![Seq::<char>::empty()]);
            assert(parts.drop_last() =~= Seq::<Seq<char>>::empty());
            assert(parts.last().len() == 0);
            assert(long_pieces(parts.drop_last()) =~= Seq::<Seq<char>>::empty());
            assert(long_pieces(parts) =~= Seq::<Seq<char>>::empty());
            assert(long_pieces(parts).map_values(|p: Seq<char>| lower(p)) =~= Seq::<Seq<char>>::empty());
            assert(memory_terms(""@).len() == 0);
        }
        assert(empty@ =~= Seq::<ChatMessage>::empty());
        memory_context(&self.targets, "", empty.as_slice())
    }
}

// ---------------------------------------------------------------------------
// What every selection satisfies.
// ---------------------------------------------------------------------------

proof fn lemma_distinct_content(ms: Seq<SnippetModel>)
    ensures
        crate::groups::no_repeats(normalized_contents(distinct_content(ms))),
        forall|k: int| 0 <= k < distinct_content(ms).len() ==> ms.contains(#[trigger] distinct_content(ms)[k]),
    decreases ms.len(),
{
    if ms.len() > 0 {
        let p = ms.drop_last();
        lemma_distinct_content(p);
        let d = distinct_content(p);
        let r = distinct_content(ms);
        assert forall|k: int| 0 <= k < r.len() implies ms.contains(#[trigger] r[k]) by {
            if k < d.len() {
                assert(r[k] == d[k]);
                let i = choose|i: int| 0 <= i < p.len() && p[i] == d[k];
                assert(ms[i] == d[k]);
            } else {
                assert(ms[ms.len() - 1] == r[k]);
            }
        }
        if !normalized_contents(d).contains(normalize_spec(ms.last().2)) {
            assert forall|i: int, j: int|
                0 <= i < r.len() && 0 <= j < r.len() && i != j implies normalized_contents(r)[i] != normalized_contents(
                r,
            )[j] by {
                if i < d.len() && j < d.len() {
                    assert(normalized_contents(r)[i] == normalized_contents(d)[i]);
                    assert(normalized_contents(r)[j] == normalized_contents(d)[j]);
                } else if i < d.len() {
                    assert(normalized_contents(r)[i] == normalized_contents(d)[i]);
                } else if j < d.len() {
                    assert(normalized_contents(r)[j] == normalized_contents(d)[j]);
                }
            }
        }
    }
}

proof fn lemma_scoring(ms: Seq<SnippetModel>, query: Seq<Seq<char>>)
    ensures
        forall|k: int| 0 <= k < scoring(ms, query).len() ==> ms.contains(#[trigger] scoring(ms, query)[k]),
        forall|k: int| 0 <= k < scoring(ms, query).len() ==> score_spec(#[trigger] scoring(ms, query)[k], query) > 0,
        crate::groups::no_repeats(normalized_contents(ms)) ==> crate::groups::no_repeats(
            normalized_contents(scoring(ms, query)),
        ),
        (forall|i: int, j: int|
            0 <= i <= j < ms.len() ==> score_spec(#[trigger] ms[i], query) >= score_spec(#[trigger] ms[j], query))
            ==> (forall|i: int, j: int|
            0 <= i <= j < scoring(ms, query).len() ==> score_spec(#[trigger] scoring(ms, query)[i], query)
                >= score_spec(#[trigger] scoring(ms, query)[j], query)),
    decreases ms.len(),
{
    if ms.len() > 0 {
        let p = ms.drop_last();
        lemma_scoring(p, query);
        let sp = scoring(p, query);
        let sm = scoring(ms, query);
        let x = ms.last();
        assert forall|k: int| 0 <= k < sm.len() implies ms.contains(#[trigger] sm[k]) by {
            if k < sp.len() {
                assert(sm[k] == sp[k]);
                let i = choose|i: int| 0 <= i < p.len() && p[i] == sp[k];
                assert(ms[i] == sp[k]);
            } else {
                assert(ms[ms.len() - 1] == sm[k]);
            }
        }
        assert forall|k: int| 0 <= k < sm.len() implies score_spec(#[trigger] sm[k], query) > 0 by {
            if k < sp.len() {
                assert(sm[k] == sp[k]);
            }
        }
        if crate::groups::no_repeats(normalized_contents(ms)) {
            assert(crate::groups::no_repeats(normalized_contents(p))) by {
                assert forall|i: int, j: int|
                    0 <= i < p.len() && 0 <= j < p.len() && i != j implies normalized_contents(p)[i]
                    != normalized_contents(p)[j] by {
                    assert(normalized_contents(p)[i] == normalized_contents(ms)[i]);
                    assert(normalized_contents(p)[j] == normalized_contents(ms)[j]);
                }
            }
            if score_spec(x, query) > 0 {
                assert forall|i: int, j: int|
                    0 <= i < sm.len() && 0 <= j < sm.len() && i != j implies normalized_contents(sm)[i]
                    != normalized_contents(sm)[j] by {
                    if i < sp.len() && j < sp.len() {
                        assert(normalized_contents(sm)[i] == normalized_contents(sp)[i]);
                        assert(normalized_contents(sm)[j] == normalized_contents(sp)[j]);
                    } else {
                        let k = if i < sp.len() { i } else { j };
                        assert(sm[k] == sp[k]);
                        let w = choose|w: int| 0 <= w < p.len() && p[w] == sp[k];
                        assert(normalized_contents(ms)[w] == normalize_spec(sp[k].2));
                        assert(normalized_contents(ms)[ms.len() - 1] == normalize_spec(x.2));
                    }
                }
            }
        }
        if forall|i: int, j: int|
            0 <= i <= j < ms.len() ==> score_spec(#[trigger] ms[i], query) >= score_spec(#[trigger] ms[j], query) {
            assert forall|i: int, j: int|
                0 <= i <= j < p.len() implies score_spec(#[trigger] p[i], query) >= score_spec(#[trigger] p[j], query) by {
                assert(p[i] == ms[i] && p[j] == ms[j]);
            }
            assert forall|i: int, j: int|
                0 <= i <= j < sm.len() implies score_spec(#[trigger] sm[i], query) >= score_spec(#[trigger] sm[j], query) by {
                if j < sp.len() {
                    assert(sm[i] == sp[i] && sm[j] == sp[j]);
                } else if i < sp.len() {
                    assert(sm[i] == sp[i]);
                    assert(sm[j] == x);
                    let w = choose|w: int| 0 <= w < p.len() && p[w] == sp[i];
                    assert(ms[w] == sp[i]);
                    assert(ms[ms.len() - 1] == x);
                }
            }
        }
    }
}

proof fn lemma_candidate_scores(targets: Seq<MemoryTarget>, history: Seq<ChatMessage>, query: Seq<Seq<char>>, m: SnippetModel)
    requires
        candidate_models(targets, history).contains(m),
    ensures
        0 < score_spec(m, query) <= 11 + 3 * query.len(),
{
    lemma_candidate_priorities(targets, history);
    let c = candidate_models(targets, history);
    let k = choose|k: int| 0 <= k < c.len() && c[k] == m;
    assert(c[k].4 <= 10);
    lemma_history_priority_positive(targets, history, k);
    let parts = long_pieces(split_chars(scored_text(m), sep_pred(Separator::NonAlnum))).map_values(
        |p: Seq<char>| lower(p),
    );
    crate::groups::lemma_dedup_first(parts);
    lemma_overlap_in_bound(memory_terms(scored_text(m)), query);
}

proof fn lemma_history_priority_positive(targets: Seq<MemoryTarget>, history: Seq<ChatMessage>, k: int)
    requires
        0 <= k < candidate_models(targets, history).len(),
    ensures
        candidate_models(targets, history)[k].4 >= 5,
    decreases targets.len(),
{
    if targets.len() > 0 {
        let a = candidate_models(targets.drop_last(), history);
        let b = target_models(targets.last(), history);
        if k < a.len() {
            assert(candidate_models(targets, history)[k] == a[k]);
            lemma_history_priority_positive(targets.drop_last(), history, k);
        } else {
            assert(candidate_models(targets, history)[k] == b[k - a.len()]);
        }
    }
}

/// Memory put into a prompt never repeats itself and is relevant: no two
/// selected snippets have the same normalised content, every one scores
/// above zero, there are at most `max_items`, and a better-scoring snippet
/// never comes after a worse one.
pub proof fn law_selection_is_distinct_and_ranked(
    targets: Seq<MemoryTarget>,
    history: Seq<ChatMessage>,
    query: Seq<Seq<char>>,
    max_items: usize,
)
    requires
        3 * query.len() + 11 <= u64::MAX,
    ensures
        selection(targets, history, query, max_items).len() <= max_items,
        crate::groups::no_repeats(normalized_contents(selection(targets, history, query, max_items))),
        forall|k: int|
            0 <= k < selection(targets, history, query, max_items).len() ==> score_spec(
                #[trigger] selection(targets, history, query, max_items)[k],
                query,
            ) > 0,
        forall|i: int, j: int|
            0 <= i <= j < selection(targets, history, query, max_items).len() ==> score_spec(
                #[trigger] selection(targets, history, query, max_items)[i],
                query,
            ) >= score_spec(#[trigger] selection(targets, history, query, max_items)[j], query),
{
    let c = candidate_models(targets, history);
    let d = distinct_content(c);
    lemma_distinct_content(c);
    let fp = |m: SnippetModel| (u64::MAX - m.4) as u64;
    assert(priority_stamps(d) =~= d.map_values(fp));
    crate::timeline::lemma_sorted_by_own_stamps(d, fp);
    let bp = sorted_by_stamps(d, priority_stamps(d));
    let fs = |m: SnippetModel| (u64::MAX - score_spec(m, query)) as u64;
    assert(score_stamps(bp, query) =~= bp.map_values(fs));
    crate::timeline::lemma_sorted_by_own_stamps(bp, fs);
    let bs = sorted_by_stamps(bp, score_stamps(bp, query));
    let fnorm = |m: SnippetModel| normalize_spec(m.2);
    assert(normalized_contents(d) =~= d.map_values(fnorm));
    crate::groups::lemma_permutation_no_repeats(d, bp, fnorm);
    crate::groups::lemma_permutation_no_repeats(bp, bs, fnorm);
    assert(normalized_contents(bs) =~= bs.map_values(fnorm));
    assert forall|k: int| 0 <= k < bs.len() implies 0 < score_spec(#[trigger] bs[k], query) <= 11 + 3 * query.len() by {
        bs.to_multiset_ensures();
        bp.to_multiset_ensures();
        d.to_multiset_ensures();
        assert(bs.contains(bs[k]));
        assert(bs.to_multiset().count(bs[k]) > 0);
        assert(bp.to_multiset().count(bs[k]) > 0);
        assert(d.to_multiset().count(bs[k]) > 0);
        assert(d.contains(bs[k]));
        let w = choose|w: int| 0 <= w < d.len() && d[w] == bs[k];
        assert(c.contains(d[w]));
        lemma_candidate_scores(targets, history, query, bs[k]);
    }
    assert forall|i: int, j: int| 0 <= i <= j < bs.len() implies score_spec(#[trigger] bs[i], query) >= score_spec(
        #[trigger] bs[j],
        query,
    ) by {
        assert(fs(bs[i]) <= fs(bs[j]));
        assert(0 < score_spec(bs[i], query) <= 11 + 3 * query.len());
        assert(0 < score_spec(bs[j], query) <= 11 + 3 * query.len());
    }
    lemma_scoring(bs, query);
    let r = scoring(bs, query);
    let n = if max_items < r.len() {
        max_items as int
    } else {
        r.len() as int
    };
    let sel = r.take(n);
    assert(sel == selection(targets, history, query, max_items));
    assert forall|i: int, j: int|
        0 <= i < sel.len() && 0 <= j < sel.len() && i != j implies normalized_contents(sel)[i] != normalized_contents(
        sel,
    )[j] by {
        assert(normalized_contents(sel)[i] == normalized_contents(r)[i]);
        assert(normalized_contents(sel)[j] == normalized_contents(r)[j]);
    }
    assert forall|k: int| 0 <= k < sel.len() implies score_spec(#[trigger] sel[k], query) > 0 by {
        assert(sel[k] == r[k]);
    }
    assert forall|i: int, j: int| 0 <= i <= j < sel.len() implies score_spec(#[trigger] sel[i], query) >= score_spec(
        #[trigger] sel[j],
        query,
    ) by {
        assert(sel[i] == r[i] && sel[j] == r[j]);
    }
}

} // verus!
