//! What the document compiler's last run says about the repository and about
//! one target file: the files compiled, the placement rules that matched, the
//! invalidation chain through the dependency graph, and the projections rebuilt.
use vstd::prelude::*;

use crate::dependencies::{
    compiler_projection_key, depends_on, depends_transitively, normalize_compiler_target, normalize_target_spec,
    projection_key_spec, reverse_dependents, transitive_dependents,
};
use crate::lexical::{sorted_distinct, strictly_sorted};
use crate::memory::json::{json_member, json_member_text, member_spec, member_text_spec, JsonValue};
use crate::observability::business::string_views;
use crate::observability::whitebox::{json_u64, json_u64_exec};
use crate::text::{chars_eq, chars_eq_str, chars_of, string_of};

verus! {

// ---------------------------------------------------------------------------
// Reading the compile payload.
// ---------------------------------------------------------------------------

/// The member `key` when it is an array.
pub open spec fn member_items(v: JsonValue, key: Seq<char>) -> Option<Seq<JsonValue>> {
    match member_spec(v, key) {
        Some(JsonValue::Array(items)) => Some(items@),
        _ => None,
    }
}

/// The length of the array member `key`, 0 where there is none.
pub open spec fn member_count(v: JsonValue, key: Seq<char>) -> nat {
    match member_items(v, key) {
        Some(items) => items.len(),
        None => 0,
    }
}

/// The placement rule that matched a compiled file.
pub open spec fn placement_rule(entry: JsonValue) -> Option<Seq<char>> {
    match member_spec(entry, "placement"@) {
        Some(p) => member_text_spec(p, "rule_id"@),
        None => None,
    }
}

/// The placement rules of the compiled files that name one, in order.
pub open spec fn placement_rules(items: Seq<JsonValue>) -> Seq<Seq<char>>
    decreases items.len(),
{
    if items.len() == 0 {
        Seq::empty()
    } else {
        let r = placement_rules(items.drop_last());
        match placement_rule(items.last()) {
            Some(x) => r.push(x),
            None => r,
        }
    }
}

/// The rules matched in a compile payload, whatever their order.
pub open spec fn rule_hits_of(compile: Option<JsonValue>) -> Seq<Seq<char>> {
    match compile {
        Some(c) => match member_items(c, "compiled_files"@) {
            Some(items) => placement_rules(items),
            None => Seq::empty(),
        },
        None => Seq::empty(),
    }
}

fn member_items_exec<'a>(v: &'a JsonValue, key: &str) -> (r: Option<&'a Vec<JsonValue>>)
    ensures
        r matches Some(x) ==> member_items(*v, key@) == Some(x@),
        r is None ==> member_items(*v, key@) is None,
{
    match json_member(v, key) {
        Some(JsonValue::Array(items)) => Some(items),
        _ => None,
    }
}

fn member_count_exec(v: &JsonValue, key: &str) -> (r: usize)
    ensures
        r == member_count(*v, key@),
{
    match member_items_exec(v, key) {
        Some(items) => items.len(),
        None => 0,
    }
}

fn placement_rule_exec(entry: &JsonValue) -> (r: Option<String>)
    ensures
        crate::observability::signal::opt_view(r) == placement_rule(*entry),
{
    match json_member(entry, "placement") {
        Some(p) => json_member_text(p, "rule_id"),
        None => None,
    }
}

fn placement_rules_exec(items: &Vec<JsonValue>) -> (r: Vec<String>)
    ensures
        string_views(r@) == placement_rules(items@),
{
    let mut out: Vec<String> = Vec::new();
    let mut i: usize = 0;
    while i < items.len()
        invariant
            i <= items@.len(),
            string_views(out@) == placement_rules(items@.take(i as int)),
        decreases items.len() - i,
    {
        let ghost t1 = items@.take(i + 1);
        assert(t1.drop_last() =~= items@.take(i as int));
        assert(t1.last() == items@[i as int]);
        match placement_rule_exec(&items[i]) {
            Some(x) => {
                let ghost o0 = string_views(out@);
                let ghost xv = x@;
                out.push(x);
                assert(string_views(out@) =~= o0.push(xv));
            },
            None => {},
        }
        i = i + 1;
    }
    assert(items@.take(items@.len() as int) =~= items@);
    out
}

// ---------------------------------------------------------------------------
// The status view.
// ---------------------------------------------------------------------------

/// The counts a compile payload reports.
#[derive(Debug)]
pub struct CompileSummary {
    pub changed_files: usize,
    pub expanded_targets: usize,
    pub compiled_files: usize,
    pub failed_files: usize,
    pub schema_registry_version: Option<String>,
    pub dependency_graph_ref: Option<String>,
}

/// What the compiler's last run says about the repository.
#[derive(Debug)]
pub struct CompilerStatus {
    pub compile_summary: Option<CompileSummary>,
    pub rule_hits: Vec<String>,
    pub dependency_graph_edges: usize,
}

/// The summary of a compile payload.
pub open spec fn summary_matches(s: CompileSummary, c: JsonValue) -> bool {
    &&& s.changed_files == member_count(c, "changed_files"@)
    &&& s.expanded_targets == member_count(c, "expanded_targets"@)
    &&& s.compiled_files == member_count(c, "compiled_files"@)
    &&& s.failed_files == member_count(c, "failed_files"@)
    &&& crate::observability::signal::opt_view(s.schema_registry_version) == member_text_spec(
        c,
        "schema_registry_version"@,
    )
    &&& crate::observability::signal::opt_view(s.dependency_graph_ref) == member_text_spec(c, "dependency_graph_ref"@)
}

/// Summarises the compiler's last run: the counts of its compile payload
/// (none without one), the placement rules it matched (sorted, each once),
/// and the number of files in the dependency graph.
pub fn compiler_status(compile: Option<&JsonValue>, dependency_graph_edges: usize) -> (r: CompilerStatus)
    ensures
        match compile {
            Some(c) => r.compile_summary matches Some(s) && summary_matches(s, *c),
            None => r.compile_summary is None,
        },
        strictly_sorted(string_views(r.rule_hits@)),
        forall|t: Seq<char>| string_views(r.rule_hits@).contains(t) <==> rule_hits_of(
            match compile {
                Some(c) => Some(*c),
                None => None,
            },
        ).contains(t),
        r.dependency_graph_edges == dependency_graph_edges,
{
    match compile {
        Some(c) => {
            let summary = CompileSummary {
                changed_files: member_count_exec(c, "changed_files"),
                expanded_targets: member_count_exec(c, "expanded_targets"),
                compiled_files: member_count_exec(c, "compiled_files"),
                failed_files: member_count_exec(c, "failed_files"),
                schema_registry_version: json_member_text(c, "schema_registry_version"),
                dependency_graph_ref: json_member_text(c, "dependency_graph_ref"),
            };
            let hits = match member_items_exec(c, "compiled_files") {
                Some(items) => placement_rules_exec(items),
                None => Vec::new(),
            };
            CompilerStatus {
                compile_summary: Some(summary),
                rule_hits: sorted_distinct(&hits),
                dependency_graph_edges,
            }
        },
        None => {
            let hits: Vec<String> = Vec::new();
            CompilerStatus { compile_summary: None, rule_hits: sorted_distinct(&hits), dependency_graph_edges }
        },
    }
}

// ---------------------------------------------------------------------------
// The dependency graph around a target.
// ---------------------------------------------------------------------------

/// The files `key` depends on, as listed by its entry (none without one).
pub open spec fn listed_dependencies(edges: Seq<(String, Vec<String>)>, key: Seq<char>) -> Seq<Seq<char>>
    decreases edges.len(),
{
    if edges.len() == 0 {
        Seq::empty()
    } else if edges.last().0@ == key {
        string_views(edges.last().1@)
    } else {
        listed_dependencies(edges.drop_last(), key)
    }
}

/// The dependency graph around one target file.
#[derive(Debug)]
pub struct CompilerGraph {
    pub target_file: String,
    pub direct_dependencies: Vec<String>,
    pub direct_dependents: Vec<String>,
    pub transitive_dependents: Vec<String>,
    pub edge_count: usize,
    pub nodes: Vec<String>,
    pub edges: Vec<(String, String)>,
}

/// The graph's edges: the target to each of its dependencies, then each
/// direct dependent to the target.
pub open spec fn graph_edges(t: Seq<char>, deps: Seq<Seq<char>>, dependents: Seq<Seq<char>>) -> Seq<(Seq<char>, Seq<char>)> {
    deps.map_values(|d: Seq<char>| (t, d)) + dependents.map_values(|d: Seq<char>| (d, t))
}

pub open spec fn pair_views(v: Seq<(String, String)>) -> Seq<(Seq<char>, Seq<char>)> {
    v.map_values(|p: (String, String)| (p.0@, p.1@))
}

/// What the graph around `target` holds, for a graph whose files each have
/// one entry.
pub open spec fn graph_matches(r: CompilerGraph, edges: Seq<(String, Vec<String>)>, target: Seq<char>) -> bool {
    let t = normalize_target_spec(target);
    &&& r.target_file@ == t
    &&& string_views(r.direct_dependencies@) == listed_dependencies(edges, t)
    &&& strictly_sorted(string_views(r.direct_dependents@))
    &&& forall|s: Seq<char>| string_views(r.direct_dependents@).contains(s) <==> depends_on(edges, s, t)
    &&& strictly_sorted(string_views(r.transitive_dependents@))
    &&& forall|s: Seq<char>| #[trigger] string_views(r.transitive_dependents@).contains(s) ==> depends_transitively(edges, t, s)
    &&& forall|s: Seq<char>| depends_on(edges, s, t) ==> #[trigger] string_views(r.transitive_dependents@).contains(s)
    &&& forall|m: Seq<char>, s: Seq<char>|
        #![trigger string_views(r.transitive_dependents@).contains(m), depends_on(edges, s, m)]
        string_views(r.transitive_dependents@).contains(m) && depends_on(edges, s, m)
            ==> string_views(r.transitive_dependents@).contains(s)
    &&& r.edge_count == edges.len()
    &&& strictly_sorted(string_views(r.nodes@))
    &&& forall|x: Seq<char>|
        string_views(r.nodes@).contains(x) <==> (x == t || string_views(r.direct_dependencies@).contains(x)
            || string_views(r.direct_dependents@).contains(x) || string_views(r.transitive_dependents@).contains(x))
    &&& pair_views(r.edges@) == graph_edges(t, string_views(r.direct_dependencies@), string_views(r.direct_dependents@))
}

fn copy_strings(v: &Vec<String>) -> (r: Vec<String>)
    ensures
        string_views(r@) == string_views(v@),
{
    let mut out: Vec<String> = Vec::new();
    let mut i: usize = 0;
    while i < v.len()
        invariant
            i <= v@.len(),
            string_views(out@) =~= string_views(v@).take(i as int),
        decreases v.len() - i,
    {
        let ghost o0 = string_views(out@);
        out.push(v[i].clone());
        assert(string_views(out@) =~= o0.push(v@[i as int]@));
        assert(string_views(v@).take(i + 1) =~= string_views(v@).take(i as int).push(v@[i as int]@));
        i = i + 1;
    }
    assert(string_views(v@).take(v@.len() as int) =~= string_views(v@));
    out
}

fn listed_dependencies_exec(edges: &Vec<(String, Vec<String>)>, key: &Vec<char>) -> (r: Vec<String>)
    ensures
        string_views(r@) == listed_dependencies(edges@, key@),
{
    let mut i: usize = edges.len();
    assert(edges@.take(edges@.len() as int) =~= edges@);
    while i > 0
        invariant
            i <= edges@.len(),
            listed_dependencies(edges@, key@) == listed_dependencies(edges@.take(i as int), key@),
        decreases i,
    {
        let ghost t = edges@.take(i as int);
        assert(t.drop_last() =~= edges@.take(i - 1));
        assert(t.last() == edges@[i - 1]);
        let k = chars_of(edges[i - 1].0.as_str());
        if chars_eq(&k, key) {
            return copy_strings(&edges[i - 1].1);
        }
        i = i - 1;
    }
    Vec::new()
}

fn push_all_strings(out: &mut Vec<String>, v: &Vec<String>)
    ensures
        string_views(final(out)@) == string_views(old(out)@) + string_views(v@),
{
    let ghost base = string_views(out@);
    let mut i: usize = 0;
    while i < v.len()
        invariant
            i <= v@.len(),
            string_views(out@) =~= base + string_views(v@).take(i as int),
        decreases v.len() - i,
    {
        let ghost o0 = string_views(out@);
        out.push(v[i].clone());
        assert(string_views(out@) =~= o0.push(v@[i as int]@));
        assert(string_views(v@).take(i + 1) =~= string_views(v@).take(i as int).push(v@[i as int]@));
        i = i + 1;
    }
    assert(string_views(v@).take(v@.len() as int) =~= string_views(v@));
}

/// The dependency graph around `target_file` (see `graph_matches`): its
/// dependencies, its direct and transitive dependents, every file named (sorted,
/// each once), and the edges to and from it. `edges` lists each file of the
/// graph once, with the files it depends on.
pub fn compiler_graph(edges: &Vec<(String, Vec<String>)>, target_file: &str) -> (r: CompilerGraph)
    ensures
        graph_matches(r, edges@, target_file@),
{
    let normalized = normalize_compiler_target(target_file);
    let n = chars_of(normalized.as_str());
    let deps = listed_dependencies_exec(edges, &n);
    let dependents = reverse_dependents(edges, normalized.as_str());
    let transitive = transitive_dependents(edges, normalized.as_str());
    let mut all: Vec<String> = Vec::new();
    all.push(normalized.clone());
    push_all_strings(&mut all, &deps);
    push_all_strings(&mut all, &dependents);
    push_all_strings(&mut all, &transitive);
    let ghost av = string_views(all@);
    assert forall|x: Seq<char>|
        av.contains(x) <==> (x == normalized@ || string_views(deps@).contains(x) || string_views(dependents@).contains(x)
            || string_views(transitive@).contains(x)) by {
        let a0 = seq![normalized@];
        let a1 = a0 + string_views(deps@);
        let a2 = a1 + string_views(dependents@);
        assert(av == a2 + string_views(transitive@));
        if av.contains(x) {
            let k = choose|k: int| 0 <= k < av.len() && av[k] == x;
            if k >= a2.len() {
                assert(string_views(transitive@)[k - a2.len()] == x);
            } else if k >= a1.len() {
                assert(a2[k] == x);
                assert(string_views(dependents@)[k - a1.len()] == x);
            } else if k >= 1 {
                assert(a1[k] == x);
                assert(string_views(deps@)[k - 1] == x);
            } else {
                assert(a1[0] == x);
            }
        }
        if x == normalized@ {
            assert(av[0] == x);
        }
        if string_views(deps@).contains(x) {
            let k = choose|k: int| 0 <= k < string_views(deps@).len() && string_views(deps@)[k] == x;
            assert(av[1 + k] == x);
        }
        if string_views(dependents@).contains(x) {
            let k = choose|k: int| 0 <= k < string_views(dependents@).len() && string_views(dependents@)[k] == x;
            assert(av[a1.len() + k] == x);
        }
        if string_views(transitive@).contains(x) {
            let k = choose|k: int| 0 <= k < string_views(transitive@).len() && string_views(transitive@)[k] == x;
            assert(av[a2.len() + k] == x);
        }
    }
    let nodes = sorted_distinct(&all);
    let mut out_edges: Vec<(String, String)> = Vec::new();
    let ghost t = normalized@;
    let mut i: usize = 0;
    while i < deps.len()
        invariant
            i <= deps@.len(),
            t == normalized@,
            pair_views(out_edges@) =~= string_views(deps@).take(i as int).map_values(|d: Seq<char>| (t, d)),
        decreases deps.len() - i,
    {
        let ghost o0 = pair_views(out_edges@);
        out_edges.push((normalized.clone(), deps[i].clone()));
        assert(pair_views(out_edges@) =~= o0.push((t, deps@[i as int]@)));
        assert(string_views(deps@).take(i + 1) =~= string_views(deps@).take(i as int).push(deps@[i as int]@));
        i = i + 1;
    }
    assert(string_views(deps@).take(deps@.len() as int) =~= string_views(deps@));
    let ghost e0 = pair_views(out_edges@);
    let mut j: usize = 0;
    while j < dependents.len()
        invariant
            j <= dependents@.len(),
            t == normalized@,
            pair_views(out_edges@) =~= e0 + string_views(dependents@).take(j as int).map_values(
                |d: Seq<char>| (d, t),
            ),
        decreases dependents.len() - j,
    {
        let ghost o0 = pair_views(out_edges@);
        out_edges.push((dependents[j].clone(), normalized.clone()));
        assert(pair_views(out_edges@) =~= o0.push((dependents@[j as int]@, t)));
        assert(string_views(dependents@).take(j + 1) =~= string_views(dependents@).take(j as int).push(
            dependents@[j as int]@,
        ));
        j = j + 1;
    }
    assert(string_views(dependents@).take(dependents@.len() as int) =~= string_views(dependents@));
    CompilerGraph {
        target_file: normalized,
        direct_dependencies: deps,
        direct_dependents: dependents,
        transitive_dependents: transitive,
        edge_count: edges.len(),
        nodes,
        edges: out_edges,
    }
}

// ---------------------------------------------------------------------------
// The explain view of one target.
// ---------------------------------------------------------------------------

pub open spec fn deref_json(o: Option<&JsonValue>) -> Option<JsonValue> {
    match o {
        Some(x) => Some(*x),
        None => None,
    }
}

pub open spec fn deref_items(o: Option<&Vec<JsonValue>>) -> Option<Seq<JsonValue>> {
    match o {
        Some(x) => Some(x@),
        None => None,
    }
}

/// The first item from position `i` on whose `source_file` is `n`.
pub open spec fn entry_from(items: Seq<JsonValue>, n: Seq<char>, i: int) -> Option<JsonValue>
    decreases items.len() - i,
{
    if i < 0 || i >= items.len() {
        None
    } else if member_text_spec(items[i], "source_file"@) == Some(n) {
        Some(items[i])
    } else {
        entry_from(items, n, i + 1)
    }
}

/// The compile payload's entry for file `n`.
pub open spec fn compiled_entry(compile: Option<JsonValue>, n: Seq<char>) -> Option<JsonValue> {
    match compile {
        Some(c) => match member_items(c, "compiled_files"@) {
            Some(items) => entry_from(items, n, 0),
            None => None,
        },
        None => None,
    }
}

/// The member `key` of an optional value.
pub open spec fn opt_member(o: Option<JsonValue>, key: Seq<char>) -> Option<JsonValue> {
    match o {
        Some(v) => member_spec(v, key),
        None => None,
    }
}

/// The array member `key` of an optional value.
pub open spec fn opt_items(o: Option<JsonValue>, key: Seq<char>) -> Option<Seq<JsonValue>> {
    match o {
        Some(v) => member_items(v, key),
        None => None,
    }
}

/// The codes of the errors that name one, in order.
pub open spec fn error_codes(items: Seq<JsonValue>) -> Seq<Seq<char>>
    decreases items.len(),
{
    if items.len() == 0 {
        Seq::empty()
    } else {
        let r = error_codes(items.drop_last());
        match member_text_spec(items.last(), "code"@) {
            Some(c) => r.push(c),
            None => r,
        }
    }
}

pub open spec fn is_text(v: JsonValue, n: Seq<char>) -> bool {
    match v {
        JsonValue::Text(s) => s@ == n,
        _ => false,
    }
}

/// The hot index's touched files include `n`.
pub open spec fn touched(hot: Option<JsonValue>, n: Seq<char>) -> bool {
    match opt_items(hot, "touched_files"@) {
        Some(items) => exists|i: int| 0 <= i < items.len() && #[trigger] is_text(items[i], n),
        None => false,
    }
}

/// What the compiler's last run says about one target file.
#[derive(Debug)]
pub struct CompilerExplain<'a> {
    pub target_file: String,
    pub projection_key: String,
    pub compiled_file: Option<&'a JsonValue>,
    pub placement_rule_id: Option<String>,
    pub schema_kinds: Option<&'a JsonValue>,
    pub error_codes: Vec<String>,
    pub changed_files: Option<&'a Vec<JsonValue>>,
    pub expanded_targets: Option<&'a Vec<JsonValue>>,
    pub direct_dependencies: Vec<String>,
    pub direct_dependents: Vec<String>,
    pub transitive_dependents: Vec<String>,
    pub invalidated_dependents: Option<&'a JsonValue>,
    pub projection_files: Option<&'a JsonValue>,
    pub rebuilt: bool,
    pub hot_index_touched: bool,
    pub hot_index_path: Option<String>,
    pub hot_index_total_entries: Option<u64>,
}

/// What the explain view of `target` holds.
pub open spec fn explain_matches(
    r: CompilerExplain,
    compile: Option<JsonValue>,
    hot: Option<JsonValue>,
    edges: Seq<(String, Vec<String>)>,
    target: Seq<char>,
    projection_found: bool,
) -> bool {
    let t = normalize_target_spec(target);
    let entry = compiled_entry(compile, t);
    &&& r.target_file@ == t
    &&& r.projection_key@ == projection_key_spec(t)
    &&& deref_json(r.compiled_file) == entry
    &&& crate::observability::signal::opt_view(r.placement_rule_id) == match entry {
        Some(e) => placement_rule(e),
        None => None,
    }
    &&& deref_json(r.schema_kinds) == opt_member(entry, "schema_kinds"@)
    &&& string_views(r.error_codes@) == match opt_items(entry, "errors"@) {
        Some(items) => error_codes(items),
        None => Seq::empty(),
    }
    &&& deref_items(r.changed_files) == opt_items(compile, "changed_files"@)
    &&& deref_items(r.expanded_targets) == opt_items(compile, "expanded_targets"@)
    &&& string_views(r.direct_dependencies@) == listed_dependencies(edges, t)
    &&& strictly_sorted(string_views(r.direct_dependents@))
    &&& forall|s: Seq<char>| string_views(r.direct_dependents@).contains(s) <==> depends_on(edges, s, t)
    &&& strictly_sorted(string_views(r.transitive_dependents@))
    &&& forall|s: Seq<char>| #[trigger] string_views(r.transitive_dependents@).contains(s) ==> depends_transitively(edges, t, s)
    &&& forall|s: Seq<char>| depends_on(edges, s, t) ==> #[trigger] string_views(r.transitive_dependents@).contains(s)
    &&& forall|m: Seq<char>, s: Seq<char>|
        #![trigger string_views(r.transitive_dependents@).contains(m), depends_on(edges, s, m)]
        string_views(r.transitive_dependents@).contains(m) && depends_on(edges, s, m)
            ==> string_views(r.transitive_dependents@).contains(s)
    &&& deref_json(r.invalidated_dependents) == opt_member(entry, "invalidated_dependents"@)
    &&& deref_json(r.projection_files) == opt_member(entry, "projection_files"@)
    &&& r.rebuilt == (entry is Some || projection_found)
    &&& r.hot_index_touched == touched(hot, t)
    &&& crate::observability::signal::opt_view(r.hot_index_path) == match hot {
        Some(h) => member_text_spec(h, "index_path"@),
        None => None,
    }
    &&& r.hot_index_total_entries == match opt_member(hot, "total_entries"@) {
        Some(v) => json_u64(v),
        None => None,
    }
}

fn compiled_entry_exec<'a>(compile: Option<&'a JsonValue>, n: &Vec<char>) -> (r: Option<&'a JsonValue>)
    ensures
        deref_json(r) == compiled_entry(deref_json(compile), n@),
{
    match compile {
        Some(c) => match member_items_exec(c, "compiled_files") {
            Some(items) => {
                let mut i: usize = 0;
                while i < items.len()
                    invariant
                        i <= items@.len(),
                        member_items(*c, "compiled_files"@) == Some(items@),
                        compile == Some(c),
                        entry_from(items@, n@, 0) == entry_from(items@, n@, i as int),
                    decreases items.len() - i,
                {
                    match json_member_text(&items[i], "source_file") {
                        Some(f) => {
                            let fc = chars_of(f.as_str());
                            if chars_eq(&fc, n) {
                                assert(entry_from(items@, n@, i as int) == Some(items@[i as int]));
                                return Some(&items[i]);
                            }
                        },
                        None => {},
                    }
                    i = i + 1;
                }
                None
            },
            None => None,
        },
        None => None,
    }
}

fn opt_member_exec<'a>(o: Option<&'a JsonValue>, key: &str) -> (r: Option<&'a JsonValue>)
    ensures
        deref_json(r) == opt_member(deref_json(o), key@),
{
    match o {
        Some(v) => {
            let m = json_member(v, key);
            match m {
                Some(x) => Some(x),
                None => None,
            }
        },
        None => None,
    }
}

fn opt_items_exec<'a>(o: Option<&'a JsonValue>, key: &str) -> (r: Option<&'a Vec<JsonValue>>)
    ensures
        deref_items(r) == opt_items(deref_json(o), key@),
{
    match o {
        Some(v) => member_items_exec(v, key),
        None => None,
    }
}

fn error_codes_exec(items: &Vec<JsonValue>) -> (r: Vec<String>)
    ensures
        string_views(r@) == error_codes(items@),
{
    let mut out: Vec<String> = Vec::new();
    let mut i: usize = 0;
    while i < items.len()
        invariant
            i <= items@.len(),
            string_views(out@) == error_codes(items@.take(i as int)),
        decreases items.len() - i,
    {
        let ghost t1 = items@.take(i + 1);
        assert(t1.drop_last() =~= items@.take(i as int));
        assert(t1.last() == items@[i as int]);
        match json_member_text(&items[i], "code") {
            Some(c) => {
                let ghost o0 = string_views(out@);
                let ghost cv = c@;
                out.push(c);
                assert(string_views(out@) =~= o0.push(cv));
            },
            None => {},
        }
        i = i + 1;
    }
    assert(items@.take(items@.len() as int) =~= items@);
    out
}

fn touched_exec(hot: Option<&JsonValue>, n: &Vec<char>) -> (r: bool)
    ensures
        r == touched(deref_json(hot), n@),
{
    match opt_items_exec(hot, "touched_files") {
        Some(items) => {
            let mut i: usize = 0;
            while i < items.len()
                invariant
                    i <= items@.len(),
                    opt_items(deref_json(hot), "touched_files"@) == Some(items@),
                    forall|j: int| 0 <= j < i ==> !is_text(#[trigger] items@[j], n@),
                decreases items.len() - i,
            {
                match &items[i] {
                    JsonValue::Text(s) => {
                        let sc = chars_of(s.as_str());
                        if chars_eq(&sc, n) {
                            proof {
                                let its = opt_items(deref_json(hot), "touched_files"@).unwrap();
                                assert(its == items@);
                                assert(is_text(its[i as int], n@));
                            }
                            return true;
                        }
                    },
                    _ => {},
                }
                i = i + 1;
            }
            false
        },
        None => false,
    }
}

/// Explains the compiler's last run for `target_file` (see `explain_matches`):
/// the compile payload's entry for it, the placement rule, schema kinds and
/// error codes of that entry, the invalidation chain (changed and expanded
/// files, its dependencies and direct and transitive dependents, the
/// dependents the entry invalidated), whether its projections were rebuilt
/// (`projection_found`: a graph, vector or search projection of it exists),
/// and what the hot index says of it.
pub fn compiler_explain<'a>(
    compile: Option<&'a JsonValue>,
    hot_index: Option<&'a JsonValue>,
    edges: &Vec<(String, Vec<String>)>,
    target_file: &str,
    projection_found: bool,
) -> (r: CompilerExplain<'a>)
    ensures
        explain_matches(r, deref_json(compile), deref_json(hot_index), edges@, target_file@, projection_found),
{
    let normalized = normalize_compiler_target(target_file);
    let n = chars_of(normalized.as_str());
    let key = compiler_projection_key(normalized.as_str());
    let entry = compiled_entry_exec(compile, &n);
    let rule = match entry {
        Some(e) => placement_rule_exec(e),
        None => None,
    };
    let codes = match opt_items_exec(entry, "errors") {
        Some(items) => error_codes_exec(items),
        None => {
            let v: Vec<String> = Vec::new();
            assert(string_views(v@) =~= Seq::<Seq<char>>::empty());
            v
        },
    };
    let hot_path = match hot_index {
        Some(h) => json_member_text(h, "index_path"),
        None => None,
    };
    let total = match opt_member_exec(hot_index, "total_entries") {
        Some(v) => json_u64_exec(v),
        None => None,
    };
    CompilerExplain {
        target_file: string_of(&n),
        projection_key: key,
        compiled_file: entry,
        placement_rule_id: rule,
        schema_kinds: opt_member_exec(entry, "schema_kinds"),
        error_codes: codes,
        changed_files: opt_items_exec(compile, "changed_files"),
        expanded_targets: opt_items_exec(compile, "expanded_targets"),
        direct_dependencies: listed_dependencies_exec(edges, &n),
        direct_dependents: reverse_dependents(edges, normalized.as_str()),
        transitive_dependents: transitive_dependents(edges, normalized.as_str()),
        invalidated_dependents: opt_member_exec(entry, "invalidated_dependents"),
        projection_files: opt_member_exec(entry, "projection_files"),
        rebuilt: entry.is_some() || projection_found,
        hot_index_touched: touched_exec(hot_index, &n),
        hot_index_path: hot_path,
        hot_index_total_entries: total,
    }
}

} // verus!
