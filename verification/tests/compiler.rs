use autoloop_core::compiler::{compiler_explain, compiler_graph, compiler_status};
use autoloop_core::memory::json::JsonValue;

fn obj(members: Vec<(&str, JsonValue)>) -> JsonValue {
    JsonValue::Object(members.into_iter().map(|(k, v)| (k.to_string(), v)).collect())
}

fn text(s: &str) -> JsonValue {
    JsonValue::Text(s.to_string())
}

fn texts(items: &[&str]) -> JsonValue {
    JsonValue::Array(items.iter().map(|s| text(s)).collect())
}

fn graph_edges() -> Vec<(String, Vec<String>)> {
    vec![
        ("docs/a.md".to_string(), vec!["docs/b.md".to_string()]),
        ("docs/c.md".to_string(), vec!["docs/a.md".to_string()]),
        ("docs/d.md".to_string(), vec!["docs/c.md".to_string()]),
    ]
}

fn compile_payload() -> JsonValue {
    obj(vec![
        ("changed_files", texts(&["docs/a.md"])),
        ("expanded_targets", texts(&["docs/a.md", "docs/c.md"])),
        (
            "compiled_files",
            JsonValue::Array(vec![
                obj(vec![
                    ("source_file", text("docs/a.md")),
                    ("placement", obj(vec![("rule_id", text("namespace-path-v1"))])),
                    ("schema_kinds", texts(&["frontmatter", "heading"])),
                    ("errors", JsonValue::Array(vec![obj(vec![("code", text("REQUIRED_BLOCK_MISSING"))])])),
                    ("invalidated_dependents", texts(&["docs/c.md"])),
                    ("projection_files", texts(&["graph", "vector", "search"])),
                ]),
                obj(vec![("source_file", text("docs/b.md")), ("placement", obj(vec![("rule_id", text("flat-v0"))]))]),
                obj(vec![("source_file", text("docs/c.md")), ("placement", obj(vec![("rule_id", text("flat-v0"))]))]),
            ]),
        ),
        ("failed_files", JsonValue::Array(vec![])),
        ("dependency_graph_ref", text("memory:compiler:dependency-graph:test")),
        ("schema_registry_version", text("schema-v2")),
    ])
}

fn hot_index() -> JsonValue {
    obj(vec![
        ("index_path", text("/repo/.gitmemory/hot_index.json")),
        ("touched_files", texts(&["docs/a.md"])),
        ("total_entries", JsonValue::Number("1".into())),
    ])
}

#[test]
fn compiler_explain_reports_hit_rules_invalidation_chain_and_rebuild() {
    let compile = compile_payload();
    let hot = hot_index();
    let edges = graph_edges();
    let explain = compiler_explain(Some(&compile), Some(&hot), &edges, " docs\\a.md ", false);
    assert_eq!(explain.target_file, "docs/a.md");
    assert_eq!(explain.projection_key, "docs_a_md");
    assert_eq!(explain.placement_rule_id.as_deref(), Some("namespace-path-v1"));
    assert_eq!(explain.error_codes, vec!["REQUIRED_BLOCK_MISSING".to_string()]);
    assert!(explain.compiled_file.is_some());
    assert_eq!(explain.expanded_targets.map(|v| v.len()), Some(2));
    assert_eq!(explain.direct_dependencies, vec!["docs/b.md".to_string()]);
    assert_eq!(explain.direct_dependents, vec!["docs/c.md".to_string()]);
    assert_eq!(explain.transitive_dependents, vec!["docs/c.md".to_string(), "docs/d.md".to_string()]);
    assert!(explain.invalidated_dependents.is_some());
    assert!(explain.rebuilt);
    assert!(explain.hot_index_touched);
    assert_eq!(explain.hot_index_path.as_deref(), Some("/repo/.gitmemory/hot_index.json"));
    assert_eq!(explain.hot_index_total_entries, Some(1));
}

#[test]
fn compiler_explain_without_a_run_rebuilds_only_from_projections() {
    let edges = graph_edges();
    let none = compiler_explain(None, None, &edges, "docs/x.md", false);
    assert!(none.compiled_file.is_none());
    assert!(!none.rebuilt);
    assert!(!none.hot_index_touched);
    assert!(none.error_codes.is_empty());
    assert!(none.direct_dependencies.is_empty());
    let found = compiler_explain(None, None, &edges, "docs/x.md", true);
    assert!(found.rebuilt);
}

#[test]
fn compiler_status_counts_and_sorts_rule_hits() {
    let compile = compile_payload();
    let status = compiler_status(Some(&compile), 3);
    let summary = status.compile_summary.expect("summary");
    assert_eq!(summary.changed_files, 1);
    assert_eq!(summary.expanded_targets, 2);
    assert_eq!(summary.compiled_files, 3);
    assert_eq!(summary.failed_files, 0);
    assert_eq!(summary.schema_registry_version.as_deref(), Some("schema-v2"));
    assert_eq!(summary.dependency_graph_ref.as_deref(), Some("memory:compiler:dependency-graph:test"));
    assert_eq!(status.rule_hits, vec!["flat-v0".to_string(), "namespace-path-v1".to_string()]);
    assert_eq!(status.dependency_graph_edges, 3);
    let empty = compiler_status(None, 0);
    assert!(empty.compile_summary.is_none());
    assert!(empty.rule_hits.is_empty());
}

#[test]
fn compiler_graph_lists_nodes_and_edges_around_the_target() {
    let edges = graph_edges();
    let graph = compiler_graph(&edges, "docs/a.md");
    assert_eq!(graph.target_file, "docs/a.md");
    assert_eq!(graph.edge_count, 3);
    assert_eq!(
        graph.nodes,
        vec!["docs/a.md".to_string(), "docs/b.md".to_string(), "docs/c.md".to_string(), "docs/d.md".to_string()]
    );
    assert_eq!(
        graph.edges,
        vec![
            ("docs/a.md".to_string(), "docs/b.md".to_string()),
            ("docs/c.md".to_string(), "docs/a.md".to_string()),
        ]
    );
}
