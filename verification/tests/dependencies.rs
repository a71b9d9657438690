use autoloop_core::dependencies::{
    compiler_projection_key, normalize_compiler_target, reverse_dependents, transitive_dependents,
};

fn graph() -> Vec<(String, Vec<String>)> {
    vec![
        ("docs/b.md".into(), vec!["docs/a.md".into()]),
        ("docs/c.md".into(), vec!["docs/b.md".into()]),
        ("docs/aa.md".into(), vec!["docs/a.md".into(), "docs/a.md".into()]),
        ("docs/z.md".into(), vec!["docs/q.md".into()]),
    ]
}

#[test]
fn reverse_dependents_are_sorted_and_distinct() {
    assert_eq!(reverse_dependents(&graph(), "docs/a.md"), vec!["docs/aa.md", "docs/b.md"]);
    assert!(reverse_dependents(&graph(), "docs/none.md").is_empty());
}

#[test]
fn transitive_dependents_follow_chains() {
    assert_eq!(
        transitive_dependents(&graph(), "docs/a.md"),
        vec!["docs/aa.md", "docs/b.md", "docs/c.md"]
    );
    assert_eq!(transitive_dependents(&graph(), "docs/c.md"), Vec::<String>::new());
}

#[test]
fn transitive_dependents_terminate_on_cycles() {
    let cyclic: Vec<(String, Vec<String>)> = vec![
        ("x".into(), vec!["y".into()]),
        ("y".into(), vec!["x".into()]),
    ];
    assert_eq!(transitive_dependents(&cyclic, "x"), vec!["x", "y"]);
}

#[test]
fn compiler_target_and_projection_key() {
    assert_eq!(normalize_compiler_target("  docs\\a.md "), "docs/a.md");
    assert_eq!(compiler_projection_key("docs/a.md"), "docs_a_md");
    assert_eq!(compiler_projection_key("a-b_c"), "a-b_c");
}
