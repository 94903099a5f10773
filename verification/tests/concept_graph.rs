use docfresh::concept_graph::{
    build_graph, build_graph_from_concepts, dedup_orphans, ConceptGraph, ConceptNode, GraphStats,
    OrphanDetail,
};
use docfresh::concepts::{Concept, ConceptKind};
use docfresh::manifest::{Manifest, Page, Source, SourceRepo, Status, VerifiedAt};
use docfresh::report::format_concept_graph_dot;

fn make_manifest(pages: Vec<Page>) -> Manifest {
    Manifest {
        version: 1,
        source_repo: SourceRepo {
            path: ".".to_string(),
            remote: None,
            default_branch: "main".to_string(),
        },
        exclude_patterns: vec![],
        pages,
    }
}

fn page(route: &str, file: &str, title: &str, source: &str, verified: Option<(&str, &str)>) -> Page {
    Page {
        route: route.to_string(),
        file: Some(file.to_string()),
        title: title.to_string(),
        tags: vec![],
        sources: vec![Source {
            path: source.to_string(),
            sections: vec![],
        }],
        related: vec![],
        verified_at: verified.map(|(sha, ts)| VerifiedAt {
            sha: sha.to_string(),
            timestamp: ts.to_string(),
        }),
        status: if verified.is_some() { Status::Current } else { Status::Unverified },
        concepts: vec![],
    }
}

fn concept(name: &str, kind: ConceptKind, file: &str, line: usize) -> Concept {
    Concept {
        name: name.to_string(),
        kind,
        source_file: file.to_string(),
        line: Some(line),
    }
}

#[test]
fn orphans_detected_for_concepts_not_on_any_page() {
    let all_concepts = vec![concept("TokenValidator", ConceptKind::Struct, "src/auth.rs", 1)];
    let manifest = make_manifest(vec![page("/docs/auth", "pages/auth.md", "Auth", "src/auth.rs", None)]);
    let contents = vec![Some("# Auth\n\nThis page talks about authentication.\n".to_string())];

    let graph = build_graph_from_concepts(&manifest, &all_concepts, &contents);

    assert!(
        graph.orphans.iter().any(|o| o.name == "TokenValidator"),
        "Expected TokenValidator as orphan, got: {:?}",
        graph.orphans.iter().map(|o| o.name.clone()).collect::<Vec<_>>()
    );
}

#[test]
fn thin_coverage_detected_for_missing_concept_in_page() {
    let all_concepts = vec![
        concept("start_engine", ConceptKind::Function, "src/engine.rs", 1),
        concept("stop_engine", ConceptKind::Function, "src/engine.rs", 2),
    ];
    let manifest = make_manifest(vec![page(
        "/docs/engine",
        "pages/engine.md",
        "Engine",
        "src/engine.rs",
        None,
    )]);
    let contents = vec![Some("# Engine\n\nCall start_engine to begin.\n".to_string())];

    let graph = build_graph_from_concepts(&manifest, &all_concepts, &contents);

    let thin = graph.thin_coverage.iter().find(|t| t.route == "/docs/engine");
    assert!(thin.is_some(), "Expected thin coverage for /docs/engine");
    let thin = thin.unwrap();
    assert!(
        thin.missing_concepts.contains(&"stop_engine".to_string()),
        "Expected stop_engine in missing_concepts, got: {:?}",
        thin.missing_concepts
    );
}

#[test]
fn stale_siblings_detected_for_different_verified_shas() {
    let all_concepts = vec![concept("Config", ConceptKind::Struct, "src/shared.rs", 1)];
    let manifest = make_manifest(vec![
        page(
            "/docs/a",
            "pages/page_a.md",
            "Page A",
            "src/shared.rs",
            Some(("aaa1111", "2025-01-01T00:00:00Z")),
        ),
        page(
            "/docs/b",
            "pages/page_b.md",
            "Page B",
            "src/shared.rs",
            Some(("bbb2222", "2025-06-01T00:00:00Z")),
        ),
    ]);
    let contents = vec![
        Some("# Page A\n\nUse Config to set up.\n".to_string()),
        Some("# Page B\n\nConfig controls behavior.\n".to_string()),
    ];

    let graph = build_graph_from_concepts(&manifest, &all_concepts, &contents);

    let sibling = graph.stale_siblings.iter().find(|s| s.concept == "Config");
    assert!(sibling.is_some(), "Expected Config as stale sibling");
    assert_eq!(sibling.unwrap().pages.len(), 2);
}

#[test]
fn graph_stats_are_accurate() {
    let all_concepts = vec![concept("helper", ConceptKind::Function, "src/lib.rs", 1)];
    let manifest = make_manifest(vec![]);

    let graph = build_graph_from_concepts(&manifest, &all_concepts, &[]);

    assert_eq!(graph.stats.total_pages, 0);
    assert_eq!(graph.stats.total_concepts, 1);
    assert_eq!(graph.stats.orphan_count, graph.orphans.len());
    assert_eq!(graph.stats.thin_coverage_count, graph.thin_coverage.len());
    assert_eq!(graph.stats.stale_sibling_count, graph.stale_siblings.len());
}

#[test]
fn dot_output_has_valid_syntax() {
    let graph = ConceptGraph {
        nodes: vec![
            ConceptNode {
                name: "AuthConfig".to_string(),
                source_files: vec!["src/auth.rs".to_string()],
                pages: vec!["/docs/auth".to_string()],
            },
            ConceptNode {
                name: "OrphanThing".to_string(),
                source_files: vec!["src/orphan.rs".to_string()],
                pages: vec![],
            },
        ],
        orphans: vec![OrphanDetail {
            name: "OrphanThing".to_string(),
            kind: "struct".to_string(),
            source_file: "src/orphan.rs".to_string(),
        }],
        thin_coverage: vec![],
        stale_siblings: vec![],
        stats: GraphStats {
            total_concepts: 2,
            total_pages: 1,
            orphan_count: 1,
            thin_coverage_count: 0,
            stale_sibling_count: 0,
        },
    };

    let dot = format_concept_graph_dot(&graph);
    assert!(dot.contains("digraph concepts"), "must start with digraph");
    assert!(dot.contains("->"), "must have edges");
    assert!(dot.contains("color=red"), "orphans must be highlighted in red");
    assert!(dot.contains("shape=box"), "pages must be boxes");
    assert!(dot.contains("shape=circle"), "concepts must be circles");
}

#[test]
fn orphan_nodes_have_no_pages_and_mentioned_nodes_do() {
    let all_concepts = vec![
        concept("Mentioned", ConceptKind::Struct, "src/a.rs", 1),
        concept("Forgotten", ConceptKind::Struct, "src/a.rs", 2),
    ];
    let manifest = make_manifest(vec![page("/docs/a", "pages/a.md", "A", "src/a.rs", None)]);
    let contents = vec![Some("The mentioned thing.\n".to_string())];
    let graph = build_graph_from_concepts(&manifest, &all_concepts, &contents);
    let names: Vec<&str> = graph.nodes.iter().map(|n| n.name.as_str()).collect();
    assert_eq!(names, vec!["Forgotten", "Mentioned"]);
    for node in &graph.nodes {
        let orphan = graph.orphans.iter().any(|o| o.name == node.name);
        assert_eq!(orphan, node.pages.is_empty());
    }
    assert_eq!(graph.nodes[1].pages, vec!["/docs/a".to_string()]);
}

#[test]
fn same_sha_pages_are_no_stale_siblings() {
    let all_concepts = vec![concept("Config", ConceptKind::Struct, "src/shared.rs", 1)];
    let manifest = make_manifest(vec![
        page("/docs/a", "a.md", "A", "src/shared.rs", Some(("aaa", "t"))),
        page("/docs/b", "b.md", "B", "src/shared.rs", Some(("aaa", "t"))),
    ]);
    let contents = vec![Some("Config".to_string()), Some("config".to_string())];
    let graph = build_graph_from_concepts(&manifest, &all_concepts, &contents);
    assert!(graph.stale_siblings.is_empty());
}

#[test]
fn dedup_orphans_sorts_and_drops_repeats() {
    let o = |n: &str, f: &str| OrphanDetail {
        name: n.to_string(),
        kind: "struct".to_string(),
        source_file: f.to_string(),
    };
    let out = dedup_orphans(vec![o("Zeta", "src/z.rs"), o("Alpha", "src/a.rs"), o("Zeta", "src/z.rs")]);
    let pairs: Vec<(String, String)> = out.iter().map(|x| (x.name.clone(), x.source_file.clone())).collect();
    assert_eq!(
        pairs,
        vec![
            ("Alpha".to_string(), "src/a.rs".to_string()),
            ("Zeta".to_string(), "src/z.rs".to_string())
        ]
    );
}

#[test]
fn build_graph_extracts_concepts_from_files() {
    let manifest = make_manifest(vec![page("/docs/e", "e.md", "E", "src/engine.rs", None)]);
    let files = vec!["src/engine.rs".to_string()];
    let file_contents = vec![Some("pub fn start_engine() {}\npub fn stop_engine() {}\n".to_string())];
    let page_contents = vec![Some("Call start_engine.".to_string())];
    let graph = build_graph(&manifest, &files, &file_contents, &page_contents);
    assert_eq!(graph.stats.total_concepts, 2);
    assert!(graph.orphans.iter().any(|o| o.name == "stop_engine"));
    assert!(!graph.orphans.iter().any(|o| o.name == "start_engine"));
}
