use docfresh::coverage::{
    compute_concept_coverage, compute_coverage, default_scan_patterns, documented_files,
    pathspec_for, scan_defaults, scan_source_files_pub,
};
use docfresh::presets::{find_source_preset, go_source};
use docfresh::manifest::{Manifest, Page, Source, SourceRepo, Status};

fn page(route: &str, file: Option<&str>, sources: &[&str]) -> Page {
    Page {
        route: route.to_string(),
        file: file.map(|f| f.to_string()),
        title: String::new(),
        tags: vec![],
        sources: sources
            .iter()
            .map(|s| Source { path: s.to_string(), sections: vec![] })
            .collect(),
        related: vec![],
        verified_at: None,
        status: Status::Unverified,
        concepts: vec![],
    }
}

fn manifest(pages: Vec<Page>) -> Manifest {
    Manifest {
        version: 1,
        source_repo: SourceRepo { path: ".".to_string(), remote: None, default_branch: "main".to_string() },
        exclude_patterns: vec![],
        pages,
    }
}

fn strings(v: &[&str]) -> Vec<String> {
    v.iter().map(|s| s.to_string()).collect()
}

#[test]
fn coverage_shows_undocumented_files() {
    let m = manifest(vec![
        page("/auth", Some("docs/auth.md"), &["src/commands/auth.rs", "src/lib.rs"]),
        page("/intro", Some("docs/intro.md"), &["src/lib.rs", "src/gone.rs"]),
        page("/empty", Some("docs/empty.md"), &[]),
    ]);
    let files = strings(&["src/commands/auth.rs", "src/commands/bail.rs", "src/lib.rs"]);
    let exists = vec![vec![true, true], vec![true, false], vec![]];
    let docs = documented_files(&m);
    assert_eq!(docs, strings(&["src/commands/auth.rs", "src/lib.rs", "src/gone.rs"]));
    let documented_contents = vec![
        Some("pub fn login_user() {}\n".to_string()),
        None,
        None,
    ];
    let page_contents = vec![Some("Call login_user.".to_string()), None, None];
    let r = compute_coverage(&m, &files, &exists, &documented_contents, &page_contents);

    assert_eq!(r.undocumented, strings(&["src/commands/bail.rs"]));
    assert_eq!(r.stats.total_source_files, 3);
    assert_eq!(r.stats.documented_files, 3);
    assert_eq!(r.stats.undocumented_files, 1);
    assert_eq!(r.stats.total_pages, 3);
    assert_eq!(r.stats.pages_with_sources, 2);
    assert_eq!(r.stats.orphan_pages, 2);
    let orphans: Vec<(String, String)> =
        r.orphan_pages.iter().map(|o| (o.route.clone(), o.reason.clone())).collect();
    assert_eq!(
        orphans,
        vec![
            ("/intro".to_string(), "sources not found: src/gone.rs".to_string()),
            ("/empty".to_string(), "no sources listed".to_string()),
        ]
    );
    assert_eq!(r.shared_sources.len(), 1);
    assert_eq!(r.shared_sources[0].path, "src/lib.rs");
    assert_eq!(r.shared_sources[0].pages, strings(&["/auth", "/intro"]));
    let cs = r.concept_stats.expect("concepts");
    assert_eq!(cs.total, 2);
    assert_eq!(cs.covered, 2);
    assert!(cs.orphans.is_empty());
}

#[test]
fn shared_sources_are_ordered_by_page_count() {
    let m = manifest(vec![
        page("/a", None, &["two.rs", "three.rs"]),
        page("/b", None, &["two.rs", "three.rs"]),
        page("/c", None, &["three.rs"]),
    ]);
    let exists = vec![vec![true, true], vec![true, true], vec![true]];
    let r = compute_coverage(&m, &[], &exists, &[None, None], &[None, None, None]);
    let shared: Vec<(String, usize)> =
        r.shared_sources.iter().map(|s| (s.path.clone(), s.pages.len())).collect();
    assert_eq!(shared, vec![("three.rs".to_string(), 3), ("two.rs".to_string(), 2)]);
    assert!(r.concept_stats.is_none());
}

#[test]
fn concept_coverage_counts_orphans() {
    let m = manifest(vec![page("/e", Some("docs/e.md"), &["src/engine.rs"])]);
    let files = strings(&["src/engine.rs"]);
    let contents = vec![Some("pub fn start_engine() {}\npub struct Stopper {}\n".to_string())];
    let pages = vec![Some("start_engine is called".to_string())];
    let cs = compute_concept_coverage(&m, &files, &contents, &pages).unwrap();
    assert_eq!(cs.total, 4);
    assert_eq!(cs.covered, 2);
    let orphans: Vec<(String, String, String)> = cs
        .orphans
        .iter()
        .map(|o| (o.name.clone(), o.kind.clone(), o.source_file.clone()))
        .collect();
    assert_eq!(
        orphans,
        vec![
            ("Stopper".to_string(), "struct".to_string(), "src/engine.rs".to_string()),
            ("Stopper".to_string(), "doc_comment".to_string(), "src/engine.rs".to_string()),
        ]
    );
    assert!(compute_concept_coverage(&m, &files, &[None], &pages).is_none());
}

#[test]
fn pathspecs_get_glob_magic_for_double_star() {
    assert_eq!(pathspec_for("src/**/*.rs"), ":(glob)src/**/*.rs");
    assert_eq!(pathspec_for("src/*.rs"), "src/*.rs");
}

#[test]
fn scanned_files_are_sorted_and_unique() {
    let listings = vec![
        Some("src/b.rs\nsrc/a.rs\n\n".to_string()),
        None,
        Some("src/a.rs\ndocs/spec/x.md".to_string()),
    ];
    assert_eq!(
        scan_source_files_pub(&listings),
        strings(&["docs/spec/x.md", "src/a.rs", "src/b.rs"])
    );
    assert!(scan_source_files_pub(&[]).is_empty());
}

#[test]
fn default_patterns_are_for_rust() {
    assert_eq!(default_scan_patterns(), vec!["src/**/*.rs", "docs/spec/**/*.md"]);
}

#[test]
fn scan_defaults_follow_the_detected_language() {
    assert_eq!(scan_defaults(Some(go_source())), vec!["**/*.go", "docs/**/*.md"]);
    assert_eq!(
        scan_defaults(find_source_preset("python")),
        find_source_preset("python").unwrap().scan_patterns.to_vec()
    );
    assert_eq!(scan_defaults(None), default_scan_patterns());
}
