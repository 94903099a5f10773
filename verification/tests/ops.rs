use docfresh::audit::{audit_page, PageCheck};
use docfresh::coverage::CoverageStats;
use docfresh::manifest::{Manifest, Page, Source, SourceRepo, Status, VerifiedAt};
use docfresh::ops::{
    apply_mappings, ci_failures, coverage_percent, coverage_problems, diff_target, extract_title,
    filter_excluded, format_page_details, init_plan, map_source, merge_pages, new_manifest,
    page_for_file, parse_format, route_for_page_file, scan_pages, sort_pages_by_route,
    verify_all, verify_page,
};
use docfresh::presets::{hugo, markdown, nextjs_app};
use docfresh::report::Format;

fn bare_page(route: &str) -> Page {
    Page {
        route: route.to_string(),
        file: Some(format!("docs{route}.md")),
        title: String::new(),
        tags: vec![],
        sources: vec![],
        related: vec![],
        verified_at: None,
        status: Status::Unverified,
        concepts: vec![],
    }
}

fn manifest_of(pages: Vec<Page>) -> Manifest {
    Manifest {
        version: 1,
        source_repo: SourceRepo {
            path: "../source".to_string(),
            remote: None,
            default_branch: "main".to_string(),
        },
        exclude_patterns: vec!["vendor/*".to_string()],
        pages,
    }
}

fn stats(total: usize, documented: usize) -> CoverageStats {
    CoverageStats {
        total_source_files: total,
        documented_files: documented,
        undocumented_files: total - documented,
        total_pages: 0,
        pages_with_sources: 0,
        orphan_pages: 0,
    }
}

fn routes(pages: &[Page]) -> Vec<String> {
    pages.iter().map(|p| p.route.clone()).collect()
}

#[test]
fn title_from_yaml_front_matter() {
    let c = "---\nlayout: doc\ntitle: \"Getting Started\"\n---\n# Other\n";
    assert_eq!(extract_title(c), Some("Getting Started".to_string()));
}

#[test]
fn title_from_component_prop() {
    assert_eq!(extract_title("<Layout\ntitle=\"Auth Guide\"\n>"), Some("Auth Guide".to_string()));
}

#[test]
fn title_from_toml_front_matter() {
    let c = "+++\ndate = 2024\ntitle = 'Hugo Page'\n+++\n# Heading\n";
    assert_eq!(extract_title(c), Some("Hugo Page".to_string()));
}

#[test]
fn title_from_toml_front_matter_without_title_is_none() {
    assert_eq!(extract_title("+++\ndate = 2024\n+++\n# Heading\n"), None);
}

#[test]
fn title_from_first_heading() {
    assert_eq!(extract_title("intro\n#  Authentication  \n# Later\n"), Some("Authentication".to_string()));
}

#[test]
fn title_missing() {
    assert_eq!(extract_title("no heading here\n## Sub\n"), None);
    assert_eq!(extract_title(""), None);
}

#[test]
fn routes_of_markdown_files() {
    let p = markdown();
    assert_eq!(route_for_page_file("docs/auth.md", "docs", &p), "/auth");
    assert_eq!(route_for_page_file("docs/index.md", "docs", &p), "/");
    assert_eq!(route_for_page_file("docs/guide/index.md", "docs", &p), "/guide");
    assert_eq!(route_for_page_file("README.md", "docs", &p), "/README");
}

#[test]
fn routes_of_nextjs_app_pages() {
    let p = nextjs_app();
    assert_eq!(route_for_page_file("app/docs/auth/page.tsx", "app", &p), "/docs/auth");
    assert_eq!(route_for_page_file("app/page.tsx", "app", &p), "/page");
}

#[test]
fn routes_of_hugo_html() {
    let p = hugo();
    assert_eq!(route_for_page_file("content/posts/a.html", "content", &p), "/posts/a");
}

#[test]
fn page_for_file_is_unverified_with_title() {
    let p = page_for_file("docs/auth.md", "docs", &markdown(), Some("# Authentication\n"));
    assert_eq!(p.route, "/auth");
    assert_eq!(p.file, Some("docs/auth.md".to_string()));
    assert_eq!(p.title, "Authentication");
    assert_eq!(p.status, Status::Unverified);
    assert!(p.sources.is_empty() && p.tags.is_empty() && p.related.is_empty());
    assert!(p.verified_at.is_none());
    let q = page_for_file("docs\\win.md", "docs", &markdown(), None);
    assert_eq!(q.route, "/win");
    assert_eq!(q.file, Some("docs/win.md".to_string()));
    assert_eq!(q.title, "");
}

#[test]
fn sort_is_stable_by_route() {
    let mut a = bare_page("/b");
    a.title = "first".to_string();
    let mut b = bare_page("/b");
    b.title = "second".to_string();
    let sorted = sort_pages_by_route(vec![a, bare_page("/c"), b, bare_page("/a")]);
    assert_eq!(routes(&sorted), vec!["/a", "/b", "/b", "/c"]);
    assert_eq!(sorted[1].title, "first");
    assert_eq!(sorted[2].title, "second");
}

#[test]
fn merge_keeps_first_of_each_route() {
    let mut a = bare_page("/x");
    a.title = "from first pattern".to_string();
    let mut b = bare_page("/x");
    b.title = "from second pattern".to_string();
    let merged = merge_pages(vec![bare_page("/z"), a, bare_page("/a"), b]);
    assert_eq!(routes(&merged), vec!["/a", "/x", "/z"]);
    assert_eq!(merged[1].title, "from first pattern");
}

#[test]
fn scan_pages_sorts_by_route() {
    let paths = vec!["docs/zeta.md".to_string(), "docs/alpha.md".to_string()];
    let contents = vec![Some("# Zeta".to_string()), None];
    let pages = scan_pages(&paths, &contents, "docs", &markdown());
    assert_eq!(routes(&pages), vec!["/alpha", "/zeta"]);
    assert_eq!(pages[1].title, "Zeta");
    assert_eq!(pages[0].title, "");
}

#[test]
fn verify_all_skips_missing_pages() {
    let mut missing = bare_page("/gone");
    missing.status = Status::Missing;
    let mut m = manifest_of(vec![bare_page("/a"), missing, bare_page("/b")]);
    let n = verify_all(&mut m, "abc1234", "2025-01-01T00:00:00Z");
    assert_eq!(n, 2);
    assert_eq!(m.pages[0].status, Status::Current);
    assert_eq!(m.pages[0].verified_at.as_ref().unwrap().sha, "abc1234");
    assert_eq!(m.pages[1].status, Status::Missing);
    assert!(m.pages[1].verified_at.is_none());
    assert_eq!(m.pages[2].verified_at.as_ref().unwrap().timestamp, "2025-01-01T00:00:00Z");
    assert_eq!(m.exclude_patterns, vec!["vendor/*".to_string()]);
}

#[test]
fn verify_page_marks_only_that_page() {
    let mut m = manifest_of(vec![bare_page("/auth"), bare_page("/getting-started")]);
    assert_eq!(verify_page(&mut m, "/auth", "abc", "now"), Ok(()));
    assert_eq!(m.pages[0].status, Status::Current);
    assert_eq!(m.pages[1].status, Status::Unverified);
    assert_eq!(
        verify_page(&mut m, "/nope", "abc", "now"),
        Err("page '/nope' not found in manifest".to_string())
    );
}

#[test]
fn map_adds_source_and_is_idempotent() {
    let mut m = manifest_of(vec![bare_page("/auth")]);
    let secs = vec!["login".to_string()];
    assert_eq!(map_source(&mut m, "/auth", "src/commands/auth.rs", &secs), Ok(true));
    assert_eq!(map_source(&mut m, "/auth", "src/commands/auth.rs", &[]), Ok(false));
    assert_eq!(m.pages[0].sources.len(), 1);
    assert_eq!(m.pages[0].sources[0].path, "src/commands/auth.rs");
    assert_eq!(m.pages[0].sources[0].sections, vec!["login".to_string()]);
    assert_eq!(
        map_source(&mut m, "/other", "x.rs", &[]),
        Err("page '/other' not found in manifest".to_string())
    );
}

#[test]
fn apply_mappings_counts_added_sources() {
    let mut m = manifest_of(vec![bare_page("/a"), bare_page("/b")]);
    let maps = vec![
        ("/a".to_string(), "src/a.rs".to_string()),
        ("/a".to_string(), "src/a.rs".to_string()),
        ("/missing".to_string(), "src/m.rs".to_string()),
        ("/b".to_string(), "src/a.rs".to_string()),
    ];
    assert_eq!(apply_mappings(&mut m, &maps), 2);
    assert_eq!(m.pages[0].sources.len(), 1);
    assert_eq!(m.pages[1].sources[0].path, "src/a.rs");
}

#[test]
fn filter_excluded_drops_matching_files() {
    let files = vec![
        "src/lib.rs".to_string(),
        "src/commands/mod.rs".to_string(),
        "docs/archive/old.md".to_string(),
    ];
    let patterns = vec!["src/**/mod.rs".to_string(), "docs/archive/*".to_string(), "[bad".to_string()];
    assert_eq!(filter_excluded(&files, &patterns), vec!["src/lib.rs".to_string()]);
    assert_eq!(filter_excluded(&files, &[]), files);
}

#[test]
fn format_names() {
    assert_eq!(parse_format("json"), Format::Json);
    assert_eq!(parse_format("markdown"), Format::Markdown);
    assert_eq!(parse_format("md"), Format::Markdown);
    assert_eq!(parse_format("text"), Format::Text);
    assert_eq!(parse_format("JSON"), Format::Text);
}

#[test]
fn coverage_percent_rounds_down() {
    assert_eq!(coverage_percent(1, 3), 33);
    assert_eq!(coverage_percent(2, 3), 66);
    assert_eq!(coverage_percent(5, 5), 100);
    assert_eq!(coverage_percent(0, 7), 0);
}

#[test]
fn ci_failures_lists_each_failed_check() {
    let s = stats(4, 1);
    assert_eq!(
        ci_failures(3, 1, 50, &s, 2, true),
        vec![
            "audit: 3 stale pages (max: 1)".to_string(),
            "coverage: 25% (min: 50%)".to_string(),
            "unmapped: 2 source files".to_string(),
        ]
    );
    assert!(ci_failures(1, 1, 25, &s, 2, false).is_empty());
    assert!(ci_failures(0, 0, 90, &stats(0, 0), 0, true).is_empty());
}

#[test]
fn coverage_problems_lists_unmapped_files() {
    let unmapped: Vec<String> = (0..12).map(|i| format!("src/f{i}.rs")).collect();
    let lines = coverage_problems(50, &stats(4, 1), &unmapped);
    assert_eq!(lines[0], "coverage 25% is below minimum 50%");
    assert_eq!(lines[1], "12 unmapped source files (not excluded):");
    assert_eq!(lines[2], "  src/f0.rs");
    assert_eq!(lines[11], "  src/f9.rs");
    assert_eq!(lines[12], "  ... and 2 more");
    assert_eq!(lines.len(), 13);
    assert!(coverage_problems(0, &stats(4, 1), &[]).is_empty());
}

#[test]
fn page_details_lines() {
    let mut p = bare_page("/auth");
    p.title = "Auth".to_string();
    p.sources = vec![
        Source { path: "src/auth.rs".to_string(), sections: vec!["login".to_string(), "logout".to_string()] },
        Source { path: "src/token.rs".to_string(), sections: vec![] },
    ];
    p.related = vec!["/a".to_string(), "/b".to_string()];
    p.verified_at = Some(VerifiedAt { sha: "abc".to_string(), timestamp: "T".to_string() });
    p.status = Status::Stale;
    assert_eq!(
        format_page_details(&p),
        vec![
            "Route:    /auth",
            "Title:    Auth",
            "Status:   stale",
            "File:     docs/auth.md",
            "Sources:  2",
            "  - src/auth.rs (login, logout)",
            "  - src/token.rs",
            "Related:  /a, /b",
            "Tags:     ",
            "Verified: abc (T)",
        ]
    );
    p.file = None;
    p.verified_at = None;
    let lines = format_page_details(&p);
    assert_eq!(lines[3], "File:     -");
    assert_eq!(lines[9], "Verified: never");
}

#[test]
fn init_plan_picks_preset_and_patterns() {
    let plan = init_plan(Some("hugo"), None, None, None).unwrap();
    assert_eq!(plan.preset.name, "hugo");
    assert_eq!(plan.patterns, vec!["content/**/*.md", "content/**/*.html"]);
    assert_eq!(plan.base_dir, "content");
    assert!(plan.merge);

    let plan = init_plan(None, Some(nextjs_app()), Some("app/**/page.mdx"), Some("src/app")).unwrap();
    assert_eq!(plan.preset.name, "nextjs-app");
    assert_eq!(plan.patterns, vec!["app/**/page.mdx"]);
    assert_eq!(plan.base_dir, "src/app");
    assert!(!plan.merge);

    let plan = init_plan(None, None, None, None).unwrap();
    assert_eq!(plan.preset.name, "markdown");

    match init_plan(Some("gatsby"), None, None, None) {
        Err(e) => assert_eq!(e, "unknown site preset 'gatsby'. Use --list-presets to see available presets."),
        Ok(_) => panic!("unknown preset accepted"),
    }
}

#[test]
fn new_manifest_defaults() {
    let m = new_manifest(None, vec![bare_page("/a")]);
    assert_eq!(m.version, 1);
    assert_eq!(m.source_repo.path, "../source");
    assert_eq!(m.source_repo.default_branch, "main");
    assert!(m.source_repo.remote.is_none());
    assert!(m.exclude_patterns.is_empty());
    assert_eq!(m.pages.len(), 1);
    assert_eq!(new_manifest(Some("../repo"), vec![]).source_repo.path, "../repo");
}

#[test]
fn diff_target_needs_a_verified_page() {
    let mut p = bare_page("/auth");
    p.sources = vec![Source { path: "src/auth.rs".to_string(), sections: vec![] }];
    let mut m = manifest_of(vec![p]);
    assert_eq!(
        diff_target(&m, "/auth"),
        Err("page '/auth' has never been verified".to_string())
    );
    assert_eq!(
        diff_target(&m, "/x"),
        Err("page '/x' not found in manifest".to_string())
    );
    verify_page(&mut m, "/auth", "abc1234", "t").unwrap();
    assert_eq!(
        diff_target(&m, "/auth"),
        Ok(("abc1234".to_string(), vec!["src/auth.rs".to_string()]))
    );
}

#[test]
fn audit_after_verify_is_current_or_stale() {
    let mut p = bare_page("/auth");
    p.sources = vec![Source { path: "src/auth.rs".to_string(), sections: vec![] }];
    let mut m = manifest_of(vec![p]);
    verify_all(&mut m, "abc", "t");
    let clean = audit_page(&m.pages[0], PageCheck { changed: Ok(vec![]), log: vec![] });
    assert_eq!(clean.new_status, Status::Current);
    let stale = audit_page(
        &m.pages[0],
        PageCheck { changed: Ok(vec!["src/auth.rs".to_string()]), log: vec![] },
    );
    assert_eq!(stale.new_status, Status::Stale);
    let failed = audit_page(&m.pages[0], PageCheck { changed: Err("bad sha".to_string()), log: vec![] });
    assert_eq!(failed.new_status, Status::Unverified);
}
