use docfresh::audit::{AuditResult, AuditSummary, RelatedWarning};
use docfresh::concept_graph::{ConceptGraph, GraphStats, OrphanDetail, StaleSibling, ThinCoverage};
use docfresh::concepts::{ConceptCoverageStats, OrphanConcept};
use docfresh::coverage::{CoverageReport, CoverageStats, OrphanPage, SharedSource};
use docfresh::git::LogEntry;
use docfresh::manifest::{Manifest, Page, Source, SourceRepo, Status, VerifiedAt};
use docfresh::report::{
    format_audit, format_concept_graph_text, format_coverage, format_diff, format_status_table,
    format_suggest_text, paint, Format, Style, SuggestionLine,
};

fn no_colour() {
    colored::control::set_override(false);
}

fn page(route: &str, status: Status, sha: Option<&str>, n_sources: usize) -> Page {
    Page {
        route: route.to_string(),
        file: None,
        title: String::new(),
        tags: vec![],
        sources: (0..n_sources)
            .map(|i| Source { path: format!("src/{i}.rs"), sections: vec![] })
            .collect(),
        related: vec![],
        verified_at: sha.map(|s| VerifiedAt { sha: s.to_string(), timestamp: "t".to_string() }),
        status,
        concepts: vec![],
    }
}

fn manifest(pages: Vec<Page>) -> Manifest {
    Manifest {
        version: 1,
        source_repo: SourceRepo { path: ".".to_string(), remote: None, default_branch: "main".to_string() },
        exclude_patterns: vec![],
        pages,
    }
}

fn result(route: &str, title: &str, new_status: Status) -> AuditResult {
    AuditResult {
        route: route.to_string(),
        title: title.to_string(),
        old_status: Status::Current,
        new_status,
        changed_sources: vec![],
        log_entries: vec![],
        error: None,
    }
}

fn entry(sha: &str, message: &str) -> LogEntry {
    LogEntry { sha: sha.to_string(), message: message.to_string() }
}

#[test]
fn status_table_text() {
    no_colour();
    let m = manifest(vec![
        page("/auth", Status::Current, Some("abc1234"), 2),
        page("/a-very-long-route/that/goes/on/and/on", Status::Unverified, None, 0),
    ]);
    let t = format_status_table(&m, Format::Text).unwrap();
    let expected = [
        format!("{:<30} {:<12} {:<12} {:<6}", "ROUTE", "STATUS", "VERIFIED", "SRCS"),
        "-".repeat(62),
        format!("{:<30} {:<12} {:<12} {:<6}", "/auth", "current", "abc1234", 2),
        format!("{:<30} {:<12} {:<12} {:<6}", "/a-very-long-route/that/goe...", "unverified", "-", 0),
        String::new(),
        "1 current, 0 stale, 1 unverified, 0 missing, 0 outdated (2 total)".to_string(),
    ]
    .join("\n");
    assert_eq!(t, expected);
}

#[test]
fn status_table_markdown_and_json() {
    no_colour();
    let m = manifest(vec![
        page("/a", Status::Stale, Some("abc"), 1),
        page("/b", Status::Missing, None, 0),
    ]);
    assert_eq!(
        format_status_table(&m, Format::Markdown).unwrap(),
        "| Route | Status | Verified | Sources |\n|-------|--------|----------|---------|\n| /a | STALE | abc | 1 |\n| /b | MISSING | - | 0 |"
    );
    assert!(format_status_table(&m, Format::Json).is_none());
}

#[test]
fn audit_text_report() {
    no_colour();
    let mut stale = result("/auth", "Authentication", Status::Stale);
    stale.changed_sources = vec!["src/auth.rs".to_string()];
    stale.log_entries = (1..=7).map(|i| entry(&format!("sha{i}"), &format!("commit {i}"))).collect();
    let mut broken = result("/broken", "Broken", Status::Unverified);
    broken.error = Some("bad revision".to_string());
    let summary = AuditSummary {
        results: vec![stale, result("/ok", "Ok", Status::Current), broken],
        related_warnings: vec![RelatedWarning {
            route: "/ok".to_string(),
            stale_dependency: "/auth".to_string(),
        }],
    };
    let expected = [
        "STALE (source changed since verification):",
        "  /auth — Authentication",
        "    changed: src/auth.rs",
        "    sha1 commit 1",
        "    sha2 commit 2",
        "    sha3 commit 3",
        "    sha4 commit 4",
        "    sha5 commit 5",
        "    ... and 2 more commits",
        "",
        "ERRORS:",
        "  /broken — bad revision",
        "",
        "REVIEW RECOMMENDED (related to stale pages):",
        "  /ok — references stale /auth",
        "",
        "UNVERIFIED / MISSING:",
        "  /broken (unverified)",
        "",
        "1 current, 1 stale, 1 unverified/missing, 1 errors",
    ]
    .join("\n");
    assert_eq!(format_audit(&summary, Format::Text).unwrap(), expected);
    assert!(format_audit(&summary, Format::Json).is_none());
}

#[test]
fn audit_clean_text_report() {
    no_colour();
    let summary = AuditSummary {
        results: vec![result("/a", "A", Status::Current), result("/b", "B", Status::Current)],
        related_warnings: vec![],
    };
    assert_eq!(
        format_audit(&summary, Format::Text).unwrap(),
        "2 current, 0 stale, 0 unverified/missing, 0 errors"
    );
}

#[test]
fn audit_markdown_report() {
    no_colour();
    let mut stale = result("/auth", "Auth", Status::Stale);
    stale.changed_sources = vec!["src/auth.rs".to_string()];
    let summary = AuditSummary {
        results: vec![stale],
        related_warnings: vec![RelatedWarning { route: "/x".to_string(), stale_dependency: "/auth".to_string() }],
    };
    assert_eq!(
        format_audit(&summary, Format::Markdown).unwrap(),
        "## Documentation Freshness Audit\n\n### Stale Pages (1)\n\n- **/auth** — Auth\n  - `src/auth.rs`\n\n### Review Recommended\n\n- **/x** — references stale `/auth`"
    );
    let clean = AuditSummary { results: vec![], related_warnings: vec![] };
    assert_eq!(
        format_audit(&clean, Format::Markdown).unwrap(),
        "## Documentation Freshness Audit\n\nAll documented pages are current."
    );
}

fn coverage_report() -> CoverageReport {
    CoverageReport {
        undocumented: vec!["src/commands/bail.rs".to_string()],
        orphan_pages: vec![OrphanPage { route: "/empty".to_string(), reason: "no sources listed".to_string() }],
        shared_sources: vec![SharedSource {
            path: "src/lib.rs".to_string(),
            pages: vec!["/a".to_string(), "/b".to_string()],
        }],
        stats: CoverageStats {
            total_source_files: 3,
            documented_files: 2,
            undocumented_files: 1,
            total_pages: 3,
            pages_with_sources: 2,
            orphan_pages: 1,
        },
        concept_stats: Some(ConceptCoverageStats {
            total: 4,
            covered: 2,
            orphans: vec![
                OrphanConcept { name: "Zed".to_string(), kind: "struct".to_string(), source_file: "src/z.rs".to_string() },
                OrphanConcept { name: "Alpha".to_string(), kind: "function".to_string(), source_file: "src/a.rs".to_string() },
                OrphanConcept { name: "Beta".to_string(), kind: "enum".to_string(), source_file: "src/z.rs".to_string() },
            ],
        }),
    }
}

#[test]
fn coverage_text_report() {
    no_colour();
    let r = coverage_report();
    let expected = [
        "Coverage: 2/3 source files documented (67%)",
        "Concepts: 2/4 covered (50%)",
        "Pages: 2/3 have source mappings",
        "",
        "UNDOCUMENTED (1):",
        "  src/commands/bail.rs",
        "",
        "ORPHAN PAGES (1):",
        "  /empty — no sources listed",
        "",
        "SHARED SOURCES (1):",
        "  src/lib.rs (/a, /b)",
        "",
        "ORPHAN CONCEPTS (3):",
        "  src/a.rs:",
        "    Alpha (function)",
        "  src/z.rs:",
        "    Zed (struct)",
        "    Beta (enum)",
        "",
        "4 concepts in 2 source files; 2 covered by docs, 3 orphaned",
    ]
    .join("\n");
    assert_eq!(format_coverage(&r, Format::Text, "67", "50").unwrap(), expected);
    assert!(format_coverage(&r, Format::Json, "67", "50").is_none());
}

#[test]
fn coverage_markdown_report() {
    no_colour();
    let r = coverage_report();
    let expected = [
        "## Coverage Report",
        "",
        "- **2/3** source files documented (67%)",
        "- **2/4** concepts covered (50%)",
        "- **2/3** pages have source mappings",
        "",
        "### Undocumented Files (1)",
        "",
        "- `src/commands/bail.rs`",
        "",
        "### Orphan Concepts (3)",
        "",
        "- `Zed` (struct) in `src/z.rs`",
        "- `Alpha` (function) in `src/a.rs`",
        "- `Beta` (enum) in `src/z.rs`",
    ]
    .join("\n");
    assert_eq!(format_coverage(&r, Format::Markdown, "67", "50").unwrap(), expected);
}

#[test]
fn diff_report() {
    no_colour();
    assert_eq!(
        format_diff("/auth", &[], &[]),
        "Changes for /auth since last verification:\n\n  No changes detected."
    );
    assert_eq!(
        format_diff("/auth", &[entry("abc1234", "break auth")], &["src/auth.rs".to_string()]),
        "Changes for /auth since last verification:\n\nFiles changed:\n  src/auth.rs\n\nCommits:\n  abc1234 break auth"
    );
}

#[test]
fn concept_graph_text_report() {
    no_colour();
    let graph = ConceptGraph {
        nodes: vec![],
        orphans: vec![OrphanDetail { name: "Gone".to_string(), kind: "struct".to_string(), source_file: "src/g.rs".to_string() }],
        thin_coverage: vec![ThinCoverage {
            route: "/engine".to_string(),
            source_file: "src/engine.rs".to_string(),
            missing_concepts: vec!["stop".to_string(), "pause".to_string()],
        }],
        stale_siblings: vec![StaleSibling {
            concept: "Config".to_string(),
            pages: vec![("/a".to_string(), Some("aaa".to_string())), ("/b".to_string(), None)],
        }],
        stats: GraphStats {
            total_concepts: 5,
            total_pages: 2,
            orphan_count: 1,
            thin_coverage_count: 1,
            stale_sibling_count: 1,
        },
    };
    let expected = [
        "Concept Graph: 5 concepts across 2 pages",
        "  Orphans: 1  Thin coverage: 1  Stale siblings: 1",
        "",
        "ORPHAN CONCEPTS (1):",
        "  Gone (struct) in src/g.rs",
        "",
        "THIN COVERAGE (1):",
        "  /engine <- src/engine.rs missing: stop, pause",
        "",
        "STALE SIBLINGS (1):",
        "  concept: Config",
        "    /a @ aaa",
        "    /b @ unverified",
        "",
    ]
    .join("\n");
    assert_eq!(format_concept_graph_text(&graph), expected);
    let empty = ConceptGraph {
        nodes: vec![],
        orphans: vec![],
        thin_coverage: vec![],
        stale_siblings: vec![],
        stats: GraphStats { total_concepts: 0, total_pages: 0, orphan_count: 0, thin_coverage_count: 0, stale_sibling_count: 0 },
    };
    assert_eq!(
        format_concept_graph_text(&empty),
        "Concept Graph: 0 concepts across 0 pages\n  Orphans: 0  Thin coverage: 0  Stale siblings: 0\n\nAll concepts are documented with full coverage."
    );
}

#[test]
fn paint_styles_text_when_colours_are_on() {
    colored::control::set_override(true);
    assert_eq!(paint(Style::Red, "x"), "\u{1b}[31mx\u{1b}[0m");
    assert_eq!(paint(Style::RedBold, "x"), "\u{1b}[1;31mx\u{1b}[0m");
    colored::control::set_override(false);
    assert_eq!(paint(Style::Red, "x"), "x");
}

#[test]
fn status_table_pads_coloured_status() {
    colored::control::set_override(true);
    let m = manifest(vec![page("/a", Status::Current, None, 0)]);
    let t = format_status_table(&m, Format::Text).unwrap();
    let row = t.lines().nth(2).unwrap();
    assert_eq!(row, format!("{:<30} {:<12} {:<12} {:<6}", "/a", "\u{1b}[32mcurrent\u{1b}[0m", "-", 0));
}

#[test]
fn suggest_text_report() {
    no_colour();
    let lines = vec![SuggestionLine {
        source_path: "src/commands/bail.rs".to_string(),
        route: "/bail".to_string(),
        percent: "87%".to_string(),
        reasons: vec!["page mentions \"bail\"".to_string(), "shared terms: bail, pack".to_string()],
    }];
    let expected = [
        "SUGGESTED MAPPINGS (1):",
        "  src/commands/bail.rs -> /bail (87%)",
        "    page mentions \"bail\"",
        "    shared terms: bail, pack",
        "",
        "  Apply with: docfresh map <route> <source>  (or --apply <threshold>)",
        "",
        "NO MATCH (1):",
        "  src/kernel/pty.rs",
    ]
    .join("\n");
    assert_eq!(format_suggest_text(&lines, &["src/kernel/pty.rs".to_string()]), expected);
    assert_eq!(format_suggest_text(&[], &[]), "All source files are already mapped.");
    assert_eq!(format_suggest_text(&[], &["x.rs".to_string()]), "\nNO MATCH (1):\n  x.rs");
}

#[test]
fn every_style_has_its_escape_code() {
    colored::control::set_override(true);
    let cases = [
        (Style::Red, "31"),
        (Style::Green, "32"),
        (Style::Yellow, "33"),
        (Style::Cyan, "36"),
        (Style::Dimmed, "2"),
        (Style::Bold, "1"),
        (Style::RedBold, "1;31"),
        (Style::YellowBold, "1;33"),
        (Style::YellowDimmed, "2;33"),
        (Style::GreenBold, "1;32"),
    ];
    for (style, code) in cases {
        assert_eq!(paint(style, "txt"), format!("\u{1b}[{code}mtxt\u{1b}[0m"), "{style:?}");
    }
}
