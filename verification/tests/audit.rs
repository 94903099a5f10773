use docfresh::audit::{audit_all, audit_page, is_selected, needs_git_check, PageCheck};
use docfresh::git::LogEntry;
use docfresh::manifest::{Manifest, Page, Source, SourceRepo, Status, VerifiedAt};

fn page(route: &str, tags: &[&str], related: &[&str], verified: bool) -> Page {
    Page {
        route: route.to_string(),
        file: Some(format!("docs{route}.md")),
        title: format!("Title {route}"),
        tags: tags.iter().map(|t| t.to_string()).collect(),
        sources: vec![Source { path: format!("src{route}.rs"), sections: vec![] }],
        related: related.iter().map(|t| t.to_string()).collect(),
        verified_at: if verified {
            Some(VerifiedAt { sha: "abc".to_string(), timestamp: "t".to_string() })
        } else {
            None
        },
        status: if verified { Status::Current } else { Status::Unverified },
        concepts: vec![],
    }
}

fn manifest(pages: Vec<Page>) -> Manifest {
    Manifest {
        version: 1,
        source_repo: SourceRepo { path: ".".to_string(), remote: None, default_branch: "main".to_string() },
        exclude_patterns: vec![],
        pages,
    }
}

fn unchanged() -> PageCheck {
    PageCheck { changed: Ok(vec![]), log: vec![] }
}

fn changed(file: &str) -> PageCheck {
    PageCheck {
        changed: Ok(vec![file.to_string()]),
        log: vec![LogEntry { sha: "def".to_string(), message: "add refresh".to_string() }],
    }
}

#[test]
fn audit_detects_stale_page() {
    let m = manifest(vec![page("/auth", &[], &["/intro"], true), page("/intro", &[], &[], true)]);
    let s = audit_all(&m, None, vec![changed("src/auth.rs"), unchanged()]);
    assert_eq!(s.results.len(), 2);
    assert_eq!(s.results[0].new_status, Status::Stale);
    assert_eq!(s.results[0].changed_sources, vec!["src/auth.rs".to_string()]);
    assert_eq!(s.results[0].log_entries[0].message, "add refresh");
    assert_eq!(s.results[1].new_status, Status::Current);
    assert_eq!(s.related_warnings.len(), 1);
    assert_eq!(s.related_warnings[0].route, "/intro");
    assert_eq!(s.related_warnings[0].stale_dependency, "/auth");
}

#[test]
fn stale_page_gets_no_related_warning() {
    let m = manifest(vec![page("/a", &[], &["/b"], true), page("/b", &[], &["/a"], true)]);
    let s = audit_all(&m, None, vec![changed("src/a.rs"), changed("src/b.rs")]);
    assert!(s.related_warnings.is_empty());
}

#[test]
fn tag_filter_selects_pages() {
    let m = manifest(vec![page("/a", &["api"], &[], true), page("/b", &[], &[], true)]);
    let s = audit_all(&m, Some("api"), vec![unchanged(), changed("src/b.rs")]);
    assert_eq!(s.results.len(), 1);
    assert_eq!(s.results[0].route, "/a");
    assert!(is_selected(&m.pages[0], Some("api")));
    assert!(!is_selected(&m.pages[1], Some("api")));
    assert!(is_selected(&m.pages[1], None));
}

#[test]
fn unverified_and_missing_pages() {
    let never = page("/n", &[], &[], false);
    assert!(!needs_git_check(&never));
    let r = audit_page(&never, changed("src/n.rs"));
    assert_eq!(r.new_status, Status::Unverified);
    assert!(r.changed_sources.is_empty());

    let mut gone = page("/g", &[], &[], true);
    gone.file = None;
    assert!(!needs_git_check(&gone));
    assert_eq!(audit_page(&gone, unchanged()).new_status, Status::Missing);

    let mut bare = page("/s", &[], &[], true);
    bare.sources.clear();
    bare.status = Status::Outdated;
    assert_eq!(audit_page(&bare, changed("x")).new_status, Status::Outdated);
}

#[test]
fn git_failure_is_reported() {
    let p = page("/a", &[], &[], true);
    assert!(needs_git_check(&p));
    let r = audit_page(&p, PageCheck { changed: Err("SHA 'abc' not found".to_string()), log: vec![] });
    assert_eq!(r.new_status, Status::Unverified);
    assert_eq!(r.error, Some("SHA 'abc' not found".to_string()));
    assert_eq!(r.old_status, Status::Current);
    assert_eq!(r.title, "Title /a");
}

#[test]
fn stale_page_warns_its_related_pages() {
    let m = manifest(vec![page("/a", &[], &["/b", "/c"], true), page("/b", &[], &[], true)]);
    let s = audit_all(&m, None, vec![changed("src/a.rs"), unchanged()]);
    let w: Vec<(String, String)> = s
        .related_warnings
        .iter()
        .map(|w| (w.route.clone(), w.stale_dependency.clone()))
        .collect();
    assert_eq!(
        w,
        vec![
            ("/b".to_string(), "/a".to_string()),
            ("/c".to_string(), "/a".to_string()),
        ]
    );
}

#[test]
fn current_page_listing_a_stale_page_gets_no_warning() {
    let m = manifest(vec![page("/a", &[], &["/b"], true), page("/b", &[], &[], true)]);
    let s = audit_all(&m, None, vec![unchanged(), changed("src/b.rs")]);
    assert!(s.related_warnings.is_empty());
}
