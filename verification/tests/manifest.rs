use docfresh::manifest::{default_branch, Manifest, Page, Source, SourceRepo, Status, VerifiedAt};

fn sample_manifest() -> Manifest {
    Manifest {
        version: 1,
        source_repo: SourceRepo {
            path: "../source".to_string(),
            remote: None,
            default_branch: "main".to_string(),
        },
        exclude_patterns: vec![],
        pages: vec![
            Page {
                route: "/docs/auth".to_string(),
                file: Some("src/pages/docs/auth.astro".to_string()),
                title: "Authentication".to_string(),
                tags: vec!["reference".to_string()],
                sources: vec![Source {
                    path: "src/auth.rs".to_string(),
                    sections: vec![],
                }],
                related: vec!["/docs/permissions".to_string()],
                verified_at: Some(VerifiedAt {
                    sha: "abc1234".to_string(),
                    timestamp: "2025-01-01T00:00:00Z".to_string(),
                }),
                status: Status::Current,
                concepts: vec![],
            },
            Page {
                route: "/docs/api".to_string(),
                file: None,
                title: "API Reference".to_string(),
                tags: vec![],
                sources: vec![],
                related: vec![],
                verified_at: None,
                status: Status::Missing,
                concepts: vec![],
            },
        ],
    }
}

#[test]
fn status_display() {
    assert_eq!(Status::Current.to_string(), "current");
    assert_eq!(Status::Stale.to_string(), "stale");
    assert_eq!(Status::Outdated.to_string(), "outdated");
    assert_eq!(Status::Unverified.to_string(), "unverified");
    assert_eq!(Status::Missing.to_string(), "missing");
}

#[test]
fn status_default_is_unverified() {
    assert_eq!(Status::default(), Status::Unverified);
}

#[test]
fn find_page_existing() {
    let manifest = sample_manifest();
    assert_eq!(manifest.find_page("/docs/auth"), Some(0));
    assert_eq!(manifest.find_page("/docs/api"), Some(1));
}

#[test]
fn find_page_missing() {
    let manifest = sample_manifest();
    assert_eq!(manifest.find_page("/nonexistent"), None);
}

#[test]
fn validate_version_rejects_other_versions() {
    let mut m = sample_manifest();
    m.version = 99;
    let err = m.validate_version().err().unwrap();
    assert_eq!(err, "unsupported manifest version: 99");
    assert!(sample_manifest().validate_version().is_ok());
}

#[test]
fn default_branch_is_main() {
    assert_eq!(default_branch(), "main");
}

#[test]
fn resolve_source_repo_errors() {
    let m = sample_manifest();
    let err = m.resolve_source_repo("site", None, false).err().unwrap();
    assert_eq!(
        err,
        "source repo not found at '../source' (resolved from manifest dir 'site'). \
         Clone it or update source_repo.path in the manifest."
    );
    let err = m.resolve_source_repo("site", Some("/abs/source"), false).err().unwrap();
    assert_eq!(
        err,
        "'/abs/source' exists but is not a git repository (no .git directory)"
    );
    assert_eq!(
        m.resolve_source_repo("site", Some("/abs/source"), true),
        Ok("/abs/source".to_string())
    );
}

#[test]
fn find_page_returns_first_of_duplicates() {
    let mut m = sample_manifest();
    m.pages[1].route = "/docs/auth".to_string();
    assert_eq!(m.find_page("/docs/auth"), Some(0));
}
