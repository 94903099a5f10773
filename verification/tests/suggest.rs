use docfresh::manifest::{Manifest, Page, Source, SourceRepo, Status};
use docfresh::suggest::{
    page_term_index, score_pages, unmapped_files,
    extract_go_terms, extract_java_terms, extract_markdown_terms, extract_page_content_terms,
    extract_python_terms, extract_rust_terms, extract_tag_text, extract_typescript_terms,
    lang_for_extension, page_terms, score_match, source_terms, split_camel_case, Lang, MatchScore,
};

fn s(v: &[&str]) -> Vec<String> {
    v.iter().map(|x| x.to_string()).collect()
}

fn confidence(m: &MatchScore) -> f64 {
    let stem = if m.stem_matched { 0.6 } else { 0.0 };
    let overlap = if m.total > 0 && m.matched > 0 {
        (m.matched as f64 / m.total as f64) * 0.4
    } else {
        0.0
    };
    stem + overlap
}

#[test]
fn camel_case_simple() {
    assert_eq!(split_camel_case("HelloWorld"), vec!["Hello", "World"]);
}

#[test]
fn camel_case_single_word() {
    assert_eq!(split_camel_case("hello"), vec!["hello"]);
}

#[test]
fn camel_case_multiple() {
    assert_eq!(split_camel_case("MyBigStruct"), vec!["My", "Big", "Struct"]);
}

#[test]
fn camel_case_empty() {
    let result: Vec<String> = split_camel_case("");
    assert!(result.is_empty());
}

#[test]
fn rust_pub_fn() {
    let mut terms = Vec::new();
    extract_rust_terms("pub fn authenticate_user(req: &Request) -> bool {", &mut terms);
    assert!(terms.contains(&"authenticate_user".to_string()));
}

#[test]
fn rust_pub_struct() {
    let mut terms = Vec::new();
    extract_rust_terms("pub struct AuthConfig {", &mut terms);
    assert!(terms.contains(&"authconfig".to_string()));
    assert!(terms.contains(&"auth".to_string()));
    assert!(terms.contains(&"config".to_string()));
}

#[test]
fn rust_doc_comment() {
    let mut terms = Vec::new();
    extract_rust_terms("/// Verify the authentication token against the store", &mut terms);
    assert!(terms.contains(&"verify".to_string()));
    assert!(terms.contains(&"authentication".to_string()));
    assert!(terms.contains(&"token".to_string()));
}

#[test]
fn rust_skips_short_names() {
    let mut terms = Vec::new();
    extract_rust_terms("pub fn ok() -> bool {", &mut terms);
    assert!(!terms.contains(&"ok".to_string()));
}

#[test]
fn go_exported_func() {
    let mut terms = Vec::new();
    extract_go_terms("func HandleRequest(w http.ResponseWriter, r *http.Request) {", &mut terms);
    assert!(terms.contains(&"handlerequest".to_string()));
    assert!(terms.contains(&"handle".to_string()));
    assert!(terms.contains(&"request".to_string()));
}

#[test]
fn go_exported_type() {
    let mut terms = Vec::new();
    extract_go_terms("type AuthMiddleware struct {", &mut terms);
    assert!(terms.contains(&"authmiddleware".to_string()));
}

#[test]
fn go_skips_unexported() {
    let mut terms = Vec::new();
    extract_go_terms("func handleInternal(ctx context.Context) {", &mut terms);
    assert!(!terms.contains(&"handleinternal".to_string()));
}

#[test]
fn go_method_receiver() {
    let mut terms = Vec::new();
    extract_go_terms("func (s *Server) ListenAndServe() error {", &mut terms);
    assert!(terms.contains(&"listenandserve".to_string()));
}

#[test]
fn python_class() {
    let mut terms = Vec::new();
    extract_python_terms("class UserAuthentication:", &mut terms);
    assert!(terms.contains(&"userauthentication".to_string()));
}

#[test]
fn python_function() {
    let mut terms = Vec::new();
    extract_python_terms("def validate_token(token: str) -> bool:", &mut terms);
    assert!(terms.contains(&"validate_token".to_string()));
    assert!(terms.contains(&"validate".to_string()));
    assert!(terms.contains(&"token".to_string()));
}

#[test]
fn python_skips_private() {
    let mut terms = Vec::new();
    extract_python_terms("def _internal_helper():", &mut terms);
    assert!(!terms.contains(&"_internal_helper".to_string()));
}

#[test]
fn python_docstring() {
    let mut terms = Vec::new();
    extract_python_terms(r#""""Authenticate against the backend service""""#, &mut terms);
    assert!(terms.contains(&"authenticate".to_string()));
    assert!(terms.contains(&"backend".to_string()));
    assert!(terms.contains(&"service".to_string()));
}

#[test]
fn ts_export_function() {
    let mut terms = Vec::new();
    extract_typescript_terms(
        "export function createAuthMiddleware(config: AuthConfig): Middleware {",
        &mut terms,
    );
    assert!(terms.contains(&"createauthmiddleware".to_string()));
    assert!(terms.contains(&"create".to_string()));
}

#[test]
fn ts_export_interface() {
    let mut terms = Vec::new();
    extract_typescript_terms("export interface UserProfile {", &mut terms);
    assert!(terms.contains(&"userprofile".to_string()));
    assert!(terms.contains(&"user".to_string()));
    assert!(terms.contains(&"profile".to_string()));
}

#[test]
fn ts_export_const() {
    let mut terms = Vec::new();
    extract_typescript_terms("export const DEFAULT_TIMEOUT = 5000;", &mut terms);
    assert!(terms.contains(&"default_timeout".to_string()));
}

#[test]
fn ts_export_async_function() {
    let mut terms = Vec::new();
    extract_typescript_terms(
        "export async function fetchUserData(id: string): Promise<User> {",
        &mut terms,
    );
    assert!(terms.contains(&"fetchuserdata".to_string()));
}

#[test]
fn ts_jsdoc() {
    let mut terms = Vec::new();
    extract_typescript_terms("/** Validates the authentication token */", &mut terms);
    assert!(terms.contains(&"validates".to_string()));
    assert!(terms.contains(&"authentication".to_string()));
}

#[test]
fn ts_jsdoc_skips_annotations() {
    let mut terms = Vec::new();
    extract_typescript_terms("* @param token - the bearer token", &mut terms);
    assert!(terms.is_empty());
}

#[test]
fn java_public_class() {
    let mut terms = Vec::new();
    extract_java_terms("public class AuthenticationService {", &mut terms);
    assert!(terms.contains(&"authenticationservice".to_string()));
    assert!(terms.contains(&"authentication".to_string()));
    assert!(terms.contains(&"service".to_string()));
}

#[test]
fn java_public_interface() {
    let mut terms = Vec::new();
    extract_java_terms("public interface TokenValidator {", &mut terms);
    assert!(terms.contains(&"tokenvalidator".to_string()));
}

#[test]
fn java_static_final() {
    let mut terms = Vec::new();
    extract_java_terms("public static final class SecurityConfig {", &mut terms);
    assert!(terms.contains(&"securityconfig".to_string()));
}

#[test]
fn markdown_h1() {
    let mut terms = Vec::new();
    extract_markdown_terms("# Authentication Guide", &mut terms);
    assert!(terms.contains(&"authentication".to_string()));
    assert!(terms.contains(&"guide".to_string()));
}

#[test]
fn markdown_h2() {
    let mut terms = Vec::new();
    extract_markdown_terms("## Token Validation", &mut terms);
    assert!(terms.contains(&"token".to_string()));
    assert!(terms.contains(&"validation".to_string()));
}

#[test]
fn page_content_source_paths() {
    let mut terms = Vec::new();
    extract_page_content_terms("See src/commands/bail.rs for details", &mut terms);
    assert!(terms.contains(&"bail".to_string()));
}

#[test]
fn page_content_html_tags() {
    let mut terms = Vec::new();
    extract_page_content_terms("<h2>Secret Management</h2>", &mut terms);
    assert!(terms.contains(&"secret".to_string()));
    assert!(terms.contains(&"management".to_string()));
}

#[test]
fn page_content_inline_code() {
    let mut terms = Vec::new();
    extract_page_content_terms("Use `bail` to pack and `unpack` to restore", &mut terms);
    assert!(terms.contains(&"bail".to_string()));
    assert!(terms.contains(&"unpack".to_string()));
}

#[test]
fn page_content_inline_code_rejects_multiword() {
    let mut terms = Vec::new();
    extract_page_content_terms("Run `bail pack --verify` to create", &mut terms);
    assert!(!terms.contains(&"bail pack --verify".to_string()));
}

#[test]
fn page_content_h3_with_attrs() {
    let mut terms = Vec::new();
    extract_page_content_terms(r#"<h3 id="trust-tiers">Trust Tiers</h3>"#, &mut terms);
    assert!(terms.contains(&"trust".to_string()));
    assert!(terms.contains(&"tiers".to_string()));
}

#[test]
fn tag_text_simple() {
    assert_eq!(
        extract_tag_text("<h2>Hello World</h2>", "h2"),
        Some("Hello World".to_string())
    );
}

#[test]
fn tag_text_with_attrs() {
    assert_eq!(
        extract_tag_text(r#"<h2 class="title">Hello</h2>"#, "h2"),
        Some("Hello".to_string())
    );
}

#[test]
fn tag_text_no_match() {
    assert_eq!(extract_tag_text("<p>Hello</p>", "h2"), None);
}

#[test]
fn tag_text_unclosed() {
    assert_eq!(extract_tag_text("<h2>Hello", "h2"), None);
}

#[test]
fn score_stem_match() {
    let m = score_match(
        "src/commands/bail.rs",
        &s(&["bail", "pack"]),
        &s(&["bail", "commands", "reference"]),
    );
    let score = confidence(&m);
    assert!(score >= 0.6, "stem match should score at least 0.6, got {score}");
    assert!(m.reasons.iter().any(|r| r.contains("bail")));
}

#[test]
fn score_no_match() {
    let m = score_match(
        "src/kernel/pty.rs",
        &s(&["pty", "terminal"]),
        &s(&["authentication", "oauth"]),
    );
    let score = confidence(&m);
    assert!(score < 0.1, "no overlap should score near 0, got {score}");
}

#[test]
fn score_term_overlap_only() {
    let m = score_match(
        "src/kernel/memory.rs",
        &s(&["memory", "context", "pressure"]),
        &s(&["context", "pressure", "window"]),
    );
    let score = confidence(&m);
    assert!(score > 0.0);
    assert!(m.reasons.iter().any(|r| r.contains("shared terms")));
}

#[test]
fn score_counts_exactly() {
    let m = score_match(
        "src/kernel/memory.rs",
        &s(&["memory", "context", "pressure"]),
        &s(&["context", "pressure", "window", "memory"]),
    );
    assert!(m.stem_matched);
    assert_eq!(m.matched, 3);
    assert_eq!(m.total, 3);
    assert_eq!(
        m.reasons,
        vec![
            "page mentions \"memory\"".to_string(),
            "shared terms: memory, context, pressure".to_string()
        ]
    );
}

#[test]
fn score_many_shared_terms_are_counted() {
    let terms = s(&["alpha", "bravo", "charlie", "delta", "echo", "foxtrot"]);
    let m = score_match("src/zulu.rs", &terms, &terms);
    assert!(!m.stem_matched);
    assert_eq!(m.matched, 6);
    assert_eq!(m.reasons, vec!["6 shared terms".to_string()]);
}

#[test]
fn split_camel_case_splits_at_every_capital() {
    assert_eq!(split_camel_case("HTTPServer"), vec!["H", "T", "T", "P", "Server"]);
    assert_eq!(split_camel_case("parseIt"), vec!["parse", "It"]);
}

#[test]
fn lang_follows_extension() {
    assert_eq!(lang_for_extension("rs"), Some(Lang::Rust));
    assert_eq!(lang_for_extension("go"), Some(Lang::Go));
    assert_eq!(lang_for_extension("txt"), None);
}

#[test]
fn source_terms_include_stem_and_dirs() {
    let terms = source_terms("src/commands/bail.rs", Some("pub fn pack_all() {}\n"));
    assert!(terms.contains(&"bail".to_string()));
    assert!(terms.contains(&"pack_all".to_string()));
    let sorted = {
        let mut t = terms.clone();
        t.sort();
        t.dedup();
        t
    };
    assert_eq!(terms, sorted);
}

#[test]
fn page_terms_come_from_route_and_content() {
    let terms = page_terms("/docs/secret-management", Some("<h2>Vault Usage</h2>\n# Ignored Heading\n"));
    assert!(terms.contains(&"secret".to_string()));
    assert!(terms.contains(&"management".to_string()));
    assert!(terms.contains(&"vault".to_string()));
    assert!(terms.contains(&"secret-management".to_string()));
    assert!(!terms.contains(&"ignored".to_string()));
}

fn page(route: &str, file: Option<&str>, sources: &[&str]) -> Page {
    Page {
        route: route.to_string(),
        file: file.map(|f| f.to_string()),
        title: String::new(),
        tags: vec![],
        sources: sources.iter().map(|p| Source { path: p.to_string(), sections: vec![] }).collect(),
        related: vec![],
        verified_at: None,
        status: Status::Unverified,
        concepts: vec![],
    }
}

fn manifest(pages: Vec<Page>) -> Manifest {
    Manifest {
        version: 1,
        source_repo: SourceRepo { path: ".".to_string(), remote: None, default_branch: "main".to_string() },
        exclude_patterns: vec![],
        pages,
    }
}

#[test]
fn term_index_has_pages_with_files_last_one_wins() {
    let m = manifest(vec![
        page("/bail", Some("docs/bail.md"), &[]),
        page("/none", None, &[]),
        page("/bail", Some("docs/bail2.md"), &[]),
    ]);
    let contents = vec![Some("`first`".to_string()), None, Some("`second`".to_string())];
    let index = page_term_index(&m, &contents);
    assert_eq!(index.len(), 1);
    assert_eq!(index[0].0, "/bail");
    assert_eq!(index[0].1, s(&["bail", "second"]));
}

#[test]
fn pages_are_scored_in_index_order() {
    let index = vec![
        ("/bail".to_string(), s(&["bail", "pack"])),
        ("/other".to_string(), s(&["unrelated"])),
    ];
    let scores = score_pages("src/commands/bail.rs", &s(&["bail", "pack", "merge"]), &index);
    assert_eq!(scores.len(), 2);
    assert!(scores[0].stem_matched);
    assert_eq!(scores[0].matched, 2);
    assert_eq!(scores[0].total, 3);
    assert!(!scores[1].stem_matched);
    assert_eq!(scores[1].matched, 0);
    assert!(scores[1].reasons.is_empty());
}

#[test]
fn mapped_files_are_not_suggested() {
    let m = manifest(vec![page("/a", None, &["src/a.rs"]), page("/b", None, &["src/b.rs", "src/a.rs"])]);
    let files = s(&["src/c.rs", "src/a.rs", "src/d.rs", "src/b.rs"]);
    assert_eq!(unmapped_files(&m, &files), s(&["src/c.rs", "src/d.rs"]));
}

#[test]
fn source_terms_use_the_parent_directory_name() {
    let terms = source_terms("src/auth/token_store.rs", None);
    assert_eq!(terms, s(&["auth", "store", "token", "token-store", "token_store"]));
}
