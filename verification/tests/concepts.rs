use docfresh::concepts::{
    extract_all_concepts, extract_concepts, extract_markdown_concepts, extract_rust_concepts,
    scan_page_for_concepts, Concept, ConceptKind,
};

#[test]
fn extract_rust_struct_and_fn() {
    let content = "\
pub struct AuthConfig {
    token: String,
}

pub fn authenticate_user(req: &Request) -> bool {
    true
}

pub enum Status {
    Active,
    Inactive,
}

pub trait Validator {
    fn validate(&self) -> bool;
}
";
    let concepts = extract_rust_concepts(content, "src/auth.rs");
    let names: Vec<&str> = concepts
        .iter()
        .filter(|c| !matches!(c.kind, ConceptKind::DocComment))
        .map(|c| c.name.as_str())
        .collect();
    assert!(names.contains(&"AuthConfig"), "missing AuthConfig");
    assert!(
        names.contains(&"authenticate_user"),
        "missing authenticate_user"
    );
    assert!(names.contains(&"Status"), "missing Status");
    assert!(names.contains(&"Validator"), "missing Validator");

    // Check line numbers
    let auth_config = concepts.iter().find(|c| c.name == "AuthConfig").unwrap();
    assert_eq!(auth_config.line, Some(1));
    assert!(matches!(auth_config.kind, ConceptKind::Struct));

    let auth_fn = concepts
        .iter()
        .find(|c| c.name == "authenticate_user")
        .unwrap();
    assert_eq!(auth_fn.line, Some(5));
    assert!(matches!(auth_fn.kind, ConceptKind::Function));
}

#[test]
fn extract_module_docstrings() {
    let content = "\
//! This module handles authentication flows.
//! It supports OAuth and API keys.

pub fn login() {}
";
    let concepts = extract_rust_concepts(content, "src/auth.rs");
    let modules: Vec<&Concept> = concepts
        .iter()
        .filter(|c| matches!(c.kind, ConceptKind::Module))
        .collect();
    assert_eq!(modules.len(), 2);
    assert_eq!(
        modules[0].name,
        "This module handles authentication flows."
    );
}

#[test]
fn extract_markdown_sections() {
    let content = "\
# Top Level
## Getting Started
Some text here.
### Installation
More text.
## API Reference
";
    let concepts = extract_markdown_concepts(content, "docs/guide.md");
    let names: Vec<&str> = concepts.iter().map(|c| c.name.as_str()).collect();
    assert!(names.contains(&"Getting Started"));
    assert!(names.contains(&"Installation"));
    assert!(names.contains(&"API Reference"));
    // H1 is not extracted
    assert!(!names.contains(&"Top Level"));
}

#[test]
fn scan_page_finds_concept_case_insensitive() {
    let concepts = vec![
        Concept {
            name: "Needle".to_string(),
            kind: ConceptKind::Struct,
            source_file: "src/search.rs".to_string(),
            line: Some(10),
        },
        Concept {
            name: "Haystack".to_string(),
            kind: ConceptKind::Struct,
            source_file: "src/search.rs".to_string(),
            line: Some(20),
        },
    ];

    let page_content = "A needle is an atomic work item used for searching.";
    let matched = scan_page_for_concepts(page_content, &concepts);
    assert!(matched.contains(&"Needle".to_string()));
    assert!(!matched.contains(&"Haystack".to_string()));
}

#[test]
fn scan_page_deduplicates() {
    let concepts = vec![Concept {
        name: "Config".to_string(),
        kind: ConceptKind::Struct,
        source_file: "src/config.rs".to_string(),
        line: Some(1),
    }];

    let page_content = "The Config struct holds Config values for Config.";
    let matched = scan_page_for_concepts(page_content, &concepts);
    assert_eq!(matched.len(), 1);
}

#[test]
fn concept_kind_display() {
    assert_eq!(ConceptKind::Struct.to_string(), "struct");
    assert_eq!(ConceptKind::Enum.to_string(), "enum");
    assert_eq!(ConceptKind::Trait.to_string(), "trait");
    assert_eq!(ConceptKind::Function.to_string(), "function");
    assert_eq!(ConceptKind::Module.to_string(), "module");
    assert_eq!(ConceptKind::DocComment.to_string(), "doc_comment");
    assert_eq!(ConceptKind::MarkdownSection.to_string(), "section");
}

#[test]
fn extract_concepts_skips_short_names() {
    let content = "pub fn go() {}\npub struct OK {}\n";
    let concepts = extract_rust_concepts(content, "src/tiny.rs");
    let primary: Vec<&Concept> = concepts
        .iter()
        .filter(|c| !matches!(c.kind, ConceptKind::DocComment))
        .collect();
    assert!(primary.is_empty(), "names shorter than 3 chars should be skipped");
}

#[test]
fn camel_words_become_doc_comment_concepts() {
    let concepts = extract_rust_concepts("pub struct TokenValidator {}", "src/t.rs");
    let names: Vec<(&str, &ConceptKind)> =
        concepts.iter().map(|c| (c.name.as_str(), &c.kind)).collect();
    assert_eq!(names.len(), 3);
    assert_eq!(names[0].0, "TokenValidator");
    assert!(matches!(names[0].1, ConceptKind::Struct));
    assert_eq!(names[1].0, "Token");
    assert!(matches!(names[1].1, ConceptKind::DocComment));
    assert_eq!(names[2].0, "Validator");
}

#[test]
fn short_module_doc_is_skipped() {
    let concepts = extract_rust_concepts("//! Hi\n//! Long enough line\n", "src/a.rs");
    assert_eq!(concepts.len(), 1);
    assert_eq!(concepts[0].name, "Long enough line");
    assert_eq!(concepts[0].line, Some(2));
}

#[test]
fn extract_concepts_by_extension() {
    let rs = extract_concepts("src/lib.rs", Some("pub fn handle_request() {}"));
    assert_eq!(rs.len(), 2);
    assert_eq!(rs[0].name, "handle_request");
    assert!(matches!(rs[0].kind, ConceptKind::Function));
    assert_eq!(rs[1].name, "handle_request");
    assert!(matches!(rs[1].kind, ConceptKind::DocComment));
    let md = extract_concepts("docs/a.mdx", Some("## Setup Guide\n"));
    assert_eq!(md.len(), 1);
    assert_eq!(md[0].name, "Setup Guide");
    let other = extract_concepts("src/main.py", Some("def something(): pass"));
    assert!(other.is_empty());
    let unreadable = extract_concepts("src/lib.rs", None);
    assert!(unreadable.is_empty());
}

#[test]
fn extract_all_concepts_concatenates_files() {
    let files = vec!["a.rs".to_string(), "b.md".to_string()];
    let contents = vec![
        Some("pub fn first_fn() {}".to_string()),
        Some("### Second Part".to_string()),
    ];
    let all = extract_all_concepts(&files, &contents);
    let names: Vec<&str> = all.iter().map(|c| c.name.as_str()).collect();
    assert_eq!(names, vec!["first_fn", "first_fn", "Second Part"]);
    assert_eq!(all[2].source_file, "b.md");
}

#[test]
fn scan_page_results_are_sorted() {
    let mk = |n: &str| Concept {
        name: n.to_string(),
        kind: ConceptKind::Function,
        source_file: "x.rs".to_string(),
        line: None,
    };
    let concepts = vec![mk("zeta"), mk("alpha"), mk("Mid"), mk("alpha")];
    let matched = scan_page_for_concepts("ALPHA mid ZETA", &concepts);
    assert_eq!(matched, vec!["Mid", "alpha", "zeta"]);
}
