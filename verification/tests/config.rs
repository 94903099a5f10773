use docfresh::config::{CiConfig, Config, SourceConfig};

fn config_with(scan: &[&str], exclude: &[&str]) -> Config {
    Config {
        source: SourceConfig {
            scan: scan.iter().map(|s| s.to_string()).collect(),
            exclude: exclude.iter().map(|s| s.to_string()).collect(),
        },
        ci: CiConfig::default(),
    }
}

#[test]
fn default_config() {
    let config = Config::default();
    assert_eq!(config.ci.max_stale, 0);
    assert_eq!(config.ci.min_coverage, 0);
    assert!(!config.ci.fail_on_unmapped);
    assert_eq!(config.ci.format, "markdown");
    assert!(config.source.scan.is_empty());
    assert!(config.source.exclude.is_empty());
}

#[test]
fn merge_scan_patterns() {
    let config = config_with(&["tests/**/*.rs"], &[]);
    let defaults = vec!["src/**/*.rs", "docs/**/*.md"];
    let merged = config.scan_patterns(&defaults);
    assert_eq!(merged, vec!["src/**/*.rs", "docs/**/*.md", "tests/**/*.rs"]);
}

#[test]
fn merge_exclude_patterns() {
    let config = config_with(&[], &["src/**/mod.rs"]);
    let manifest_excludes = vec!["docs/archive/*".to_string(), "src/**/mod.rs".to_string()];
    let merged = config.exclude_patterns(&manifest_excludes);
    assert_eq!(merged.len(), 2);
    assert!(merged.contains(&"src/**/mod.rs".to_string()));
    assert!(merged.contains(&"docs/archive/*".to_string()));
}

#[test]
fn exclude_patterns_keep_config_order_then_new_manifest_ones() {
    let config = config_with(&[], &["b/*", "a/*"]);
    let manifest_excludes = vec!["a/*".to_string(), "c/*".to_string(), "c/*".to_string()];
    let merged = config.exclude_patterns(&manifest_excludes);
    assert_eq!(merged, vec!["b/*", "a/*", "c/*"]);
}

#[test]
fn scan_patterns_without_extras_are_the_defaults() {
    let config = Config::default();
    let defaults = vec!["lib/**/*.rb"];
    assert_eq!(config.scan_patterns(&defaults), vec!["lib/**/*.rb"]);
}
