use docfresh::presets::{
    all_site_presets, all_source_presets, detect_site_framework, detect_source_language,
    find_site_preset, find_source_preset, format_preset_list, hugo, markdown, nextjs_app,
    strip_page_extension, SiteProbe, SourceProbe,
};

fn no_site_files() -> SiteProbe {
    SiteProbe {
        astro_config: false,
        app_dir: false,
        next_config: false,
        next_config_js: false,
        pages_dir: false,
        docusaurus_config: false,
        mkdocs_yml: false,
        vitepress_dir: false,
        book_toml: false,
        conf_py: false,
        hugo_toml: false,
        hugo_yaml: false,
        hugo_json: false,
        content_dir: false,
        config_toml: false,
        config_yml: false,
        config_yaml: false,
    }
}

fn no_source_files() -> SourceProbe {
    SourceProbe {
        cargo_toml: false,
        go_mod: false,
        tsconfig_json: false,
        package_json: false,
        pyproject_toml: false,
        setup_py: false,
        setup_cfg: false,
        pom_xml: false,
        build_gradle: false,
        csproj: false,
        sln: false,
        gemfile: false,
        composer_json: false,
        cmakelists_txt: false,
        makefile: false,
        cpp_files: false,
        cc_files: false,
    }
}

fn site_name(p: SiteProbe) -> Option<&'static str> {
    detect_site_framework(&p).map(|x| x.name)
}

fn lang_name(p: SourceProbe) -> Option<&'static str> {
    detect_source_language(&p).map(|x| x.name)
}

#[test]
fn presets_are_found_by_name() {
    assert_eq!(find_site_preset("hugo").unwrap().base_dir, "content");
    assert_eq!(find_site_preset("nextjs-app").unwrap().page_patterns[0], "app/**/page.tsx");
    assert!(find_site_preset("gatsby").is_none());
    assert_eq!(find_source_preset("rust").unwrap().scan_patterns, &["src/**/*.rs", "docs/spec/**/*.md"][..]);
    assert!(find_source_preset("cobol").is_none());
    assert_eq!(all_site_presets().len(), 11);
    assert_eq!(all_source_presets().len(), 10);
}

#[test]
fn site_detection_order() {
    assert_eq!(site_name(no_site_files()), None);
    let mut p = no_site_files();
    p.astro_config = true;
    p.mkdocs_yml = true;
    assert_eq!(site_name(p), Some("astro"));
    let mut p = no_site_files();
    p.app_dir = true;
    p.next_config_js = true;
    assert_eq!(site_name(p), Some("nextjs-app"));
    let mut p = no_site_files();
    p.pages_dir = true;
    p.next_config = true;
    assert_eq!(site_name(p), Some("nextjs-pages"));
    let mut p = no_site_files();
    p.pages_dir = true;
    p.next_config_js = true;
    assert_eq!(site_name(p), None);
    let mut p = no_site_files();
    p.content_dir = true;
    p.config_toml = true;
    assert_eq!(site_name(p), Some("hugo"));
    let mut p = no_site_files();
    p.config_yaml = true;
    assert_eq!(site_name(p), Some("jekyll"));
}

#[test]
fn source_detection_order() {
    assert_eq!(lang_name(no_source_files()), None);
    let mut p = no_source_files();
    p.package_json = true;
    p.tsconfig_json = true;
    assert_eq!(lang_name(p), Some("typescript"));
    let mut p = no_source_files();
    p.cmakelists_txt = true;
    assert_eq!(lang_name(p), Some("cpp"));
    let mut p = no_source_files();
    p.makefile = true;
    assert_eq!(lang_name(p), None);
    let mut p = no_source_files();
    p.makefile = true;
    p.cc_files = true;
    assert_eq!(lang_name(p), Some("cpp"));
    let mut p = no_source_files();
    p.cmakelists_txt = true;
    p.composer_json = true;
    assert_eq!(lang_name(p), Some("php"));
    let mut p = no_source_files();
    p.sln = true;
    p.gemfile = true;
    assert_eq!(lang_name(p), Some("csharp"));
}

#[test]
fn page_extensions_are_stripped_once() {
    assert_eq!(strip_page_extension("guide/intro.md", &markdown()), "guide/intro");
    assert_eq!(strip_page_extension("a.html", &hugo()), "a");
    assert_eq!(strip_page_extension("a.md.html", &hugo()), "a.md");
    assert_eq!(strip_page_extension("notes.txt", &markdown()), "notes.txt");
    assert_eq!(strip_page_extension("x/page.tsx", &nextjs_app()), "x/page");
}

#[test]
fn list_presets_shows_frameworks() {
    let lines = format_preset_list();
    let text = lines.join("\n");
    for name in ["astro", "hugo", "nextjs-app", "docusaurus", "rust", "python", "typescript"] {
        assert!(text.contains(name), "missing {name}");
    }
    assert_eq!(lines[0], "Site frameworks:");
    assert_eq!(
        lines[1],
        format!("  {:<16} pages: {:<35} base: {}", "astro", "src/pages/**/*.astro", "src/pages")
    );
    assert_eq!(lines[12], "");
    assert_eq!(lines[13], "Source languages:");
    assert_eq!(lines[14], format!("  {:<16} scan: {}", "rust", "src/**/*.rs, docs/spec/**/*.md"));
    assert_eq!(lines.len(), 24);
}
