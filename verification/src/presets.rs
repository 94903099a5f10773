//! Presets for the site frameworks and source languages that the tool
//! knows: where page files live, and which source files to scan.
use vstd::prelude::*;
use crate::config::str_views;
use crate::text::{
    chars_of, ends_with, has_suffix, join, owned, pad_right, push_padded, push_str, slice_of, str_eq,
    string_of, strs,
};

verus! {

/// Site framework preset: how to find and route page files.
#[derive(Clone, Copy, Debug)]
pub struct SitePreset {
    pub name: &'static str,
    pub page_patterns: &'static [&'static str],
    pub base_dir: &'static str,
    pub extensions: &'static [&'static str],
}

/// Source language preset: which source files to scan.
#[derive(Clone, Copy, Debug)]
pub struct SourcePreset {
    pub name: &'static str,
    pub scan_patterns: &'static [&'static str],
}

/// Whether the preset has exactly the given fields.
pub open spec fn site_preset_is(
    p: SitePreset,
    name: Seq<char>,
    patterns: Seq<Seq<char>>,
    base_dir: Seq<char>,
    extensions: Seq<Seq<char>>,
) -> bool {
    &&& p.name@ == name
    &&& str_views(p.page_patterns@) == patterns
    &&& p.base_dir@ == base_dir
    &&& str_views(p.extensions@) == extensions
}

/// Whether the preset has exactly the given fields.
pub open spec fn source_preset_is(p: SourcePreset, name: Seq<char>, patterns: Seq<Seq<char>>) -> bool {
    &&& p.name@ == name
    &&& str_views(p.scan_patterns@) == patterns
}

/// The `astro` site preset.
pub open spec fn is_astro(p: SitePreset) -> bool {
    site_preset_is(p, "astro"@, seq!["src/pages/**/*.astro"@], "src/pages"@, seq![".astro"@])
}

/// The `astro` site preset.
pub fn astro() -> (p: SitePreset)
    ensures
        is_astro(p),
{
    let p = SitePreset {
        name: "astro",
        page_patterns: &["src/pages/**/*.astro"],
        base_dir: "src/pages",
        extensions: &[".astro"],
    };
    assert(str_views(p.page_patterns@) =~= seq!["src/pages/**/*.astro"@]);
    assert(str_views(p.extensions@) =~= seq![".astro"@]);
    p
}

/// The `nextjs-app` site preset.
pub open spec fn is_nextjs_app(p: SitePreset) -> bool {
    site_preset_is(p, "nextjs-app"@, seq!["app/**/page.tsx"@, "app/**/page.jsx"@, "app/**/page.mdx"@], "app"@, seq![".tsx"@, ".jsx"@, ".mdx"@])
}

/// The `nextjs-app` site preset.
pub fn nextjs_app() -> (p: SitePreset)
    ensures
        is_nextjs_app(p),
{
    let p = SitePreset {
        name: "nextjs-app",
        page_patterns: &["app/**/page.tsx", "app/**/page.jsx", "app/**/page.mdx"],
        base_dir: "app",
        extensions: &[".tsx", ".jsx", ".mdx"],
    };
    assert(str_views(p.page_patterns@) =~= seq!["app/**/page.tsx"@, "app/**/page.jsx"@, "app/**/page.mdx"@]);
    assert(str_views(p.extensions@) =~= seq![".tsx"@, ".jsx"@, ".mdx"@]);
    p
}

/// The `nextjs-pages` site preset.
pub open spec fn is_nextjs_pages(p: SitePreset) -> bool {
    site_preset_is(p, "nextjs-pages"@, seq!["pages/**/*.tsx"@, "pages/**/*.jsx"@, "pages/**/*.mdx"@], "pages"@, seq![".tsx"@, ".jsx"@, ".mdx"@])
}

/// The `nextjs-pages` site preset.
pub fn nextjs_pages() -> (p: SitePreset)
    ensures
        is_nextjs_pages(p),
{
    let p = SitePreset {
        name: "nextjs-pages",
        page_patterns: &["pages/**/*.tsx", "pages/**/*.jsx", "pages/**/*.mdx"],
        base_dir: "pages",
        extensions: &[".tsx", ".jsx", ".mdx"],
    };
    assert(str_views(p.page_patterns@) =~= seq!["pages/**/*.tsx"@, "pages/**/*.jsx"@, "pages/**/*.mdx"@]);
    assert(str_views(p.extensions@) =~= seq![".tsx"@, ".jsx"@, ".mdx"@]);
    p
}

/// The `hugo` site preset.
pub open spec fn is_hugo(p: SitePreset) -> bool {
    site_preset_is(p, "hugo"@, seq!["content/**/*.md"@, "content/**/*.html"@], "content"@, seq![".md"@, ".html"@])
}

/// The `hugo` site preset.
pub fn hugo() -> (p: SitePreset)
    ensures
        is_hugo(p),
{
    let p = SitePreset {
        name: "hugo",
        page_patterns: &["content/**/*.md", "content/**/*.html"],
        base_dir: "content",
        extensions: &[".md", ".html"],
    };
    assert(str_views(p.page_patterns@) =~= seq!["content/**/*.md"@, "content/**/*.html"@]);
    assert(str_views(p.extensions@) =~= seq![".md"@, ".html"@]);
    p
}

/// The `docusaurus` site preset.
pub open spec fn is_docusaurus(p: SitePreset) -> bool {
    site_preset_is(p, "docusaurus"@, seq!["docs/**/*.md"@, "docs/**/*.mdx"@, "blog/**/*.md"@], "docs"@, seq![".md"@, ".mdx"@])
}

/// The `docusaurus` site preset.
pub fn docusaurus() -> (p: SitePreset)
    ensures
        is_docusaurus(p),
{
    let p = SitePreset {
        name: "docusaurus",
        page_patterns: &["docs/**/*.md", "docs/**/*.mdx", "blog/**/*.md"],
        base_dir: "docs",
        extensions: &[".md", ".mdx"],
    };
    assert(str_views(p.page_patterns@) =~= seq!["docs/**/*.md"@, "docs/**/*.mdx"@, "blog/**/*.md"@]);
    assert(str_views(p.extensions@) =~= seq![".md"@, ".mdx"@]);
    p
}

/// The `mkdocs` site preset.
pub open spec fn is_mkdocs(p: SitePreset) -> bool {
    site_preset_is(p, "mkdocs"@, seq!["docs/**/*.md"@], "docs"@, seq![".md"@])
}

/// The `mkdocs` site preset.
pub fn mkdocs() -> (p: SitePreset)
    ensures
        is_mkdocs(p),
{
    let p = SitePreset {
        name: "mkdocs",
        page_patterns: &["docs/**/*.md"],
        base_dir: "docs",
        extensions: &[".md"],
    };
    assert(str_views(p.page_patterns@) =~= seq!["docs/**/*.md"@]);
    assert(str_views(p.extensions@) =~= seq![".md"@]);
    p
}

/// The `vitepress` site preset.
pub open spec fn is_vitepress(p: SitePreset) -> bool {
    site_preset_is(p, "vitepress"@, seq!["docs/**/*.md"@, "*.md"@], "docs"@, seq![".md"@])
}

/// The `vitepress` site preset.
pub fn vitepress() -> (p: SitePreset)
    ensures
        is_vitepress(p),
{
    let p = SitePreset {
        name: "vitepress",
        page_patterns: &["docs/**/*.md", "*.md"],
        base_dir: "docs",
        extensions: &[".md"],
    };
    assert(str_views(p.page_patterns@) =~= seq!["docs/**/*.md"@, "*.md"@]);
    assert(str_views(p.extensions@) =~= seq![".md"@]);
    p
}

/// The `jekyll` site preset.
pub open spec fn is_jekyll(p: SitePreset) -> bool {
    site_preset_is(p, "jekyll"@, seq!["_posts/**/*.md"@, "**/*.md"@, "**/*.html"@], "."@, seq![".md"@, ".html"@])
}

/// The `jekyll` site preset.
pub fn jekyll() -> (p: SitePreset)
    ensures
        is_jekyll(p),
{
    let p = SitePreset {
        name: "jekyll",
        page_patterns: &["_posts/**/*.md", "**/*.md", "**/*.html"],
        base_dir: ".",
        extensions: &[".md", ".html"],
    };
    assert(str_views(p.page_patterns@) =~= seq!["_posts/**/*.md"@, "**/*.md"@, "**/*.html"@]);
    assert(str_views(p.extensions@) =~= seq![".md"@, ".html"@]);
    p
}

/// The `mdbook` site preset.
pub open spec fn is_mdbook(p: SitePreset) -> bool {
    site_preset_is(p, "mdbook"@, seq!["src/**/*.md"@], "src"@, seq![".md"@])
}

/// The `mdbook` site preset.
pub fn mdbook() -> (p: SitePreset)
    ensures
        is_mdbook(p),
{
    let p = SitePreset {
        name: "mdbook",
        page_patterns: &["src/**/*.md"],
        base_dir: "src",
        extensions: &[".md"],
    };
    assert(str_views(p.page_patterns@) =~= seq!["src/**/*.md"@]);
    assert(str_views(p.extensions@) =~= seq![".md"@]);
    p
}

/// The `sphinx` site preset.
pub open spec fn is_sphinx(p: SitePreset) -> bool {
    site_preset_is(p, "sphinx"@, seq!["**/*.rst"@, "**/*.md"@], "."@, seq![".rst"@, ".md"@])
}

/// The `sphinx` site preset.
pub fn sphinx() -> (p: SitePreset)
    ensures
        is_sphinx(p),
{
    let p = SitePreset {
        name: "sphinx",
        page_patterns: &["**/*.rst", "**/*.md"],
        base_dir: ".",
        extensions: &[".rst", ".md"],
    };
    assert(str_views(p.page_patterns@) =~= seq!["**/*.rst"@, "**/*.md"@]);
    assert(str_views(p.extensions@) =~= seq![".rst"@, ".md"@]);
    p
}

/// The `markdown` site preset.
pub open spec fn is_markdown(p: SitePreset) -> bool {
    site_preset_is(p, "markdown"@, seq!["docs/**/*.md"@, "**/*.md"@], "docs"@, seq![".md"@])
}

/// The `markdown` site preset.
pub fn markdown() -> (p: SitePreset)
    ensures
        is_markdown(p),
{
    let p = SitePreset {
        name: "markdown",
        page_patterns: &["docs/**/*.md", "**/*.md"],
        base_dir: "docs",
        extensions: &[".md"],
    };
    assert(str_views(p.page_patterns@) =~= seq!["docs/**/*.md"@, "**/*.md"@]);
    assert(str_views(p.extensions@) =~= seq![".md"@]);
    p
}

/// The `rust` source preset.
pub open spec fn is_rust_source(p: SourcePreset) -> bool {
    source_preset_is(p, "rust"@, seq!["src/**/*.rs"@, "docs/spec/**/*.md"@])
}

/// The `rust` source preset.
pub fn rust_source() -> (p: SourcePreset)
    ensures
        is_rust_source(p),
{
    let p = SourcePreset { name: "rust", scan_patterns: &["src/**/*.rs", "docs/spec/**/*.md"] };
    assert(str_views(p.scan_patterns@) =~= seq!["src/**/*.rs"@, "docs/spec/**/*.md"@]);
    p
}

/// The `go` source preset.
pub open spec fn is_go_source(p: SourcePreset) -> bool {
    source_preset_is(p, "go"@, seq!["**/*.go"@, "docs/**/*.md"@])
}

/// The `go` source preset.
pub fn go_source() -> (p: SourcePreset)
    ensures
        is_go_source(p),
{
    let p = SourcePreset { name: "go", scan_patterns: &["**/*.go", "docs/**/*.md"] };
    assert(str_views(p.scan_patterns@) =~= seq!["**/*.go"@, "docs/**/*.md"@]);
    p
}

/// The `python` source preset.
pub open spec fn is_python_source(p: SourcePreset) -> bool {
    source_preset_is(p, "python"@, seq!["**/*.py"@, "docs/**/*.md"@, "docs/**/*.rst"@])
}

/// The `python` source preset.
pub fn python_source() -> (p: SourcePreset)
    ensures
        is_python_source(p),
{
    let p = SourcePreset { name: "python", scan_patterns: &["**/*.py", "docs/**/*.md", "docs/**/*.rst"] };
    assert(str_views(p.scan_patterns@) =~= seq!["**/*.py"@, "docs/**/*.md"@, "docs/**/*.rst"@]);
    p
}

/// The `typescript` source preset.
pub open spec fn is_typescript_source(p: SourcePreset) -> bool {
    source_preset_is(p, "typescript"@, seq!["src/**/*.ts"@, "src/**/*.tsx"@, "lib/**/*.ts"@, "docs/**/*.md"@])
}

/// The `typescript` source preset.
pub fn typescript_source() -> (p: SourcePreset)
    ensures
        is_typescript_source(p),
{
    let p = SourcePreset { name: "typescript", scan_patterns: &["src/**/*.ts", "src/**/*.tsx", "lib/**/*.ts", "docs/**/*.md"] };
    assert(str_views(p.scan_patterns@) =~= seq!["src/**/*.ts"@, "src/**/*.tsx"@, "lib/**/*.ts"@, "docs/**/*.md"@]);
    p
}

/// The `javascript` source preset.
pub open spec fn is_javascript_source(p: SourcePreset) -> bool {
    source_preset_is(p, "javascript"@, seq!["src/**/*.js"@, "src/**/*.jsx"@, "lib/**/*.js"@, "docs/**/*.md"@])
}

/// The `javascript` source preset.
pub fn javascript_source() -> (p: SourcePreset)
    ensures
        is_javascript_source(p),
{
    let p = SourcePreset { name: "javascript", scan_patterns: &["src/**/*.js", "src/**/*.jsx", "lib/**/*.js", "docs/**/*.md"] };
    assert(str_views(p.scan_patterns@) =~= seq!["src/**/*.js"@, "src/**/*.jsx"@, "lib/**/*.js"@, "docs/**/*.md"@]);
    p
}

/// The `java` source preset.
pub open spec fn is_java_source(p: SourcePreset) -> bool {
    source_preset_is(p, "java"@, seq!["src/**/*.java"@, "docs/**/*.md"@])
}

/// The `java` source preset.
pub fn java_source() -> (p: SourcePreset)
    ensures
        is_java_source(p),
{
    let p = SourcePreset { name: "java", scan_patterns: &["src/**/*.java", "docs/**/*.md"] };
    assert(str_views(p.scan_patterns@) =~= seq!["src/**/*.java"@, "docs/**/*.md"@]);
    p
}

/// The `csharp` source preset.
pub open spec fn is_csharp_source(p: SourcePreset) -> bool {
    source_preset_is(p, "csharp"@, seq!["**/*.cs"@, "docs/**/*.md"@])
}

/// The `csharp` source preset.
pub fn csharp_source() -> (p: SourcePreset)
    ensures
        is_csharp_source(p),
{
    let p = SourcePreset { name: "csharp", scan_patterns: &["**/*.cs", "docs/**/*.md"] };
    assert(str_views(p.scan_patterns@) =~= seq!["**/*.cs"@, "docs/**/*.md"@]);
    p
}

/// The `ruby` source preset.
pub open spec fn is_ruby_source(p: SourcePreset) -> bool {
    source_preset_is(p, "ruby"@, seq!["lib/**/*.rb"@, "app/**/*.rb"@, "docs/**/*.md"@])
}

/// The `ruby` source preset.
pub fn ruby_source() -> (p: SourcePreset)
    ensures
        is_ruby_source(p),
{
    let p = SourcePreset { name: "ruby", scan_patterns: &["lib/**/*.rb", "app/**/*.rb", "docs/**/*.md"] };
    assert(str_views(p.scan_patterns@) =~= seq!["lib/**/*.rb"@, "app/**/*.rb"@, "docs/**/*.md"@]);
    p
}

/// The `php` source preset.
pub open spec fn is_php_source(p: SourcePreset) -> bool {
    source_preset_is(p, "php"@, seq!["src/**/*.php"@, "app/**/*.php"@, "docs/**/*.md"@])
}

/// The `php` source preset.
pub fn php_source() -> (p: SourcePreset)
    ensures
        is_php_source(p),
{
    let p = SourcePreset { name: "php", scan_patterns: &["src/**/*.php", "app/**/*.php", "docs/**/*.md"] };
    assert(str_views(p.scan_patterns@) =~= seq!["src/**/*.php"@, "app/**/*.php"@, "docs/**/*.md"@]);
    p
}

/// The `cpp` source preset.
pub open spec fn is_cpp_source(p: SourcePreset) -> bool {
    source_preset_is(p, "cpp"@, seq!["src/**/*.cpp"@, "src/**/*.h"@, "include/**/*.h"@, "docs/**/*.md"@])
}

/// The `cpp` source preset.
pub fn cpp_source() -> (p: SourcePreset)
    ensures
        is_cpp_source(p),
{
    let p = SourcePreset { name: "cpp", scan_patterns: &["src/**/*.cpp", "src/**/*.h", "include/**/*.h", "docs/**/*.md"] };
    assert(str_views(p.scan_patterns@) =~= seq!["src/**/*.cpp"@, "src/**/*.h"@, "include/**/*.h"@, "docs/**/*.md"@]);
    p
}

/// All site presets, in lookup order.
pub fn all_site_presets() -> (r: Vec<SitePreset>)
    ensures
        r@.len() == 11,
        is_astro(r@[0]),
        is_nextjs_app(r@[1]),
        is_nextjs_pages(r@[2]),
        is_hugo(r@[3]),
        is_docusaurus(r@[4]),
        is_mkdocs(r@[5]),
        is_vitepress(r@[6]),
        is_jekyll(r@[7]),
        is_mdbook(r@[8]),
        is_sphinx(r@[9]),
        is_markdown(r@[10]),
{
    let mut r: Vec<SitePreset> = Vec::new();
    r.push(astro());
    r.push(nextjs_app());
    r.push(nextjs_pages());
    r.push(hugo());
    r.push(docusaurus());
    r.push(mkdocs());
    r.push(vitepress());
    r.push(jekyll());
    r.push(mdbook());
    r.push(sphinx());
    r.push(markdown());
    r
}

/// All source presets, in lookup order.
pub fn all_source_presets() -> (r: Vec<SourcePreset>)
    ensures
        r@.len() == 10,
        is_rust_source(r@[0]),
        is_go_source(r@[1]),
        is_python_source(r@[2]),
        is_typescript_source(r@[3]),
        is_javascript_source(r@[4]),
        is_java_source(r@[5]),
        is_csharp_source(r@[6]),
        is_ruby_source(r@[7]),
        is_php_source(r@[8]),
        is_cpp_source(r@[9]),
{
    let mut r: Vec<SourcePreset> = Vec::new();
    r.push(rust_source());
    r.push(go_source());
    r.push(python_source());
    r.push(typescript_source());
    r.push(javascript_source());
    r.push(java_source());
    r.push(csharp_source());
    r.push(ruby_source());
    r.push(php_source());
    r.push(cpp_source());
    r
}

/// Whether `name` names a site preset.
pub open spec fn is_site_preset_name(name: Seq<char>) -> bool {
    ||| name == "astro"@
    ||| name == "nextjs-app"@
    ||| name == "nextjs-pages"@
    ||| name == "hugo"@
    ||| name == "docusaurus"@
    ||| name == "mkdocs"@
    ||| name == "vitepress"@
    ||| name == "jekyll"@
    ||| name == "mdbook"@
    ||| name == "sphinx"@
    ||| name == "markdown"@
}

/// Whether `p` is the site preset named `name`.
pub open spec fn site_preset_named(name: Seq<char>, p: SitePreset) -> bool {
    ||| name == "astro"@ && is_astro(p)
    ||| name == "nextjs-app"@ && is_nextjs_app(p)
    ||| name == "nextjs-pages"@ && is_nextjs_pages(p)
    ||| name == "hugo"@ && is_hugo(p)
    ||| name == "docusaurus"@ && is_docusaurus(p)
    ||| name == "mkdocs"@ && is_mkdocs(p)
    ||| name == "vitepress"@ && is_vitepress(p)
    ||| name == "jekyll"@ && is_jekyll(p)
    ||| name == "mdbook"@ && is_mdbook(p)
    ||| name == "sphinx"@ && is_sphinx(p)
    ||| name == "markdown"@ && is_markdown(p)
}

/// Whether `name` names a source preset.
pub open spec fn is_source_preset_name(name: Seq<char>) -> bool {
    ||| name == "rust"@
    ||| name == "go"@
    ||| name == "python"@
    ||| name == "typescript"@
    ||| name == "javascript"@
    ||| name == "java"@
    ||| name == "csharp"@
    ||| name == "ruby"@
    ||| name == "php"@
    ||| name == "cpp"@
}

/// Whether `p` is the source preset named `name`.
pub open spec fn source_preset_named(name: Seq<char>, p: SourcePreset) -> bool {
    ||| name == "rust"@ && is_rust_source(p)
    ||| name == "go"@ && is_go_source(p)
    ||| name == "python"@ && is_python_source(p)
    ||| name == "typescript"@ && is_typescript_source(p)
    ||| name == "javascript"@ && is_javascript_source(p)
    ||| name == "java"@ && is_java_source(p)
    ||| name == "csharp"@ && is_csharp_source(p)
    ||| name == "ruby"@ && is_ruby_source(p)
    ||| name == "php"@ && is_php_source(p)
    ||| name == "cpp"@ && is_cpp_source(p)
}

/// The site preset with the given name.
pub fn find_site_preset(name: &str) -> (r: Option<SitePreset>)
    ensures
        r is Some <==> is_site_preset_name(name@),
        r matches Some(p) ==> site_preset_named(name@, p),
{
    let all = all_site_presets();
    let mut i: usize = 0;
    while i < all.len()
        invariant
            i <= all@.len(),
            all@.len() == 11,
            is_astro(all@[0]),
            is_nextjs_app(all@[1]),
            is_nextjs_pages(all@[2]),
            is_hugo(all@[3]),
            is_docusaurus(all@[4]),
            is_mkdocs(all@[5]),
            is_vitepress(all@[6]),
            is_jekyll(all@[7]),
            is_mdbook(all@[8]),
            is_sphinx(all@[9]),
            is_markdown(all@[10]),
            forall|j: int| 0 <= j < i ==> all@[j].name@ != name@,
        decreases all@.len() - i,
    {
        if str_eq(all[i].name, name) {
            let p = &all[i];
            return Some(SitePreset {
                name: p.name,
                page_patterns: p.page_patterns,
                base_dir: p.base_dir,
                extensions: p.extensions,
            });
        }
        i = i + 1;
    }
    None
}

/// The source preset with the given name.
pub fn find_source_preset(name: &str) -> (r: Option<SourcePreset>)
    ensures
        r is Some <==> is_source_preset_name(name@),
        r matches Some(p) ==> source_preset_named(name@, p),
{
    let all = all_source_presets();
    let mut i: usize = 0;
    while i < all.len()
        invariant
            i <= all@.len(),
            all@.len() == 10,
            is_rust_source(all@[0]),
            is_go_source(all@[1]),
            is_python_source(all@[2]),
            is_typescript_source(all@[3]),
            is_javascript_source(all@[4]),
            is_java_source(all@[5]),
            is_csharp_source(all@[6]),
            is_ruby_source(all@[7]),
            is_php_source(all@[8]),
            is_cpp_source(all@[9]),
            forall|j: int| 0 <= j < i ==> all@[j].name@ != name@,
        decreases all@.len() - i,
    {
        if str_eq(all[i].name, name) {
            let p = &all[i];
            return Some(SourcePreset { name: p.name, scan_patterns: p.scan_patterns });
        }
        i = i + 1;
    }
    None
}


/// What the site directory holds, as far as framework detection asks.
pub struct SiteProbe {
    /// A file matching `astro.config.*`.
    pub astro_config: bool,
    /// An `app` directory.
    pub app_dir: bool,
    /// A file matching `next.config.*`.
    pub next_config: bool,
    /// A file `next.config.js`.
    pub next_config_js: bool,
    /// A `pages` directory.
    pub pages_dir: bool,
    /// A file matching `docusaurus.config.*`.
    pub docusaurus_config: bool,
    /// A file `mkdocs.yml`.
    pub mkdocs_yml: bool,
    /// A `.vitepress` directory.
    pub vitepress_dir: bool,
    /// A file `book.toml`.
    pub book_toml: bool,
    /// A file `conf.py`.
    pub conf_py: bool,
    /// A file `hugo.toml`.
    pub hugo_toml: bool,
    /// A file `hugo.yaml`.
    pub hugo_yaml: bool,
    /// A file `hugo.json`.
    pub hugo_json: bool,
    /// A `content` directory.
    pub content_dir: bool,
    /// A file `config.toml`.
    pub config_toml: bool,
    /// A file `_config.yml`.
    pub config_yml: bool,
    /// A file `_config.yaml`.
    pub config_yaml: bool,
}

/// The framework that a site directory with these files uses: the first
/// rule that matches, most specific first.
pub open spec fn detected_site(f: SiteProbe) -> Option<Seq<char>> {
    if f.astro_config {
        Some("astro"@)
    } else if f.app_dir && (f.next_config || f.next_config_js) {
        Some("nextjs-app"@)
    } else if f.pages_dir && f.next_config {
        Some("nextjs-pages"@)
    } else if f.docusaurus_config {
        Some("docusaurus"@)
    } else if f.mkdocs_yml {
        Some("mkdocs"@)
    } else if f.vitepress_dir {
        Some("vitepress"@)
    } else if f.book_toml {
        Some("mdbook"@)
    } else if f.conf_py {
        Some("sphinx"@)
    } else if f.hugo_toml || f.hugo_yaml || f.hugo_json {
        Some("hugo"@)
    } else if f.content_dir && f.config_toml {
        Some("hugo"@)
    } else if f.config_yml || f.config_yaml {
        Some("jekyll"@)
    } else {
        None
    }
}

/// The site framework of a directory with the given files.
pub fn detect_site_framework(f: &SiteProbe) -> (r: Option<SitePreset>)
    ensures
        match detected_site(*f) {
            None => r is None,
            Some(name) => r matches Some(p) && site_preset_named(name, p),
        },
{
    if f.astro_config {
        return Some(astro());
    }
    if f.app_dir && (f.next_config || f.next_config_js) {
        return Some(nextjs_app());
    }
    if f.pages_dir && f.next_config {
        return Some(nextjs_pages());
    }
    if f.docusaurus_config {
        return Some(docusaurus());
    }
    if f.mkdocs_yml {
        return Some(mkdocs());
    }
    if f.vitepress_dir {
        return Some(vitepress());
    }
    if f.book_toml {
        return Some(mdbook());
    }
    if f.conf_py {
        return Some(sphinx());
    }
    if f.hugo_toml || f.hugo_yaml || f.hugo_json {
        return Some(hugo());
    }
    if f.content_dir && f.config_toml {
        return Some(hugo());
    }
    if f.config_yml || f.config_yaml {
        return Some(jekyll());
    }
    None
}

/// What the source directory holds, as far as language detection asks.
pub struct SourceProbe {
    pub cargo_toml: bool,
    pub go_mod: bool,
    pub tsconfig_json: bool,
    pub package_json: bool,
    pub pyproject_toml: bool,
    pub setup_py: bool,
    pub setup_cfg: bool,
    pub pom_xml: bool,
    pub build_gradle: bool,
    /// A file matching `*.csproj`.
    pub csproj: bool,
    /// A file matching `*.sln`.
    pub sln: bool,
    pub gemfile: bool,
    pub composer_json: bool,
    /// A file `CMakeLists.txt`.
    pub cmakelists_txt: bool,
    /// A file `Makefile`.
    pub makefile: bool,
    /// A file matching `**/*.cpp`.
    pub cpp_files: bool,
    /// A file matching `**/*.cc`.
    pub cc_files: bool,
}

/// The language of a source directory with these files: the first rule
/// that matches.
pub open spec fn detected_language(f: SourceProbe) -> Option<Seq<char>> {
    if f.cargo_toml {
        Some("rust"@)
    } else if f.go_mod {
        Some("go"@)
    } else if f.tsconfig_json {
        Some("typescript"@)
    } else if f.package_json {
        Some("javascript"@)
    } else if f.pyproject_toml || f.setup_py || f.setup_cfg {
        Some("python"@)
    } else if f.pom_xml || f.build_gradle {
        Some("java"@)
    } else if f.csproj || f.sln {
        Some("csharp"@)
    } else if f.gemfile {
        Some("ruby"@)
    } else if f.composer_json {
        Some("php"@)
    } else if f.cmakelists_txt || (f.makefile && (f.cpp_files || f.cc_files)) {
        Some("cpp"@)
    } else {
        None
    }
}

/// The source language of a directory with the given files.
pub fn detect_source_language(f: &SourceProbe) -> (r: Option<SourcePreset>)
    ensures
        match detected_language(*f) {
            None => r is None,
            Some(name) => r matches Some(p) && source_preset_named(name, p),
        },
{
    if f.cargo_toml {
        return Some(rust_source());
    }
    if f.go_mod {
        return Some(go_source());
    }
    if f.tsconfig_json {
        return Some(typescript_source());
    }
    if f.package_json {
        return Some(javascript_source());
    }
    if f.pyproject_toml || f.setup_py || f.setup_cfg {
        return Some(python_source());
    }
    if f.pom_xml || f.build_gradle {
        return Some(java_source());
    }
    if f.csproj || f.sln {
        return Some(csharp_source());
    }
    if f.gemfile {
        return Some(ruby_source());
    }
    if f.composer_json {
        return Some(php_source());
    }
    if f.cmakelists_txt || (f.makefile && (f.cpp_files || f.cc_files)) {
        return Some(cpp_source());
    }
    None
}

/// `filename` without the first of the extensions that it ends with.
pub open spec fn strip_first_extension(filename: Seq<char>, exts: Seq<Seq<char>>) -> Seq<char>
    decreases exts.len(),
{
    if exts.len() == 0 {
        filename
    } else if ends_with(filename, exts[0]) {
        filename.take(filename.len() - exts[0].len())
    } else {
        strip_first_extension(filename, exts.drop_first())
    }
}

/// `filename` without the first of the preset's page extensions that it ends
/// with, for route generation.
pub fn strip_page_extension(filename: &str, preset: &SitePreset) -> (r: String)
    ensures
        r@ == strip_first_extension(filename@, str_views(preset.extensions@)),
{
    let name = chars_of(filename);
    let ghost exts = str_views(preset.extensions@);
    let mut i: usize = 0;
    assert(exts.skip(0) == exts);
    while i < preset.extensions.len()
        invariant
            i <= preset.extensions@.len(),
            exts == str_views(preset.extensions@),
            name@ == filename@,
            strip_first_extension(filename@, exts.skip(i as int)) == strip_first_extension(
                filename@,
                exts,
            ),
        decreases preset.extensions@.len() - i,
    {
        let ext = chars_of(preset.extensions[i]);
        assert(exts.skip(i as int)[0] == ext@);
        if has_suffix(&name, &ext) {
            let stripped = slice_of(&name, 0, name.len() - ext.len());
            return string_of(&stripped);
        }
        assert(exts.skip(i as int).drop_first() == exts.skip(i + 1));
        i = i + 1;
    }
    string_of(&name)
}

/// Whether the sequence holds the site presets in lookup order.
pub open spec fn known_site_presets(r: Seq<SitePreset>) -> bool {
    &&& r.len() == 11
    &&& is_astro(r[0])
    &&& is_nextjs_app(r[1])
    &&& is_nextjs_pages(r[2])
    &&& is_hugo(r[3])
    &&& is_docusaurus(r[4])
    &&& is_mkdocs(r[5])
    &&& is_vitepress(r[6])
    &&& is_jekyll(r[7])
    &&& is_mdbook(r[8])
    &&& is_sphinx(r[9])
    &&& is_markdown(r[10])
}

/// Whether the sequence holds the source presets in lookup order.
pub open spec fn known_source_presets(r: Seq<SourcePreset>) -> bool {
    &&& r.len() == 10
    &&& is_rust_source(r[0])
    &&& is_go_source(r[1])
    &&& is_python_source(r[2])
    &&& is_typescript_source(r[3])
    &&& is_javascript_source(r[4])
    &&& is_java_source(r[5])
    &&& is_csharp_source(r[6])
    &&& is_ruby_source(r[7])
    &&& is_php_source(r[8])
    &&& is_cpp_source(r[9])
}

/// The line of a site preset in the preset list.
pub open spec fn site_row(p: SitePreset) -> Seq<char> {
    "  "@ + pad_right(p.name@, 16) + " pages: "@ + pad_right(
        join(str_views(p.page_patterns@), ", "@),
        35,
    ) + " base: "@ + p.base_dir@
}

/// The line of a source preset in the preset list.
pub open spec fn source_row(p: SourcePreset) -> Seq<char> {
    "  "@ + pad_right(p.name@, 16) + " scan: "@ + join(str_views(p.scan_patterns@), ", "@)
}

/// The lines of the preset list.
pub open spec fn preset_list(sites: Seq<SitePreset>, langs: Seq<SourcePreset>) -> Seq<Seq<char>> {
    seq!["Site frameworks:"@] + sites.map_values(|p: SitePreset| site_row(p)) + seq![
        Seq::<char>::empty(),
        "Source languages:"@,
    ] + langs.map_values(|p: SourcePreset| source_row(p))
}

/// The strings joined with `sep` between consecutive ones.
fn join_strs(parts: &[&str], sep: &str) -> (r: Vec<char>)
    ensures
        r@ == join(str_views(parts@), sep@),
{
    let ghost pv = str_views(parts@);
    let mut r: Vec<char> = Vec::new();
    let mut i: usize = 0;
    while i < parts.len()
        invariant
            i <= parts@.len(),
            pv == str_views(parts@),
            r@ == join(pv.take(i as int), sep@),
        decreases parts.len() - i,
    {
        assert(pv.take(i + 1).drop_last() =~= pv.take(i as int));
        if i > 0 {
            push_str(&mut r, sep);
        }
        push_str(&mut r, parts[i]);
        i = i + 1;
    }
    assert(pv.take(parts@.len() as int) =~= pv);
    r
}

/// The list of the presets that `init --list-presets` prints, one line each.
pub fn format_preset_list() -> (r: Vec<String>)
    ensures
        exists|sites: Seq<SitePreset>, langs: Seq<SourcePreset>|
            known_site_presets(sites) && known_source_presets(langs) && strs(r@) == preset_list(
                sites,
                langs,
            ),
{
    let sites = all_site_presets();
    let langs = all_source_presets();
    let mut r: Vec<String> = Vec::new();
    r.push(owned("Site frameworks:"));
    let ghost head = strs(r@);
    assert(head =~= seq!["Site frameworks:"@]);
    let mut i: usize = 0;
    while i < sites.len()
        invariant
            i <= sites@.len(),
            strs(r@) == head + sites@.take(i as int).map_values(|p: SitePreset| site_row(p)),
        decreases sites.len() - i,
    {
        let p = &sites[i];
        let mut v = chars_of("  ");
        push_padded(&mut v, &chars_of(p.name), 16);
        push_str(&mut v, " pages: ");
        push_padded(&mut v, &join_strs(p.page_patterns, ", "), 35);
        push_str(&mut v, " base: ");
        push_str(&mut v, p.base_dir);
        assert(v@ =~= site_row(*p));
        let ghost before = r@;
        let x = string_of(&v);
        r.push(x);
        proof {
            crate::text::lemma_strs_push(before, x);
            assert(sites@.take(i + 1).map_values(|p: SitePreset| site_row(p)) =~= sites@.take(
                i as int,
            ).map_values(|p: SitePreset| site_row(p)).push(site_row(sites@[i as int])));
        }
        i = i + 1;
    }
    assert(sites@.take(sites@.len() as int) =~= sites@);
    let ghost b1 = r@;
    let e = String::new();
    r.push(e);
    proof {
        crate::text::lemma_strs_push(b1, e);
    }
    let ghost b2 = r@;
    let t = owned("Source languages:");
    r.push(t);
    proof {
        crate::text::lemma_strs_push(b2, t);
    }
    let ghost mid = strs(r@);
    let mut j: usize = 0;
    while j < langs.len()
        invariant
            j <= langs@.len(),
            strs(r@) == mid + langs@.take(j as int).map_values(|p: SourcePreset| source_row(p)),
        decreases langs.len() - j,
    {
        let p = &langs[j];
        let mut v = chars_of("  ");
        push_padded(&mut v, &chars_of(p.name), 16);
        push_str(&mut v, " scan: ");
        let joined = join_strs(p.scan_patterns, ", ");
        crate::text::push_all(&mut v, &joined);
        assert(v@ =~= source_row(*p));
        let ghost before = r@;
        let x = string_of(&v);
        r.push(x);
        proof {
            crate::text::lemma_strs_push(before, x);
            assert(langs@.take(j + 1).map_values(|p: SourcePreset| source_row(p)) =~= langs@.take(
                j as int,
            ).map_values(|p: SourcePreset| source_row(p)).push(source_row(langs@[j as int])));
        }
        j = j + 1;
    }
    assert(langs@.take(langs@.len() as int) =~= langs@);
    assert(e@ =~= Seq::<char>::empty());
    assert(strs(r@) =~= preset_list(sites@, langs@));
    r
}

} // verus!
