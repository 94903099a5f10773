//! The decisions of the command-line tool: page titles and routes found by
//! `init`, the manifest edits of `verify`, `map` and `suggest --apply`, the
//! exclusion of source files by glob patterns, and the thresholds of `ci`.
use vstd::prelude::*;
use crate::manifest::{first_page_with_route, Manifest, Page, Source, SourceRepo, Status, VerifiedAt};
use crate::presets::{strip_first_extension, strip_page_extension, SitePreset};
use crate::config::str_views;
use crate::audit::AuditSummary;
use crate::coverage::CoverageStats;
use crate::report::{count_results, is_stale, Format};
use crate::text::{decimal, decimal_of, pad_right, push_padded};
use crate::text::{
    chars_eq, chars_of, ends_with, lex_lt, lines, owned, push_all, push_str, replace_all, strs,
    replace_str, split_lines, starts_with, string_of, strip_prefix_str, trim, trim_by, trim_set,
    trim_start_by, trim_white, CharSet,
};

verus! {

// ---------------------------------------------------------------------------
// Page titles
// ---------------------------------------------------------------------------

/// Double and single quotes.
pub open spec fn quotes() -> CharSet {
    CharSet::OneOf2('"', '\'')
}

/// Quotes and braces.
pub open spec fn quotes_braces() -> CharSet {
    CharSet::OneOf4('"', '\'', '{', '}')
}

/// The title of a `title = "..."` line of TOML front matter, when it is one
/// and the title is not empty.
pub open spec fn toml_line_title(t: Seq<char>) -> Option<Seq<char>> {
    if starts_with(t, "title"@) {
        let r1 = trim(t.skip(5));
        let r2 = if starts_with(r1, "="@) {
            trim(r1.skip(1))
        } else {
            r1
        };
        let title = trim_by(r2, quotes());
        if title.len() > 0 {
            Some(title)
        } else {
            None
        }
    } else {
        None
    }
}

/// The title in TOML front matter, looking from line `k` to the closing
/// `+++`.
pub open spec fn toml_title(ls: Seq<Seq<char>>, k: int) -> Option<Seq<char>>
    decreases ls.len() - k,
{
    if k < 0 || k >= ls.len() {
        None
    } else {
        let t = trim(ls[k]);
        if t == "+++"@ {
            None
        } else {
            match toml_line_title(t) {
                Some(title) => Some(title),
                None => toml_title(ls, k + 1),
            }
        }
    }
}

/// The title of a `title: ...` line of YAML front matter, when it is one and
/// the title is not empty.
pub open spec fn yaml_line_title(t: Seq<char>) -> Option<Seq<char>> {
    if starts_with(t, "title:"@) && trim_by(trim(t.skip(6)), quotes()).len() > 0 {
        Some(trim_by(trim(t.skip(6)), quotes()))
    } else {
        None
    }
}

/// The title of a `title=...` component property line, when it is one and
/// the title is not empty.
pub open spec fn prop_line_title(t: Seq<char>) -> Option<Seq<char>> {
    if starts_with(t, "title="@) && trim_by(t.skip(6), quotes_braces()).len() > 0 {
        Some(trim_by(t.skip(6), quotes_braces()))
    } else {
        None
    }
}

/// The title of a page, looking from line `i` on (`in_fm`: inside YAML front
/// matter): a `title:` of YAML front matter, a `title=` component property,
/// a `title` of TOML front matter, or the first `# ` heading.
pub open spec fn title_from(ls: Seq<Seq<char>>, i: int, in_fm: bool) -> Option<Seq<char>>
    decreases ls.len() - i,
{
    if i < 0 || i >= ls.len() {
        None
    } else {
        let t = trim(ls[i]);
        if i == 0 && t == "---"@ {
            title_from(ls, i + 1, true)
        } else if in_fm {
            if t == "---"@ {
                title_from(ls, i + 1, false)
            } else {
                match yaml_line_title(t) {
                    Some(title) => Some(title),
                    None => title_from(ls, i + 1, true),
                }
            }
        } else {
            match prop_line_title(t) {
                Some(title) => Some(title),
                None => if i == 0 && t == "+++"@ {
                    toml_title(ls, 1)
                } else if starts_with(t, "# "@) {
                    Some(trim(t.skip(2)))
                } else {
                    title_from(ls, i + 1, false)
                },
            }
        }
    }
}

/// The title of a `title = "..."` line.
fn toml_line_title_of(t: &Vec<char>) -> (r: Option<Vec<char>>)
    ensures
        match toml_line_title(t@) {
            None => r is None,
            Some(x) => r matches Some(y) && y@ == x,
        },
{
    proof {
        reveal_strlit("title");
        reveal_strlit("=");
    }
    match strip_prefix_str(t, "title") {
        None => None,
        Some(rest) => {
            let r1 = trim_white(&rest);
            let r2 = match strip_prefix_str(&r1, "=") {
                Some(x) => trim_white(&x),
                None => r1,
            };
            let title = trim_set(&r2, &CharSet::OneOf2('"', '\''));
            if title.len() > 0 {
                Some(title)
            } else {
                None
            }
        },
    }
}

/// The title in TOML front matter, from line 1 to the closing `+++`.
fn toml_title_of(ls: &Vec<Vec<char>>) -> (r: Option<Vec<char>>)
    ensures
        match toml_title(ls@.map_values(|v: Vec<char>| v@), 1) {
            None => r is None,
            Some(x) => r matches Some(y) && y@ == x,
        },
{
    let ghost lv = ls@.map_values(|v: Vec<char>| v@);
    let close = chars_of("+++");
    let mut k: usize = 1;
    while k < ls.len()
        invariant
            1 <= k,
            lv == ls@.map_values(|v: Vec<char>| v@),
            close@ == "+++"@,
            toml_title(lv, 1) == toml_title(lv, k as int),
        decreases ls.len() - k,
    {
        let t = trim_white(&ls[k]);
        assert(lv[k as int] == ls@[k as int]@);
        if chars_eq(&t, &close) {
            return None;
        }
        match toml_line_title_of(&t) {
            Some(title) => {
                return Some(title);
            },
            None => {},
        }
        k = k + 1;
    }
    None
}

/// The title of a page's content: a `title:` of YAML front matter, a
/// `title=` component property, a `title` of TOML front matter, or the
/// first `# ` heading; `None` when there is none.
pub fn extract_title(content: &str) -> (r: Option<String>)
    ensures
        match title_from(lines(content@), 0, false) {
            None => r is None,
            Some(x) => r matches Some(y) && y@ == x,
        },
{
    let text = chars_of(content);
    let ls = split_lines(&text);
    let ghost lv = ls@.map_values(|v: Vec<char>| v@);
    let dashes = chars_of("---");
    let pluses = chars_of("+++");
    let mut in_fm = false;
    let mut i: usize = 0;
    while i < ls.len()
        invariant
            lv == ls@.map_values(|v: Vec<char>| v@),
            lv == lines(content@),
            dashes@ == "---"@,
            pluses@ == "+++"@,
            title_from(lv, 0, false) == title_from(lv, i as int, in_fm),
        decreases ls.len() - i,
    {
        proof {
            reveal_strlit("title:");
            reveal_strlit("title=");
            reveal_strlit("# ");
        }
        let t = trim_white(&ls[i]);
        assert(lv[i as int] == ls@[i as int]@);
        if i == 0 && chars_eq(&t, &dashes) {
            in_fm = true;
        } else if in_fm {
            if chars_eq(&t, &dashes) {
                in_fm = false;
            } else {
                match strip_prefix_str(&t, "title:") {
                    Some(rest) => {
                        let title = trim_set(&trim_white(&rest), &CharSet::OneOf2('"', '\''));
                        if title.len() > 0 {
                            return Some(string_of(&title));
                        }
                    },
                    None => {},
                }
            }
        } else {
            match strip_prefix_str(&t, "title=") {
                Some(rest) => {
                    let title = trim_set(&rest, &CharSet::OneOf4('"', '\'', '{', '}'));
                    if title.len() > 0 {
                        return Some(string_of(&title));
                    }
                },
                None => {},
            }
            if i == 0 && chars_eq(&t, &pluses) {
                return match toml_title_of(&ls) {
                    Some(title) => Some(string_of(&title)),
                    None => None,
                };
            }
            match strip_prefix_str(&t, "# ") {
                Some(heading) => {
                    return Some(string_of(&trim_white(&heading)));
                },
                None => {},
            }
        }
        i = i + 1;
    }
    None
}

// ---------------------------------------------------------------------------
// Routes of page files
// ---------------------------------------------------------------------------

/// The route of a page file: the path (with `/` separators) without the
/// base directory, leading slashes and the page extension; for the
/// `nextjs-app` preset without `/page`; `/` for an empty or `index` route,
/// a trailing `/index` dropped, and a leading `/` added.
pub open spec fn route_of_file(path: Seq<char>, base_dir: Seq<char>, preset: SitePreset) -> Seq<char> {
    let r = route_stem(path, base_dir, preset);
    if r.len() == 0 || r == "index"@ {
        "/"@
    } else if ends_with(r, "/index"@) {
        "/"@ + r.take(r.len() - 6)
    } else {
        "/"@ + r
    }
}

/// The route of a page file before the index and slash rules: the path
/// without the base directory, leading slashes and the page extension, and
/// for the `nextjs-app` preset without `/page`.
pub open spec fn route_stem(path: Seq<char>, base_dir: Seq<char>, preset: SitePreset) -> Seq<char> {
    let rel0 = if starts_with(path, base_dir) {
        path.skip(base_dir.len() as int)
    } else {
        path
    };
    let rel = trim_start_by(rel0, CharSet::Is('/'));
    let r0 = strip_first_extension(rel, str_views(preset.extensions@));
    if preset.name@ == "nextjs-app"@ {
        replace_all(r0, "/page"@, Seq::empty())
    } else {
        r0
    }
}

/// The path with every `\` replaced by `/`.
pub open spec fn forward_slashes(p: Seq<char>) -> Seq<char> {
    p.map_values(|c: char| if c == '\\' { '/' } else { c })
}

/// The route of a page file (its path already with `/` separators).
pub fn route_for_page_file(path: &str, base_dir: &str, preset: &SitePreset) -> (r: String)
    ensures
        r@ == route_of_file(path@, base_dir@, *preset),
{
    proof {
        reveal_strlit("nextjs-app");
        reveal_strlit("/page");
        reveal_strlit("/index");
        reveal_strlit("index");
        reveal_strlit("/");
        reveal_strlit("");
        assert(""@ =~= Seq::<char>::empty());
    }
    let p = chars_of(path);
    let rel0 = match strip_prefix_str(&p, base_dir) {
        Some(rest) => rest,
        None => p,
    };
    let rel = crate::text::trim_start_set(&rel0, &CharSet::Is('/'));
    let relative = string_of(&rel);
    let stripped = strip_page_extension(relative.as_str(), preset);
    let mut route = chars_of(stripped.as_str());
    if crate::text::str_eq(preset.name, "nextjs-app") {
        route = replace_str(&route, "/page", "");
    }
    let ghost rel0v = if starts_with(path@, base_dir@) {
        path@.skip(base_dir@.len() as int)
    } else {
        path@
    };
    assert(rel0@ == rel0v);
    assert(rel@ == trim_start_by(rel0v, CharSet::Is('/')));
    assert(stripped@ == strip_first_extension(rel@, str_views(preset.extensions@)));
    assert(route@ == route_stem(path@, base_dir@, *preset));
    let index = chars_of("index");
    if route.len() == 0 || chars_eq(&route, &index) {
        return owned("/");
    }
    let mut out = chars_of("/");
    match crate::text::strip_suffix(&route, &chars_of("/index")) {
        Some(head) => {
            push_all(&mut out, &head);
        },
        None => {
            push_all(&mut out, &route);
        },
    }
    assert(out@ == route_of_file(path@, base_dir@, *preset));
    string_of(&out)
}

// ---------------------------------------------------------------------------
// Pages found by `init`
// ---------------------------------------------------------------------------

/// The title of a page file's content (`None`: unreadable), or the empty
/// title.
pub open spec fn title_or_empty(content: Option<Seq<char>>) -> Seq<char> {
    match content {
        Some(c) => match title_from(lines(c), 0, false) {
            Some(t) => t,
            None => Seq::empty(),
        },
        None => Seq::empty(),
    }
}

/// Whether `p` is the new, unverified page of the file at `path` (`content`:
/// the file's content, `None` when it could not be read).
pub open spec fn scanned_page(
    p: Page,
    path: Seq<char>,
    base_dir: Seq<char>,
    preset: SitePreset,
    content: Option<Seq<char>>,
) -> bool {
    &&& p.route@ == route_of_file(forward_slashes(path), base_dir, preset)
    &&& p.file matches Some(f) && f@ == forward_slashes(path)
    &&& p.title@ == title_or_empty(content)
    &&& p.tags@.len() == 0
    &&& p.sources@.len() == 0
    &&& p.related@.len() == 0
    &&& p.verified_at is None
    &&& p.status == Status::Unverified
    &&& p.concepts@.len() == 0
}

/// The new page of a page file.
pub fn page_for_file(path: &str, base_dir: &str, preset: &SitePreset, content: Option<&str>) -> (p:
    Page)
    ensures
        scanned_page(p, path@, base_dir@, *preset, crate::concepts::content_view(content)),
{
    let v = chars_of(path);
    let mut norm: Vec<char> = Vec::new();
    let mut i: usize = 0;
    while i < v.len()
        invariant
            i <= v@.len(),
            v@ == path@,
            norm@ == forward_slashes(v@.take(i as int)),
        decreases v.len() - i,
    {
        let c = if v[i] == '\\' {
            '/'
        } else {
            v[i]
        };
        norm.push(c);
        assert(forward_slashes(v@.take(i + 1)) =~= forward_slashes(v@.take(i as int)).push(c));
        i = i + 1;
    }
    assert(v@.take(v@.len() as int) =~= v@);
    let path_str = string_of(&norm);
    let route = route_for_page_file(path_str.as_str(), base_dir, preset);
    let title = match content {
        Some(c) => match extract_title(c) {
            Some(t) => t,
            None => String::new(),
        },
        None => String::new(),
    };
    Page {
        route,
        file: Some(path_str),
        title,
        tags: Vec::new(),
        sources: Vec::new(),
        related: Vec::new(),
        verified_at: None,
        status: Status::Unverified,
        concepts: Vec::new(),
    }
}

/// Where a page with the given route goes in pages sorted by route: after
/// every page whose route is not greater.
pub open spec fn insert_pos(s: Seq<Page>, key: Seq<char>) -> int
    decreases s.len(),
{
    if s.len() == 0 {
        0
    } else if lex_lt(key, s[0].route@) {
        0
    } else {
        1 + insert_pos(s.drop_first(), key)
    }
}

/// The pages in the order of their routes, pages with equal routes in their
/// original order (a stable sort).
pub open spec fn sort_by_route(s: Seq<Page>) -> Seq<Page>
    decreases s.len(),
{
    if s.len() == 0 {
        Seq::empty()
    } else {
        let r = sort_by_route(s.drop_last());
        r.insert(insert_pos(r, s.last().route@), s.last())
    }
}

proof fn lemma_insert_pos_bounds(s: Seq<Page>, key: Seq<char>)
    ensures
        0 <= insert_pos(s, key) <= s.len(),
    decreases s.len(),
{
    if s.len() > 0 && !lex_lt(key, s[0].route@) {
        lemma_insert_pos_bounds(s.drop_first(), key);
    }
}

proof fn lemma_sort_len(s: Seq<Page>)
    ensures
        sort_by_route(s).len() == s.len(),
    decreases s.len(),
{
    if s.len() > 0 {
        lemma_sort_len(s.drop_last());
        lemma_insert_pos_bounds(sort_by_route(s.drop_last()), s.last().route@);
    }
}

/// Sorts pages by route, stably.
pub fn sort_pages_by_route(pages: Vec<Page>) -> (r: Vec<Page>)
    ensures
        r@ == sort_by_route(pages@),
{
    let ghost input = pages@;
    let total = pages.len();
    let mut rest = pages;
    let mut r: Vec<Page> = Vec::new();
    let mut i: usize = 0;
    while rest.len() > 0
        invariant
            total == input.len(),
            i + rest@.len() == input.len(),
            rest@ == input.skip(i as int),
            r@ == sort_by_route(input.take(i as int)),
        decreases rest@.len(),
    {
        let p = rest.remove(0);
        assert(p == input[i as int]);
        assert(input.skip(i as int).remove(0) =~= input.skip(i + 1));
        let key = chars_of(p.route.as_str());
        let ghost rv = r@;
        let mut pos: usize = 0;
        proof {
            lemma_insert_pos_bounds(rv, key@);
        }
        assert(rv.skip(0) =~= rv);
        while pos < r.len() && !crate::text::less_chars(&key, &chars_of(r[pos].route.as_str()))
            invariant
                pos <= r@.len(),
                r@ == rv,
                insert_pos(rv, key@) == pos + insert_pos(rv.skip(pos as int), key@),
            decreases r@.len() - pos,
        {
            assert(rv.skip(pos as int).drop_first() =~= rv.skip(pos + 1));
            pos = pos + 1;
        }
        proof {
            if pos < rv.len() {
                assert(rv.skip(pos as int)[0] == rv[pos as int]);
            }
        }
        assert(insert_pos(rv, key@) == pos);
        r.insert(pos, p);
        assert(input.take(i + 1).drop_last() =~= input.take(i as int));
        assert(input.take(i + 1).last() == p);
        i = i + 1;
    }
    assert(input.take(i as int) =~= input);
    r
}

/// The pages without those whose route equals that of the page kept before
/// them.
pub open spec fn dedup_routes(s: Seq<Page>) -> Seq<Page>
    decreases s.len(),
{
    if s.len() == 0 {
        Seq::empty()
    } else {
        let r = dedup_routes(s.drop_last());
        if r.len() > 0 && r.last().route@ == s.last().route@ {
            r
        } else {
            r.push(s.last())
        }
    }
}

/// The pages found by several page patterns, by route, each route once (the
/// first page found with it).
pub fn merge_pages(pages: Vec<Page>) -> (r: Vec<Page>)
    ensures
        r@ == dedup_routes(sort_by_route(pages@)),
{
    let sorted = sort_pages_by_route(pages);
    let ghost input = sorted@;
    let total = sorted.len();
    let mut rest = sorted;
    let mut r: Vec<Page> = Vec::new();
    let mut i: usize = 0;
    while rest.len() > 0
        invariant
            total == input.len(),
            i + rest@.len() == input.len(),
            rest@ == input.skip(i as int),
            r@ == dedup_routes(input.take(i as int)),
        decreases rest@.len(),
    {
        let p = rest.remove(0);
        assert(p == input[i as int]);
        assert(input.skip(i as int).remove(0) =~= input.skip(i + 1));
        assert(input.take(i + 1).drop_last() =~= input.take(i as int));
        let n = r.len();
        let same = n > 0 && crate::text::str_eq(r[n - 1].route.as_str(), p.route.as_str());
        if !same {
            r.push(p);
        }
        i = i + 1;
    }
    assert(input.take(i as int) =~= input);
    r
}

/// The pages of the files that one page pattern matched (`contents[i]` is
/// the content of `paths[i]`, `None` when it could not be read), by route.
pub fn scan_pages(paths: &[String], contents: &[Option<String>], base_dir: &str, preset: &SitePreset) -> (r:
    Vec<Page>)
    requires
        paths@.len() == contents@.len(),
    ensures
        exists|found: Seq<Page>|
            found.len() == paths@.len() && (forall|i: int|
                0 <= i < found.len() ==> scanned_page(
                    #[trigger] found[i],
                    paths@[i]@,
                    base_dir@,
                    *preset,
                    crate::paths::opt_string_view(contents@[i]),
                )) && r@ == sort_by_route(found),
{
    let mut found: Vec<Page> = Vec::new();
    let mut i: usize = 0;
    while i < paths.len()
        invariant
            i <= paths@.len(),
            paths@.len() == contents@.len(),
            found@.len() == i,
            forall|k: int|
                0 <= k < i ==> scanned_page(
                    #[trigger] found@[k],
                    paths@[k]@,
                    base_dir@,
                    *preset,
                    crate::paths::opt_string_view(contents@[k]),
                ),
        decreases paths.len() - i,
    {
        let c: Option<&str> = match &contents[i] {
            Some(t) => Some(t.as_str()),
            None => None,
        };
        let p = page_for_file(paths[i].as_str(), base_dir, preset, c);
        found.push(p);
        i = i + 1;
    }
    let ghost fv = found@;
    sort_pages_by_route(found)
}

// ---------------------------------------------------------------------------
// Manifest edits
// ---------------------------------------------------------------------------

/// The index of the first page with the route, if any.
pub open spec fn route_index(pages: Seq<Page>, route: Seq<char>) -> Option<int>
    decreases pages.len(),
{
    if pages.len() == 0 {
        None
    } else {
        match route_index(pages.drop_last(), route) {
            Some(i) => Some(i),
            None => if pages.last().route@ == route {
                Some(pages.len() - 1)
            } else {
                None
            },
        }
    }
}

proof fn lemma_route_index(pages: Seq<Page>, route: Seq<char>)
    ensures
        match route_index(pages, route) {
            Some(i) => first_page_with_route(pages, route, i),
            None => forall|j: int| 0 <= j < pages.len() ==> pages[j].route@ != route,
        },
    decreases pages.len(),
{
    if pages.len() > 0 {
        let d = pages.drop_last();
        lemma_route_index(d, route);
        assert forall|j: int| 0 <= j < d.len() implies pages[j] == d[j] by {}
        match route_index(d, route) {
            Some(i) => {
                assert(first_page_with_route(d, route, i));
            },
            None => {
                if pages.last().route@ == route {
                    assert(pages[pages.len() - 1].route@ == route);
                }
            },
        }
    }
}

/// The index of the first page with the route.
fn page_index(manifest: &Manifest, route: &str) -> (r: Option<usize>)
    ensures
        r matches Some(k) ==> route_index(manifest.pages@, route@) == Some(k as int) && k
            < manifest.pages@.len(),
        r is None ==> route_index(manifest.pages@, route@) is None,
{
    proof {
        lemma_route_index(manifest.pages@, route@);
    }
    let r = manifest.find_page(route);
    proof {
        match route_index(manifest.pages@, route@) {
            Some(i) => {
                let k = r.unwrap() as int;
                if k < i {
                    assert(manifest.pages@[k].route@ != route@);
                } else if i < k {
                    assert(manifest.pages@[i].route@ != route@);
                }
            },
            None => {},
        }
    }
    r
}

/// Whether `q` is `p` verified at the revision `sha` at the time `ts`.
pub open spec fn stamped(p: Page, q: Page, sha: Seq<char>, ts: Seq<char>) -> bool {
    &&& q.verified_at matches Some(v) && v.sha@ == sha && v.timestamp@ == ts
    &&& q.status == Status::Current
    &&& q.route == p.route
    &&& q.file == p.file
    &&& q.title == p.title
    &&& q.tags == p.tags
    &&& q.sources == p.sources
    &&& q.related == p.related
    &&& q.concepts == p.concepts
}

/// Whether two manifests differ at most in their pages.
pub open spec fn same_settings(a: Manifest, b: Manifest) -> bool {
    &&& a.version == b.version
    &&& a.source_repo == b.source_repo
    &&& a.exclude_patterns == b.exclude_patterns
}

/// The number of pages that are not missing.
pub open spec fn count_not_missing(pages: Seq<Page>) -> nat
    decreases pages.len(),
{
    if pages.len() == 0 {
        0
    } else {
        count_not_missing(pages.drop_last()) + if pages.last().status != Status::Missing {
            1nat
        } else {
            0nat
        }
    }
}

/// Stamps a page as verified.
fn stamp(page: &mut Page, sha: &str, timestamp: &str)
    ensures
        stamped(*old(page), *final(page), sha@, timestamp@),
{
    page.verified_at = Some(VerifiedAt { sha: owned(sha), timestamp: owned(timestamp) });
    page.status = Status::Current;
}

/// Marks every page that is not missing as verified at the revision `sha`
/// at the time `timestamp`, and gives their number.
pub fn verify_all(manifest: &mut Manifest, sha: &str, timestamp: &str) -> (n: usize)
    ensures
        same_settings(*old(manifest), *final(manifest)),
        final(manifest).pages@.len() == old(manifest).pages@.len(),
        forall|i: int|
            0 <= i < old(manifest).pages@.len() ==> if old(manifest).pages@[i].status
                != Status::Missing {
                stamped(old(manifest).pages@[i], #[trigger] final(manifest).pages@[i], sha@, timestamp@)
            } else {
                final(manifest).pages@[i] == old(manifest).pages@[i]
            },
        n == count_not_missing(old(manifest).pages@),
{
    let ghost start = manifest.pages@;
    let mut n: usize = 0;
    let mut i: usize = 0;
    while i < manifest.pages.len()
        invariant
            same_settings(*old(manifest), *manifest),
            start == old(manifest).pages@,
            manifest.pages@.len() == start.len(),
            i <= start.len(),
            n == count_not_missing(start.take(i as int)),
            n <= i,
            forall|k: int|
                0 <= k < i ==> if start[k].status != Status::Missing {
                    stamped(start[k], #[trigger] manifest.pages@[k], sha@, timestamp@)
                } else {
                    manifest.pages@[k] == start[k]
                },
            forall|k: int| i <= k < start.len() ==> #[trigger] manifest.pages@[k] == start[k],
        decreases start.len() - i,
    {
        assert(start.take(i + 1).drop_last() =~= start.take(i as int));
        if manifest.pages[i].status != Status::Missing {
            stamp(&mut manifest.pages[i], sha, timestamp);
            n = n + 1;
        }
        i = i + 1;
    }
    assert(start.take(start.len() as int) =~= start);
    n
}

/// The error for a route that no page has.
pub open spec fn not_found_error(route: Seq<char>) -> Seq<char> {
    "page '"@ + route + "' not found in manifest"@
}

/// The error text for a route that no page has.
fn not_found_message(route: &str) -> (r: String)
    ensures
        r@ == not_found_error(route@),
{
    let mut v = chars_of("page '");
    push_str(&mut v, route);
    push_str(&mut v, "' not found in manifest");
    string_of(&v)
}

/// Marks the first page with the route as verified at the revision `sha`
/// at the time `timestamp`; an error when no page has the route.
pub fn verify_page(manifest: &mut Manifest, route: &str, sha: &str, timestamp: &str) -> (r: Result<
    (),
    String,
>)
    ensures
        same_settings(*old(manifest), *final(manifest)),
        match route_index(old(manifest).pages@, route@) {
            None => r matches Err(e) && e@ == not_found_error(route@) && final(manifest).pages@
                == old(manifest).pages@,
            Some(i) => r is Ok && final(manifest).pages@.len() == old(manifest).pages@.len()
                && stamped(old(manifest).pages@[i], final(manifest).pages@[i], sha@, timestamp@)
                && forall|k: int|
                0 <= k < old(manifest).pages@.len() && k != i ==> #[trigger] final(manifest).pages@[k]
                    == old(manifest).pages@[k],
        },
{
    match page_index(manifest, route) {
        None => Err(not_found_message(route)),
        Some(i) => {
            stamp(&mut manifest.pages[i], sha, timestamp);
            Ok(())
        },
    }
}

/// The view of a source: its path and sections.
pub open spec fn source_view(s: Source) -> (Seq<char>, Seq<Seq<char>>) {
    (s.path@, strs(s.sections@))
}

/// Whether some source of the list has the path.
pub open spec fn has_source(sources: Seq<Source>, path: Seq<char>) -> bool {
    exists|k: int| 0 <= k < sources.len() && (#[trigger] sources[k]).path@ == path
}

/// Whether `q` is `p` with one more source at the end, with the path and
/// sections.
pub open spec fn with_source(p: Page, q: Page, path: Seq<char>, sections: Seq<Seq<char>>) -> bool {
    &&& q.sources@.len() == p.sources@.len() + 1
    &&& forall|k: int| 0 <= k < p.sources@.len() ==> #[trigger] q.sources@[k] == p.sources@[k]
    &&& source_view(q.sources@.last()) == (path, sections)
    &&& q.route == p.route
    &&& q.file == p.file
    &&& q.title == p.title
    &&& q.tags == p.tags
    &&& q.related == p.related
    &&& q.verified_at == p.verified_at
    &&& q.status == p.status
    &&& q.concepts == p.concepts
}

/// Whether the page's sources hold the path.
fn has_source_exec(page: &Page, path: &str) -> (r: bool)
    ensures
        r == has_source(page.sources@, path@),
{
    let mut k: usize = 0;
    while k < page.sources.len()
        invariant
            k <= page.sources@.len(),
            forall|m: int| 0 <= m < k ==> page.sources@[m].path@ != path@,
        decreases page.sources.len() - k,
    {
        if crate::text::str_eq(page.sources[k].path.as_str(), path) {
            assert(page.sources@[k as int].path@ == path@);
            return true;
        }
        k = k + 1;
    }
    false
}

/// Adds a source to a page.
fn add_source(page: &mut Page, path: &str, sections: &[String])
    ensures
        with_source(*old(page), *final(page), path@, strs(sections@)),
{
    let mut secs: Vec<String> = Vec::new();
    let mut i: usize = 0;
    while i < sections.len()
        invariant
            i <= sections@.len(),
            strs(secs@) == strs(sections@).take(i as int),
        decreases sections.len() - i,
    {
        let ghost before = secs@;
        let x = owned(sections[i].as_str());
        secs.push(x);
        proof {
            crate::text::lemma_strs_push(before, x);
            assert(strs(sections@).take(i + 1) =~= strs(sections@).take(i as int).push(x@));
        }
        i = i + 1;
    }
    assert(strs(sections@).take(sections@.len() as int) =~= strs(sections@));
    page.sources.push(Source { path: owned(path), sections: secs });
}

/// Maps a source file to the first page with the route: `Ok(true)` when it
/// was added, `Ok(false)` when the page already maps it, an error when no
/// page has the route.
pub fn map_source(manifest: &mut Manifest, route: &str, source: &str, sections: &[String]) -> (r:
    Result<bool, String>)
    ensures
        same_settings(*old(manifest), *final(manifest)),
        match route_index(old(manifest).pages@, route@) {
            None => r matches Err(e) && e@ == not_found_error(route@) && final(manifest).pages@
                == old(manifest).pages@,
            Some(i) => if has_source(old(manifest).pages@[i].sources@, source@) {
                r == Ok::<bool, String>(false) && final(manifest).pages@ == old(manifest).pages@
            } else {
                &&& r == Ok::<bool, String>(true)
                &&& final(manifest).pages@.len() == old(manifest).pages@.len()
                &&& with_source(
                    old(manifest).pages@[i],
                    final(manifest).pages@[i],
                    source@,
                    strs(sections@),
                )
                &&& forall|k: int|
                    0 <= k < old(manifest).pages@.len() && k != i ==> #[trigger] final(manifest).pages@[k]
                        == old(manifest).pages@[k]
            },
        },
{
    match page_index(manifest, route) {
        None => Err(not_found_message(route)),
        Some(i) => {
            if has_source_exec(&manifest.pages[i], source) {
                Ok(false)
            } else {
                add_source(&mut manifest.pages[i], source, sections);
                Ok(true)
            }
        },
    }
}

/// Whether applying the mapping `m` (route, source path) to the pages `p`
/// gives `q`, and whether it added a source: it adds the path, without
/// sections, to the first page with the route, unless no page has the route
/// or that page already maps the path.
pub open spec fn mapping_step(p: Seq<Page>, q: Seq<Page>, m: (Seq<char>, Seq<char>), added: bool) -> bool {
    match route_index(p, m.0) {
        None => q == p && !added,
        Some(i) => if has_source(p[i].sources@, m.1) {
            q == p && !added
        } else {
            &&& added
            &&& q.len() == p.len()
            &&& with_source(p[i], q[i], m.1, Seq::empty())
            &&& forall|k: int| 0 <= k < p.len() && k != i ==> #[trigger] q[k] == p[k]
        },
    }
}

/// The number of true flags.
pub open spec fn count_true(flags: Seq<bool>) -> nat
    decreases flags.len(),
{
    if flags.len() == 0 {
        0
    } else {
        count_true(flags.drop_last()) + if flags.last() {
            1nat
        } else {
            0nat
        }
    }
}

/// Whether the pages `states` pass through, applying the mappings one after
/// the other, go from `start` to `end`, adding the sources that `flags`
/// mark.
pub open spec fn mapping_run(
    start: Seq<Page>,
    end: Seq<Page>,
    ms: Seq<(Seq<char>, Seq<char>)>,
    states: Seq<Seq<Page>>,
    flags: Seq<bool>,
) -> bool {
    &&& states.len() == ms.len() + 1
    &&& flags.len() == ms.len()
    &&& states[0] == start
    &&& states.last() == end
    &&& forall|k: int|
        0 <= k < ms.len() ==> mapping_step(states[k], states[k + 1], #[trigger] ms[k], flags[k])
}

/// The views of (route, source path) mappings.
pub open spec fn mapping_views(v: Seq<(String, String)>) -> Seq<(Seq<char>, Seq<char>)> {
    v.map_values(|m: (String, String)| (m.0@, m.1@))
}

/// Applies the mappings (route, source path) one after the other: each adds
/// the path to the first page with the route, unless no page has the route
/// or it already maps the path.  The number of sources added.
pub fn apply_mappings(manifest: &mut Manifest, mappings: &[(String, String)]) -> (n: usize)
    ensures
        same_settings(*old(manifest), *final(manifest)),
        exists|states: Seq<Seq<Page>>, flags: Seq<bool>|
            mapping_run(
                old(manifest).pages@,
                final(manifest).pages@,
                mapping_views(mappings@),
                states,
                flags,
            ) && n == count_true(flags),
{
    let ghost ms = mapping_views(mappings@);
    let ghost mut states: Seq<Seq<Page>> = seq![manifest.pages@];
    let ghost mut flags: Seq<bool> = Seq::empty();
    let mut n: usize = 0;
    let mut i: usize = 0;
    while i < mappings.len()
        invariant
            i <= mappings@.len(),
            ms == mapping_views(mappings@),
            same_settings(*old(manifest), *manifest),
            states.len() == i + 1,
            flags.len() == i,
            states[0] == old(manifest).pages@,
            states.last() == manifest.pages@,
            forall|k: int|
                0 <= k < i ==> mapping_step(states[k], states[k + 1], #[trigger] ms[k], flags[k]),
            n == count_true(flags),
            n <= i,
        decreases mappings.len() - i,
    {
        let ghost before = manifest.pages@;
        let ghost mut added = false;
        assert(ms[i as int] == (mappings@[i as int].0@, mappings@[i as int].1@));
        match page_index(manifest, mappings[i].0.as_str()) {
            None => {},
            Some(k) => {
                if !has_source_exec(&manifest.pages[k], mappings[i].1.as_str()) {
                    let no_sections: Vec<String> = Vec::new();
                    add_source(&mut manifest.pages[k], mappings[i].1.as_str(), no_sections.as_slice());
                    assert(strs(no_sections@) =~= Seq::<Seq<char>>::empty());
                    n = n + 1;
                    proof {
                        added = true;
                    }
                }
            },
        }
        proof {
            assert(mapping_step(before, manifest.pages@, ms[i as int], added));
            assert(flags.push(added).drop_last() =~= flags);
            states = states.push(manifest.pages@);
            flags = flags.push(added);
            assert forall|k: int|
                0 <= k < i + 1 implies mapping_step(
                states[k],
                states[k + 1],
                #[trigger] ms[k],
                flags[k],
            ) by {
                if k < i {
                    assert(states[k] == states.drop_last()[k]);
                }
            }
        }
        i = i + 1;
    }
    assert(mapping_run(old(manifest).pages@, manifest.pages@, ms, states, flags));
    n
}

// ---------------------------------------------------------------------------
// Excluding files by glob patterns
// ---------------------------------------------------------------------------

/// Whether the text is a glob pattern that `glob::Pattern::new` compiles.
pub uninterp spec fn glob_valid(pattern: Seq<char>) -> bool;

/// Whether the compiled glob pattern matches the path, as
/// `glob::Pattern::matches` decides with the default options.
pub uninterp spec fn glob_matches(pattern: Seq<char>, path: Seq<char>) -> bool;

/// `glob::Pattern::new`: whether the pattern compiles.  The answer depends
/// on the pattern alone.
#[verifier::external_body]
fn glob_compiles(pattern: &str) -> (b: bool)
    ensures
        b == glob_valid(pattern@),
{
    glob::Pattern::new(pattern).is_ok()
}

/// `glob::Pattern::matches` of the compiled pattern (compiled here with
/// `glob::Pattern::new`, which succeeds on it): whether it matches the path.
/// The answer depends on the pattern and the path alone.
#[verifier::external_body]
fn glob_match(pattern: &str, path: &str) -> (b: bool)
    requires
        glob_valid(pattern@),
    ensures
        b == glob_matches(pattern@, path@),
{
    match glob::Pattern::new(pattern) {
        Ok(p) => p.matches(path),
        Err(_) => false,
    }
}

/// Whether some valid pattern matches the path.
pub open spec fn excluded_by(ps: Seq<Seq<char>>, f: Seq<char>) -> bool {
    exists|k: int| 0 <= k < ps.len() && glob_valid(ps[k]) && #[trigger] glob_matches(ps[k], f)
}

/// The files that no valid pattern matches, in order.
pub open spec fn kept_files(fs: Seq<Seq<char>>, ps: Seq<Seq<char>>) -> Seq<Seq<char>>
    decreases fs.len(),
{
    if fs.len() == 0 {
        Seq::empty()
    } else {
        let prev = kept_files(fs.drop_last(), ps);
        if excluded_by(ps, fs.last()) {
            prev
        } else {
            prev.push(fs.last())
        }
    }
}

/// The files that none of the patterns matches (patterns that do not
/// compile are ignored), in order.
pub fn filter_excluded(files: &[String], patterns: &[String]) -> (r: Vec<String>)
    ensures
        strs(r@) == kept_files(strs(files@), strs(patterns@)),
{
    let ghost ps = strs(patterns@);
    let mut valid: Vec<bool> = Vec::new();
    let mut k: usize = 0;
    while k < patterns.len()
        invariant
            k <= patterns@.len(),
            valid@.len() == k,
            forall|m: int| 0 <= m < k ==> #[trigger] valid@[m] == glob_valid(patterns@[m]@),
        decreases patterns.len() - k,
    {
        valid.push(glob_compiles(patterns[k].as_str()));
        k = k + 1;
    }
    let ghost fs = strs(files@);
    let mut r: Vec<String> = Vec::new();
    let mut i: usize = 0;
    while i < files.len()
        invariant
            i <= files@.len(),
            fs == strs(files@),
            ps == strs(patterns@),
            valid@.len() == patterns@.len(),
            forall|m: int| 0 <= m < valid@.len() ==> #[trigger] valid@[m] == glob_valid(patterns@[m]@),
            strs(r@) == kept_files(fs.take(i as int), ps),
        decreases files.len() - i,
    {
        assert(fs.take(i + 1).drop_last() =~= fs.take(i as int));
        assert(fs[i as int] == files@[i as int]@);
        let mut hit = false;
        let mut m: usize = 0;
        while m < patterns.len() && !hit
            invariant
                m <= patterns@.len(),
                valid@.len() == patterns@.len(),
                forall|q: int| 0 <= q < valid@.len() ==> #[trigger] valid@[q] == glob_valid(patterns@[q]@),
                hit ==> excluded_by(ps, fs[i as int]),
                !hit ==> forall|q: int|
                    0 <= q < m ==> !(glob_valid(ps[q]) && glob_matches(ps[q], fs[i as int])),
                ps == strs(patterns@),
                fs == strs(files@),
                i < files@.len(),
            decreases patterns@.len() - m, if hit { 0int } else { 1int },
        {
            assert(ps[m as int] == patterns@[m as int]@);
            if valid[m] && glob_match(patterns[m].as_str(), files[i].as_str()) {
                hit = true;
            } else {
                m = m + 1;
            }
        }
        proof {
            if !hit {
                assert(!excluded_by(ps, fs[i as int]));
            }
        }
        if !hit {
            let ghost before = r@;
            let x = owned(files[i].as_str());
            r.push(x);
            proof {
                crate::text::lemma_strs_push(before, x);
            }
        }
        i = i + 1;
    }
    assert(fs.take(files@.len() as int) =~= fs);
    r
}

// ---------------------------------------------------------------------------
// Thresholds
// ---------------------------------------------------------------------------

/// The output format that a format name selects: `json`, `markdown` or `md`,
/// and text for any other name.
pub open spec fn format_named(s: Seq<char>) -> Format {
    if s == "json"@ {
        Format::Json
    } else if s == "markdown"@ || s == "md"@ {
        Format::Markdown
    } else {
        Format::Text
    }
}

/// The output format that a format name selects.
pub fn parse_format(s: &str) -> (r: Format)
    ensures
        r == format_named(s@),
{
    if crate::text::str_eq(s, "json") {
        Format::Json
    } else if crate::text::str_eq(s, "markdown") || crate::text::str_eq(s, "md") {
        Format::Markdown
    } else {
        Format::Text
    }
}

/// The number of pages that the audit found stale.
pub fn stale_count(summary: &AuditSummary) -> (n: usize)
    ensures
        n == count_results(summary.results@, |r: crate::audit::AuditResult| is_stale(r)),
{
    crate::report::audit_counts(&summary.results).0
}

/// The documented share of the source files, in whole percent rounded down,
/// when a minimum is set, there are source files and the share is below the
/// minimum.
pub open spec fn coverage_shortfall(min: nat, documented: nat, total: nat) -> Option<nat> {
    if min > 0 && total > 0 && (documented * 100) / total < min {
        Some((documented * 100) / total)
    } else {
        None
    }
}

/// The documented share of the source files in whole percent, rounded down.
pub fn coverage_percent(documented: usize, total: usize) -> (r: usize)
    requires
        total > 0,
        documented * 100 <= usize::MAX,
    ensures
        r as int == (documented as int * 100) / (total as int),
{
    (documented * 100) / total
}

/// The lines of the failures of a CI run: too many stale pages, too little
/// coverage, unmapped source files.
pub open spec fn ci_failure_lines(
    stale: nat,
    max_stale: nat,
    min_coverage: nat,
    documented: nat,
    total: nat,
    unmapped: nat,
    fail_on_unmapped: bool,
) -> Seq<Seq<char>> {
    (if stale > max_stale {
        seq!["audit: "@ + decimal(stale) + " stale pages (max: "@ + decimal(max_stale) + ")"@]
    } else {
        Seq::empty()
    }) + (match coverage_shortfall(min_coverage, documented, total) {
        Some(p) => seq!["coverage: "@ + decimal(p) + "% (min: "@ + decimal(min_coverage) + "%)"@],
        None => Seq::empty(),
    }) + if fail_on_unmapped && unmapped > 0 {
        seq!["unmapped: "@ + decimal(unmapped) + " source files"@]
    } else {
        Seq::empty()
    }
}

/// The failures of a CI run: more stale pages than allowed, coverage below
/// the minimum, or unmapped source files when they fail the run.
pub fn ci_failures(
    stale: usize,
    max_stale: usize,
    min_coverage: usize,
    stats: &CoverageStats,
    unmapped: usize,
    fail_on_unmapped: bool,
) -> (r: Vec<String>)
    requires
        stats.documented_files * 100 <= usize::MAX,
    ensures
        strs(r@) == ci_failure_lines(
            stale as nat,
            max_stale as nat,
            min_coverage as nat,
            stats.documented_files as nat,
            stats.total_source_files as nat,
            unmapped as nat,
            fail_on_unmapped,
        ),
{
    let mut r: Vec<String> = Vec::new();
    if stale > max_stale {
        let mut v = chars_of("audit: ");
        push_all(&mut v, &decimal_of(stale));
        push_str(&mut v, " stale pages (max: ");
        push_all(&mut v, &decimal_of(max_stale));
        push_str(&mut v, ")");
        r.push(string_of(&v));
    }
    let ghost r1 = strs(r@);
    if min_coverage > 0 && stats.total_source_files > 0 {
        let pct = coverage_percent(stats.documented_files, stats.total_source_files);
        if pct < min_coverage {
            let mut v = chars_of("coverage: ");
            push_all(&mut v, &decimal_of(pct));
            push_str(&mut v, "% (min: ");
            push_all(&mut v, &decimal_of(min_coverage));
            push_str(&mut v, "%)");
            let ghost before = r@;
            let x = string_of(&v);
            r.push(x);
            proof {
                crate::text::lemma_strs_push(before, x);
            }
        }
    }
    let ghost r2 = strs(r@);
    if fail_on_unmapped && unmapped > 0 {
        let mut v = chars_of("unmapped: ");
        push_all(&mut v, &decimal_of(unmapped));
        push_str(&mut v, " source files");
        let ghost before = r@;
        let x = string_of(&v);
        r.push(x);
        proof {
            crate::text::lemma_strs_push(before, x);
        }
    }
    assert(strs(r@) =~= ci_failure_lines(
        stale as nat,
        max_stale as nat,
        min_coverage as nat,
        stats.documented_files as nat,
        stats.total_source_files as nat,
        unmapped as nat,
        fail_on_unmapped,
    ));
    r
}

/// The lines that `coverage` writes about its failed checks: the coverage
/// below the minimum, and the unmapped files (at most ten, then how many
/// more).
pub open spec fn coverage_problem_lines(
    min_coverage: nat,
    documented: nat,
    total: nat,
    unmapped: Seq<Seq<char>>,
) -> Seq<Seq<char>> {
    (match coverage_shortfall(min_coverage, documented, total) {
        Some(p) => seq![
            "coverage "@ + decimal(p) + "% is below minimum "@ + decimal(min_coverage) + "%"@,
        ],
        None => Seq::empty(),
    }) + if unmapped.len() > 0 {
        seq![decimal(unmapped.len()) + " unmapped source files (not excluded):"@]
            + unmapped.take(
            if unmapped.len() < 10 {
                unmapped.len() as int
            } else {
                10
            },
        ).map_values(|f: Seq<char>| "  "@ + f) + if unmapped.len() > 10 {
            seq!["  ... and "@ + decimal((unmapped.len() - 10) as nat) + " more"@]
        } else {
            Seq::empty()
        }
    } else {
        Seq::empty()
    }
}

/// What `coverage` reports about its failed checks; no line when they pass.
/// `unmapped` are the undocumented files that no exclude pattern matches
/// (empty when unmapped files do not fail the check).
pub fn coverage_problems(min_coverage: usize, stats: &CoverageStats, unmapped: &[String]) -> (r:
    Vec<String>)
    requires
        stats.documented_files * 100 <= usize::MAX,
    ensures
        strs(r@) == coverage_problem_lines(
            min_coverage as nat,
            stats.documented_files as nat,
            stats.total_source_files as nat,
            strs(unmapped@),
        ),
{
    let mut r: Vec<String> = Vec::new();
    if min_coverage > 0 && stats.total_source_files > 0 {
        let pct = coverage_percent(stats.documented_files, stats.total_source_files);
        if pct < min_coverage {
            let mut v = chars_of("coverage ");
            push_all(&mut v, &decimal_of(pct));
            push_str(&mut v, "% is below minimum ");
            push_all(&mut v, &decimal_of(min_coverage));
            push_str(&mut v, "%");
            r.push(string_of(&v));
        }
    }
    let ghost r1 = strs(r@);
    let ghost uv = strs(unmapped@);
    if unmapped.len() > 0 {
        let mut v = decimal_of(unmapped.len());
        push_str(&mut v, " unmapped source files (not excluded):");
        let ghost b0 = r@;
        let x = string_of(&v);
        r.push(x);
        proof {
            crate::text::lemma_strs_push(b0, x);
        }
        let ghost head = strs(r@);
        let shown = if unmapped.len() < 10 {
            unmapped.len()
        } else {
            10
        };
        let mut i: usize = 0;
        while i < shown
            invariant
                i <= shown,
                shown <= unmapped@.len(),
                uv == strs(unmapped@),
                strs(r@) == head + uv.take(i as int).map_values(|f: Seq<char>| "  "@ + f),
            decreases shown - i,
        {
            let mut line = chars_of("  ");
            push_str(&mut line, unmapped[i].as_str());
            let ghost before = r@;
            let y = string_of(&line);
            r.push(y);
            proof {
                crate::text::lemma_strs_push(before, y);
                assert(uv.take(i + 1).map_values(|f: Seq<char>| "  "@ + f) =~= uv.take(
                    i as int,
                ).map_values(|f: Seq<char>| "  "@ + f).push("  "@ + uv[i as int]));
            }
            i = i + 1;
        }
        if unmapped.len() > 10 {
            let mut v2 = chars_of("  ... and ");
            push_all(&mut v2, &decimal_of(unmapped.len() - 10));
            push_str(&mut v2, " more");
            let ghost before = r@;
            let z = string_of(&v2);
            r.push(z);
            proof {
                crate::text::lemma_strs_push(before, z);
            }
        }
    }
    assert(strs(r@) =~= coverage_problem_lines(
        min_coverage as nat,
        stats.documented_files as nat,
        stats.total_source_files as nat,
        uv,
    ));
    r
}

// ---------------------------------------------------------------------------
// The details of a page
// ---------------------------------------------------------------------------

/// The line of a source in the details of a page: its path, and its
/// sections in brackets when it has any.
pub open spec fn source_detail(s: (Seq<char>, Seq<Seq<char>>)) -> Seq<char> {
    "  - "@ + s.0 + if s.1.len() == 0 {
        Seq::empty()
    } else {
        " ("@ + crate::text::join(s.1, ", "@) + ")"@
    }
}

/// The lines of the details of a page.
pub open spec fn page_detail_lines(p: Page) -> Seq<Seq<char>> {
    seq![
        "Route:    "@ + p.route@,
        "Title:    "@ + p.title@,
        "Status:   "@ + crate::manifest::status_name(p.status),
        "File:     "@ + match p.file {
            Some(f) => f@,
            None => "-"@,
        },
        "Sources:  "@ + decimal(p.sources@.len()),
    ] + p.sources@.map_values(|s: Source| source_detail(source_view(s))) + seq![
        "Related:  "@ + crate::text::join(strs(p.related@), ", "@),
        "Tags:     "@ + crate::text::join(strs(p.tags@), ", "@),
        match p.verified_at {
            Some(v) => "Verified: "@ + v.sha@ + " ("@ + v.timestamp@ + ")"@,
            None => "Verified: never"@,
        },
    ]
}

/// Appends a labelled line.
fn push_labelled(lines: &mut Vec<String>, label: &str, value: &Vec<char>)
    ensures
        strs(final(lines)@) == strs(old(lines)@).push(label@ + value@),
{
    let mut v = chars_of(label);
    push_all(&mut v, value);
    let ghost before = lines@;
    let x = string_of(&v);
    lines.push(x);
    proof {
        crate::text::lemma_strs_push(before, x);
    }
}

/// The details of a page, one line each: route, title, status, file,
/// sources, related pages, tags and verification.
pub fn format_page_details(page: &Page) -> (r: Vec<String>)
    ensures
        strs(r@) == page_detail_lines(*page),
{
    let mut lines: Vec<String> = Vec::new();
    push_labelled(&mut lines, "Route:    ", &chars_of(page.route.as_str()));
    push_labelled(&mut lines, "Title:    ", &chars_of(page.title.as_str()));
    let st = page.status.to_string();
    push_labelled(&mut lines, "Status:   ", &chars_of(st.as_str()));
    let file = match &page.file {
        Some(f) => chars_of(f.as_str()),
        None => chars_of("-"),
    };
    push_labelled(&mut lines, "File:     ", &file);
    push_labelled(&mut lines, "Sources:  ", &decimal_of(page.sources.len()));
    let ghost head = strs(lines@);
    let mut k: usize = 0;
    while k < page.sources.len()
        invariant
            k <= page.sources@.len(),
            strs(lines@) == head + page.sources@.take(k as int).map_values(
                |s: Source| source_detail(source_view(s)),
            ),
        decreases page.sources.len() - k,
    {
        let src = &page.sources[k];
        let mut v = chars_of("  - ");
        push_str(&mut v, src.path.as_str());
        if src.sections.len() > 0 {
            push_str(&mut v, " (");
            let j = crate::text::join_strings(&src.sections, ", ");
            push_all(&mut v, &j);
            push_str(&mut v, ")");
        }
        assert(v@ =~= source_detail(source_view(*src)));
        let ghost before = lines@;
        let x = string_of(&v);
        lines.push(x);
        proof {
            crate::text::lemma_strs_push(before, x);
            assert(page.sources@.take(k + 1).map_values(|s: Source| source_detail(source_view(s)))
                =~= page.sources@.take(k as int).map_values(
                |s: Source| source_detail(source_view(s)),
            ).push(source_detail(source_view(page.sources@[k as int]))));
        }
        k = k + 1;
    }
    assert(page.sources@.take(page.sources@.len() as int) =~= page.sources@);
    push_labelled(&mut lines, "Related:  ", &crate::text::join_strings(&page.related, ", "));
    push_labelled(&mut lines, "Tags:     ", &crate::text::join_strings(&page.tags, ", "));
    match &page.verified_at {
        Some(v) => {
            let mut t = chars_of(v.sha.as_str());
            push_str(&mut t, " (");
            push_str(&mut t, v.timestamp.as_str());
            push_str(&mut t, ")");
            push_labelled(&mut lines, "Verified: ", &t);
        },
        None => {
            let ghost before = lines@;
            let x = owned("Verified: never");
            lines.push(x);
            proof {
                crate::text::lemma_strs_push(before, x);
            }
        },
    }
    assert(strs(lines@) =~~= page_detail_lines(*page));
    lines
}

// ---------------------------------------------------------------------------
// `init` and `diff`
// ---------------------------------------------------------------------------

/// The error for a site preset name that no preset has.
pub open spec fn unknown_preset_error(name: Seq<char>) -> Seq<char> {
    "unknown site preset '"@ + name + "'. Use --list-presets to see available presets."@
}

/// How `init` finds pages: the preset, the page patterns to scan, the base
/// directory of routes, and whether the pages of several patterns are
/// merged.
pub struct InitPlan {
    pub preset: SitePreset,
    pub patterns: Vec<String>,
    pub base_dir: String,
    pub merge: bool,
}

/// The preset that `init` uses: the named one, else the detected one, else
/// the Markdown preset.
pub open spec fn init_preset_ok(
    p: SitePreset,
    site: Option<Seq<char>>,
    detected: Option<SitePreset>,
) -> bool {
    match site {
        Some(name) => crate::presets::site_preset_named(name, p),
        None => match detected {
            Some(d) => p == d,
            None => crate::presets::is_markdown(p),
        },
    }
}

/// How `init` finds pages: with the preset named by `site` (an error when
/// none has that name), else the `detected` one, else the Markdown preset;
/// the `pattern` given or all the preset's patterns (whose pages are then
/// merged), and the `base_dir` given or the preset's.
pub fn init_plan(
    site: Option<&str>,
    detected: Option<SitePreset>,
    pattern: Option<&str>,
    base_dir: Option<&str>,
) -> (r: Result<InitPlan, String>)
    ensures
        match site {
            Some(name) => !crate::presets::is_site_preset_name(name@) ==> (r matches Err(e) && e@
                == unknown_preset_error(name@)),
            None => true,
        },
        r matches Ok(plan) ==> {
            &&& init_preset_ok(plan.preset, crate::audit::opt_view(site), detected)
            &&& match pattern {
                Some(p) => strs(plan.patterns@) == seq![p@] && !plan.merge,
                None => strs(plan.patterns@) == str_views(plan.preset.page_patterns@) && plan.merge,
            }
            &&& plan.base_dir@ == match base_dir {
                Some(b) => b@,
                None => plan.preset.base_dir@,
            }
        },
        (site is None || crate::presets::is_site_preset_name(site.unwrap()@)) ==> r is Ok,
{
    let preset = match site {
        Some(name) => match crate::presets::find_site_preset(name) {
            Some(p) => p,
            None => {
                let mut v = chars_of("unknown site preset '");
                push_str(&mut v, name);
                push_str(&mut v, "'. Use --list-presets to see available presets.");
                return Err(string_of(&v));
            },
        },
        None => match detected {
            Some(d) => d,
            None => crate::presets::markdown(),
        },
    };
    let mut patterns: Vec<String> = Vec::new();
    let merge = match pattern {
        Some(p) => {
            patterns.push(owned(p));
            assert(strs(patterns@) =~= seq![p@]);
            false
        },
        None => {
            let mut i: usize = 0;
            while i < preset.page_patterns.len()
                invariant
                    i <= preset.page_patterns@.len(),
                    strs(patterns@) == str_views(preset.page_patterns@).take(i as int),
                decreases preset.page_patterns.len() - i,
            {
                let ghost before = patterns@;
                let x = owned(preset.page_patterns[i]);
                patterns.push(x);
                proof {
                    crate::text::lemma_strs_push(before, x);
                    assert(str_views(preset.page_patterns@).take(i + 1) =~= str_views(
                        preset.page_patterns@,
                    ).take(i as int).push(x@));
                }
                i = i + 1;
            }
            assert(str_views(preset.page_patterns@).take(preset.page_patterns@.len() as int)
                =~= str_views(preset.page_patterns@));
            true
        },
    };
    let dir = match base_dir {
        Some(b) => owned(b),
        None => owned(preset.base_dir),
    };
    Ok(InitPlan { preset, patterns, base_dir: dir, merge })
}

/// The manifest that `init` writes: version 1, the source repository at
/// `source_repo` (`../source` when none is given) on branch `main`, and the
/// pages.
pub fn new_manifest(source_repo: Option<&str>, pages: Vec<Page>) -> (m: Manifest)
    ensures
        m.version == 1,
        m.source_repo.path@ == match source_repo {
            Some(p) => p@,
            None => "../source"@,
        },
        m.source_repo.remote is None,
        m.source_repo.default_branch@ == "main"@,
        m.exclude_patterns@.len() == 0,
        m.pages@ == pages@,
{
    let path = match source_repo {
        Some(p) => owned(p),
        None => owned("../source"),
    };
    Manifest {
        version: 1,
        source_repo: SourceRepo { path, remote: None, default_branch: owned("main") },
        exclude_patterns: Vec::new(),
        pages,
    }
}

/// The error for a page that was never verified.
pub open spec fn never_verified_error(route: Seq<char>) -> Seq<char> {
    "page '"@ + route + "' has never been verified"@
}

/// What `diff` compares for the page with the route: the revision at which
/// it was verified and its source paths; an error when no page has the
/// route or the page was never verified.
pub fn diff_target(manifest: &Manifest, route: &str) -> (r: Result<(String, Vec<String>), String>)
    ensures
        match route_index(manifest.pages@, route@) {
            None => r matches Err(e) && e@ == not_found_error(route@),
            Some(i) => match manifest.pages@[i].verified_at {
                None => r matches Err(e) && e@ == never_verified_error(route@),
                Some(v) => r matches Ok(t) && t.0@ == v.sha@ && strs(t.1@)
                    == crate::manifest::source_paths(manifest.pages@[i].sources@),
            },
        },
{
    match page_index(manifest, route) {
        None => Err(not_found_message(route)),
        Some(i) => {
            let page = &manifest.pages[i];
            match &page.verified_at {
                None => {
                    let mut v = chars_of("page '");
                    push_str(&mut v, route);
                    push_str(&mut v, "' has never been verified");
                    Err(string_of(&v))
                },
                Some(v) => {
                    let mut paths: Vec<String> = Vec::new();
                    let mut k: usize = 0;
                    while k < page.sources.len()
                        invariant
                            k <= page.sources@.len(),
                            strs(paths@) == crate::manifest::source_paths(page.sources@).take(
                                k as int,
                            ),
                        decreases page.sources.len() - k,
                    {
                        let ghost before = paths@;
                        let x = owned(page.sources[k].path.as_str());
                        paths.push(x);
                        proof {
                            crate::text::lemma_strs_push(before, x);
                            assert(crate::manifest::source_paths(page.sources@).take(k + 1)
                                =~= crate::manifest::source_paths(page.sources@).take(
                                k as int,
                            ).push(x@));
                        }
                        k = k + 1;
                    }
                    assert(crate::manifest::source_paths(page.sources@).take(
                        page.sources@.len() as int,
                    ) =~= crate::manifest::source_paths(page.sources@));
                    Ok((owned(v.sha.as_str()), paths))
                },
            }
        },
    }
}

// ---------------------------------------------------------------------------
// Laws
// ---------------------------------------------------------------------------

/// Whether the pages are in non-decreasing order of route.
pub open spec fn sorted_by_route(s: Seq<Page>) -> bool {
    forall|i: int, j: int| 0 <= i < j < s.len() ==> !lex_lt(s[j].route@, s[i].route@)
}

/// Whether the pages are in increasing order of route (so no route twice).
pub open spec fn strictly_by_route(s: Seq<Page>) -> bool {
    forall|i: int, j: int| 0 <= i < j < s.len() ==> lex_lt(s[i].route@, s[j].route@)
}

proof fn lemma_lex_facts(a: Seq<char>, b: Seq<char>, c: Seq<char>)
    ensures
        !lex_lt(a, a),
        lex_lt(a, b) ==> !lex_lt(b, a),
        lex_lt(a, b) && lex_lt(b, c) ==> lex_lt(a, c),
        a == b || lex_lt(a, b) || lex_lt(b, a),
{
    crate::text::lemma_lex_irreflexive(a);
    crate::text::lemma_lex_total(a, b);
    if lex_lt(a, b) && lex_lt(b, a) {
        crate::text::lemma_lex_transitive(a, b, a);
    }
    if lex_lt(a, b) && lex_lt(b, c) {
        crate::text::lemma_lex_transitive(a, b, c);
    }
}

proof fn lemma_insert_pos_props(s: Seq<Page>, key: Seq<char>)
    ensures
        0 <= insert_pos(s, key) <= s.len(),
        forall|k: int| 0 <= k < insert_pos(s, key) ==> !lex_lt(key, #[trigger] s[k].route@),
        insert_pos(s, key) < s.len() ==> lex_lt(key, s[insert_pos(s, key)].route@),
    decreases s.len(),
{
    if s.len() > 0 && !lex_lt(key, s[0].route@) {
        let t = s.drop_first();
        lemma_insert_pos_props(t, key);
        assert forall|k: int| 0 <= k < insert_pos(s, key) implies !lex_lt(key, #[trigger] s[k].route@) by {
            if k > 0 {
                assert(s[k] == t[k - 1]);
            }
        }
        if insert_pos(s, key) < s.len() {
            assert(s[insert_pos(s, key)] == t[insert_pos(t, key)]);
        }
    }
}

proof fn lemma_insert_sorted(r: Seq<Page>, x: Page)
    requires
        sorted_by_route(r),
    ensures
        sorted_by_route(r.insert(insert_pos(r, x.route@), x)),
{
    let key = x.route@;
    lemma_insert_pos_props(r, key);
    let pos = insert_pos(r, key);
    let n = r.insert(pos, x);
    assert forall|i: int| 0 <= i < n.len() implies n[i] == (if i < pos {
        r[i]
    } else if i == pos {
        x
    } else {
        r[i - 1]
    }) by {}
    assert forall|i: int, j: int| 0 <= i < j < n.len() implies !lex_lt(
        n[j].route@,
        n[i].route@,
    ) by {
        if i < pos && j == pos {
            assert(!lex_lt(key, r[i].route@));
        } else if i == pos && j > pos {
            let a = r[pos].route@;
            let b = r[j - 1].route@;
            assert(lex_lt(key, a));
            if j - 1 > pos {
                assert(!lex_lt(b, a));
            }
            lemma_lex_facts(a, b, b);
            lemma_lex_facts(key, a, b);
            lemma_lex_facts(key, b, b);
        } else if i < pos && j > pos {
            assert(!lex_lt(r[j - 1].route@, r[i].route@));
        } else if j < pos {
            assert(!lex_lt(r[j].route@, r[i].route@));
        } else {
            assert(!lex_lt(r[j - 1].route@, r[i - 1].route@));
        }
    }
}

proof fn lemma_insert_members(r: Seq<Page>, x: Page, p: Page)
    ensures
        r.insert(insert_pos(r, x.route@), x).contains(p) <==> (r.contains(p) || p == x),
{
    lemma_insert_pos_props(r, x.route@);
    let pos = insert_pos(r, x.route@);
    let n = r.insert(pos, x);
    if n.contains(p) {
        let k = choose|k: int| 0 <= k < n.len() && n[k] == p;
        if k < pos {
            assert(r[k] == p);
        } else if k > pos {
            assert(r[k - 1] == p);
        }
    }
    if r.contains(p) {
        let k = choose|k: int| 0 <= k < r.len() && r[k] == p;
        if k < pos {
            assert(n[k] == p);
        } else {
            assert(n[k + 1] == p);
        }
    }
    if p == x {
        assert(n[pos] == p);
    }
}

proof fn lemma_sort_sorted(s: Seq<Page>)
    ensures
        sorted_by_route(sort_by_route(s)),
        sort_by_route(s).len() == s.len(),
        forall|p: Page| sort_by_route(s).contains(p) <==> s.contains(p),
    decreases s.len(),
{
    if s.len() > 0 {
        let r = sort_by_route(s.drop_last());
        let x = s.last();
        lemma_sort_sorted(s.drop_last());
        lemma_insert_pos_props(r, x.route@);
        lemma_insert_sorted(r, x);
        assert forall|p: Page| sort_by_route(s).contains(p) <==> s.contains(p) by {
            crate::text::lemma_drop_last_contains(s, p);
            lemma_insert_members(r, x, p);
        }
    }
}

proof fn lemma_dedup_members(s: Seq<Page>)
    ensures
        forall|k: int|
            0 <= k < dedup_routes(s).len() ==> s.contains(#[trigger] dedup_routes(s)[k]),
    decreases s.len(),
{
    if s.len() > 0 {
        let d = s.drop_last();
        lemma_dedup_members(d);
        let r = dedup_routes(d);
        assert forall|k: int| 0 <= k < dedup_routes(s).len() implies s.contains(
            #[trigger] dedup_routes(s)[k],
        ) by {
            if k < r.len() {
                assert(dedup_routes(s)[k] == r[k]);
                assert(d.contains(r[k]));
                let m = choose|m: int| 0 <= m < d.len() && d[m] == r[k];
                assert(s[m] == r[k]);
            } else {
                assert(dedup_routes(s)[k] == s[s.len() - 1]);
            }
        }
    }
}

proof fn lemma_dedup_complete(s: Seq<Page>)
    ensures
        forall|m: int|
            0 <= m < s.len() ==> exists|k: int|
                0 <= k < dedup_routes(s).len() && dedup_routes(s)[k].route@ == (#[trigger] s[m]).route@,
        s.len() > 0 ==> dedup_routes(s).len() > 0,
    decreases s.len(),
{
    if s.len() > 0 {
        let d = s.drop_last();
        lemma_dedup_complete(d);
        let r = dedup_routes(d);
        let n = dedup_routes(s);
        assert forall|m: int| 0 <= m < s.len() implies exists|k: int|
            0 <= k < n.len() && n[k].route@ == (#[trigger] s[m]).route@ by {
            if m < d.len() {
                assert(s[m] == d[m]);
                let k = choose|k: int| 0 <= k < r.len() && r[k].route@ == d[m].route@;
                assert(n[k] == r[k]);
            } else if r.len() > 0 && r.last().route@ == s.last().route@ {
                assert(n[r.len() - 1] == r.last());
            } else {
                assert(n[r.len() as int] == s[m]);
            }
        }
    }
}

proof fn lemma_dedup_strict(s: Seq<Page>)
    requires
        sorted_by_route(s),
    ensures
        strictly_by_route(dedup_routes(s)),
    decreases s.len(),
{
    if s.len() > 0 {
        let d = s.drop_last();
        assert(sorted_by_route(d));
        lemma_dedup_strict(d);
        lemma_dedup_members(d);
        let r = dedup_routes(d);
        let x = s.last();
        if !(r.len() > 0 && r.last().route@ == x.route@) {
            let n = r.push(x);
            if r.len() > 0 {
                let lr = r.last();
                assert(d.contains(lr));
                let m = choose|m: int| 0 <= m < d.len() && d[m] == lr;
                assert(s[m] == lr);
                assert(!lex_lt(x.route@, lr.route@));
                lemma_lex_facts(lr.route@, x.route@, x.route@);
                assert(lex_lt(lr.route@, x.route@));
                assert forall|i: int, j: int| 0 <= i < j < n.len() implies lex_lt(
                    n[i].route@,
                    n[j].route@,
                ) by {
                    if j == r.len() && i < r.len() - 1 {
                        assert(lex_lt(r[i].route@, lr.route@));
                        lemma_lex_facts(r[i].route@, lr.route@, x.route@);
                    }
                }
            }
        }
    }
}

/// The pages that `init` merges from several page patterns are in
/// increasing order of route, so no route occurs twice; every page of the
/// merge is one of the pages found, and every route found has a page in the
/// merge.
pub proof fn law_merged_pages(pages: Seq<Page>)
    ensures
        strictly_by_route(dedup_routes(sort_by_route(pages))),
        forall|k: int|
            0 <= k < dedup_routes(sort_by_route(pages)).len() ==> pages.contains(
                #[trigger] dedup_routes(sort_by_route(pages))[k],
            ),
        forall|m: int|
            0 <= m < pages.len() ==> exists|k: int|
                0 <= k < dedup_routes(sort_by_route(pages)).len() && dedup_routes(
                    sort_by_route(pages),
                )[k].route@ == (#[trigger] pages[m]).route@,
{
    let t = sort_by_route(pages);
    lemma_sort_sorted(pages);
    lemma_dedup_strict(t);
    lemma_dedup_members(t);
    lemma_dedup_complete(t);
    assert forall|m: int| 0 <= m < pages.len() implies exists|k: int|
        0 <= k < dedup_routes(t).len() && dedup_routes(t)[k].route@ == (#[trigger] pages[m]).route@ by {
        assert(pages.contains(pages[m]));
        assert(t.contains(pages[m]));
        let q = choose|q: int| 0 <= q < t.len() && t[q] == pages[m];
        assert(exists|k: int| 0 <= k < dedup_routes(t).len() && dedup_routes(t)[k].route@ == t[q].route@);
    }
    assert forall|k: int| 0 <= k < dedup_routes(t).len() implies pages.contains(
        #[trigger] dedup_routes(t)[k],
    ) by {
        assert(t.contains(dedup_routes(t)[k]));
    }
}

/// The pages that one page pattern found are in non-decreasing order of
/// route, and they are the pages found.
pub proof fn law_sorted_pages(pages: Seq<Page>)
    ensures
        sorted_by_route(sort_by_route(pages)),
        sort_by_route(pages).len() == pages.len(),
        forall|p: Page| sort_by_route(pages).contains(p) <==> pages.contains(p),
{
    lemma_sort_sorted(pages);
}

/// After `verify`, an audit finds a page with a file and sources current
/// when none of its sources changed since the revision, and stale when some
/// did.
pub proof fn law_audit_after_verify(
    p: Page,
    q: Page,
    sha: Seq<char>,
    ts: Seq<char>,
    check: crate::audit::PageCheck,
)
    requires
        stamped(p, q, sha, ts),
        q.file is Some,
        q.sources@.len() > 0,
    ensures
        check.changed matches Ok(files) ==> crate::audit::audited_status(q, check) == if files@.len()
            == 0 {
            Status::Current
        } else {
            Status::Stale
        },
        check.changed is Err ==> crate::audit::audited_status(q, check) == Status::Unverified,
{
}

/// A source that `map` added to a page is one the page maps, so mapping it
/// again to the same route changes nothing: the route still leads to that
/// page, and the page already holds the path.
pub proof fn law_map_again(
    old_pages: Seq<Page>,
    new_pages: Seq<Page>,
    route: Seq<char>,
    path: Seq<char>,
    sections: Seq<Seq<char>>,
    i: int,
)
    requires
        route_index(old_pages, route) == Some(i),
        new_pages.len() == old_pages.len(),
        with_source(old_pages[i], new_pages[i], path, sections),
        forall|k: int| 0 <= k < old_pages.len() && k != i ==> #[trigger] new_pages[k] == old_pages[k],
    ensures
        route_index(new_pages, route) == Some(i),
        has_source(new_pages[i].sources@, path),
{
    lemma_route_index_routes(old_pages, new_pages, route);
    let q = new_pages[i];
    assert(q.sources@[q.sources@.len() - 1].path@ == path);
}

proof fn lemma_route_index_routes(a: Seq<Page>, b: Seq<Page>, route: Seq<char>)
    requires
        a.len() == b.len(),
        forall|k: int| 0 <= k < a.len() ==> (#[trigger] a[k]).route == b[k].route,
    ensures
        route_index(a, route) == route_index(b, route),
    decreases a.len(),
{
    if a.len() > 0 {
        lemma_route_index_routes(a.drop_last(), b.drop_last(), route);
        assert(a.last().route == b.last().route);
    }
}

/// `filter_excluded` keeps exactly the files that no valid pattern matches,
/// in their order.
pub proof fn law_filter_excluded(fs: Seq<Seq<char>>, ps: Seq<Seq<char>>, f: Seq<char>)
    ensures
        kept_files(fs, ps).contains(f) <==> (fs.contains(f) && !excluded_by(ps, f)),
    decreases fs.len(),
{
    if fs.len() > 0 {
        law_filter_excluded(fs.drop_last(), ps, f);
        crate::text::lemma_drop_last_contains(fs, f);
        let prev = kept_files(fs.drop_last(), ps);
        if !excluded_by(ps, fs.last()) {
            crate::text::lemma_push_contains(prev, fs.last(), f);
        }
    }
}

/// Whether no two sources of a page have the same path.
pub open spec fn sources_distinct(sources: Seq<Source>) -> bool {
    forall|a: int, b: int|
        0 <= a < b < sources.len() ==> (#[trigger] sources[a]).path@ != (#[trigger] sources[b]).path@
}

/// `map` never lists a source twice on a page: it adds a path only where
/// the page does not have it, so a page whose sources were distinct keeps
/// them distinct.
pub proof fn law_map_keeps_sources_distinct(
    p: Page,
    q: Page,
    path: Seq<char>,
    sections: Seq<Seq<char>>,
)
    requires
        sources_distinct(p.sources@),
        !has_source(p.sources@, path),
        with_source(p, q, path, sections),
    ensures
        sources_distinct(q.sources@),
        has_source(q.sources@, path),
{
    let n = p.sources@.len() as int;
    assert(q.sources@[n].path@ == path);
    assert forall|a: int, b: int| 0 <= a < b < q.sources@.len() implies (#[trigger] q.sources@[a]).path@
        != (#[trigger] q.sources@[b]).path@ by {
        assert(q.sources@[a] == p.sources@[a]);
        if b < n {
            assert(q.sources@[b] == p.sources@[b]);
        } else {
            if q.sources@[a].path@ == path {
                assert(p.sources@[a].path@ == path);
            }
        }
    }
}

/// A CI run fails its audit check exactly when there are more stale pages
/// than allowed (with a maximum of 0, any stale page fails), its coverage
/// check exactly when a minimum is set, there are source files, and the
/// documented share in whole percent is below it, and its unmapped check
/// exactly when unmapped files fail the run and there are some; one line
/// for each failed check, in that order.
pub proof fn law_ci_failures(
    stale: nat,
    max_stale: nat,
    min_coverage: nat,
    documented: nat,
    total: nat,
    unmapped: nat,
    fail_on_unmapped: bool,
)
    ensures
        ({
            let ls = ci_failure_lines(
                stale,
                max_stale,
                min_coverage,
                documented,
                total,
                unmapped,
                fail_on_unmapped,
            );
            let audit_fails = stale > max_stale;
            let coverage_fails = min_coverage > 0 && total > 0 && (documented * 100) / total
                < min_coverage;
            let unmapped_fails = fail_on_unmapped && unmapped > 0;
            &&& ls.len() == (if audit_fails {
                1int
            } else {
                0int
            }) + (if coverage_fails {
                1int
            } else {
                0int
            }) + (if unmapped_fails {
                1int
            } else {
                0int
            })
            &&& audit_fails ==> ls[0] == "audit: "@ + decimal(stale) + " stale pages (max: "@
                + decimal(max_stale) + ")"@
            &&& coverage_fails ==> ls.contains(
                "coverage: "@ + decimal((documented * 100) / total) + "% (min: "@ + decimal(
                    min_coverage,
                ) + "%)"@,
            )
            &&& unmapped_fails ==> ls[ls.len() - 1] == "unmapped: "@ + decimal(unmapped)
                + " source files"@
        }),
{
    let ls = ci_failure_lines(
        stale,
        max_stale,
        min_coverage,
        documented,
        total,
        unmapped,
        fail_on_unmapped,
    );
    let a: Seq<Seq<char>> = if stale > max_stale {
        seq!["audit: "@ + decimal(stale) + " stale pages (max: "@ + decimal(max_stale) + ")"@]
    } else {
        Seq::empty()
    };
    let b: Seq<Seq<char>> = match coverage_shortfall(min_coverage, documented, total) {
        Some(p) => seq!["coverage: "@ + decimal(p) + "% (min: "@ + decimal(min_coverage) + "%)"@],
        None => Seq::empty(),
    };
    let c: Seq<Seq<char>> = if fail_on_unmapped && unmapped > 0 {
        seq!["unmapped: "@ + decimal(unmapped) + " source files"@]
    } else {
        Seq::empty()
    };
    assert(ls == a + b + c);
    if min_coverage > 0 && total > 0 && (documented * 100) / total < min_coverage {
        assert((a + b + c)[a.len() as int] == b[0]);
    }
}

} // verus!
