//! Documentation coverage: which source files the manifest maps, which pages
//! map nothing that exists, which files several pages share, and how many of
//! the documented files' concepts the pages mention.
use vstd::prelude::*;
use crate::concepts::{
    all_file_concepts, contents_view, extract_all_concepts, kind_name, mentions,
    scan_page_for_concepts, Concept, ConceptCoverageStats, ConceptView, OrphanConcept,
    concept_views,
};
use crate::manifest::{source_paths, Manifest, Page};
use crate::paths::opt_string_view;
use crate::text::{
    chars_of, contains_string, join, join_chars, owned, push_str, sorted_unique, str_eq, string_of,
    strictly_sorted, strs, lemma_strs_push, lines, split_lines, lemma_push_contains,
    lemma_drop_last_contains,
};

verus! {

/// The coverage of the source files by the documentation pages.
pub struct CoverageReport {
    pub undocumented: Vec<String>,
    pub orphan_pages: Vec<OrphanPage>,
    pub shared_sources: Vec<SharedSource>,
    pub stats: CoverageStats,
    pub concept_stats: Option<ConceptCoverageStats>,
}

/// A page that maps no source, or sources that do not exist.
pub struct OrphanPage {
    pub route: String,
    pub reason: String,
}

/// A source file that several pages map, with the routes of those pages.
pub struct SharedSource {
    pub path: String,
    pub pages: Vec<String>,
}

/// Counts of the coverage report.
pub struct CoverageStats {
    pub total_source_files: usize,
    pub documented_files: usize,
    pub undocumented_files: usize,
    pub total_pages: usize,
    pub pages_with_sources: usize,
    pub orphan_pages: usize,
}

// ---------------------------------------------------------------------------
// The sources that the manifest maps
// ---------------------------------------------------------------------------

/// A source entry of a page: the source path and the page's route.
pub type SourceEntry = (Seq<char>, Seq<char>);

/// The source entries of the pages, page after page, each page's sources in
/// order.
pub open spec fn source_entries(pages: Seq<Page>) -> Seq<SourceEntry>
    decreases pages.len(),
{
    if pages.len() == 0 {
        Seq::empty()
    } else {
        source_entries(pages.drop_last()) + source_paths(pages.last().sources@).map_values(
            |p: Seq<char>| (p, pages.last().route@),
        )
    }
}

/// The source paths of the entries.
pub open spec fn entry_paths(es: Seq<SourceEntry>) -> Seq<Seq<char>> {
    es.map_values(|e: SourceEntry| e.0)
}

/// The distinct strings of `s`, in the order of their first occurrence.
pub open spec fn distinct(s: Seq<Seq<char>>) -> Seq<Seq<char>>
    decreases s.len(),
{
    if s.len() == 0 {
        Seq::empty()
    } else if s.drop_last().contains(s.last()) {
        distinct(s.drop_last())
    } else {
        distinct(s.drop_last()).push(s.last())
    }
}

/// `distinct` keeps exactly the strings of `s`, each once.
pub proof fn lemma_distinct(s: Seq<Seq<char>>)
    ensures
        forall|x: Seq<char>| distinct(s).contains(x) <==> s.contains(x),
        distinct(s).no_duplicates(),
    decreases s.len(),
{
    if s.len() > 0 {
        let d0 = distinct(s.drop_last());
        lemma_distinct(s.drop_last());
        assert forall|x: Seq<char>| distinct(s).contains(x) <==> s.contains(x) by {
            lemma_drop_last_contains(s, x);
            lemma_push_contains(d0, s.last(), x);
        }
        if !s.drop_last().contains(s.last()) {
            assert forall|i: int, j: int|
                0 <= i < distinct(s).len() && 0 <= j < distinct(s).len() && i != j implies distinct(
                s,
            )[i] != distinct(s)[j] by {
                if i == d0.len() {
                    assert(d0.contains(distinct(s)[j]));
                } else if j == d0.len() {
                    assert(d0.contains(distinct(s)[i]));
                }
            }
        }
    }
}

/// The distinct source paths that the pages map, in order of first mention.
pub open spec fn documented_paths(pages: Seq<Page>) -> Seq<Seq<char>> {
    distinct(entry_paths(source_entries(pages)))
}

/// The view of a list of string pairs.
pub open spec fn pair_views(v: Seq<(String, String)>) -> Seq<SourceEntry> {
    v.map_values(|e: (String, String)| (e.0@, e.1@))
}

/// The source entries of the pages.
pub(crate) fn source_entries_of(pages: &Vec<Page>) -> (r: Vec<(String, String)>)
    ensures
        pair_views(r@) == source_entries(pages@),
{
    let mut r: Vec<(String, String)> = Vec::new();
    let mut i: usize = 0;
    assert(pair_views(r@) =~= source_entries(pages@.take(0)));
    while i < pages.len()
        invariant
            i <= pages.len(),
            pair_views(r@) == source_entries(pages@.take(i as int)),
        decreases pages.len() - i,
    {
        let page = &pages[i];
        let ghost start = pair_views(r@);
        let ghost tail = source_paths(page.sources@).map_values(|p: Seq<char>| (p, page.route@));
        let mut j: usize = 0;
        while j < page.sources.len()
            invariant
                j <= page.sources.len(),
                page == &pages@[i as int],
                tail == source_paths(page.sources@).map_values(|p: Seq<char>| (p, page.route@)),
                pair_views(r@) == start + tail.take(j as int),
            decreases page.sources.len() - j,
        {
            let ghost before = r@;
            r.push((owned(page.sources[j].path.as_str()), owned(page.route.as_str())));
            assert(pair_views(r@) =~= pair_views(before).push(tail[j as int]));
            assert(tail.take(j + 1) =~= tail.take(j as int).push(tail[j as int]));
            j = j + 1;
        }
        assert(tail.take(page.sources.len() as int) == tail);
        assert(pages@.take(i + 1).drop_last() =~= pages@.take(i as int));
        i = i + 1;
    }
    assert(pages@.take(pages.len() as int) =~= pages@);
    r
}

/// The distinct source paths of the entries, in order of first mention.
pub(crate) fn distinct_paths(es: &Vec<(String, String)>) -> (r: Vec<String>)
    ensures
        strs(r@) == distinct(entry_paths(pair_views(es@))),
{
    let ghost ps = entry_paths(pair_views(es@));
    let mut r: Vec<String> = Vec::new();
    let mut k: usize = 0;
    while k < es.len()
        invariant
            k <= es.len(),
            ps == entry_paths(pair_views(es@)),
            strs(r@) == distinct(ps.take(k as int)),
        decreases es.len() - k,
    {
        proof {
            lemma_distinct(ps.take(k as int));
            assert(ps.take(k + 1).drop_last() =~= ps.take(k as int));
        }
        if !contains_string(&r, es[k].0.as_str()) {
            let ghost before = r@;
            let p = owned(es[k].0.as_str());
            r.push(p);
            proof {
                lemma_strs_push(before, p);
            }
        }
        k = k + 1;
    }
    assert(ps.take(es.len() as int) =~= ps);
    r
}

/// The distinct source paths that the manifest maps, in order of first
/// mention.
pub fn documented_files(manifest: &Manifest) -> (r: Vec<String>)
    ensures
        strs(r@) == documented_paths(manifest.pages@),
{
    let es = source_entries_of(&manifest.pages);
    distinct_paths(&es)
}

/// The scanned source files that no page maps, each once, in increasing
/// order.
fn undocumented_of(source_files: &[String], documented: &Vec<String>) -> (r: Vec<String>)
    ensures
        strictly_sorted(strs(r@)),
        forall|x: Seq<char>|
            strs(r@).contains(x) <==> (strs(source_files@).contains(x) && !strs(
                documented@,
            ).contains(x)),
{
    let mut keep: Vec<String> = Vec::new();
    let mut i: usize = 0;
    while i < source_files.len()
        invariant
            i <= source_files@.len(),
            forall|x: Seq<char>|
                strs(keep@).contains(x) <==> (strs(source_files@.take(i as int)).contains(x)
                    && !strs(documented@).contains(x)),
        decreases source_files.len() - i,
    {
        let ghost before = keep@;
        if !contains_string(documented, source_files[i].as_str()) {
            let p = owned(source_files[i].as_str());
            keep.push(p);
            proof {
                lemma_strs_push(before, p);
            }
        }
        proof {
            let ghost prev = strs(source_files@.take(i as int));
            assert(strs(source_files@.take(i + 1)) =~= prev.push(source_files@[i as int]@));
            assert forall|x: Seq<char>|
                strs(keep@).contains(x) <==> (strs(source_files@.take(i + 1)).contains(x)
                    && !strs(documented@).contains(x)) by {
                lemma_push_contains(prev, source_files@[i as int]@, x);
                if keep@.len() > before.len() {
                    lemma_push_contains(strs(before), source_files@[i as int]@, x);
                } else {
                    assert(keep@ == before);
                }
            }
        }
        i = i + 1;
    }
    assert(source_files@.take(source_files@.len() as int) =~= source_files@);
    sorted_unique(&keep)
}

// ---------------------------------------------------------------------------
// Orphan pages
// ---------------------------------------------------------------------------

/// The paths whose existence flag is false, in order.
pub open spec fn missing_paths(paths: Seq<Seq<char>>, exists: Seq<bool>) -> Seq<Seq<char>>
    decreases paths.len(),
{
    if paths.len() == 0 {
        Seq::empty()
    } else {
        let prev = missing_paths(paths.drop_last(), exists.take(paths.len() - 1));
        if exists[paths.len() - 1] {
            prev
        } else {
            prev.push(paths.last())
        }
    }
}

/// Why a page is an orphan, if it is one: it lists no source, or some of
/// its sources do not exist (`exists[k]` tells whether its k-th does).
pub open spec fn orphan_reason(p: Page, exists: Seq<bool>) -> Option<Seq<char>> {
    if p.sources@.len() == 0 {
        Some("no sources listed"@)
    } else {
        let m = missing_paths(source_paths(p.sources@), exists);
        if m.len() > 0 {
            Some("sources not found: "@ + join(m, ", "@))
        } else {
            None
        }
    }
}

/// The orphan pages, in page order, with their reasons.
pub open spec fn orphan_pages_of(pages: Seq<Page>, exists: Seq<Seq<bool>>) -> Seq<
    (Seq<char>, Seq<char>),
>
    decreases pages.len(),
{
    if pages.len() == 0 {
        Seq::empty()
    } else {
        let prev = orphan_pages_of(pages.drop_last(), exists.take(pages.len() - 1));
        match orphan_reason(pages.last(), exists[pages.len() - 1]) {
            Some(r) => prev.push((pages.last().route@, r)),
            None => prev,
        }
    }
}

/// The views of the existence flags of each page's sources.
pub open spec fn flags_view(v: Seq<Vec<bool>>) -> Seq<Seq<bool>> {
    v.map_values(|f: Vec<bool>| f@)
}

/// The view of an orphan page.
pub open spec fn orphan_page_view(o: OrphanPage) -> (Seq<char>, Seq<char>) {
    (o.route@, o.reason@)
}

/// Whether each page has one existence flag per source.
pub open spec fn flags_fit(pages: Seq<Page>, exists: Seq<Vec<bool>>) -> bool {
    &&& exists.len() == pages.len()
    &&& forall|i: int| 0 <= i < pages.len() ==> #[trigger] exists[i]@.len() == pages[i].sources@.len()
}

/// The reason why a page is an orphan, if it is one.
fn orphan_reason_of(p: &Page, exists: &Vec<bool>) -> (r: Option<String>)
    requires
        exists@.len() == p.sources@.len(),
    ensures
        opt_string_view(r) == orphan_reason(*p, exists@),
{
    if p.sources.len() == 0 {
        return Some(owned("no sources listed"));
    }
    let ghost paths = source_paths(p.sources@);
    let mut missing: Vec<Vec<char>> = Vec::new();
    let mut k: usize = 0;
    while k < p.sources.len()
        invariant
            k <= p.sources@.len(),
            exists@.len() == p.sources@.len(),
            paths == source_paths(p.sources@),
            missing@.map_values(|v: Vec<char>| v@) == missing_paths(
                paths.take(k as int),
                exists@.take(k as int),
            ),
        decreases p.sources.len() - k,
    {
        assert(paths.take(k + 1).drop_last() =~= paths.take(k as int));
        assert(exists@.take(k + 1).take(k as int) =~= exists@.take(k as int));
        if !exists[k] {
            let ghost before = missing@;
            missing.push(chars_of(p.sources[k].path.as_str()));
            assert(missing@.map_values(|v: Vec<char>| v@) =~= before.map_values(
                |v: Vec<char>| v@,
            ).push(paths[k as int]));
        }
        k = k + 1;
    }
    assert(paths.take(p.sources.len() as int) =~= paths);
    assert(exists@.take(p.sources.len() as int) =~= exists@);
    if missing.len() > 0 {
        let mut text = chars_of("sources not found: ");
        let list = join_chars(&missing, ", ");
        crate::text::push_all(&mut text, &list);
        Some(string_of(&text))
    } else {
        None
    }
}

/// The orphan pages of the manifest, in page order.
fn orphan_pages_list(pages: &Vec<Page>, exists: &[Vec<bool>]) -> (r: Vec<OrphanPage>)
    requires
        flags_fit(pages@, exists@),
    ensures
        r@.map_values(|o: OrphanPage| orphan_page_view(o)) == orphan_pages_of(
            pages@,
            flags_view(exists@),
        ),
{
    let ghost fv = flags_view(exists@);
    let mut r: Vec<OrphanPage> = Vec::new();
    let mut i: usize = 0;
    assert(r@.map_values(|o: OrphanPage| orphan_page_view(o)) =~= orphan_pages_of(
        pages@.take(0),
        fv.take(0),
    ));
    while i < pages.len()
        invariant
            i <= pages.len(),
            flags_fit(pages@, exists@),
            fv == flags_view(exists@),
            r@.map_values(|o: OrphanPage| orphan_page_view(o)) == orphan_pages_of(
                pages@.take(i as int),
                fv.take(i as int),
            ),
        decreases pages.len() - i,
    {
        assert(pages@.take(i + 1).drop_last() =~= pages@.take(i as int));
        assert(fv.take(i + 1).take(i as int) =~= fv.take(i as int));
        assert(exists@[i as int]@.len() == pages@[i as int].sources@.len());
        let reason = orphan_reason_of(&pages[i], &exists[i]);
        match reason {
            Some(text) => {
                let ghost before = r@;
                r.push(OrphanPage { route: owned(pages[i].route.as_str()), reason: text });
                assert(r@.map_values(|o: OrphanPage| orphan_page_view(o)) =~= before.map_values(
                    |o: OrphanPage| orphan_page_view(o),
                ).push(orphan_page_view(r@[before.len() as int])));
            },
            None => {},
        }
        i = i + 1;
    }
    assert(pages@.take(pages.len() as int) =~= pages@);
    assert(fv.take(pages.len() as int) =~= fv);
    r
}

// ---------------------------------------------------------------------------
// Shared sources
// ---------------------------------------------------------------------------

/// The routes of the entries for source path `x`, in order (a page that
/// lists the path twice counts twice).
pub open spec fn routes_for(es: Seq<SourceEntry>, x: Seq<char>) -> Seq<Seq<char>>
    decreases es.len(),
{
    if es.len() == 0 {
        Seq::empty()
    } else {
        let prev = routes_for(es.drop_last(), x);
        if es.last().0 == x {
            prev.push(es.last().1)
        } else {
            prev
        }
    }
}

/// A path with routes is one of the entries' paths.
pub proof fn lemma_routes_for_path(es: Seq<SourceEntry>, x: Seq<char>)
    requires
        routes_for(es, x).len() > 0,
    ensures
        entry_paths(es).contains(x),
    decreases es.len(),
{
    if es.last().0 == x {
        assert(entry_paths(es)[es.len() - 1] == x);
    } else {
        lemma_routes_for_path(es.drop_last(), x);
        let k = choose|k: int|
            0 <= k < entry_paths(es.drop_last()).len() && entry_paths(es.drop_last())[k] == x;
        assert(entry_paths(es)[k] == x);
    }
}

/// The view of a shared source: its path and the routes that map it.
pub open spec fn shared_view(s: SharedSource) -> (Seq<char>, Seq<Seq<char>>) {
    (s.path@, strs(s.pages@))
}

/// Whether `r` lists exactly the source paths that more than one entry
/// maps, each once with its routes, by decreasing number of routes.
pub open spec fn shared_sources_of(r: Seq<(Seq<char>, Seq<Seq<char>>)>, es: Seq<SourceEntry>) -> bool {
    &&& forall|i: int|
        0 <= i < r.len() ==> (#[trigger] r[i]).1 == routes_for(es, r[i].0) && r[i].1.len() > 1
    &&& forall|x: Seq<char>|
        routes_for(es, x).len() > 1 ==> exists|i: int| 0 <= i < r.len() && (#[trigger] r[i]).0 == x
    &&& forall|i: int, j: int| 0 <= i < j < r.len() ==> r[i].0 != r[j].0
    &&& forall|i: int, j: int| 0 <= i < j < r.len() ==> r[i].1.len() >= r[j].1.len()
}

/// The routes of the entries for a path.
fn routes_of(es: &Vec<(String, String)>, x: &str) -> (r: Vec<String>)
    ensures
        strs(r@) == routes_for(pair_views(es@), x@),
{
    let ghost ev = pair_views(es@);
    let mut r: Vec<String> = Vec::new();
    let mut k: usize = 0;
    while k < es.len()
        invariant
            k <= es.len(),
            ev == pair_views(es@),
            strs(r@) == routes_for(ev.take(k as int), x@),
        decreases es.len() - k,
    {
        assert(ev.take(k + 1).drop_last() =~= ev.take(k as int));
        if str_eq(es[k].0.as_str(), x) {
            let ghost before = r@;
            let route = owned(es[k].1.as_str());
            r.push(route);
            proof {
                lemma_strs_push(before, route);
            }
        }
        k = k + 1;
    }
    assert(ev.take(es.len() as int) =~= ev);
    r
}

/// The source paths that several entries map, by decreasing number of
/// routes; `documented` is the list of distinct paths of the entries.
fn shared_sources_list(es: &Vec<(String, String)>, documented: &Vec<String>) -> (r: Vec<
    SharedSource,
>)
    requires
        strs(documented@) == distinct(entry_paths(pair_views(es@))),
    ensures
        shared_sources_of(r@.map_values(|s: SharedSource| shared_view(s)), pair_views(es@)),
{
    let ghost ev = pair_views(es@);
    let ghost dv = strs(documented@);
    proof {
        lemma_distinct(entry_paths(ev));
    }
    let mut r: Vec<SharedSource> = Vec::new();
    let mut k: usize = 0;
    while k < documented.len()
        invariant
            k <= documented.len(),
            ev == pair_views(es@),
            dv == strs(documented@),
            dv == distinct(entry_paths(ev)),
            dv.no_duplicates(),
            forall|x: Seq<char>| dv.contains(x) <==> entry_paths(ev).contains(x),
            forall|i: int|
                0 <= i < r@.len() ==> #[trigger] strs(r@[i].pages@) == routes_for(ev, r@[i].path@)
                    && strs(r@[i].pages@).len() > 1 && dv.take(k as int).contains(r@[i].path@),
            forall|j: int|
                0 <= j < k && #[trigger] routes_for(ev, dv[j]).len() > 1 ==> exists|i: int|
                    0 <= i < r@.len() && r@[i].path@ == dv[j],
            forall|i: int, j: int| 0 <= i < j < r@.len() ==> r@[i].path@ != r@[j].path@,
            forall|i: int, j: int|
                0 <= i < j < r@.len() ==> r@[i].pages@.len() >= r@[j].pages@.len(),
        decreases documented.len() - k,
    {
        let pages = routes_of(es, documented[k].as_str());
        if pages.len() > 1 {
            let n = pages.len();
            let mut pos: usize = 0;
            while pos < r.len() && r[pos].pages.len() >= n
                invariant
                    pos <= r@.len(),
                    forall|i: int| 0 <= i < pos ==> r@[i].pages@.len() >= n,
                decreases r@.len() - pos,
            {
                pos = pos + 1;
            }
            let ghost before = r@;
            let item = SharedSource { path: owned(documented[k].as_str()), pages };
            r.insert(pos, item);
            proof {
                assert forall|i: int| 0 <= i < r@.len() implies r@[i] == (if i < pos {
                    before[i]
                } else if i == pos {
                    item
                } else {
                    before[i - 1]
                }) by {}
                assert forall|i: int| 0 <= i < r@.len() implies #[trigger] strs(r@[i].pages@)
                    == routes_for(ev, r@[i].path@) && strs(r@[i].pages@).len() > 1 && dv.take(
                    k + 1,
                ).contains(r@[i].path@) by {
                    if i == pos {
                        assert(dv.take(k + 1)[k as int] == dv[k as int]);
                    } else {
                        let oi = if i < pos { i } else { i - 1 };
                        let p = before[oi];
                        assert(strs(before[oi].pages@) == routes_for(ev, before[oi].path@));
                        assert(dv.take(k as int).contains(p.path@));
                        let m = choose|m: int| 0 <= m < k && dv.take(k as int)[m] == p.path@;
                        assert(dv.take(k + 1)[m] == p.path@);
                    }
                }
                assert forall|i: int, j: int| 0 <= i < j < r@.len() implies r@[i].path@
                    != r@[j].path@ by {
                    if i == pos || j == pos {
                        let o = if i == pos { j } else { i };
                        let oi = if o < pos { o } else { o - 1 };
                        let p = before[oi];
                        assert(strs(before[oi].pages@) == routes_for(ev, before[oi].path@));
                        assert(dv.take(k as int).contains(p.path@));
                        let m = choose|m: int| 0 <= m < k && dv.take(k as int)[m] == p.path@;
                        assert(dv[m] == p.path@);
                        assert(dv[k as int] == documented@[k as int]@);
                    }
                }
                assert forall|j: int|
                    0 <= j < k + 1 && #[trigger] routes_for(ev, dv[j]).len() > 1 implies exists|
                    i: int,
                | 0 <= i < r@.len() && r@[i].path@ == dv[j] by {
                    if j == k {
                        assert(r@[pos as int].path@ == dv[j]);
                    } else {
                        let i = choose|i: int| 0 <= i < before.len() && before[i].path@ == dv[j];
                        if i < pos {
                            assert(r@[i].path@ == dv[j]);
                        } else {
                            assert(r@[i + 1].path@ == dv[j]);
                        }
                    }
                }
            }
        } else {
            proof {
                assert forall|i: int| 0 <= i < r@.len() implies #[trigger] strs(r@[i].pages@)
                    == routes_for(ev, r@[i].path@) && strs(r@[i].pages@).len() > 1 && dv.take(
                    k + 1,
                ).contains(r@[i].path@) by {
                    assert(strs(r@[i].pages@) == routes_for(ev, r@[i].path@));
                    let m = choose|m: int| 0 <= m < k && dv.take(k as int)[m] == r@[i].path@;
                    assert(dv.take(k + 1)[m] == r@[i].path@);
                }
            }
        }
        k = k + 1;
    }
    proof {
        let rv = r@.map_values(|s: SharedSource| shared_view(s));
        assert forall|x: Seq<char>| routes_for(ev, x).len() > 1 implies exists|i: int|
            0 <= i < rv.len() && (#[trigger] rv[i]).0 == x by {
            lemma_routes_for_path(ev, x);
            let j = choose|j: int| 0 <= j < dv.len() && dv[j] == x;
            assert(routes_for(ev, dv[j]).len() > 1);
            let i = choose|i: int| 0 <= i < r@.len() && r@[i].path@ == dv[j];
            assert(rv[i].0 == x);
        }
    }
    r
}

// ---------------------------------------------------------------------------
// Concept coverage
// ---------------------------------------------------------------------------

/// Whether a page's content (`None`: no content) mentions the name.
pub open spec fn mentioned_in(content: Option<Seq<char>>, name: Seq<char>) -> bool {
    match content {
        Some(c) => mentions(c, name),
        None => false,
    }
}

/// Whether some page content mentions the name.
pub open spec fn page_mentions(pcs: Seq<Option<Seq<char>>>, name: Seq<char>) -> bool {
    exists|i: int| 0 <= i < pcs.len() && #[trigger] mentioned_in(pcs[i], name)
}

/// The number of concepts whose name some page mentions.
pub open spec fn covered_count(cs: Seq<ConceptView>, pcs: Seq<Option<Seq<char>>>) -> nat
    decreases cs.len(),
{
    if cs.len() == 0 {
        0
    } else {
        covered_count(cs.drop_last(), pcs) + if page_mentions(pcs, cs.last().0) {
            1nat
        } else {
            0nat
        }
    }
}

/// The concepts whose name no page mentions, in order, as name, kind name
/// and source file.
pub open spec fn orphan_concepts(cs: Seq<ConceptView>, pcs: Seq<Option<Seq<char>>>) -> Seq<
    (Seq<char>, Seq<char>, Seq<char>),
>
    decreases cs.len(),
{
    if cs.len() == 0 {
        Seq::empty()
    } else {
        let prev = orphan_concepts(cs.drop_last(), pcs);
        if page_mentions(pcs, cs.last().0) {
            prev
        } else {
            prev.push((cs.last().0, kind_name(cs.last().1), cs.last().2))
        }
    }
}

/// The view of an orphan concept.
pub open spec fn orphan_concept_view(o: OrphanConcept) -> (Seq<char>, Seq<char>, Seq<char>) {
    (o.name@, o.kind@, o.source_file@)
}

/// The views of orphan concepts.
pub open spec fn orphan_concept_views(v: Seq<OrphanConcept>) -> Seq<(Seq<char>, Seq<char>, Seq<char>)> {
    v.map_values(|o: OrphanConcept| orphan_concept_view(o))
}

/// Whether `r` is the concept coverage of the concepts `all` by the page
/// contents `pcs`: `None` when there is no concept, else their number, the
/// number of them that some page mentions, and the others.
pub open spec fn concept_coverage_of(
    r: Option<ConceptCoverageStats>,
    all: Seq<ConceptView>,
    pcs: Seq<Option<Seq<char>>>,
) -> bool {
    &&& r is None <==> all.len() == 0
    &&& r matches Some(st) ==> {
        &&& st.total == all.len()
        &&& st.covered == covered_count(all, pcs)
        &&& orphan_concept_views(st.orphans@) == orphan_concepts(all, pcs)
    }
}

/// The concept coverage of the documented files: the concepts of the files
/// (`file_contents[i]` is the content of `documented_files[i]`, `None` where
/// it could not be read), how many of them some page mentions, and the
/// others.  `page_contents[i]` is the content of the file of the i-th page,
/// `None` where the page has no file or it could not be read.  `None` when
/// the files hold no concept.
pub fn compute_concept_coverage(
    manifest: &Manifest,
    documented_files: &[String],
    file_contents: &[Option<String>],
    page_contents: &[Option<String>],
) -> (r: Option<ConceptCoverageStats>)
    requires
        documented_files@.len() == file_contents@.len(),
        page_contents@.len() == manifest.pages@.len(),
    ensures
        concept_coverage_of(
            r,
            all_file_concepts(strs(documented_files@), contents_view(file_contents@)),
            contents_view(page_contents@),
        ),
{
    let all = extract_all_concepts(documented_files, file_contents);
    let ghost av = concept_views(all@);
    let ghost pcs = contents_view(page_contents@);
    if all.len() == 0 {
        return None;
    }
    let mut names: Vec<String> = Vec::new();
    let mut i: usize = 0;
    while i < page_contents.len()
        invariant
            i <= page_contents@.len(),
            pcs == contents_view(page_contents@),
            av == concept_views(all@),
            forall|x: Seq<char>|
                strs(names@).contains(x) <==> exists|k: int, j: int|
                    0 <= k < i && 0 <= j < all@.len() && (#[trigger] all@[j]).name@ == x
                        && #[trigger] mentioned_in(pcs[k], x),
        decreases page_contents.len() - i,
    {
        match &page_contents[i] {
            Some(c) => {
                let sl = all.as_slice();
                let mut found = scan_page_for_concepts(c.as_str(), sl);
                let ghost cv = c@;
                assert(pcs[i as int] == Some(cv));
                let ghost before = names@;
                let ghost fv = found@;
                names.append(&mut found);
                proof {
                    assert(strs(names@) =~= strs(before) + strs(fv));
                    assert forall|x: Seq<char>|
                        strs(names@).contains(x) <==> exists|k: int, j: int|
                            0 <= k < i + 1 && 0 <= j < all@.len() && (#[trigger] all@[j]).name@ == x
                                && #[trigger] mentioned_in(pcs[k], x) by {
                        if strs(names@).contains(x) {
                            let m = choose|m: int| 0 <= m < strs(names@).len() && strs(names@)[m] == x;
                            if m < strs(before).len() {
                                assert(strs(before)[m] == x);
                                assert(strs(before).contains(x));
                                let (k, j) = choose|k: int, j: int|
                                    0 <= k < i && 0 <= j < all@.len() && (#[trigger] all@[j]).name@ == x
                                        && #[trigger] mentioned_in(pcs[k], x);
                                assert(0 <= k < i + 1 && 0 <= j < all@.len() && all@[j].name@ == x
                                    && mentioned_in(pcs[k], x));
                            } else {
                                assert(strs(fv)[m - strs(before).len()] == x);
                                assert(strs(fv).contains(x));
                                let j = choose|j: int|
                                    0 <= j < sl@.len() && #[trigger] sl@[j].name@ == x && mentions(
                                        cv,
                                        x,
                                    );
                                assert(all@[j].name@ == x);
                                assert(mentioned_in(pcs[i as int], x));
                            }
                        }
                        if exists|k: int, j: int|
                            0 <= k < i + 1 && 0 <= j < all@.len() && (#[trigger] all@[j]).name@ == x
                                && #[trigger] mentioned_in(pcs[k], x) {
                            let (k, j) = choose|k: int, j: int|
                                0 <= k < i + 1 && 0 <= j < all@.len() && (#[trigger] all@[j]).name@ == x
                                    && #[trigger] mentioned_in(pcs[k], x);
                            if k == i {
                                assert(sl@[j].name@ == x && mentions(cv, x));
                                assert(strs(fv).contains(x));
                                let m = choose|m: int| 0 <= m < strs(fv).len() && strs(fv)[m] == x;
                                assert(strs(names@)[strs(before).len() + m] == x);
                            } else {
                                assert(strs(before).contains(x));
                                let m = choose|m: int| 0 <= m < strs(before).len() && strs(before)[m] == x;
                                assert(strs(names@)[m] == x);
                            }
                        }
                    }
                }
            },
            None => {
                proof {
                    assert forall|x: Seq<char>|
                        strs(names@).contains(x) <==> exists|k: int, j: int|
                            0 <= k < i + 1 && 0 <= j < all@.len() && (#[trigger] all@[j]).name@ == x
                                && #[trigger] mentioned_in(pcs[k], x) by {
                        if exists|k: int, j: int|
                            0 <= k < i + 1 && 0 <= j < all@.len() && (#[trigger] all@[j]).name@ == x
                                && #[trigger] mentioned_in(pcs[k], x) {
                            let (k, j) = choose|k: int, j: int|
                                0 <= k < i + 1 && 0 <= j < all@.len() && (#[trigger] all@[j]).name@ == x
                                    && #[trigger] mentioned_in(pcs[k], x);
                            assert(k != i);
                        }
                    }
                }
            },
        }
        i = i + 1;
    }
    let mut covered: usize = 0;
    let mut orphans: Vec<OrphanConcept> = Vec::new();
    let mut j: usize = 0;
    while j < all.len()
        invariant
            j <= all@.len(),
            pcs == contents_view(page_contents@),
            av == concept_views(all@),
            forall|x: Seq<char>|
                strs(names@).contains(x) <==> exists|k: int, j: int|
                    0 <= k < pcs.len() && 0 <= j < all@.len() && (#[trigger] all@[j]).name@ == x
                        && #[trigger] mentioned_in(pcs[k], x),
            covered == covered_count(av.take(j as int), pcs),
            covered <= j,
            orphan_concept_views(orphans@) == orphan_concepts(av.take(j as int), pcs),
        decreases all.len() - j,
    {
        assert(av.take(j + 1).drop_last() =~= av.take(j as int));
        let name = all[j].name.as_str();
        let hit = contains_string(&names, name);
        proof {
            let x = all@[j as int].name@;
            assert(av.take(j + 1).last() == av[j as int]);
            assert(av[j as int].0 == x);
            if page_mentions(pcs, x) {
                let k = choose|k: int| 0 <= k < pcs.len() && #[trigger] mentioned_in(pcs[k], x);
                assert(mentioned_in(pcs[k], x) && all@[j as int].name@ == x);
            }
            if hit {
                let (k, jj) = choose|k: int, jj: int|
                    0 <= k < pcs.len() && 0 <= jj < all@.len() && (#[trigger] all@[jj]).name@ == x
                        && #[trigger] mentioned_in(pcs[k], x);
                assert(mentioned_in(pcs[k], x));
            }
            assert(hit == page_mentions(pcs, x));
        }
        if hit {
            covered = covered + 1;
        } else {
            let ghost before = orphans@;
            orphans.push(
                OrphanConcept {
                    name: owned(name),
                    kind: all[j].kind.to_string(),
                    source_file: owned(all[j].source_file.as_str()),
                },
            );
            assert(orphan_concept_views(orphans@) =~= orphan_concept_views(before).push(
                orphan_concept_view(orphans@[before.len() as int]),
            ));
        }
        j = j + 1;
    }
    assert(av.take(all.len() as int) =~= av);
    Some(ConceptCoverageStats { total: all.len(), covered, orphans })
}

// ---------------------------------------------------------------------------
// The coverage report
// ---------------------------------------------------------------------------

/// The number of pages that list at least one source.
pub open spec fn pages_with_sources_count(pages: Seq<Page>) -> nat
    decreases pages.len(),
{
    if pages.len() == 0 {
        0
    } else {
        pages_with_sources_count(pages.drop_last()) + if pages.last().sources@.len() > 0 {
            1nat
        } else {
            0nat
        }
    }
}

/// The coverage of the scanned source files by the manifest's pages.
/// `source_files` are the files that the scan found; `source_exists[i][k]`
/// tells whether the k-th source of the i-th page exists in the source
/// repository; `documented_contents[i]` is the content of the i-th
/// documented path (`documented_files`), `None` where it could not be read;
/// `page_contents[i]` is the content of the i-th page's file, `None` where
/// it has none or it could not be read.
pub fn compute_coverage(
    manifest: &Manifest,
    source_files: &[String],
    source_exists: &[Vec<bool>],
    documented_contents: &[Option<String>],
    page_contents: &[Option<String>],
) -> (r: CoverageReport)
    requires
        flags_fit(manifest.pages@, source_exists@),
        documented_contents@.len() == documented_paths(manifest.pages@).len(),
        page_contents@.len() == manifest.pages@.len(),
    ensures
        ({
            let pages = manifest.pages@;
            let es = source_entries(pages);
            let doc = documented_paths(pages);
            &&& strictly_sorted(strs(r.undocumented@))
            &&& forall|x: Seq<char>|
                #[trigger] strs(r.undocumented@).contains(x) <==> (strs(source_files@).contains(x)
                    && !doc.contains(x))
            &&& r.orphan_pages@.map_values(|o: OrphanPage| orphan_page_view(o)) == orphan_pages_of(
                pages,
                flags_view(source_exists@),
            )
            &&& shared_sources_of(r.shared_sources@.map_values(|s: SharedSource| shared_view(s)), es)
            &&& r.stats.total_source_files == source_files@.len()
            &&& r.stats.documented_files == doc.len()
            &&& r.stats.undocumented_files == r.undocumented@.len()
            &&& r.stats.total_pages == pages.len()
            &&& r.stats.pages_with_sources == pages_with_sources_count(pages)
            &&& r.stats.orphan_pages == r.orphan_pages@.len()
            &&& concept_coverage_of(
                r.concept_stats,
                all_file_concepts(doc, contents_view(documented_contents@)),
                contents_view(page_contents@),
            )
        }),
{
    let es = source_entries_of(&manifest.pages);
    let documented = distinct_paths(&es);
    let undocumented = undocumented_of(source_files, &documented);
    let orphan_pages = orphan_pages_list(&manifest.pages, source_exists);
    let shared_sources = shared_sources_list(&es, &documented);
    let mut with_sources: usize = 0;
    let mut i: usize = 0;
    while i < manifest.pages.len()
        invariant
            i <= manifest.pages@.len(),
            with_sources == pages_with_sources_count(manifest.pages@.take(i as int)),
            with_sources <= i,
        decreases manifest.pages.len() - i,
    {
        assert(manifest.pages@.take(i + 1).drop_last() =~= manifest.pages@.take(i as int));
        if manifest.pages[i].sources.len() > 0 {
            with_sources = with_sources + 1;
        }
        i = i + 1;
    }
    assert(manifest.pages@.take(manifest.pages.len() as int) =~= manifest.pages@);
    let concept_stats = compute_concept_coverage(
        manifest,
        documented.as_slice(),
        documented_contents,
        page_contents,
    );
    let stats = CoverageStats {
        total_source_files: source_files.len(),
        documented_files: documented.len(),
        undocumented_files: undocumented.len(),
        total_pages: manifest.pages.len(),
        pages_with_sources: with_sources,
        orphan_pages: orphan_pages.len(),
    };
    CoverageReport { undocumented, orphan_pages, shared_sources, stats, concept_stats }
}

/// The git pathspec for a scan pattern: patterns with `**` get the
/// `:(glob)` magic so that `**` crosses directories.
pub fn pathspec_for(pattern: &str) -> (r: String)
    ensures
        r@ == (if crate::text::contains_seq(pattern@, "**"@) {
            ":(glob)"@ + pattern@
        } else {
            pattern@
        }),
{
    let p = chars_of(pattern);
    let star = chars_of("**");
    if crate::text::contains(&p, &star) {
        let mut out = chars_of(":(glob)");
        crate::text::push_all(&mut out, &p);
        string_of(&out)
    } else {
        owned(pattern)
    }
}

/// The non-empty lines of a listing.
pub open spec fn listed_in(listing: Option<Seq<char>>, x: Seq<char>) -> bool {
    match listing {
        Some(o) => x.len() > 0 && lines(o).contains(x),
        None => false,
    }
}

/// The source files of the scan, each once, in increasing order:
/// `listings[i]` is what `git ls-files` printed for the i-th pattern, `None`
/// where it failed.
pub fn scan_source_files_pub(listings: &[Option<String>]) -> (r: Vec<String>)
    ensures
        strictly_sorted(strs(r@)),
        forall|x: Seq<char>|
            strs(r@).contains(x) <==> exists|i: int|
                0 <= i < listings@.len() && #[trigger] listed_in(
                    opt_string_view(listings@[i]),
                    x,
                ),
{
    let mut all: Vec<String> = Vec::new();
    let mut i: usize = 0;
    while i < listings.len()
        invariant
            i <= listings@.len(),
            forall|x: Seq<char>|
                strs(all@).contains(x) <==> exists|k: int|
                    0 <= k < i && #[trigger] listed_in(opt_string_view(listings@[k]), x),
        decreases listings.len() - i,
    {
        match &listings[i] {
            Some(out) => {
                let text = chars_of(out.as_str());
                let ls = split_lines(&text);
                let ghost lv = ls@.map_values(|v: Vec<char>| v@);
                let ghost start = all@;
                assert(opt_string_view(listings@[i as int]) == Some(out@));
                let mut j: usize = 0;
                while j < ls.len()
                    invariant
                        j <= ls@.len(),
                        i < listings@.len(),
                        lv == ls@.map_values(|v: Vec<char>| v@),
                        lv == lines(out@),
                        opt_string_view(listings@[i as int]) == Some(out@),
                        forall|x: Seq<char>|
                            #[trigger] strs(all@).contains(x) <==> (strs(start).contains(x) || (x.len() > 0
                                && lv.take(j as int).contains(x))),
                    decreases ls.len() - j,
                {
                    let ghost before = all@;
                    assert(lv[j as int] == ls@[j as int]@);
                    let nonempty = ls[j].len() > 0;
                    assert(nonempty == (lv[j as int].len() > 0));
                    if nonempty {
                        let line = string_of(&ls[j]);
                        all.push(line);
                        proof {
                            lemma_strs_push(before, line);
                            assert(strs(all@) == strs(before).push(lv[j as int]));
                        }
                    } else {
                        assert(all@ == before);
                    }
                    proof {
                        assert(lv.take(j + 1) =~= lv.take(j as int).push(lv[j as int]));
                        assert forall|x: Seq<char>|
                            #[trigger] strs(all@).contains(x) <==> (strs(start).contains(x) || (x.len() > 0
                                && lv.take(j + 1).contains(x))) by {
                            lemma_push_contains(lv.take(j as int), lv[j as int], x);
                            assert(strs(before).contains(x) <==> (strs(start).contains(x) || (x.len()
                                > 0 && lv.take(j as int).contains(x))));
                            if nonempty {
                                lemma_push_contains(strs(before), lv[j as int], x);
                            } else {
                                assert(strs(all@) == strs(before));
                            }
                        }
                    }
                    j = j + 1;
                }
                proof {
                    assert(lv.take(ls.len() as int) =~= lv);
                    assert forall|x: Seq<char>|
                        strs(all@).contains(x) <==> exists|k: int|
                            0 <= k < i + 1 && #[trigger] listed_in(
                                opt_string_view(listings@[k]),
                                x,
                            ) by {
                        if exists|k: int|
                            0 <= k < i + 1 && #[trigger] listed_in(
                                opt_string_view(listings@[k]),
                                x,
                            ) {
                            let k = choose|k: int|
                                0 <= k < i + 1 && #[trigger] listed_in(
                                    opt_string_view(listings@[k]),
                                    x,
                                );
                            if k < i {
                                assert(strs(start).contains(x));
                            }
                        }
                        if strs(start).contains(x) {
                            let k = choose|k: int|
                                0 <= k < i && #[trigger] listed_in(opt_string_view(listings@[k]), x);
                            assert(0 <= k < i + 1);
                        }
                        if x.len() > 0 && lv.contains(x) {
                            assert(listed_in(opt_string_view(listings@[i as int]), x));
                        }
                    }
                }
            },
            None => {
                assert(opt_string_view(listings@[i as int]) is None);
            },
        }
        i = i + 1;
    }
    sorted_unique(&all)
}

/// The default scan patterns, for Rust projects.
pub fn default_scan_patterns() -> (r: Vec<&'static str>)
    ensures
        crate::config::str_views(r@) == seq!["src/**/*.rs"@, "docs/spec/**/*.md"@],
{
    let r = vec!["src/**/*.rs", "docs/spec/**/*.md"];
    assert(crate::config::str_views(r@) =~= seq!["src/**/*.rs"@, "docs/spec/**/*.md"@]);
    r
}

/// The scan patterns to start from: those of the detected source language,
/// or the default (Rust) ones when no language was detected.
pub fn scan_defaults(detected: Option<crate::presets::SourcePreset>) -> (r: Vec<&'static str>)
    ensures
        r@ == match detected {
            Some(p) => p.scan_patterns@,
            None => seq!["src/**/*.rs", "docs/spec/**/*.md"],
        },
{
    match detected {
        Some(p) => {
            let mut r: Vec<&'static str> = Vec::new();
            let mut i: usize = 0;
            while i < p.scan_patterns.len()
                invariant
                    i <= p.scan_patterns@.len(),
                    r@ == p.scan_patterns@.take(i as int),
                decreases p.scan_patterns@.len() - i,
            {
                r.push(p.scan_patterns[i]);
                assert(p.scan_patterns@.take(i + 1) == p.scan_patterns@.take(i as int).push(
                    p.scan_patterns@[i as int],
                ));
                i = i + 1;
            }
            assert(p.scan_patterns@.take(p.scan_patterns@.len() as int) == p.scan_patterns@);
            r
        },
        None => {
            let r = vec!["src/**/*.rs", "docs/spec/**/*.md"];
            assert(r@ =~= seq!["src/**/*.rs", "docs/spec/**/*.md"]);
            r
        },
    }
}

/// The pages counted as having source mappings are exactly the pages that
/// list at least one source, whatever their number; with the pages that
/// list none they make up all the pages.
pub proof fn law_pages_with_sources(pages: Seq<Page>)
    ensures
        pages_with_sources_count(pages) == pages.filter(|p: Page| p.sources@.len() > 0).len(),
        pages_with_sources_count(pages) + pages.filter(|p: Page| p.sources@.len() == 0).len()
            == pages.len(),
    decreases pages.len(),
{
    reveal(Seq::filter);
    if pages.len() > 0 {
        law_pages_with_sources(pages.drop_last());
    }
}

} // verus!
