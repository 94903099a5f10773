//! The concept graph: which pages mention which concepts of the source
//! files, and what that shows about gaps in the documentation.
use vstd::prelude::*;
use crate::concepts::{
    all_file_concepts, concept_views, contents_view, extract_all_concepts, kind_name,
    scan_page_for_concepts, Concept, ConceptView,
};
use crate::coverage::{mentioned_in, pair_views, source_entries, source_entries_of, SourceEntry};
use crate::paths::opt_string_view;
use crate::manifest::Page;
use crate::text::{
    chars_of, contains_string, lemma_lex_irreflexive, lemma_lex_total, lemma_lex_transitive,
    lemma_push_contains, lemma_strs_push, less_chars, lex_lt, owned, sorted_unique, str_eq,
    strictly_sorted, strs,
};

verus! {

/// The concept graph of a documentation site.
pub struct ConceptGraph {
    pub nodes: Vec<ConceptNode>,
    pub orphans: Vec<OrphanDetail>,
    pub thin_coverage: Vec<ThinCoverage>,
    pub stale_siblings: Vec<StaleSibling>,
    pub stats: GraphStats,
}

/// A concept: the source files that define it and the pages that mention it.
pub struct ConceptNode {
    pub name: String,
    pub source_files: Vec<String>,
    pub pages: Vec<String>,
}

/// A concept that no page mentions.
pub struct OrphanDetail {
    pub name: String,
    pub kind: String,
    pub source_file: String,
}

/// A page that maps a source file but does not mention all its concepts.
pub struct ThinCoverage {
    pub route: String,
    pub source_file: String,
    pub missing_concepts: Vec<String>,
}

/// A concept that pages verified at different revisions mention.
pub struct StaleSibling {
    pub concept: String,
    pub pages: Vec<(String, Option<String>)>,
}

/// Counts of the concept graph.
pub struct GraphStats {
    pub total_concepts: usize,
    pub total_pages: usize,
    pub orphan_count: usize,
    pub thin_coverage_count: usize,
    pub stale_sibling_count: usize,
}

// ---------------------------------------------------------------------------
// Which pages mention which concepts
// ---------------------------------------------------------------------------

/// The names of the concepts.
pub open spec fn concept_names(cs: Seq<ConceptView>) -> Seq<Seq<char>> {
    cs.map_values(|c: ConceptView| c.0)
}

/// Whether page `i` has content and no later page with the same route has:
/// its scan is the one that counts for its route.
pub open spec fn last_scan(pages: Seq<Page>, pcs: Seq<Option<Seq<char>>>, i: int) -> bool {
    &&& 0 <= i < pages.len()
    &&& pcs[i] is Some
    &&& forall|j: int|
        i < j < pages.len() ==> !((#[trigger] pcs[j]) is Some && pages[j].route@ == pages[i].route@)
}

/// Whether the scan that counts for page `i`'s route found the concept `x`.
pub open spec fn scan_finds(
    pages: Seq<Page>,
    pcs: Seq<Option<Seq<char>>>,
    cs: Seq<ConceptView>,
    i: int,
    x: Seq<char>,
) -> bool {
    &&& last_scan(pages, pcs, i)
    &&& concept_names(cs).contains(x)
    &&& mentioned_in(pcs[i], x)
}

/// Whether some page mentions the concept `x`.
pub open spec fn on_a_page(
    pages: Seq<Page>,
    pcs: Seq<Option<Seq<char>>>,
    cs: Seq<ConceptView>,
    x: Seq<char>,
) -> bool {
    exists|i: int| #[trigger] scan_finds(pages, pcs, cs, i, x)
}

/// Whether the page with the given route mentions the concept `x`.
pub open spec fn found_on_route(
    pages: Seq<Page>,
    pcs: Seq<Option<Seq<char>>>,
    cs: Seq<ConceptView>,
    route: Seq<char>,
    x: Seq<char>,
) -> bool {
    exists|i: int| #[trigger] scan_finds(pages, pcs, cs, i, x) && pages[i].route@ == route
}

/// What the scans of the pages found: `found[i]` for page `i` when its scan
/// counts (`last[i]`).
struct Scans {
    last: Vec<bool>,
    found: Vec<Vec<String>>,
}

/// Whether `s` holds the scans of the pages.
spec fn scans_of(
    s: Scans,
    pages: Seq<Page>,
    pcs: Seq<Option<Seq<char>>>,
    cs: Seq<ConceptView>,
) -> bool {
    &&& s.last@.len() == pages.len()
    &&& s.found@.len() == pages.len()
    &&& forall|i: int| 0 <= i < pages.len() ==> #[trigger] s.last@[i] == last_scan(pages, pcs, i)
    &&& forall|i: int, x: Seq<char>|
        0 <= i < pages.len() && s.last@[i] ==> (#[trigger] strs(s.found@[i]@).contains(x) <==> (
        concept_names(cs).contains(x) && mentioned_in(pcs[i], x)))
}

/// Scans each page's content for the concepts.
fn scan_pages_for(pages: &Vec<Page>, page_contents: &[Option<String>], all: &[Concept]) -> (r:
    Scans)
    requires
        page_contents@.len() == pages@.len(),
    ensures
        scans_of(r, pages@, contents_view(page_contents@), concept_views(all@)),
{
    let ghost pcs = contents_view(page_contents@);
    let ghost cs = concept_views(all@);
    let mut last: Vec<bool> = Vec::new();
    let mut found: Vec<Vec<String>> = Vec::new();
    let n = pages.len();
    let mut i: usize = 0;
    while i < n
        invariant
            n == pages@.len(),
            i <= n,
            page_contents@.len() == n,
            pcs == contents_view(page_contents@),
            cs == concept_views(all@),
            last@.len() == i,
            found@.len() == i,
            forall|k: int| 0 <= k < i ==> #[trigger] last@[k] == last_scan(pages@, pcs, k),
            forall|k: int, x: Seq<char>|
                0 <= k < i && last@[k] ==> (#[trigger] strs(found@[k]@).contains(x) <==> (
                concept_names(cs).contains(x) && mentioned_in(pcs[k], x))),
        decreases n - i,
    {
        let mut is_last = false;
        let mut f: Vec<String> = Vec::new();
        match &page_contents[i] {
            Some(c) => {
                assert(pcs[i as int] == Some(c@));
                let mut later = false;
                let mut j: usize = i + 1;
                while j < n
                    invariant
                        n == pages@.len(),
                        i < j <= n,
                        page_contents@.len() == n,
                        pcs == contents_view(page_contents@),
                        later == exists|m: int|
                            i < m < j && (#[trigger] pcs[m]) is Some && pages@[m].route@
                                == pages@[i as int].route@,
                    decreases n - j,
                {
                    let has = match &page_contents[j] {
                        Some(_) => true,
                        None => false,
                    };
                    assert(has == pcs[j as int] is Some);
                    if has && str_eq(pages[j].route.as_str(), pages[i].route.as_str()) {
                        later = true;
                    }
                    j = j + 1;
                }
                if !later {
                    is_last = true;
                    f = scan_page_for_concepts(c.as_str(), all);
                    proof {
                        assert forall|x: Seq<char>|
                            #[trigger] strs(f@).contains(x) <==> (concept_names(cs).contains(x)
                                && mentioned_in(pcs[i as int], x)) by {
                            if concept_names(cs).contains(x) {
                                let j = choose|j: int|
                                    0 <= j < concept_names(cs).len() && concept_names(cs)[j] == x;
                                assert(all@[j].name@ == x);
                            }
                            if strs(f@).contains(x) {
                                let j = choose|j: int|
                                    0 <= j < all@.len() && #[trigger] all@[j].name@ == x
                                        && crate::concepts::mentions(c@, x);
                                assert(concept_names(cs)[j] == x);
                            }
                        }
                    }
                }
            },
            None => {},
        }
        assert(is_last == last_scan(pages@, pcs, i as int));
        last.push(is_last);
        found.push(f);
        i = i + 1;
    }
    Scans { last, found }
}

/// Whether the scans found `x` on some page.
fn on_some_page(scans: &Scans, x: &str, Ghost(pages): Ghost<Seq<Page>>, Ghost(pcs): Ghost<
    Seq<Option<Seq<char>>>,
>, Ghost(cs): Ghost<Seq<ConceptView>>) -> (r: bool)
    requires
        scans_of(*scans, pages, pcs, cs),
    ensures
        r == on_a_page(pages, pcs, cs, x@),
{
    let mut i: usize = 0;
    while i < scans.last.len()
        invariant
            i <= scans.last@.len(),
            scans_of(*scans, pages, pcs, cs),
            forall|k: int| 0 <= k < i ==> !#[trigger] scan_finds(pages, pcs, cs, k, x@),
        decreases scans.last.len() - i,
    {
        if scans.last[i] && contains_string(&scans.found[i], x) {
            assert(strs(scans.found@[i as int]@).contains(x@));
            assert(scan_finds(pages, pcs, cs, i as int, x@));
            return true;
        }
        proof {
            if scans.last@[i as int] {
                assert(!strs(scans.found@[i as int]@).contains(x@));
            }
        }
        i = i + 1;
    }
    false
}

/// Whether the page with the given route mentions `x`.
fn route_finds(scans: &Scans, pages: &Vec<Page>, route: &str, x: &str, Ghost(pcs): Ghost<
    Seq<Option<Seq<char>>>,
>, Ghost(cs): Ghost<Seq<ConceptView>>) -> (r: bool)
    requires
        scans_of(*scans, pages@, pcs, cs),
    ensures
        r == found_on_route(pages@, pcs, cs, route@, x@),
{
    let mut i: usize = 0;
    while i < scans.last.len()
        invariant
            i <= scans.last@.len(),
            scans_of(*scans, pages@, pcs, cs),
            forall|k: int|
                0 <= k < i ==> !(#[trigger] scan_finds(pages@, pcs, cs, k, x@) && pages@[k].route@
                    == route@),
        decreases scans.last.len() - i,
    {
        if scans.last[i] && str_eq(pages[i].route.as_str(), route) && contains_string(
            &scans.found[i],
            x,
        ) {
            assert(strs(scans.found@[i as int]@).contains(x@));
            assert(scan_finds(pages@, pcs, cs, i as int, x@));
            return true;
        }
        proof {
            if scans.last@[i as int] && pages@[i as int].route@ == route@ {
                assert(!strs(scans.found@[i as int]@).contains(x@));
            }
        }
        i = i + 1;
    }
    false
}

// ---------------------------------------------------------------------------
// Nodes
// ---------------------------------------------------------------------------

/// Whether some concept named `x` comes from the file `f`.
pub open spec fn defines(cs: Seq<ConceptView>, x: Seq<char>, f: Seq<char>) -> bool {
    exists|j: int| 0 <= j < cs.len() && (#[trigger] cs[j]).0 == x && cs[j].2 == f
}

/// The view of a node: its name, source files and pages.
pub open spec fn node_view(n: ConceptNode) -> (Seq<char>, Seq<Seq<char>>, Seq<Seq<char>>) {
    (n.name@, strs(n.source_files@), strs(n.pages@))
}

/// Whether `ns` are the nodes of the graph: one per concept name, by
/// increasing name, each with the files that define the concept and the
/// routes of the pages that mention it, each in increasing order.
pub open spec fn nodes_of(
    ns: Seq<(Seq<char>, Seq<Seq<char>>, Seq<Seq<char>>)>,
    pages: Seq<Page>,
    pcs: Seq<Option<Seq<char>>>,
    cs: Seq<ConceptView>,
) -> bool {
    let names = ns.map_values(|n: (Seq<char>, Seq<Seq<char>>, Seq<Seq<char>>)| n.0);
    &&& strictly_sorted(names)
    &&& forall|x: Seq<char>| names.contains(x) <==> concept_names(cs).contains(x)
    &&& forall|k: int|
        0 <= k < ns.len() ==> {
            &&& strictly_sorted((#[trigger] ns[k]).1)
            &&& forall|f: Seq<char>| ns[k].1.contains(f) <==> defines(cs, ns[k].0, f)
            &&& strictly_sorted(ns[k].2)
            &&& forall|rt: Seq<char>|
                ns[k].2.contains(rt) <==> found_on_route(pages, pcs, cs, rt, ns[k].0)
        }
}

/// The names of the concepts, in order.
fn names_of(all: &[Concept]) -> (r: Vec<String>)
    ensures
        strs(r@) == concept_names(concept_views(all@)),
{
    let mut r: Vec<String> = Vec::new();
    let mut j: usize = 0;
    while j < all.len()
        invariant
            j <= all@.len(),
            strs(r@) == concept_names(concept_views(all@)).take(j as int),
        decreases all.len() - j,
    {
        let ghost before = r@;
        let nm = owned(all[j].name.as_str());
        r.push(nm);
        proof {
            lemma_strs_push(before, nm);
            assert(concept_names(concept_views(all@)).take(j + 1) =~= concept_names(
                concept_views(all@),
            ).take(j as int).push(all@[j as int].name@));
        }
        j = j + 1;
    }
    assert(concept_names(concept_views(all@)).take(all.len() as int) =~= concept_names(
        concept_views(all@),
    ));
    r
}

/// The node of the concept `x`.
fn node_for(
    x: &str,
    all: &[Concept],
    scans: &Scans,
    pages: &Vec<Page>,
    Ghost(pcs): Ghost<Seq<Option<Seq<char>>>>,
) -> (r: ConceptNode)
    requires
        scans_of(*scans, pages@, pcs, concept_views(all@)),
    ensures
        r.name@ == x@,
        strictly_sorted(strs(r.source_files@)),
        forall|f: Seq<char>|
            strs(r.source_files@).contains(f) <==> defines(concept_views(all@), x@, f),
        strictly_sorted(strs(r.pages@)),
        forall|rt: Seq<char>|
            strs(r.pages@).contains(rt) <==> found_on_route(
                pages@,
                pcs,
                concept_views(all@),
                rt,
                x@,
            ),
{
    let ghost cs = concept_views(all@);
    let mut files: Vec<String> = Vec::new();
    let mut j: usize = 0;
    while j < all.len()
        invariant
            j <= all@.len(),
            cs == concept_views(all@),
            forall|f: Seq<char>|
                strs(files@).contains(f) <==> exists|m: int|
                    0 <= m < j && (#[trigger] cs[m]).0 == x@ && cs[m].2 == f,
        decreases all.len() - j,
    {
        let ghost before = files@;
        if str_eq(all[j].name.as_str(), x) {
            let f = owned(all[j].source_file.as_str());
            files.push(f);
            proof {
                lemma_strs_push(before, f);
            }
        }
        proof {
            assert(cs[j as int] == crate::concepts::concept_view(all@[j as int]));
            assert forall|f: Seq<char>|
                strs(files@).contains(f) <==> exists|m: int|
                    0 <= m < j + 1 && (#[trigger] cs[m]).0 == x@ && cs[m].2 == f by {
                if files@.len() > before.len() {
                    lemma_push_contains(strs(before), all@[j as int].source_file@, f);
                }
                if exists|m: int| 0 <= m < j + 1 && (#[trigger] cs[m]).0 == x@ && cs[m].2 == f {
                    let m = choose|m: int| 0 <= m < j + 1 && (#[trigger] cs[m]).0 == x@ && cs[m].2 == f;
                    if m < j {
                        assert(strs(before).contains(f));
                    }
                }
            }
        }
        j = j + 1;
    }
    let source_files = sorted_unique(&files);
    let mut routes: Vec<String> = Vec::new();
    let mut i: usize = 0;
    while i < pages.len()
        invariant
            i <= pages@.len(),
            cs == concept_views(all@),
            scans_of(*scans, pages@, pcs, cs),
            forall|rt: Seq<char>|
                strs(routes@).contains(rt) <==> exists|m: int|
                    0 <= m < i && #[trigger] scan_finds(pages@, pcs, cs, m, x@) && pages@[m].route@
                        == rt,
        decreases pages.len() - i,
    {
        let ghost before = routes@;
        if scans.last[i] && contains_string(&scans.found[i], x) {
            let rt = owned(pages[i].route.as_str());
            routes.push(rt);
            proof {
                lemma_strs_push(before, rt);
                assert(strs(scans.found@[i as int]@).contains(x@));
                assert(scan_finds(pages@, pcs, cs, i as int, x@));
            }
        }
        proof {
            let hit = scans.last@[i as int] && strs(scans.found@[i as int]@).contains(x@);
            assert(hit == scan_finds(pages@, pcs, cs, i as int, x@));
            assert forall|rt: Seq<char>|
                strs(routes@).contains(rt) <==> exists|m: int|
                    0 <= m < i + 1 && #[trigger] scan_finds(pages@, pcs, cs, m, x@)
                        && pages@[m].route@ == rt by {
                if routes@.len() > before.len() {
                    lemma_push_contains(strs(before), pages@[i as int].route@, rt);
                }
                if exists|m: int|
                    0 <= m < i + 1 && #[trigger] scan_finds(pages@, pcs, cs, m, x@)
                        && pages@[m].route@ == rt {
                    let m = choose|m: int|
                        0 <= m < i + 1 && #[trigger] scan_finds(pages@, pcs, cs, m, x@)
                            && pages@[m].route@ == rt;
                    if m < i {
                        assert(strs(before).contains(rt));
                    }
                }
            }
        }
        i = i + 1;
    }
    let route_list = sorted_unique(&routes);
    ConceptNode { name: owned(x), source_files, pages: route_list }
}

// ---------------------------------------------------------------------------
// Orphans
// ---------------------------------------------------------------------------

/// An orphan as name, kind name and source file.
pub type OrphanView = (Seq<char>, Seq<char>, Seq<char>);

/// The view of an orphan.
pub open spec fn orphan_view(o: OrphanDetail) -> OrphanView {
    (o.name@, o.kind@, o.source_file@)
}

/// The views of orphans.
pub open spec fn orphan_views(v: Seq<OrphanDetail>) -> Seq<OrphanView> {
    v.map_values(|o: OrphanDetail| orphan_view(o))
}

/// The order of (name, source file) pairs: by name, then by file.
#[verifier::opaque]
pub open spec fn pair_lt(a: OrphanView, b: OrphanView) -> bool {
    lex_lt(a.0, b.0) || (a.0 == b.0 && lex_lt(a.2, b.2))
}

/// Whether two orphans have the same name and source file.
pub open spec fn same_pair(a: OrphanView, b: OrphanView) -> bool {
    a.0 == b.0 && a.2 == b.2
}

proof fn lemma_pair_order(a: OrphanView, b: OrphanView, c: OrphanView)
    ensures
        !pair_lt(a, a),
        pair_lt(a, b) && pair_lt(b, c) ==> pair_lt(a, c),
        same_pair(a, b) || pair_lt(a, b) || pair_lt(b, a),
        pair_lt(a, b) ==> !same_pair(a, b) && !pair_lt(b, a),
{
    reveal(pair_lt);
    lemma_lex_irreflexive(a.0);
    lemma_lex_irreflexive(a.2);
    lemma_lex_total(a.0, b.0);
    lemma_lex_total(a.2, b.2);
    if lex_lt(a.0, b.0) && lex_lt(b.0, c.0) {
        lemma_lex_transitive(a.0, b.0, c.0);
    }
    if lex_lt(a.2, b.2) && lex_lt(b.2, c.2) {
        lemma_lex_transitive(a.2, b.2, c.2);
    }
    if lex_lt(a.0, b.0) && lex_lt(b.0, a.0) {
        lemma_lex_transitive(a.0, b.0, a.0);
    }
    if lex_lt(a.2, b.2) && lex_lt(b.2, a.2) {
        lemma_lex_transitive(a.2, b.2, a.2);
    }
}

/// Whether orphan `k` is the first of `v` with its name and source file.
pub open spec fn first_of_pair(v: Seq<OrphanView>, k: int) -> bool {
    &&& 0 <= k < v.len()
    &&& forall|m: int| 0 <= m < k ==> !same_pair(#[trigger] v[m], v[k])
}

/// Whether some orphan of `rv` has the name and source file of `o`.
pub open spec fn has_pair(rv: Seq<OrphanView>, o: OrphanView) -> bool {
    exists|i: int| 0 <= i < rv.len() && same_pair(rv[i], o)
}

/// Whether `o` is, among the first `k` orphans of `v`, the first one with
/// its name and source file.
pub open spec fn first_in(v: Seq<OrphanView>, k: int, o: OrphanView) -> bool {
    exists|m: int| 0 <= m < k && first_of_pair(v, m) && v[m] == o
}

/// Whether `r` is `v` sorted by name and source file with only the first
/// orphan of each (name, source file) pair kept.
pub open spec fn dedup_of(r: Seq<OrphanView>, v: Seq<OrphanView>) -> bool {
    &&& forall|i: int, j: int| 0 <= i < j < r.len() ==> pair_lt(r[i], r[j])
    &&& forall|i: int| 0 <= i < r.len() ==> #[trigger] first_in(v, v.len() as int, r[i])
    &&& forall|m: int| 0 <= m < v.len() ==> #[trigger] has_pair(r, v[m])
}

/// `dedup_of` for the first `k` orphans of `v`.
spec fn dedup_prefix(rv: Seq<OrphanView>, v: Seq<OrphanView>, k: int) -> bool {
    &&& 0 <= k <= v.len()
    &&& forall|i: int, j: int| 0 <= i < j < rv.len() ==> pair_lt(rv[i], rv[j])
    &&& forall|i: int| 0 <= i < rv.len() ==> #[trigger] first_in(v, k, rv[i])
    &&& forall|m: int| 0 <= m < k ==> #[trigger] has_pair(rv, v[m])
}

/// Inserting the k-th orphan at its place, when no kept orphan has its pair.
#[verifier::spinoff_prover]
proof fn lemma_dedup_insert(b: Seq<OrphanView>, v: Seq<OrphanView>, k: int, pos: int)
    requires
        0 <= k < v.len(),
        dedup_prefix(b, v, k),
        0 <= pos <= b.len(),
        forall|i: int| 0 <= i < pos ==> pair_lt(#[trigger] b[i], v[k]),
        pos < b.len() ==> !pair_lt(b[pos], v[k]) && !same_pair(b[pos], v[k]),
    ensures
        first_of_pair(v, k),
        dedup_prefix(b.insert(pos, v[k]), v, k + 1),
{
    let item = v[k];
    let r = b.insert(pos, item);
    assert forall|i: int| 0 <= i < r.len() implies r[i] == (if i < pos {
        b[i]
    } else if i == pos {
        item
    } else {
        b[i - 1]
    }) by {}
    if pos < b.len() {
        lemma_pair_order(b[pos], item, item);
        lemma_pair_order(item, b[pos], item);
    }
    assert forall|m: int| 0 <= m < k implies !same_pair(#[trigger] v[m], v[k]) by {
        assert(has_pair(b, v[m]));
        let i = choose|i: int| 0 <= i < b.len() && same_pair(b[i], v[m]);
        if same_pair(v[m], v[k]) {
            assert(same_pair(b[i], item));
            lemma_pair_order(b[i], item, item);
            if i > pos {
                assert(pair_lt(b[pos], b[i]));
                lemma_pair_order(b[pos], item, item);
                lemma_pair_order(item, b[pos], b[i]);
                lemma_pair_order(item, b[i], item);
            }
        }
    }
    assert forall|i: int, j: int| 0 <= i < j < r.len() implies pair_lt(r[i], r[j]) by {
        if i < pos && j > pos {
            lemma_pair_order(b[i], item, b[j - 1]);
            if pos < b.len() {
                lemma_pair_order(item, b[pos], b[j - 1]);
                lemma_pair_order(b[i], b[pos], b[j - 1]);
            }
        } else if i == pos && j > pos {
            if j - 1 > pos {
                lemma_pair_order(item, b[pos], b[j - 1]);
            }
        }
    }
    assert forall|i: int| 0 <= i < r.len() implies #[trigger] first_in(v, k + 1, r[i]) by {
        if i == pos {
            assert(v[k] == r[i]);
        } else {
            let oi = if i < pos { i } else { i - 1 };
            assert(r[i] == b[oi]);
            assert(first_in(v, k, b[oi]));
        }
    }
    assert forall|m: int| 0 <= m < k + 1 implies #[trigger] has_pair(r, v[m]) by {
        if m == k {
            assert(same_pair(r[pos], v[m]));
        } else {
            assert(has_pair(b, v[m]));
            let i = choose|i: int| 0 <= i < b.len() && same_pair(b[i], v[m]);
            if i < pos {
                assert(r[i] == b[i]);
            } else {
                assert(r[i + 1] == b[i]);
            }
        }
    }
}

/// Skipping the k-th orphan when a kept orphan has its pair.
proof fn lemma_dedup_skip(b: Seq<OrphanView>, v: Seq<OrphanView>, k: int, pos: int)
    requires
        0 <= k < v.len(),
        dedup_prefix(b, v, k),
        0 <= pos < b.len(),
        same_pair(b[pos], v[k]),
    ensures
        dedup_prefix(b, v, k + 1),
{
    assert forall|i: int| 0 <= i < b.len() implies #[trigger] first_in(v, k + 1, b[i]) by {
        assert(first_in(v, k, b[i]));
    }
    assert forall|m: int| 0 <= m < k + 1 implies #[trigger] has_pair(b, v[m]) by {
        if m == k {
            assert(same_pair(b[pos], v[m]));
        }
    }
}

/// Sorts orphans by name and source file and keeps the first of each
/// (name, source file) pair.
pub fn dedup_orphans(orphans: Vec<OrphanDetail>) -> (r: Vec<OrphanDetail>)
    ensures
        dedup_of(orphan_views(r@), orphan_views(orphans@)),
{
    let ghost v = orphan_views(orphans@);
    let mut r: Vec<OrphanDetail> = Vec::new();
    let mut k: usize = 0;
    assert(orphan_views(r@) =~= Seq::<OrphanView>::empty());
    while k < orphans.len()
        invariant
            k <= orphans@.len(),
            v == orphan_views(orphans@),
            dedup_prefix(orphan_views(r@), v, k as int),
        decreases orphans.len() - k,
    {
        let item_name = chars_of(orphans[k].name.as_str());
        let item_file = chars_of(orphans[k].source_file.as_str());
        let ghost item = v[k as int];
        let ghost rv = orphan_views(r@);
        assert(item == orphan_view(orphans@[k as int]));
        let mut pos: usize = 0;
        loop
            invariant
                pos <= r@.len(),
                rv == orphan_views(r@),
                item_name@ == item.0,
                item_file@ == item.2,
                forall|i: int| 0 <= i < pos ==> pair_lt(#[trigger] rv[i], item),
            ensures
                pos <= r@.len(),
                forall|i: int| 0 <= i < pos ==> pair_lt(#[trigger] rv[i], item),
                pos < r@.len() ==> !pair_lt(rv[pos as int], item),
            decreases r@.len() - pos,
        {
            if pos >= r.len() {
                break;
            }
            let n = chars_of(r[pos].name.as_str());
            let f = chars_of(r[pos].source_file.as_str());
            assert(rv[pos as int] == orphan_view(r@[pos as int]));
            let less = less_chars(&n, &item_name) || (crate::text::chars_eq(&n, &item_name)
                && less_chars(&f, &item_file));
            assert(less == pair_lt(rv[pos as int], item)) by {
                reveal(pair_lt);
            }
            if less {
                pos = pos + 1;
            } else {
                break;
            }
        }
        let dup = pos < r.len() && str_eq(r[pos].name.as_str(), orphans[k].name.as_str())
            && str_eq(r[pos].source_file.as_str(), orphans[k].source_file.as_str());
        proof {
            if pos < r@.len() {
                assert(rv[pos as int] == orphan_view(r@[pos as int]));
            }
        }
        if !dup {
            let o = OrphanDetail {
                name: owned(orphans[k].name.as_str()),
                kind: owned(orphans[k].kind.as_str()),
                source_file: owned(orphans[k].source_file.as_str()),
            };
            r.insert(pos, o);
            proof {
                lemma_dedup_insert(rv, v, k as int, pos as int);
                assert(orphan_views(r@) =~= rv.insert(pos as int, item));
            }
        } else {
            proof {
                assert(same_pair(rv[pos as int], v[k as int]));
                lemma_dedup_skip(rv, v, k as int, pos as int);
            }
        }
        k = k + 1;
    }
    r
}

// ---------------------------------------------------------------------------
// Thin coverage
// ---------------------------------------------------------------------------

/// Whether the concept `x` of the file `path` is missing from the page with
/// the given route.
pub open spec fn missing_from(
    pages: Seq<Page>,
    pcs: Seq<Option<Seq<char>>>,
    cs: Seq<ConceptView>,
    route: Seq<char>,
    path: Seq<char>,
    x: Seq<char>,
) -> bool {
    defines(cs, x, path) && !found_on_route(pages, pcs, cs, route, x)
}

/// Whether the page of a source entry misses some concept of its file.
pub open spec fn is_thin(
    pages: Seq<Page>,
    pcs: Seq<Option<Seq<char>>>,
    cs: Seq<ConceptView>,
    e: SourceEntry,
) -> bool {
    exists|x: Seq<char>| #[trigger] missing_from(pages, pcs, cs, e.1, e.0, x)
}

/// The source entries whose page misses some concept of the file, in order.
pub open spec fn thin_entries(
    es: Seq<SourceEntry>,
    pages: Seq<Page>,
    pcs: Seq<Option<Seq<char>>>,
    cs: Seq<ConceptView>,
) -> Seq<SourceEntry>
    decreases es.len(),
{
    if es.len() == 0 {
        Seq::empty()
    } else {
        let prev = thin_entries(es.drop_last(), pages, pcs, cs);
        if is_thin(pages, pcs, cs, es.last()) {
            prev.push(es.last())
        } else {
            prev
        }
    }
}

/// The view of a thin coverage entry: route, source file, missing concepts.
pub open spec fn thin_view(t: ThinCoverage) -> (Seq<char>, Seq<char>, Seq<Seq<char>>) {
    (t.route@, t.source_file@, strs(t.missing_concepts@))
}

/// Whether `r` lists, for each source entry of each page in order whose
/// page misses concepts of the file, the route, the file and the missing
/// concept names in increasing order.
pub open spec fn thin_of(
    r: Seq<(Seq<char>, Seq<char>, Seq<Seq<char>>)>,
    pages: Seq<Page>,
    pcs: Seq<Option<Seq<char>>>,
    cs: Seq<ConceptView>,
) -> bool {
    let te = thin_entries(source_entries(pages), pages, pcs, cs);
    &&& r.len() == te.len()
    &&& forall|k: int|
        0 <= k < r.len() ==> {
            &&& (#[trigger] r[k]).0 == te[k].1
            &&& r[k].1 == te[k].0
            &&& strictly_sorted(r[k].2)
            &&& forall|x: Seq<char>| r[k].2.contains(x) <==> missing_from(pages, pcs, cs, r[k].0, r[k].1, x)
        }
}

/// The concepts of the file `path` that the page with route `route` does
/// not mention, each once, in increasing order.
fn missing_concepts_of(
    all: &[Concept],
    scans: &Scans,
    pages: &Vec<Page>,
    route: &str,
    path: &str,
    Ghost(pcs): Ghost<Seq<Option<Seq<char>>>>,
) -> (r: Vec<String>)
    requires
        scans_of(*scans, pages@, pcs, concept_views(all@)),
    ensures
        strictly_sorted(strs(r@)),
        forall|x: Seq<char>|
            strs(r@).contains(x) <==> missing_from(
                pages@,
                pcs,
                concept_views(all@),
                route@,
                path@,
                x,
            ),
{
    let ghost cs = concept_views(all@);
    let mut names: Vec<String> = Vec::new();
    let mut j: usize = 0;
    while j < all.len()
        invariant
            j <= all@.len(),
            cs == concept_views(all@),
            scans_of(*scans, pages@, pcs, cs),
            forall|x: Seq<char>|
                strs(names@).contains(x) <==> (exists|m: int|
                    0 <= m < j && (#[trigger] cs[m]).0 == x && cs[m].2 == path@)
                    && !found_on_route(pages@, pcs, cs, route@, x),
        decreases all.len() - j,
    {
        let ghost before = names@;
        assert(cs[j as int] == crate::concepts::concept_view(all@[j as int]));
        let take = str_eq(all[j].source_file.as_str(), path) && !route_finds(
            scans,
            pages,
            route,
            all[j].name.as_str(),
            Ghost(pcs),
            Ghost(cs),
        );
        if take {
            let nm = owned(all[j].name.as_str());
            names.push(nm);
            proof {
                lemma_strs_push(before, nm);
            }
        }
        proof {
            assert forall|x: Seq<char>|
                strs(names@).contains(x) <==> (exists|m: int|
                    0 <= m < j + 1 && (#[trigger] cs[m]).0 == x && cs[m].2 == path@)
                    && !found_on_route(pages@, pcs, cs, route@, x) by {
                if take {
                    lemma_push_contains(strs(before), all@[j as int].name@, x);
                }
                if exists|m: int| 0 <= m < j + 1 && (#[trigger] cs[m]).0 == x && cs[m].2 == path@ {
                    let m = choose|m: int|
                        0 <= m < j + 1 && (#[trigger] cs[m]).0 == x && cs[m].2 == path@;
                    if m < j {
                        assert(exists|m: int| 0 <= m < j && (#[trigger] cs[m]).0 == x && cs[m].2 == path@);
                    }
                }
            }
        }
        j = j + 1;
    }
    sorted_unique(&names)
}

/// The thin coverage entries of the pages.
fn find_thin_coverage(
    all: &[Concept],
    scans: &Scans,
    pages: &Vec<Page>,
    Ghost(pcs): Ghost<Seq<Option<Seq<char>>>>,
) -> (r: Vec<ThinCoverage>)
    requires
        scans_of(*scans, pages@, pcs, concept_views(all@)),
    ensures
        thin_of(r@.map_values(|t: ThinCoverage| thin_view(t)), pages@, pcs, concept_views(all@)),
{
    let ghost cs = concept_views(all@);
    let es = source_entries_of(pages);
    let ghost ev = pair_views(es@);
    let mut r: Vec<ThinCoverage> = Vec::new();
    let mut k: usize = 0;
    while k < es.len()
        invariant
            k <= es@.len(),
            cs == concept_views(all@),
            scans_of(*scans, pages@, pcs, cs),
            ev == pair_views(es@),
            ev == source_entries(pages@),
            ({
                let te = thin_entries(ev.take(k as int), pages@, pcs, cs);
                let rv = r@.map_values(|t: ThinCoverage| thin_view(t));
                &&& rv.len() == te.len()
                &&& forall|m: int|
                    0 <= m < rv.len() ==> {
                        &&& (#[trigger] rv[m]).0 == te[m].1
                        &&& rv[m].1 == te[m].0
                        &&& strictly_sorted(rv[m].2)
                        &&& forall|x: Seq<char>|
                            rv[m].2.contains(x) <==> missing_from(pages@, pcs, cs, rv[m].0, rv[m].1, x)
                    }
            }),
        decreases es.len() - k,
    {
        let missing = missing_concepts_of(
            all,
            scans,
            pages,
            es[k].1.as_str(),
            es[k].0.as_str(),
            Ghost(pcs),
        );
        let ghost e = ev[k as int];
        assert(e == (es@[k as int].0@, es@[k as int].1@));
        assert(ev.take(k + 1).drop_last() =~= ev.take(k as int));
        let ghost before = r@;
        if missing.len() > 0 {
            proof {
                assert(strs(missing@).contains(strs(missing@)[0]));
                assert(missing_from(pages@, pcs, cs, e.1, e.0, strs(missing@)[0]));
                assert(is_thin(pages@, pcs, cs, e));
            }
            r.push(
                ThinCoverage {
                    route: owned(es[k].1.as_str()),
                    source_file: owned(es[k].0.as_str()),
                    missing_concepts: missing,
                },
            );
            assert(r@.map_values(|t: ThinCoverage| thin_view(t)) =~= before.map_values(
                |t: ThinCoverage| thin_view(t),
            ).push(thin_view(r@[before.len() as int])));
        } else {
            proof {
                if is_thin(pages@, pcs, cs, e) {
                    let x = choose|x: Seq<char>| #[trigger] missing_from(pages@, pcs, cs, e.1, e.0, x);
                    assert(strs(missing@).contains(x));
                }
            }
        }
        k = k + 1;
    }
    assert(ev.take(es.len() as int) =~= ev);
    r
}

// ---------------------------------------------------------------------------
// Stale siblings
// ---------------------------------------------------------------------------

/// The revision at which a page was verified, if it was.
pub open spec fn verified_sha(p: Page) -> Option<Seq<char>> {
    match p.verified_at {
        Some(v) => Some(v.sha@),
        None => None,
    }
}

/// The revision of the last page with the given route, if it was verified.
pub open spec fn route_sha(pages: Seq<Page>, route: Seq<char>) -> Option<Seq<char>>
    decreases pages.len(),
{
    if pages.len() == 0 {
        None
    } else if pages.last().route@ == route {
        verified_sha(pages.last())
    } else {
        route_sha(pages.drop_last(), route)
    }
}

/// Each route with the revision of its page.
pub open spec fn shas_of(pages: Seq<Page>, routes: Seq<Seq<char>>) -> Seq<
    (Seq<char>, Option<Seq<char>>),
> {
    routes.map_values(|r: Seq<char>| (r, route_sha(pages, r)))
}

/// Whether the pages were verified at more than one revision (or some at
/// none and some at one).
pub open spec fn mixed(v: Seq<(Seq<char>, Option<Seq<char>>)>) -> bool {
    exists|i: int, j: int| 0 <= i < v.len() && 0 <= j < v.len() && v[i].1 != v[j].1
}

/// The stale siblings of the nodes, in node order: the concepts that two or
/// more pages mention, when those pages were verified at different revisions.
pub open spec fn stale_of(
    ns: Seq<(Seq<char>, Seq<Seq<char>>, Seq<Seq<char>>)>,
    pages: Seq<Page>,
) -> Seq<(Seq<char>, Seq<(Seq<char>, Option<Seq<char>>)>)>
    decreases ns.len(),
{
    if ns.len() == 0 {
        Seq::empty()
    } else {
        let prev = stale_of(ns.drop_last(), pages);
        let n = ns.last();
        if n.2.len() >= 2 && mixed(shas_of(pages, n.2)) {
            prev.push((n.0, shas_of(pages, n.2)))
        } else {
            prev
        }
    }
}

/// The view of a stale sibling.
pub open spec fn stale_view(s: StaleSibling) -> (Seq<char>, Seq<(Seq<char>, Option<Seq<char>>)>) {
    (
        s.concept@,
        s.pages@.map_values(|p: (String, Option<String>)| (p.0@, opt_string_view(p.1))),
    )
}

/// The revision of the last page with the given route.
fn sha_for_route(pages: &Vec<Page>, route: &str) -> (r: Option<String>)
    ensures
        opt_string_view(r) == route_sha(pages@, route@),
{
    let mut i: usize = pages.len();
    assert(pages@.take(pages@.len() as int) =~= pages@);
    while i > 0
        invariant
            i <= pages@.len(),
            route_sha(pages@, route@) == route_sha(pages@.take(i as int), route@),
        decreases i,
    {
        assert(pages@.take(i as int).drop_last() =~= pages@.take(i - 1));
        assert(pages@.take(i as int).last() == pages@[i - 1]);
        if str_eq(pages[i - 1].route.as_str(), route) {
            return match &pages[i - 1].verified_at {
                Some(v) => Some(owned(v.sha.as_str())),
                None => None,
            };
        }
        i = i - 1;
    }
    None
}

/// The stale siblings of the nodes.
fn find_stale_siblings(nodes: &Vec<ConceptNode>, pages: &Vec<Page>) -> (r: Vec<StaleSibling>)
    ensures
        r@.map_values(|s: StaleSibling| stale_view(s)) == stale_of(
            nodes@.map_values(|n: ConceptNode| node_view(n)),
            pages@,
        ),
{
    let ghost nv = nodes@.map_values(|n: ConceptNode| node_view(n));
    let mut r: Vec<StaleSibling> = Vec::new();
    let mut k: usize = 0;
    assert(pages@.take(pages@.len() as int) =~= pages@);
    while k < nodes.len()
        invariant
            k <= nodes@.len(),
            nv == nodes@.map_values(|n: ConceptNode| node_view(n)),
            r@.map_values(|s: StaleSibling| stale_view(s)) == stale_of(nv.take(k as int), pages@),
        decreases nodes.len() - k,
    {
        assert(nv.take(k + 1).drop_last() =~= nv.take(k as int));
        let node = &nodes[k];
        let ghost routes = strs(node.pages@);
        assert(nv[k as int] == node_view(*node));
        if node.pages.len() >= 2 {
            let mut pairs: Vec<(String, Option<String>)> = Vec::new();
            let mut differs = false;
            let mut i: usize = 0;
            while i < node.pages.len()
                invariant
                    i <= node.pages@.len(),
                    pairs@.len() == i,
                    i == 0 ==> !differs,
                    routes == strs(node.pages@),
                    node.pages@.len() >= 2,
                    pairs@.map_values(|p: (String, Option<String>)| (p.0@, opt_string_view(p.1)))
                        == shas_of(pages@, routes).take(i as int),
                    i > 0 ==> (differs <==> exists|a: int, b: int|
                        0 <= a < i && 0 <= b < i && shas_of(pages@, routes)[a].1 != shas_of(
                            pages@,
                            routes,
                        )[b].1),
                decreases node.pages.len() - i,
            {
                let sha = sha_for_route(pages, node.pages[i].as_str());
                let ghost sv = shas_of(pages@, routes);
                let ghost pv = pairs@.map_values(
                    |p: (String, Option<String>)| (p.0@, opt_string_view(p.1)),
                );
                assert(routes[i as int] == node.pages@[i as int]@);
                assert(sv[i as int] == (routes[i as int], route_sha(pages@, routes[i as int])));
                assert(opt_string_view(sha) == sv[i as int].1);
                if i > 0 {
                    assert(pv[0] == (pairs@[0].0@, opt_string_view(pairs@[0].1)));
                    assert(pv[0] == sv.take(i as int)[0]);
                    let same = match (&pairs[0].1, &sha) {
                        (None, None) => true,
                        (Some(a), Some(b)) => str_eq(a.as_str(), b.as_str()),
                        _ => false,
                    };
                    proof {
                        assert(sv.take(i as int)[0] == sv[0]);
                        assert(same == (sv[0].1 == sv[i as int].1));
                    }
                    if !same {
                        differs = true;
                    }
                    proof {
                        if differs {
                            if !same {
                                assert(sv[0].1 != sv[i as int].1);
                            } else {
                                let (a, b) = choose|a: int, b: int|
                                    0 <= a < i && 0 <= b < i && sv[a].1 != sv[b].1;
                            }
                        } else {
                            assert forall|a: int, b: int|
                                0 <= a < i + 1 && 0 <= b < i + 1 implies sv[a].1 == sv[b].1 by {
                                if a < i {
                                    assert(sv[a].1 == sv[0].1);
                                }
                                if b < i {
                                    assert(sv[b].1 == sv[0].1);
                                }
                            }
                        }
                    }
                } else {
                    assert(!differs);
                    assert forall|a: int, b: int| 0 <= a < 1 && 0 <= b < 1 implies sv[a].1 == sv[b].1 by {}
                }
                let ghost before = pairs@;
                pairs.push((owned(node.pages[i].as_str()), sha));
                assert(pairs@.map_values(|p: (String, Option<String>)| (p.0@, opt_string_view(p.1)))
                    =~= sv.take(i + 1));
                i = i + 1;
            }
            let ghost sv = shas_of(pages@, routes);
            assert(sv.take(node.pages@.len() as int) =~= sv);
            assert(differs == mixed(sv)) by {
                if mixed(sv) {
                    let (a, b) = choose|a: int, b: int| 0 <= a < sv.len() && 0 <= b < sv.len() && sv[a].1 != sv[b].1;
                }
            }
            if differs {
                let ghost before = r@;
                r.push(StaleSibling { concept: owned(node.name.as_str()), pages: pairs });
                assert(r@.map_values(|s: StaleSibling| stale_view(s)) =~= before.map_values(
                    |s: StaleSibling| stale_view(s),
                ).push(stale_view(r@[before.len() as int])));
            }
        }
        k = k + 1;
    }
    assert(nv.take(nodes.len() as int) =~= nv);
    r
}

// ---------------------------------------------------------------------------
// The graph
// ---------------------------------------------------------------------------

/// The concepts of `pref` that no page mentions, in order, as name, kind
/// name and source file (`cs` is the whole concept list).
pub open spec fn orphan_candidates(
    pref: Seq<ConceptView>,
    pages: Seq<Page>,
    pcs: Seq<Option<Seq<char>>>,
    cs: Seq<ConceptView>,
) -> Seq<OrphanView>
    decreases pref.len(),
{
    if pref.len() == 0 {
        Seq::empty()
    } else {
        let prev = orphan_candidates(pref.drop_last(), pages, pcs, cs);
        let c = pref.last();
        if on_a_page(pages, pcs, cs, c.0) {
            prev
        } else {
            prev.push((c.0, kind_name(c.1), c.2))
        }
    }
}

/// Whether `g` is the concept graph of the pages (`pcs[i]` is the content
/// of the i-th page's file, `None` where it has none or it could not be
/// read) and the concepts `cs`.
pub open spec fn graph_of(
    g: ConceptGraph,
    pages: Seq<Page>,
    pcs: Seq<Option<Seq<char>>>,
    cs: Seq<ConceptView>,
) -> bool {
    let nv = g.nodes@.map_values(|n: ConceptNode| node_view(n));
    &&& nodes_of(nv, pages, pcs, cs)
    &&& dedup_of(orphan_views(g.orphans@), orphan_candidates(cs, pages, pcs, cs))
    &&& thin_of(g.thin_coverage@.map_values(|t: ThinCoverage| thin_view(t)), pages, pcs, cs)
    &&& g.stale_siblings@.map_values(|s: StaleSibling| stale_view(s)) == stale_of(nv, pages)
    &&& g.stats.total_concepts == g.nodes@.len()
    &&& g.stats.total_pages == pages.len()
    &&& g.stats.orphan_count == g.orphans@.len()
    &&& g.stats.thin_coverage_count == g.thin_coverage@.len()
    &&& g.stats.stale_sibling_count == g.stale_siblings@.len()
}

/// The concept graph of the manifest's pages from the concepts of the source
/// files: a node per concept name, the concepts that no page mentions, the
/// pages that miss concepts of the files they map, and the concepts shared
/// by pages verified at different revisions.  `page_contents[i]` is the
/// content of the i-th page's file, `None` where it has none or it could not
/// be read.
pub fn build_graph_from_concepts(
    manifest: &crate::manifest::Manifest,
    all_concepts: &[Concept],
    page_contents: &[Option<String>],
) -> (g: ConceptGraph)
    requires
        page_contents@.len() == manifest.pages@.len(),
    ensures
        graph_of(g, manifest.pages@, contents_view(page_contents@), concept_views(all_concepts@)),
{
    let pages = &manifest.pages;
    let ghost pcs = contents_view(page_contents@);
    let ghost cs = concept_views(all_concepts@);
    let scans = scan_pages_for(pages, page_contents, all_concepts);
    let all_names = names_of(all_concepts);
    let names = sorted_unique(&all_names);
    let mut nodes: Vec<ConceptNode> = Vec::new();
    let mut k: usize = 0;
    while k < names.len()
        invariant
            k <= names@.len(),
            cs == concept_views(all_concepts@),
            scans_of(scans, pages@, pcs, cs),
            strictly_sorted(strs(names@)),
            nodes@.len() == k,
            forall|m: int| 0 <= m < k ==> (#[trigger] nodes@[m]).name@ == names@[m]@,
            forall|m: int|
                0 <= m < k ==> {
                    &&& strictly_sorted(strs((#[trigger] nodes@[m]).source_files@))
                    &&& forall|f: Seq<char>|
                        strs(nodes@[m].source_files@).contains(f) <==> defines(cs, nodes@[m].name@, f)
                    &&& strictly_sorted(strs(nodes@[m].pages@))
                    &&& forall|rt: Seq<char>|
                        strs(nodes@[m].pages@).contains(rt) <==> found_on_route(
                            pages@,
                            pcs,
                            cs,
                            rt,
                            nodes@[m].name@,
                        )
                },
        decreases names.len() - k,
    {
        let node = node_for(names[k].as_str(), all_concepts, &scans, pages, Ghost(pcs));
        nodes.push(node);
        k = k + 1;
    }
    proof {
        let nv = nodes@.map_values(|n: ConceptNode| node_view(n));
        let nn = nv.map_values(|n: (Seq<char>, Seq<Seq<char>>, Seq<Seq<char>>)| n.0);
        assert(nn =~= strs(names@));
        assert forall|m: int| 0 <= m < nv.len() implies {
            &&& strictly_sorted((#[trigger] nv[m]).1)
            &&& forall|f: Seq<char>| nv[m].1.contains(f) <==> defines(cs, nv[m].0, f)
            &&& strictly_sorted(nv[m].2)
            &&& forall|rt: Seq<char>| nv[m].2.contains(rt) <==> found_on_route(pages@, pcs, cs, rt, nv[m].0)
        } by {
            assert(nv[m] == node_view(nodes@[m]));
        }
        assert forall|x: Seq<char>| nn.contains(x) <==> concept_names(cs).contains(x) by {
            assert(strs(all_names@) == concept_names(cs));
        }
    }
    let mut candidates: Vec<OrphanDetail> = Vec::new();
    let mut j: usize = 0;
    while j < all_concepts.len()
        invariant
            j <= all_concepts@.len(),
            cs == concept_views(all_concepts@),
            scans_of(scans, pages@, pcs, cs),
            orphan_views(candidates@) == orphan_candidates(cs.take(j as int), pages@, pcs, cs),
        decreases all_concepts.len() - j,
    {
        assert(cs.take(j + 1).drop_last() =~= cs.take(j as int));
        assert(cs.take(j + 1).last() == crate::concepts::concept_view(all_concepts@[j as int]));
        if !on_some_page(&scans, all_concepts[j].name.as_str(), Ghost(pages@), Ghost(pcs), Ghost(cs)) {
            let ghost before = candidates@;
            candidates.push(
                OrphanDetail {
                    name: owned(all_concepts[j].name.as_str()),
                    kind: all_concepts[j].kind.to_string(),
                    source_file: owned(all_concepts[j].source_file.as_str()),
                },
            );
            assert(orphan_views(candidates@) =~= orphan_views(before).push(
                orphan_view(candidates@[before.len() as int]),
            ));
        }
        j = j + 1;
    }
    assert(cs.take(all_concepts.len() as int) =~= cs);
    let orphans = dedup_orphans(candidates);
    let thin_coverage = find_thin_coverage(all_concepts, &scans, pages, Ghost(pcs));
    let stale_siblings = find_stale_siblings(&nodes, pages);
    let stats = GraphStats {
        total_concepts: nodes.len(),
        total_pages: pages.len(),
        orphan_count: orphans.len(),
        thin_coverage_count: thin_coverage.len(),
        stale_sibling_count: stale_siblings.len(),
    };
    ConceptGraph { nodes, orphans, thin_coverage, stale_siblings, stats }
}

/// The concept graph of the manifest's pages and the concepts of the
/// scanned source files (`file_contents[i]` is the content of
/// `source_files[i]`, `None` where it could not be read).
pub fn build_graph(
    manifest: &crate::manifest::Manifest,
    source_files: &[String],
    file_contents: &[Option<String>],
    page_contents: &[Option<String>],
) -> (g: ConceptGraph)
    requires
        source_files@.len() == file_contents@.len(),
        page_contents@.len() == manifest.pages@.len(),
    ensures
        graph_of(
            g,
            manifest.pages@,
            contents_view(page_contents@),
            all_file_concepts(strs(source_files@), contents_view(file_contents@)),
        ),
{
    let all = extract_all_concepts(source_files, file_contents);
    build_graph_from_concepts(manifest, all.as_slice(), page_contents)
}

// ---------------------------------------------------------------------------
// Laws
// ---------------------------------------------------------------------------

proof fn lemma_candidates_unmentioned(
    pref: Seq<ConceptView>,
    pages: Seq<Page>,
    pcs: Seq<Option<Seq<char>>>,
    cs: Seq<ConceptView>,
)
    ensures
        forall|m: int|
            0 <= m < orphan_candidates(pref, pages, pcs, cs).len() ==> !on_a_page(
                pages,
                pcs,
                cs,
                (#[trigger] orphan_candidates(pref, pages, pcs, cs)[m]).0,
            ),
    decreases pref.len(),
{
    if pref.len() > 0 {
        lemma_candidates_unmentioned(pref.drop_last(), pages, pcs, cs);
        let prev = orphan_candidates(pref.drop_last(), pages, pcs, cs);
        assert forall|m: int|
            0 <= m < orphan_candidates(pref, pages, pcs, cs).len() implies !on_a_page(
            pages,
            pcs,
            cs,
            (#[trigger] orphan_candidates(pref, pages, pcs, cs)[m]).0,
        ) by {
            if m < prev.len() {
                assert(orphan_candidates(pref, pages, pcs, cs)[m] == prev[m]);
            }
        }
    }
}

/// The concepts that the graph lists as orphans are mentioned by no page:
/// their nodes have no pages.
pub proof fn law_orphans_have_no_pages(
    g: ConceptGraph,
    pages: Seq<Page>,
    pcs: Seq<Option<Seq<char>>>,
    cs: Seq<ConceptView>,
)
    requires
        graph_of(g, pages, pcs, cs),
    ensures
        forall|i: int, k: int|
            0 <= i < g.orphans@.len() && 0 <= k < g.nodes@.len() && (#[trigger] g.nodes@[k]).name@
                == (#[trigger] g.orphans@[i]).name@ ==> g.nodes@[k].pages@.len() == 0,
{
    let v = orphan_candidates(cs, pages, pcs, cs);
    let ov = orphan_views(g.orphans@);
    let nv = g.nodes@.map_values(|n: ConceptNode| node_view(n));
    lemma_candidates_unmentioned(cs, pages, pcs, cs);
    assert forall|i: int, k: int|
        0 <= i < g.orphans@.len() && 0 <= k < g.nodes@.len() && (#[trigger] g.nodes@[k]).name@
            == (#[trigger] g.orphans@[i]).name@ implies g.nodes@[k].pages@.len() == 0 by {
        assert(ov[i] == orphan_view(g.orphans@[i]));
        assert(first_in(v, v.len() as int, ov[i]));
        let m = choose|m: int| 0 <= m < v.len() && first_of_pair(v, m) && v[m] == ov[i];
        assert(!on_a_page(pages, pcs, cs, v[m].0));
        assert(nv[k] == node_view(g.nodes@[k]));
        if g.nodes@[k].pages@.len() > 0 {
            let rt = g.nodes@[k].pages@[0]@;
            assert(strs(g.nodes@[k].pages@)[0] == rt);
            assert(nv[k].2.contains(rt));
            assert(found_on_route(pages, pcs, cs, rt, nv[k].0));
            let j = choose|j: int| #[trigger] scan_finds(pages, pcs, cs, j, nv[k].0) && pages[j].route@ == rt;
            assert(on_a_page(pages, pcs, cs, v[m].0));
        }
    }
}

/// Every page of a node is the route of a page of the manifest whose content
/// mentions the concept.
pub proof fn law_node_pages_mention(
    g: ConceptGraph,
    pages: Seq<Page>,
    pcs: Seq<Option<Seq<char>>>,
    cs: Seq<ConceptView>,
    k: int,
    rt: Seq<char>,
)
    requires
        graph_of(g, pages, pcs, cs),
        0 <= k < g.nodes@.len(),
        strs(g.nodes@[k].pages@).contains(rt),
    ensures
        exists|i: int|
            0 <= i < pages.len() && pages[i].route@ == rt && #[trigger] mentioned_in(
                pcs[i],
                g.nodes@[k].name@,
            ),
{
    let nv = g.nodes@.map_values(|n: ConceptNode| node_view(n));
    assert(nv[k] == node_view(g.nodes@[k]));
    assert(found_on_route(pages, pcs, cs, rt, nv[k].0));
    let j = choose|j: int| #[trigger] scan_finds(pages, pcs, cs, j, nv[k].0) && pages[j].route@ == rt;
    assert(mentioned_in(pcs[j], g.nodes@[k].name@));
}

} // verus!
