//! Auditing pages for staleness: deciding each page's new status from what
//! git reports about its sources, and warning about pages related to stale
//! ones.
use vstd::prelude::*;
use crate::git::LogEntry;
use crate::manifest::{Manifest, Page, Source, Status};
use crate::text::{contains_string, owned, str_eq, strs};

verus! {

/// The outcome of auditing one page.
pub struct AuditResult {
    pub route: String,
    pub title: String,
    pub old_status: Status,
    pub new_status: Status,
    pub changed_sources: Vec<String>,
    pub log_entries: Vec<LogEntry>,
    pub error: Option<String>,
}

/// The outcome of auditing a manifest.
pub struct AuditSummary {
    pub results: Vec<AuditResult>,
    pub related_warnings: Vec<RelatedWarning>,
}

/// A page to review because a page that lists it among its related pages
/// went stale: the page to review and the stale page.
pub struct RelatedWarning {
    pub route: String,
    pub stale_dependency: String,
}

/// What git reported about the sources of one page since its verification:
/// the changed files, or the failure to compare, and the commits that touched
/// the sources (empty when git could not list them).
pub struct PageCheck {
    pub changed: Result<Vec<String>, String>,
    pub log: Vec<LogEntry>,
}

/// Whether the audit of the page consults git: the page was verified, has a
/// file, and lists sources.
pub open spec fn needs_check(page: Page) -> bool {
    page.verified_at is Some && page.file is Some && page.sources@.len() > 0
}

/// Whether the audit of the page consults git.
pub fn needs_git_check(page: &Page) -> (r: bool)
    ensures
        r == needs_check(*page),
{
    page.verified_at.is_some() && page.file.is_some() && page.sources.len() > 0
}

/// The new status of an audited page.
pub open spec fn audited_status(page: Page, check: PageCheck) -> Status {
    if page.verified_at is None {
        page.status
    } else if page.file is None {
        Status::Missing
    } else if page.sources@.len() == 0 {
        page.status
    } else {
        match check.changed {
            Err(_) => Status::Unverified,
            Ok(files) => if files@.len() == 0 {
                Status::Current
            } else {
                Status::Stale
            },
        }
    }
}

/// The result of auditing `page` given what git reported.  A page that was
/// never verified keeps its status; a verified page without a file is
/// missing; a page without sources keeps its status; otherwise the page is
/// unverified when git failed, current when no source changed, and stale,
/// with the changed files and the commits, when some did.
pub open spec fn audit_outcome(page: Page, check: PageCheck, r: AuditResult) -> bool {
    &&& r.route@ == page.route@
    &&& r.title@ == page.title@
    &&& r.old_status == page.status
    &&& r.new_status == audited_status(page, check)
    &&& if needs_check(page) {
        match check.changed {
            Err(e) => r.changed_sources@.len() == 0 && r.log_entries@.len() == 0 && r.error
                == Some(e),
            Ok(files) => if files@.len() == 0 {
                r.changed_sources@.len() == 0 && r.log_entries@.len() == 0 && r.error is None
            } else {
                r.changed_sources@ == files@ && r.log_entries@ == check.log@ && r.error is None
            },
        }
    } else {
        r.changed_sources@.len() == 0 && r.log_entries@.len() == 0 && r.error is None
    }
}

/// Audits one page given what git reported about its sources; the report is
/// ignored unless the page needs it.
pub fn audit_page(page: &Page, check: PageCheck) -> (r: AuditResult)
    ensures
        audit_outcome(*page, check, r),
{
    let route = page.route.clone();
    let title = page.title.clone();
    let old_status = page.status;
    if page.verified_at.is_none() || page.sources.len() == 0 && page.file.is_some() {
        return AuditResult {
            route,
            title,
            old_status,
            new_status: old_status,
            changed_sources: Vec::new(),
            log_entries: Vec::new(),
            error: None,
        };
    }
    if page.file.is_none() {
        return AuditResult {
            route,
            title,
            old_status,
            new_status: Status::Missing,
            changed_sources: Vec::new(),
            log_entries: Vec::new(),
            error: None,
        };
    }
    match check.changed {
        Err(e) => AuditResult {
            route,
            title,
            old_status,
            new_status: Status::Unverified,
            changed_sources: Vec::new(),
            log_entries: Vec::new(),
            error: Some(e),
        },
        Ok(files) => {
            if files.len() == 0 {
                AuditResult {
                    route,
                    title,
                    old_status,
                    new_status: Status::Current,
                    changed_sources: Vec::new(),
                    log_entries: Vec::new(),
                    error: None,
                }
            } else {
                AuditResult {
                    route,
                    title,
                    old_status,
                    new_status: Status::Stale,
                    changed_sources: files,
                    log_entries: check.log,
                    error: None,
                }
            }
        },
    }
}

/// Whether the page is selected by the tag filter.
pub open spec fn tag_selected(page: Page, tag: Option<Seq<char>>) -> bool {
    match tag {
        None => true,
        Some(t) => strs(page.tags@).contains(t),
    }
}

/// Whether the page is selected by the tag filter.
pub fn is_selected(page: &Page, tag_filter: Option<&str>) -> (r: bool)
    ensures
        r == tag_selected(*page, opt_view(tag_filter)),
{
    match tag_filter {
        None => true,
        Some(t) => contains_string(&page.tags, t),
    }
}

/// The characters of an optional string slice.
pub open spec fn opt_view(o: Option<&str>) -> Option<Seq<char>> {
    match o {
        None => None,
        Some(s) => Some(s@),
    }
}

/// The indices of the pages that the tag filter selects, in order.
pub open spec fn selected_indices(pages: Seq<Page>, tag: Option<Seq<char>>) -> Seq<int>
    decreases pages.len(),
{
    if pages.len() == 0 {
        Seq::empty()
    } else {
        let prev = selected_indices(pages.drop_last(), tag);
        if tag_selected(pages.last(), tag) {
            prev.push(pages.len() - 1)
        } else {
            prev
        }
    }
}

/// Whether some audit result with the given route is stale.
pub open spec fn is_stale_route(results: Seq<AuditResult>, route: Seq<char>) -> bool {
    exists|k: int|
        0 <= k < results.len() && results[k].new_status == Status::Stale && #[trigger] results[k].route@
            == route
}

/// The warnings that one page gives when the audit found it stale: each
/// route of its related list, in order, that is not stale itself, warned
/// about this page; none when the page is not stale.
pub open spec fn related_warnings_of(
    route: Seq<char>,
    related: Seq<Seq<char>>,
    results: Seq<AuditResult>,
) -> Seq<(Seq<char>, Seq<char>)>
    decreases related.len(),
{
    if related.len() == 0 {
        Seq::empty()
    } else {
        let prev = related_warnings_of(route, related.drop_last(), results);
        if is_stale_route(results, route) && !is_stale_route(results, related.last()) {
            prev.push((related.last(), route))
        } else {
            prev
        }
    }
}

/// The warnings for all pages, page by page.
pub open spec fn all_related_warnings(pages: Seq<Page>, results: Seq<AuditResult>) -> Seq<
    (Seq<char>, Seq<char>),
>
    decreases pages.len(),
{
    if pages.len() == 0 {
        Seq::empty()
    } else {
        all_related_warnings(pages.drop_last(), results) + related_warnings_of(
            pages.last().route@,
            strs(pages.last().related@),
            results,
        )
    }
}

/// The views of a sequence of warnings.
pub open spec fn warning_views(v: Seq<RelatedWarning>) -> Seq<(Seq<char>, Seq<char>)> {
    v.map_values(|w: RelatedWarning| (w.route@, w.stale_dependency@))
}

fn route_is_stale(results: &Vec<AuditResult>, route: &str) -> (r: bool)
    ensures
        r == is_stale_route(results@, route@),
{
    let mut k: usize = 0;
    while k < results.len()
        invariant
            k <= results.len(),
            forall|j: int|
                0 <= j < k ==> !(results@[j].new_status == Status::Stale && results@[j].route@
                    == route@),
        decreases results.len() - k,
    {
        if results[k].new_status == Status::Stale && str_eq(results[k].route.as_str(), route) {
            return true;
        }
        k = k + 1;
    }
    false
}

/// Audits the pages that the tag filter selects, in manifest order; for each
/// page that went stale, warns each page of its related list that is not
/// stale itself.  `checks[i]` is what git reported for `pages[i]`.
pub fn audit_all(manifest: &Manifest, tag_filter: Option<&str>, checks: Vec<PageCheck>) -> (r:
    AuditSummary)
    requires
        checks@.len() == manifest.pages@.len(),
    ensures
        r.results@.len() == selected_indices(manifest.pages@, opt_view(tag_filter)).len(),
        forall|k: int|
            0 <= k < r.results@.len() ==> {
                let i = selected_indices(manifest.pages@, opt_view(tag_filter))[k];
                audit_outcome(manifest.pages@[i], checks@[i], #[trigger] r.results@[k])
            },
        warning_views(r.related_warnings@) == all_related_warnings(
            manifest.pages@,
            r.results@,
        ),
{
    let ghost tag = opt_view(tag_filter);
    let ghost pages = manifest.pages@;
    let ghost all_checks = checks@;
    let mut results: Vec<AuditResult> = Vec::new();
    let mut checks = checks;
    let mut i: usize = 0;
    let mut rest: Vec<PageCheck> = Vec::new();
    // Walk the checks in order: take them out of the vector back to front.
    while checks.len() > 0
        invariant
            checks@.len() + rest@.len() == all_checks.len(),
            checks@ == all_checks.take(checks@.len() as int),
            forall|j: int|
                0 <= j < rest@.len() ==> rest@[j] == all_checks[all_checks.len() - 1 - j],
        decreases checks.len(),
    {
        let c = checks.pop().unwrap();
        rest.push(c);
    }
    assert(rest@.len() == pages.len());
    while i < manifest.pages.len()
        invariant
            i <= manifest.pages.len(),
            pages == manifest.pages@,
            tag == opt_view(tag_filter),
            all_checks.len() == pages.len(),
            rest@.len() == pages.len() - i,
            forall|j: int| 0 <= j < rest@.len() ==> rest@[j] == all_checks[pages.len() - 1 - j],
            results@.len() == selected_indices(pages.take(i as int), tag).len(),
            forall|k: int|
                0 <= k < results@.len() ==> {
                    let idx = selected_indices(pages.take(i as int), tag)[k];
                    audit_outcome(pages[idx], all_checks[idx], #[trigger] results@[k])
                },
        decreases manifest.pages.len() - i,
    {
        let c = rest.pop().unwrap();
        assert(c == all_checks[i as int]);
        let page = &manifest.pages[i];
        assert(pages.take(i + 1).drop_last() == pages.take(i as int));
        proof {
            lemma_selected_prefix(pages, tag, i as int);
        }
        if is_selected(page, tag_filter) {
            let res = audit_page(page, c);
            results.push(res);
        }
        i = i + 1;
    }
    assert(pages.take(pages.len() as int) == pages);
    let mut warnings: Vec<RelatedWarning> = Vec::new();
    let mut p: usize = 0;
    while p < manifest.pages.len()
        invariant
            p <= manifest.pages.len(),
            pages == manifest.pages@,
            warning_views(warnings@) == all_related_warnings(pages.take(p as int), results@),
        decreases manifest.pages.len() - p,
    {
        let page = &manifest.pages[p];
        assert(pages.take(p + 1).drop_last() == pages.take(p as int));
        let ghost base = warning_views(warnings@);
        let ghost rel = strs(page.related@);
        let page_stale = route_is_stale(&results, page.route.as_str());
        let mut q: usize = 0;
        while q < page.related.len()
            invariant
                q <= page.related.len(),
                rel == strs(page.related@),
                page_stale == is_stale_route(results@, page.route@),
                warning_views(warnings@) == base + related_warnings_of(
                    page.route@,
                    rel.take(q as int),
                    results@,
                ),
            decreases page.related.len() - q,
        {
            assert(rel.take(q + 1).drop_last() == rel.take(q as int));
            let dep = &page.related[q];
            if page_stale && !route_is_stale(&results, dep.as_str()) {
                let ghost before = warning_views(warnings@);
                warnings.push(RelatedWarning { route: dep.clone(), stale_dependency: page.route.clone() });
                assert(warning_views(warnings@) == before.push((dep@, page.route@)));
            }
            q = q + 1;
        }
        assert(rel.take(page.related.len() as int) == rel);
        p = p + 1;
    }
    assert(pages.take(pages.len() as int) == pages);
    AuditSummary { results, related_warnings: warnings }
}

/// The selected indices of a prefix extended by one page.
proof fn lemma_selected_prefix(pages: Seq<Page>, tag: Option<Seq<char>>, i: int)
    requires
        0 <= i < pages.len(),
    ensures
        selected_indices(pages.take(i + 1), tag) == if tag_selected(pages[i], tag) {
            selected_indices(pages.take(i), tag).push(i)
        } else {
            selected_indices(pages.take(i), tag)
        },
{
    assert(pages.take(i + 1).drop_last() == pages.take(i));
    assert(pages.take(i + 1).last() == pages[i]);
}

proof fn lemma_page_warnings(
    route: Seq<char>,
    related: Seq<Seq<char>>,
    results: Seq<AuditResult>,
    r: Seq<char>,
)
    ensures
        related_warnings_of(route, related, results).contains((r, route)) <==> (related.contains(r)
            && is_stale_route(results, route) && !is_stale_route(results, r)),
        forall|w: (Seq<char>, Seq<char>)|
            #[trigger] related_warnings_of(route, related, results).contains(w) ==> w.1 == route,
    decreases related.len(),
{
    if related.len() > 0 {
        let prev = related_warnings_of(route, related.drop_last(), results);
        lemma_page_warnings(route, related.drop_last(), results, r);
        crate::text::lemma_drop_last_contains(related, r);
        if is_stale_route(results, route) && !is_stale_route(results, related.last()) {
            crate::text::lemma_push_contains(prev, (related.last(), route), (r, route));
            assert forall|w: (Seq<char>, Seq<char>)|
                #[trigger] related_warnings_of(route, related, results).contains(w) implies w.1
                == route by {
                crate::text::lemma_push_contains(prev, (related.last(), route), w);
            }
        }
    }
}

/// When the audit finds a page stale, each page of its related list gets a
/// warning naming it, unless that page is stale itself: the warning
/// (`r`, `s`) is given exactly when some page with route `s` lists `r`
/// among its related pages, `s` is a stale page of the audit, and `r` is
/// not.
pub proof fn law_related_warnings(
    pages: Seq<Page>,
    results: Seq<AuditResult>,
    r: Seq<char>,
    s: Seq<char>,
)
    ensures
        all_related_warnings(pages, results).contains((r, s)) <==> ((exists|i: int|
            0 <= i < pages.len() && pages[i].route@ == s && strs(
                #[trigger] pages[i].related@,
            ).contains(r)) && is_stale_route(results, s) && !is_stale_route(results, r)),
    decreases pages.len(),
{
    if pages.len() > 0 {
        let d = pages.drop_last();
        let last = pages.last();
        law_related_warnings(d, results, r, s);
        let a = all_related_warnings(d, results);
        let b = related_warnings_of(last.route@, strs(last.related@), results);
        lemma_page_warnings(last.route@, strs(last.related@), results, r);
        assert(all_related_warnings(pages, results) == a + b);
        assert((a + b).contains((r, s)) <==> (a.contains((r, s)) || b.contains((r, s)))) by {
            if (a + b).contains((r, s)) {
                let k = choose|k: int| 0 <= k < (a + b).len() && (a + b)[k] == (r, s);
                if k < a.len() {
                    assert(a[k] == (r, s));
                } else {
                    assert(b[k - a.len()] == (r, s));
                }
            }
            if a.contains((r, s)) {
                let k = choose|k: int| 0 <= k < a.len() && a[k] == (r, s);
                assert((a + b)[k] == (r, s));
            }
            if b.contains((r, s)) {
                let k = choose|k: int| 0 <= k < b.len() && b[k] == (r, s);
                assert((a + b)[a.len() + k] == (r, s));
            }
        }
        if b.contains((r, s)) {
            assert(s == last.route@);
            assert(pages[pages.len() - 1] == last);
        }
        if last.route@ == s && strs(last.related@).contains(r) && is_stale_route(results, s)
            && !is_stale_route(results, r) {
            assert(b.contains((r, s)));
        }
        if exists|i: int|
            0 <= i < pages.len() && pages[i].route@ == s && strs(
                #[trigger] pages[i].related@,
            ).contains(r) {
            let i = choose|i: int|
                0 <= i < pages.len() && pages[i].route@ == s && strs(
                    #[trigger] pages[i].related@,
                ).contains(r);
            if i < d.len() {
                assert(d[i] == pages[i]);
            } else {
                assert(pages[i] == last);
            }
        }
        if exists|i: int|
            0 <= i < d.len() && d[i].route@ == s && strs(#[trigger] d[i].related@).contains(r) {
            let i = choose|i: int|
                0 <= i < d.len() && d[i].route@ == s && strs(#[trigger] d[i].related@).contains(r);
            assert(pages[i] == d[i]);
        }
    }
}

/// The tag filter selects a page exactly when one of the page's tags, at
/// any position, equals the filter; no filter selects every page.
pub proof fn law_tag_filter(page: Page, t: Seq<char>)
    ensures
        tag_selected(page, Some(t)) <==> exists|i: int|
            0 <= i < page.tags@.len() && (#[trigger] page.tags@[i])@ == t,
        tag_selected(page, None),
{
    let v = strs(page.tags@);
    if exists|i: int| 0 <= i < page.tags@.len() && (#[trigger] page.tags@[i])@ == t {
        let i = choose|i: int| 0 <= i < page.tags@.len() && (#[trigger] page.tags@[i])@ == t;
        assert(v[i] == t);
    }
    if v.contains(t) {
        let i = choose|i: int| 0 <= i < v.len() && v[i] == t;
        assert(page.tags@[i]@ == t);
    }
}

/// The audit looks at page `i` exactly when the tag filter selects it: the
/// selected indices are the pages the filter selects, in order.
pub proof fn law_selected_pages(pages: Seq<Page>, tag: Option<Seq<char>>, i: int)
    ensures
        selected_indices(pages, tag).contains(i) <==> (0 <= i < pages.len() && tag_selected(
            pages[i],
            tag,
        )),
    decreases pages.len(),
{
    if pages.len() > 0 {
        let d = pages.drop_last();
        law_selected_pages(d, tag, i);
        let prev = selected_indices(d, tag);
        if tag_selected(pages.last(), tag) {
            crate::text::lemma_push_contains(prev, pages.len() - 1, i);
        }
        if 0 <= i < d.len() {
            assert(d[i] == pages[i]);
        }
        if i == pages.len() - 1 {
            assert(!prev.contains(i)) by {
                if prev.contains(i) {
                    lemma_selected_range(d, tag, i);
                }
            }
        }
    }
}

/// The selected indices are indices of the pages.
proof fn lemma_selected_range(pages: Seq<Page>, tag: Option<Seq<char>>, i: int)
    requires
        selected_indices(pages, tag).contains(i),
    ensures
        0 <= i < pages.len(),
    decreases pages.len(),
{
    if pages.len() > 0 {
        let d = pages.drop_last();
        let prev = selected_indices(d, tag);
        if tag_selected(pages.last(), tag) {
            crate::text::lemma_push_contains(prev, pages.len() - 1, i);
        }
        if prev.contains(i) {
            lemma_selected_range(d, tag, i);
        }
    }
}

} // verus!
