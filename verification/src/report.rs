//! The text and Markdown reports.  Headings and some values are painted
//! with terminal colours by the `colored` crate, which paints only when the
//! environment allows it, so each painted piece of a report is either its
//! plain text or that text wrapped in the colour's escape sequences.
use vstd::prelude::*;
use crate::git::{log_views, LogEntry};
use crate::audit::{warning_views, AuditResult, AuditSummary, RelatedWarning};
use crate::concept_graph::{
    node_view, orphan_view, orphan_views, stale_view, thin_view, ConceptGraph, ConceptNode,
    OrphanDetail, StaleSibling, ThinCoverage,
};
use crate::concepts::{ConceptCoverageStats, OrphanConcept};
use crate::paths::opt_string_view;
use crate::coverage::{
    orphan_concept_view, orphan_concept_views, orphan_page_view, shared_view, CoverageReport,
    OrphanPage, SharedSource,
};
use crate::manifest::{status_name, Manifest, Page, Status};
use crate::text::{
    chars_of, decimal, decimal_of, join, lemma_utf8_len_push, pad_right, push_all, push_padded,
    push_str, replace_all, string_of, strs, utf8_len, contains_string,
};

verus! {

/// The output formats of the reports.
#[derive(Clone, Copy, PartialEq, Eq, Structural, Debug)]
pub enum Format {
    Text,
    Json,
    Markdown,
}

/// The terminal styles that the reports use.
#[derive(Clone, Copy, PartialEq, Eq, Structural, Debug)]
pub enum Style {
    Red,
    Green,
    Yellow,
    Cyan,
    Dimmed,
    Bold,
    RedBold,
    YellowBold,
    YellowDimmed,
    GreenBold,
}

/// The SGR parameters of a style, as `colored` writes them (style before
/// colour).
pub open spec fn style_code(st: Style) -> Seq<char> {
    match st {
        Style::Red => "31"@,
        Style::Green => "32"@,
        Style::Yellow => "33"@,
        Style::Cyan => "36"@,
        Style::Dimmed => "2"@,
        Style::Bold => "1"@,
        Style::RedBold => "1;31"@,
        Style::YellowBold => "1;33"@,
        Style::YellowDimmed => "2;33"@,
        Style::GreenBold => "1;32"@,
    }
}

/// The escape sequence that starts the style with the given parameters.
pub open spec fn sgr(code: Seq<char>) -> Seq<char> {
    seq!['\u{1b}', '['] + code + seq!['m']
}

/// The escape sequence that resets all styles.
pub open spec fn reset() -> Seq<char> {
    seq!['\u{1b}', '[', '0', 'm']
}

/// `s` painted with the style: its escape sequence, the text with the style
/// restarted after every reset inside it, and a reset.
pub open spec fn styled(code: Seq<char>, s: Seq<char>) -> Seq<char> {
    sgr(code) + replace_all(s, reset(), reset() + sgr(code)) + reset()
}

/// `text` as the style paints it: plain or styled.
pub open spec fn painted(st: Style, text: Seq<char>, out: Seq<char>) -> bool {
    out == text || out == styled(style_code(st), text)
}

/// `colored`'s `red`: the text, styled when the environment allows colours.
#[verifier::external_body]
fn paint_red(s: &str) -> (r: String)
    ensures
        painted(Style::Red, s@, r@),
{
    colored::Colorize::red(s).to_string()
}

/// `colored`'s `green`: the text, styled when the environment allows colours.
#[verifier::external_body]
fn paint_green(s: &str) -> (r: String)
    ensures
        painted(Style::Green, s@, r@),
{
    colored::Colorize::green(s).to_string()
}

/// `colored`'s `yellow`: the text, styled when the environment allows colours.
#[verifier::external_body]
fn paint_yellow(s: &str) -> (r: String)
    ensures
        painted(Style::Yellow, s@, r@),
{
    colored::Colorize::yellow(s).to_string()
}

/// `colored`'s `cyan`: the text, styled when the environment allows colours.
#[verifier::external_body]
fn paint_cyan(s: &str) -> (r: String)
    ensures
        painted(Style::Cyan, s@, r@),
{
    colored::Colorize::cyan(s).to_string()
}

/// `colored`'s `dimmed`: the text, styled when the environment allows colours.
#[verifier::external_body]
fn paint_dimmed(s: &str) -> (r: String)
    ensures
        painted(Style::Dimmed, s@, r@),
{
    colored::Colorize::dimmed(s).to_string()
}

/// `colored`'s `bold`: the text, styled when the environment allows colours.
#[verifier::external_body]
fn paint_bold(s: &str) -> (r: String)
    ensures
        painted(Style::Bold, s@, r@),
{
    colored::Colorize::bold(s).to_string()
}

/// `colored`'s `red` then `bold`: the text, styled when the environment
/// allows colours.
#[verifier::external_body]
fn paint_red_bold(s: &str) -> (r: String)
    ensures
        painted(Style::RedBold, s@, r@),
{
    colored::Colorize::bold(colored::Colorize::red(s)).to_string()
}

/// `colored`'s `yellow` then `bold`: the text, styled when the environment
/// allows colours.
#[verifier::external_body]
fn paint_yellow_bold(s: &str) -> (r: String)
    ensures
        painted(Style::YellowBold, s@, r@),
{
    colored::Colorize::bold(colored::Colorize::yellow(s)).to_string()
}

/// `colored`'s `yellow` then `dimmed`: the text, styled when the environment
/// allows colours.
#[verifier::external_body]
fn paint_yellow_dimmed(s: &str) -> (r: String)
    ensures
        painted(Style::YellowDimmed, s@, r@),
{
    colored::Colorize::dimmed(colored::Colorize::yellow(s)).to_string()
}

/// `colored`'s `green` then `bold`: the text, styled when the environment
/// allows colours.
#[verifier::external_body]
fn paint_green_bold(s: &str) -> (r: String)
    ensures
        painted(Style::GreenBold, s@, r@),
{
    colored::Colorize::bold(colored::Colorize::green(s)).to_string()
}

/// The text in the style.
pub fn paint(st: Style, s: &str) -> (r: String)
    ensures
        painted(st, s@, r@),
{
    match st {
        Style::Red => paint_red(s),
        Style::Green => paint_green(s),
        Style::Yellow => paint_yellow(s),
        Style::Cyan => paint_cyan(s),
        Style::Dimmed => paint_dimmed(s),
        Style::Bold => paint_bold(s),
        Style::RedBold => paint_red_bold(s),
        Style::YellowBold => paint_yellow_bold(s),
        Style::YellowDimmed => paint_yellow_dimmed(s),
        Style::GreenBold => paint_green_bold(s),
    }
}

// ---------------------------------------------------------------------------
// Reports as pieces of text
// ---------------------------------------------------------------------------

/// A piece of a report: plain text, or text painted in a style and padded
/// on the right to a width (0: no padding).
pub enum Piece {
    Plain(Seq<char>),
    Paint(Style, Seq<char>, nat),
}

/// The text of a piece; `on` tells whether a painted piece came out styled.
pub open spec fn render_piece(p: Piece, on: bool) -> Seq<char> {
    match p {
        Piece::Plain(t) => t,
        Piece::Paint(st, t, w) => pad_right(
            if on {
                styled(style_code(st), t)
            } else {
                t
            },
            w,
        ),
    }
}

/// The text of the pieces, each painted piece styled where `on` says so.
pub open spec fn render(ps: Seq<Piece>, on: Seq<bool>) -> Seq<char>
    decreases ps.len(),
{
    if ps.len() == 0 {
        Seq::empty()
    } else {
        render(ps.drop_last(), on.take(ps.len() - 1)) + render_piece(ps.last(), on[ps.len() - 1])
    }
}

/// Whether `out` is a rendering of the pieces: each painted piece plain or
/// styled.
pub open spec fn renders(ps: Seq<Piece>, out: Seq<char>) -> bool {
    exists|on: Seq<bool>| on.len() == ps.len() && out == render(ps, on)
}

/// The lines, their pieces joined with a newline between lines.
pub open spec fn join_lines(ls: Seq<Seq<Piece>>) -> Seq<Piece>
    decreases ls.len(),
{
    if ls.len() == 0 {
        Seq::empty()
    } else if ls.len() == 1 {
        ls[0]
    } else {
        join_lines(ls.drop_last()) + seq![Piece::Plain(seq!['\n'])] + ls.last()
    }
}

/// A report being written: its text so far, and the lines of pieces that it
/// renders (the last line still open).
pub struct Report {
    pub text: Vec<char>,
    pub started: bool,
    pub lines: Ghost<Seq<Seq<Piece>>>,
    pub on: Ghost<Seq<bool>>,
}

impl Report {
    /// Whether the text renders the lines.
    pub open spec fn wf(&self) -> bool {
        &&& self.started == (self.lines@.len() > 0)
        &&& self.on@.len() == join_lines(self.lines@).len()
        &&& self.text@ == render(join_lines(self.lines@), self.on@)
    }

    /// An empty report.
    pub fn new() -> (r: Report)
        ensures
            r.wf(),
            r.lines@ == Seq::<Seq<Piece>>::empty(),
    {
        Report {
            text: Vec::new(),
            started: false,
            lines: Ghost(Seq::empty()),
            on: Ghost(Seq::empty()),
        }
    }

    proof fn lemma_render_push(ps: Seq<Piece>, on: Seq<bool>, p: Piece, b: bool)
        requires
            on.len() == ps.len(),
        ensures
            render(ps.push(p), on.push(b)) == render(ps, on) + render_piece(p, b),
    {
        assert(ps.push(p).drop_last() =~= ps);
        assert(on.push(b).take(ps.len() as int) =~= on);
    }

    /// Starts a new line.
    pub fn line(&mut self)
        requires
            old(self).wf(),
        ensures
            final(self).wf(),
            final(self).lines@ == old(self).lines@.push(Seq::<Piece>::empty()),
    {
        let ghost ls = self.lines@;
        if self.started {
            let ghost nl = Piece::Plain(seq!['\n']);
            proof {
                Self::lemma_render_push(join_lines(ls), self.on@, nl, false);
                assert(join_lines(ls.push(Seq::<Piece>::empty())) =~= join_lines(ls).push(nl)) by {
                    assert(ls.push(Seq::<Piece>::empty()).drop_last() =~= ls);
                    if ls.len() == 0 {
                    }
                }
            }
            let ghost before = self.text@;
            self.text.push('\n');
            assert(self.text@ =~= before + render_piece(nl, false));
            self.on = Ghost(self.on@.push(false));
        } else {
            assert(join_lines(ls.push(Seq::<Piece>::empty())) =~= Seq::<Piece>::empty());
        }
        self.lines = Ghost(ls.push(Seq::<Piece>::empty()));
        self.started = true;
    }

    /// Appends a piece to the last line.
    proof fn lemma_append(ls: Seq<Seq<Piece>>, p: Piece)
        requires
            ls.len() > 0,
        ensures
            join_lines(ls.update(ls.len() - 1, ls.last().push(p))) == join_lines(ls).push(p),
    {
        let ls2 = ls.update(ls.len() - 1, ls.last().push(p));
        assert(ls2.drop_last() =~= ls.drop_last());
        if ls.len() == 1 {
        } else {
            assert(join_lines(ls2) =~= join_lines(ls.drop_last()) + seq![Piece::Plain(seq!['\n'])]
                + ls.last().push(p));
        }
    }

    /// Appends plain text to the last line.
    pub fn plain(&mut self, s: &Vec<char>)
        requires
            old(self).wf(),
            old(self).lines@.len() > 0,
        ensures
            final(self).wf(),
            final(self).lines@ == old(self).lines@.update(
                old(self).lines@.len() - 1,
                old(self).lines@.last().push(Piece::Plain(s@)),
            ),
    {
        let ghost ls = self.lines@;
        let ghost p = Piece::Plain(s@);
        proof {
            Self::lemma_append(ls, p);
            Self::lemma_render_push(join_lines(ls), self.on@, p, false);
        }
        push_all(&mut self.text, s);
        self.on = Ghost(self.on@.push(false));
        self.lines = Ghost(ls.update(ls.len() - 1, ls.last().push(p)));
    }

    /// Appends plain text to the last line.
    pub fn plain_str(&mut self, s: &str)
        requires
            old(self).wf(),
            old(self).lines@.len() > 0,
        ensures
            final(self).wf(),
            final(self).lines@ == old(self).lines@.update(
                old(self).lines@.len() - 1,
                old(self).lines@.last().push(Piece::Plain(s@)),
            ),
    {
        let v = chars_of(s);
        self.plain(&v);
    }

    /// Appends painted text, padded to width `w`, to the last line.
    pub fn painted(&mut self, st: Style, s: &str, w: usize)
        requires
            old(self).wf(),
            old(self).lines@.len() > 0,
        ensures
            final(self).wf(),
            final(self).lines@ == old(self).lines@.update(
                old(self).lines@.len() - 1,
                old(self).lines@.last().push(Piece::Paint(st, s@, w as nat)),
            ),
    {
        let ghost ls = self.lines@;
        let ghost p = Piece::Paint(st, s@, w as nat);
        let out = paint(st, s);
        let ghost b = out@ != s@;
        let v = chars_of(out.as_str());
        proof {
            Self::lemma_append(ls, p);
            Self::lemma_render_push(join_lines(ls), self.on@, p, b);
            assert(render_piece(p, b) == pad_right(v@, w as nat));
        }
        push_padded(&mut self.text, &v, w);
        self.on = Ghost(self.on@.push(b));
        self.lines = Ghost(ls.update(ls.len() - 1, ls.last().push(p)));
    }

    /// The text of the report.
    pub fn finish(self) -> (r: String)
        requires
            self.wf(),
        ensures
            renders(join_lines(self.lines@), r@),
    {
        string_of(&self.text)
    }
}

/// A line of a prefix, an item and a suffix.
pub open spec fn item_line(prefix: Seq<char>, x: Seq<char>, suffix: Seq<char>) -> Seq<Piece> {
    seq![Piece::Plain(prefix), Piece::Plain(x), Piece::Plain(suffix)]
}

/// One line per item, between a prefix and a suffix.
pub open spec fn item_lines(prefix: Seq<char>, xs: Seq<Seq<char>>, suffix: Seq<char>) -> Seq<
    Seq<Piece>,
> {
    xs.map_values(|x: Seq<char>| item_line(prefix, x, suffix))
}

/// Writes one line per item, between a prefix and a suffix.
fn write_items(rep: &mut Report, prefix: &str, items: &[String], suffix: &str)
    requires
        old(rep).wf(),
    ensures
        final(rep).wf(),
        final(rep).lines@ == old(rep).lines@ + item_lines(prefix@, strs(items@), suffix@),
{
    let ghost start = rep.lines@;
    let mut i: usize = 0;
    while i < items.len()
        invariant
            i <= items@.len(),
            rep.wf(),
            rep.lines@ == start + item_lines(prefix@, strs(items@).take(i as int), suffix@),
        decreases items.len() - i,
    {
        let ghost before = rep.lines@;
        rep.line();
        rep.plain_str(prefix);
        rep.plain_str(items[i].as_str());
        rep.plain_str(suffix);
        assert(rep.lines@ =~~= before.push(item_line(prefix@, items@[i as int]@, suffix@)));
        assert(item_lines(prefix@, strs(items@).take(i + 1), suffix@) =~= item_lines(
            prefix@,
            strs(items@).take(i as int),
            suffix@,
        ).push(item_line(prefix@, items@[i as int]@, suffix@)));
        i = i + 1;
    }
    assert(strs(items@).take(items@.len() as int) =~= strs(items@));
}

/// Writes a line of plain text.
fn write_line(rep: &mut Report, s: &str)
    requires
        old(rep).wf(),
    ensures
        final(rep).wf(),
        final(rep).lines@ == old(rep).lines@.push(seq![Piece::Plain(s@)]),
{
    let ghost before = rep.lines@;
    rep.line();
    rep.plain_str(s);
    assert(rep.lines@ =~~= before.push(seq![Piece::Plain(s@)]));
}

/// Writes an empty line.
fn write_blank(rep: &mut Report)
    requires
        old(rep).wf(),
    ensures
        final(rep).wf(),
        final(rep).lines@ == old(rep).lines@.push(Seq::<Piece>::empty()),
{
    rep.line();
}

/// The line of a commit: the prefix, the dimmed hash, a space and the
/// message.
pub open spec fn commit_line(prefix: Seq<char>, e: (Seq<char>, Seq<char>)) -> Seq<Piece> {
    seq![
        Piece::Plain(prefix),
        Piece::Paint(Style::Dimmed, e.0, 0),
        Piece::Plain(" "@),
        Piece::Plain(e.1),
    ]
}

/// Writes one commit line per log entry.
fn write_commits(rep: &mut Report, prefix: &str, entries: &[LogEntry], n: usize)
    requires
        old(rep).wf(),
        n <= entries@.len(),
    ensures
        final(rep).wf(),
        final(rep).lines@ == old(rep).lines@ + log_views(entries@).take(n as int).map_values(
            |e: (Seq<char>, Seq<char>)| commit_line(prefix@, e),
        ),
{
    let ghost start = rep.lines@;
    let ghost lv = log_views(entries@);
    let mut i: usize = 0;
    while i < n
        invariant
            i <= n,
            n <= entries@.len(),
            lv == log_views(entries@),
            rep.wf(),
            rep.lines@ == start + lv.take(i as int).map_values(
                |e: (Seq<char>, Seq<char>)| commit_line(prefix@, e),
            ),
        decreases n - i,
    {
        let ghost before = rep.lines@;
        rep.line();
        rep.plain_str(prefix);
        rep.painted(Style::Dimmed, entries[i].sha.as_str(), 0);
        rep.plain_str(" ");
        rep.plain_str(entries[i].message.as_str());
        assert(lv[i as int] == (entries@[i as int].sha@, entries@[i as int].message@));
        assert(rep.lines@ =~~= before.push(commit_line(prefix@, lv[i as int])));
        assert(lv.take(i + 1).map_values(|e: (Seq<char>, Seq<char>)| commit_line(prefix@, e))
            =~= lv.take(i as int).map_values(
            |e: (Seq<char>, Seq<char>)| commit_line(prefix@, e),
        ).push(commit_line(prefix@, lv[i as int])));
        i = i + 1;
    }
}

// ---------------------------------------------------------------------------
// The diff report
// ---------------------------------------------------------------------------

/// The lines of the report of what changed in a page's sources.
pub open spec fn diff_lines(
    route: Seq<char>,
    entries: Seq<(Seq<char>, Seq<char>)>,
    files: Seq<Seq<char>>,
) -> Seq<Seq<Piece>> {
    let head = seq![
        seq![
            Piece::Plain("Changes for "@),
            Piece::Paint(Style::Bold, route, 0),
            Piece::Plain(" since last verification:"@),
        ],
        Seq::<Piece>::empty(),
    ];
    if files.len() == 0 && entries.len() == 0 {
        head.push(seq![Piece::Plain("  No changes detected."@)])
    } else {
        head + (if files.len() > 0 {
            seq![seq![Piece::Plain("Files changed:"@)]] + item_lines("  "@, files, ""@) + seq![
                Seq::<Piece>::empty(),
            ]
        } else {
            Seq::empty()
        }) + (if entries.len() > 0 {
            seq![seq![Piece::Plain("Commits:"@)]] + entries.map_values(
                |e: (Seq<char>, Seq<char>)| commit_line("  "@, e),
            )
        } else {
            Seq::empty()
        })
    }
}

/// The report of what changed in the sources of the page with the given
/// route since its verification: the changed files and the commits.
pub fn format_diff(route: &str, log_entries: &[LogEntry], changed_files: &[String]) -> (r: String)
    ensures
        renders(join_lines(diff_lines(route@, log_views(log_entries@), strs(changed_files@))), r@),
{
    let mut rep = Report::new();
    rep.line();
    rep.plain_str("Changes for ");
    rep.painted(Style::Bold, route, 0);
    rep.plain_str(" since last verification:");
    write_blank(&mut rep);
    let ghost head = rep.lines@;
    let ghost lv = log_views(log_entries@);
    let ghost fv = strs(changed_files@);
    if changed_files.len() == 0 && log_entries.len() == 0 {
        write_line(&mut rep, "  No changes detected.");
        assert(rep.lines@ =~~= diff_lines(route@, lv, fv));
        return rep.finish();
    }
    if changed_files.len() > 0 {
        write_line(&mut rep, "Files changed:");
        write_items(&mut rep, "  ", changed_files, "");
        write_blank(&mut rep);
    }
    let ghost mid = rep.lines@;
    if log_entries.len() > 0 {
        write_line(&mut rep, "Commits:");
        write_commits(&mut rep, "  ", log_entries, log_entries.len());
        assert(lv.take(log_entries@.len() as int) =~= lv);
    }
    assert(rep.lines@ =~~= diff_lines(route@, lv, fv));
    rep.finish()
}

// ---------------------------------------------------------------------------
// The status table
// ---------------------------------------------------------------------------

/// Whether `s` has a prefix of exactly `n` UTF-8 bytes.
pub open spec fn char_boundary(s: Seq<char>, n: nat) -> bool {
    exists|k: int| 0 <= k <= s.len() && utf8_len(s.take(k)) == n
}

/// Longer prefixes have more UTF-8 bytes.
proof fn lemma_utf8_prefix_strict(s: Seq<char>, a: int, b: int)
    requires
        0 <= a < b <= s.len(),
    ensures
        utf8_len(s.take(a)) < utf8_len(s.take(b)),
    decreases b - a,
{
    assert(s.take(b) =~= s.take(b - 1).push(s[b - 1]));
    lemma_utf8_len_push(s.take(b - 1), s[b - 1]);
    if a < b - 1 {
        lemma_utf8_prefix_strict(s, a, b - 1);
    }
}

/// `s` cut to `max` bytes: itself when it fits, else its prefix of
/// `max - 3` bytes followed by `...`.
pub open spec fn truncated(s: Seq<char>, max: nat) -> Seq<char> {
    if utf8_len(s) <= max {
        s
    } else {
        s.take(choose|k: int| 0 <= k <= s.len() && utf8_len(s.take(k)) == max - 3) + "..."@
    }
}

/// `s` cut to `max` bytes, as the status table shows routes.
fn truncate(s: &str, max: usize) -> (r: Vec<char>)
    requires
        3 <= max,
        utf8_len(s@) > max ==> char_boundary(s@, (max - 3) as nat),
    ensures
        r@ == truncated(s@, max as nat),
{
    let v = chars_of(s);
    if !crate::text::utf8_len_gt(&v, max) {
        return v;
    }
    let target = max - 3;
    let ghost k0 = choose|k: int| 0 <= k <= s@.len() && utf8_len(s@.take(k)) == target;
    let mut acc: usize = 0;
    let mut i: usize = 0;
    let n = v.len();
    assert(v@.take(0) =~= Seq::<char>::empty());
    while acc < target
        invariant
            n == v@.len(),
            i <= v@.len(),
            v@ == s@,
            0 <= k0 <= s@.len(),
            utf8_len(s@.take(k0)) == target,
            acc == utf8_len(v@.take(i as int)),
            acc <= target,
            i <= k0,
        decreases target - acc,
    {
        proof {
            if i == k0 {
                assert(false);
            }
            lemma_utf8_prefix_strict(s@, i as int, k0);
            assert(v@.take(i + 1) =~= v@.take(i as int).push(v@[i as int]));
            lemma_utf8_len_push(v@.take(i as int), v@[i as int]);
            if i + 1 < k0 {
                lemma_utf8_prefix_strict(s@, i + 1, k0);
            }
        }
        assert(i < v@.len());
        acc = acc + crate::text::char_width_of(v[i]);
        i = i + 1;
    }
    proof {
        if i < k0 {
            lemma_utf8_prefix_strict(s@, i as int, k0);
        }
    }
    let mut r = crate::text::slice_of(&v, 0, i);
    push_str(&mut r, "...");
    assert(r@ =~= s@.take(k0) + "..."@);
    r
}

/// The number of pages with the status.
pub open spec fn count_status(pages: Seq<Page>, st: Status) -> nat
    decreases pages.len(),
{
    if pages.len() == 0 {
        0
    } else {
        count_status(pages.drop_last(), st) + if pages.last().status == st {
            1nat
        } else {
            0nat
        }
    }
}

/// The number of pages of each status.
struct StatusCounts {
    current: usize,
    stale: usize,
    unverified: usize,
    missing: usize,
    outdated: usize,
}

/// Counts the pages of each status.
fn count_statuses(manifest: &Manifest) -> (c: StatusCounts)
    ensures
        c.current == count_status(manifest.pages@, Status::Current),
        c.stale == count_status(manifest.pages@, Status::Stale),
        c.unverified == count_status(manifest.pages@, Status::Unverified),
        c.missing == count_status(manifest.pages@, Status::Missing),
        c.outdated == count_status(manifest.pages@, Status::Outdated),
{
    let mut c = StatusCounts { current: 0, stale: 0, unverified: 0, missing: 0, outdated: 0 };
    let mut i: usize = 0;
    while i < manifest.pages.len()
        invariant
            i <= manifest.pages@.len(),
            c.current == count_status(manifest.pages@.take(i as int), Status::Current),
            c.stale == count_status(manifest.pages@.take(i as int), Status::Stale),
            c.unverified == count_status(manifest.pages@.take(i as int), Status::Unverified),
            c.missing == count_status(manifest.pages@.take(i as int), Status::Missing),
            c.outdated == count_status(manifest.pages@.take(i as int), Status::Outdated),
            c.current + c.stale + c.unverified + c.missing + c.outdated == i,
        decreases manifest.pages.len() - i,
    {
        assert(manifest.pages@.take(i + 1).drop_last() =~= manifest.pages@.take(i as int));
        match manifest.pages[i].status {
            Status::Current => c.current = c.current + 1,
            Status::Stale => c.stale = c.stale + 1,
            Status::Unverified => c.unverified = c.unverified + 1,
            Status::Missing => c.missing = c.missing + 1,
            Status::Outdated => c.outdated = c.outdated + 1,
        }
        i = i + 1;
    }
    assert(manifest.pages@.take(manifest.pages@.len() as int) =~= manifest.pages@);
    c
}

/// The style and text of a status in the status table.
pub open spec fn status_paint(st: Status) -> (Style, Seq<char>) {
    match st {
        Status::Current => (Style::Green, "current"@),
        Status::Stale => (Style::Red, "stale"@),
        Status::Outdated => (Style::RedBold, "outdated"@),
        Status::Unverified => (Style::Yellow, "unverified"@),
        Status::Missing => (Style::YellowDimmed, "missing"@),
    }
}

/// The revision at which a page was verified, or `-`.
pub open spec fn verified_text(p: Page) -> Seq<char> {
    match p.verified_at {
        Some(v) => v.sha@,
        None => "-"@,
    }
}

/// The row of a page in the status table.
pub open spec fn status_row(p: Page) -> Seq<Piece> {
    seq![
        Piece::Plain(pad_right(truncated(p.route@, 30), 30)),
        Piece::Plain(" "@),
        Piece::Paint(status_paint(p.status).0, status_paint(p.status).1, 12),
        Piece::Plain(" "@),
        Piece::Plain(pad_right(verified_text(p), 12)),
        Piece::Plain(" "@),
        Piece::Plain(pad_right(decimal(p.sources@.len()), 6)),
    ]
}

/// The header of the status table.
pub open spec fn status_header() -> Seq<Piece> {
    seq![
        Piece::Plain(pad_right("ROUTE"@, 30)),
        Piece::Plain(" "@),
        Piece::Plain(pad_right("STATUS"@, 12)),
        Piece::Plain(" "@),
        Piece::Plain(pad_right("VERIFIED"@, 12)),
        Piece::Plain(" "@),
        Piece::Plain(pad_right("SRCS"@, 6)),
    ]
}

/// The summary line of the status table.
pub open spec fn status_summary(pages: Seq<Page>) -> Seq<Piece> {
    seq![
        Piece::Plain(decimal(count_status(pages, Status::Current))),
        Piece::Plain(" current, "@),
        Piece::Plain(decimal(count_status(pages, Status::Stale))),
        Piece::Plain(" stale, "@),
        Piece::Plain(decimal(count_status(pages, Status::Unverified))),
        Piece::Plain(" unverified, "@),
        Piece::Plain(decimal(count_status(pages, Status::Missing))),
        Piece::Plain(" missing, "@),
        Piece::Plain(decimal(count_status(pages, Status::Outdated))),
        Piece::Plain(" outdated ("@),
        Piece::Plain(decimal(pages.len())),
        Piece::Plain(" total)"@),
    ]
}

/// The lines of the status table.
pub open spec fn status_text_lines(pages: Seq<Page>) -> Seq<Seq<Piece>> {
    seq![status_header(), seq![Piece::Plain(Seq::new(62, |i: int| '-'))]] + pages.map_values(
        |p: Page| status_row(p),
    ) + seq![Seq::<Piece>::empty(), status_summary(pages)]
}

/// Whether every route longer than 30 bytes has a prefix of 27 bytes, so
/// that the status table can cut it.
pub open spec fn routes_cuttable(pages: Seq<Page>) -> bool {
    forall|i: int|
        0 <= i < pages.len() && utf8_len((#[trigger] pages[i]).route@) > 30 ==> char_boundary(
            pages[i].route@,
            27,
        )
}

/// Appends padded plain text.
fn write_padded(rep: &mut Report, s: &Vec<char>, w: usize)
    requires
        old(rep).wf(),
        old(rep).lines@.len() > 0,
    ensures
        final(rep).wf(),
        final(rep).lines@ == old(rep).lines@.update(
            old(rep).lines@.len() - 1,
            old(rep).lines@.last().push(Piece::Plain(pad_right(s@, w as nat))),
        ),
{
    let mut t: Vec<char> = Vec::new();
    push_padded(&mut t, s, w);
    assert(t@ =~= pad_right(s@, w as nat));
    rep.plain(&t);
}

/// Writes the header of the status table and its rule.
fn write_status_header(rep: &mut Report)
    requires
        old(rep).wf(),
        old(rep).lines@.len() == 0,
    ensures
        final(rep).wf(),
        final(rep).lines@ == seq![
            status_header(),
            seq![Piece::Plain(Seq::new(62, |i: int| '-'))],
        ],
{
    rep.line();
    write_padded(rep, &chars_of("ROUTE"), 30);
    rep.plain_str(" ");
    write_padded(rep, &chars_of("STATUS"), 12);
    rep.plain_str(" ");
    write_padded(rep, &chars_of("VERIFIED"), 12);
    rep.plain_str(" ");
    write_padded(rep, &chars_of("SRCS"), 6);
    rep.line();
    let mut dashes: Vec<char> = Vec::new();
    let mut d: usize = 0;
    while d < 62
        invariant
            d <= 62,
            dashes@ =~= Seq::new(d as nat, |i: int| '-'),
        decreases 62 - d,
    {
        dashes.push('-');
        d = d + 1;
    }
    rep.plain(&dashes);
    assert(rep.lines@ =~~= seq![status_header(), seq![Piece::Plain(Seq::new(62, |i: int| '-'))]]);
}

/// Writes the row of a page of the status table.
fn write_status_row(rep: &mut Report, page: &Page)
    requires
        old(rep).wf(),
        utf8_len(page.route@) > 30 ==> char_boundary(page.route@, 27),
    ensures
        final(rep).wf(),
        final(rep).lines@ == old(rep).lines@.push(status_row(*page)),
{
    let ghost before = rep.lines@;
    rep.line();
    let route = truncate(page.route.as_str(), 30);
    write_padded(rep, &route, 30);
    rep.plain_str(" ");
    match page.status {
        Status::Current => rep.painted(Style::Green, "current", 12),
        Status::Stale => rep.painted(Style::Red, "stale", 12),
        Status::Outdated => rep.painted(Style::RedBold, "outdated", 12),
        Status::Unverified => rep.painted(Style::Yellow, "unverified", 12),
        Status::Missing => rep.painted(Style::YellowDimmed, "missing", 12),
    }
    rep.plain_str(" ");
    let verified = match &page.verified_at {
        Some(v) => chars_of(v.sha.as_str()),
        None => chars_of("-"),
    };
    write_padded(rep, &verified, 12);
    rep.plain_str(" ");
    write_padded(rep, &decimal_of(page.sources.len()), 6);
    assert(rep.lines@ =~~= before.push(status_row(*page)));
}

/// Writes the summary line of the status table.
fn write_status_summary(rep: &mut Report, manifest: &Manifest)
    requires
        old(rep).wf(),
    ensures
        final(rep).wf(),
        final(rep).lines@ == old(rep).lines@.push(status_summary(manifest.pages@)),
{
    let counts = count_statuses(manifest);
    let ghost before = rep.lines@;
    rep.line();
    rep.plain(&decimal_of(counts.current));
    rep.plain_str(" current, ");
    rep.plain(&decimal_of(counts.stale));
    rep.plain_str(" stale, ");
    rep.plain(&decimal_of(counts.unverified));
    rep.plain_str(" unverified, ");
    rep.plain(&decimal_of(counts.missing));
    rep.plain_str(" missing, ");
    rep.plain(&decimal_of(counts.outdated));
    rep.plain_str(" outdated (");
    rep.plain(&decimal_of(manifest.pages.len()));
    rep.plain_str(" total)");
    assert(rep.lines@ =~~= before.push(status_summary(manifest.pages@)));
}

/// The status of each page as a table with a summary line.
fn format_status_text(manifest: &Manifest) -> (r: String)
    requires
        routes_cuttable(manifest.pages@),
    ensures
        renders(join_lines(status_text_lines(manifest.pages@)), r@),
{
    let mut rep = Report::new();
    write_status_header(&mut rep);
    let ghost head = rep.lines@;
    let pages = &manifest.pages;
    let mut i: usize = 0;
    while i < pages.len()
        invariant
            i <= pages@.len(),
            pages == &manifest.pages,
            routes_cuttable(pages@),
            rep.wf(),
            rep.lines@ == head + pages@.take(i as int).map_values(|p: Page| status_row(p)),
        decreases pages.len() - i,
    {
        assert(utf8_len(pages@[i as int].route@) > 30 ==> char_boundary(pages@[i as int].route@, 27));
        write_status_row(&mut rep, &pages[i]);
        assert(pages@.take(i + 1).map_values(|p: Page| status_row(p)) =~= pages@.take(
            i as int,
        ).map_values(|p: Page| status_row(p)).push(status_row(pages@[i as int])));
        i = i + 1;
    }
    assert(pages@.take(pages.len() as int) =~= pages@);
    write_blank(&mut rep);
    write_status_summary(&mut rep, manifest);
    assert(rep.lines@ =~~= status_text_lines(pages@));
    rep.finish()
}

/// The word of a status in the Markdown status table.
pub open spec fn status_word(st: Status) -> Seq<char> {
    match st {
        Status::Current => "ok"@,
        Status::Stale => "STALE"@,
        Status::Outdated => "OUTDATED"@,
        Status::Unverified => "unverified"@,
        Status::Missing => "MISSING"@,
    }
}

/// The row of a page in the Markdown status table.
pub open spec fn status_md_row(p: Page) -> Seq<Piece> {
    seq![
        Piece::Plain("| "@),
        Piece::Plain(p.route@),
        Piece::Plain(" | "@),
        Piece::Plain(status_word(p.status)),
        Piece::Plain(" | "@),
        Piece::Plain(verified_text(p)),
        Piece::Plain(" | "@),
        Piece::Plain(decimal(p.sources@.len())),
        Piece::Plain(" |"@),
    ]
}

/// The lines of the Markdown status table.
pub open spec fn status_md_lines(pages: Seq<Page>) -> Seq<Seq<Piece>> {
    seq![
        seq![Piece::Plain("| Route | Status | Verified | Sources |"@)],
        seq![Piece::Plain("|-------|--------|----------|---------|"@)],
    ] + pages.map_values(|p: Page| status_md_row(p))
}

/// Writes the Markdown row of a page.
fn write_status_md_row(rep: &mut Report, page: &Page)
    requires
        old(rep).wf(),
    ensures
        final(rep).wf(),
        final(rep).lines@ == old(rep).lines@.push(status_md_row(*page)),
{
    let ghost before = rep.lines@;
    rep.line();
    rep.plain_str("| ");
    rep.plain_str(page.route.as_str());
    rep.plain_str(" | ");
    match page.status {
        Status::Current => rep.plain_str("ok"),
        Status::Stale => rep.plain_str("STALE"),
        Status::Outdated => rep.plain_str("OUTDATED"),
        Status::Unverified => rep.plain_str("unverified"),
        Status::Missing => rep.plain_str("MISSING"),
    }
    rep.plain_str(" | ");
    match &page.verified_at {
        Some(v) => rep.plain_str(v.sha.as_str()),
        None => rep.plain_str("-"),
    }
    rep.plain_str(" | ");
    rep.plain(&decimal_of(page.sources.len()));
    rep.plain_str(" |");
    assert(rep.lines@ =~~= before.push(status_md_row(*page)));
}

/// The status of each page as a Markdown table.
fn format_status_markdown(manifest: &Manifest) -> (r: String)
    ensures
        renders(join_lines(status_md_lines(manifest.pages@)), r@),
{
    let mut rep = Report::new();
    write_line(&mut rep, "| Route | Status | Verified | Sources |");
    write_line(&mut rep, "|-------|--------|----------|---------|");
    let ghost head = rep.lines@;
    let pages = &manifest.pages;
    let mut i: usize = 0;
    while i < pages.len()
        invariant
            i <= pages@.len(),
            pages == &manifest.pages,
            rep.wf(),
            rep.lines@ == head + pages@.take(i as int).map_values(|p: Page| status_md_row(p)),
        decreases pages.len() - i,
    {
        write_status_md_row(&mut rep, &pages[i]);
        assert(pages@.take(i + 1).map_values(|p: Page| status_md_row(p)) =~= pages@.take(
            i as int,
        ).map_values(|p: Page| status_md_row(p)).push(status_md_row(pages@[i as int])));
        i = i + 1;
    }
    assert(pages@.take(pages.len() as int) =~= pages@);
    assert(rep.lines@ =~~= status_md_lines(pages@));
    rep.finish()
}

/// The status table in the given format: `None` for JSON, which the
/// application writes with `serde_json`.  The text table cuts routes longer
/// than 30 bytes, which needs a cut at 27 bytes to fall between characters.
pub fn format_status_table(manifest: &Manifest, format: Format) -> (r: Option<String>)
    requires
        format == Format::Text ==> routes_cuttable(manifest.pages@),
    ensures
        match format {
            Format::Json => r is None,
            Format::Text => r matches Some(t) && renders(
                join_lines(status_text_lines(manifest.pages@)),
                t@,
            ),
            Format::Markdown => r matches Some(t) && renders(
                join_lines(status_md_lines(manifest.pages@)),
                t@,
            ),
        },
{
    match format {
        Format::Json => None,
        Format::Text => Some(format_status_text(manifest)),
        Format::Markdown => Some(format_status_markdown(manifest)),
    }
}

// ---------------------------------------------------------------------------
// The audit report
// ---------------------------------------------------------------------------

/// The number of results that satisfy `f`.
pub open spec fn count_results(rs: Seq<AuditResult>, f: spec_fn(AuditResult) -> bool) -> nat
    decreases rs.len(),
{
    if rs.len() == 0 {
        0
    } else {
        count_results(rs.drop_last(), f) + if f(rs.last()) {
            1nat
        } else {
            0nat
        }
    }
}

/// Whether an audit found the page stale.
pub open spec fn is_stale(r: AuditResult) -> bool {
    r.new_status == Status::Stale
}

/// Whether the audit of the page failed.
pub open spec fn is_error(r: AuditResult) -> bool {
    r.error is Some
}

/// Whether the audit left the page unverified or found it missing.
pub open spec fn is_unverified(r: AuditResult) -> bool {
    r.new_status == Status::Unverified || r.new_status == Status::Missing
}

/// Whether the audit found the page current.
pub open spec fn is_current(r: AuditResult) -> bool {
    r.new_status == Status::Current
}

/// The lines of a stale page: its route and title, its changed sources, its
/// first five commits and how many more there are.
pub open spec fn stale_block(r: AuditResult) -> Seq<Seq<Piece>> {
    let lv = log_views(r.log_entries@);
    seq![
        seq![
            Piece::Plain("  "@),
            Piece::Paint(Style::Yellow, r.route@, 0),
            Piece::Plain(" — "@),
            Piece::Plain(r.title@),
        ],
    ] + item_lines("    changed: "@, strs(r.changed_sources@), ""@) + lv.take(
        if lv.len() < 5 {
            lv.len() as int
        } else {
            5
        },
    ).map_values(|e: (Seq<char>, Seq<char>)| commit_line("    "@, e)) + if lv.len() > 5 {
        seq![
            seq![
                Piece::Plain("    ... and "@),
                Piece::Plain(decimal((lv.len() - 5) as nat)),
                Piece::Plain(" more commits"@),
            ],
        ]
    } else {
        Seq::empty()
    }
}

/// The blocks of the stale pages, in order.
pub open spec fn stale_section(rs: Seq<AuditResult>) -> Seq<Seq<Piece>>
    decreases rs.len(),
{
    if rs.len() == 0 {
        Seq::empty()
    } else {
        stale_section(rs.drop_last()) + if is_stale(rs.last()) {
            stale_block(rs.last())
        } else {
            Seq::empty()
        }
    }
}

/// The line of a failed audit.
pub open spec fn error_line(r: AuditResult) -> Seq<Piece> {
    seq![
        Piece::Plain("  "@),
        Piece::Plain(r.route@),
        Piece::Plain(" — "@),
        Piece::Plain(
            match r.error {
                Some(e) => e@,
                None => "unknown error"@,
            },
        ),
    ]
}

/// The lines of the failed audits, in order.
pub open spec fn error_section(rs: Seq<AuditResult>) -> Seq<Seq<Piece>>
    decreases rs.len(),
{
    if rs.len() == 0 {
        Seq::empty()
    } else {
        error_section(rs.drop_last()) + if is_error(rs.last()) {
            seq![error_line(rs.last())]
        } else {
            Seq::empty()
        }
    }
}

/// The line of an unverified or missing page.
pub open spec fn unverified_line(r: AuditResult) -> Seq<Piece> {
    seq![
        Piece::Plain("  "@),
        Piece::Plain(r.route@),
        Piece::Plain(" ("@),
        Piece::Plain(status_name(r.new_status)),
        Piece::Plain(")"@),
    ]
}

/// The lines of the unverified and missing pages, in order.
pub open spec fn unverified_section(rs: Seq<AuditResult>) -> Seq<Seq<Piece>>
    decreases rs.len(),
{
    if rs.len() == 0 {
        Seq::empty()
    } else {
        unverified_section(rs.drop_last()) + if is_unverified(rs.last()) {
            seq![unverified_line(rs.last())]
        } else {
            Seq::empty()
        }
    }
}

/// The line of a related-page warning.
pub open spec fn warning_line(w: (Seq<char>, Seq<char>)) -> Seq<Piece> {
    seq![
        Piece::Plain("  "@),
        Piece::Plain(w.0),
        Piece::Plain(" — references stale "@),
        Piece::Plain(w.1),
    ]
}

/// A section: a heading line, its lines and a blank line, when it has
/// lines.
pub open spec fn section(heading: Seq<Piece>, ls: Seq<Seq<Piece>>) -> Seq<Seq<Piece>> {
    if ls.len() > 0 {
        seq![heading] + ls + seq![Seq::<Piece>::empty()]
    } else {
        Seq::empty()
    }
}

/// The summary line of the audit report.
pub open spec fn audit_summary_line(rs: Seq<AuditResult>) -> Seq<Piece> {
    seq![
        Piece::Paint(Style::Green, decimal(count_results(rs, |r: AuditResult| is_current(r))), 0),
        Piece::Plain(" current, "@),
        Piece::Paint(Style::Red, decimal(count_results(rs, |r: AuditResult| is_stale(r))), 0),
        Piece::Plain(" stale, "@),
        Piece::Paint(
            Style::Yellow,
            decimal(count_results(rs, |r: AuditResult| is_unverified(r))),
            0,
        ),
        Piece::Plain(" unverified/missing, "@),
        Piece::Plain(decimal(count_results(rs, |r: AuditResult| is_error(r)))),
        Piece::Plain(" errors"@),
    ]
}

/// The lines of the text audit report.
pub open spec fn audit_text_lines(s: AuditSummary) -> Seq<Seq<Piece>> {
    let rs = s.results@;
    section(stale_heading(), stale_section(rs)) + section(errors_heading(), error_section(rs))
        + section(
        review_heading(),
        warning_views(s.related_warnings@).map_values(|w: (Seq<char>, Seq<char>)| warning_line(w)),
    ) + section(unverified_heading(), unverified_section(rs)) + seq![audit_summary_line(rs)]
}

/// Writes the lines of a stale page.
fn write_stale_block(rep: &mut Report, r: &AuditResult)
    requires
        old(rep).wf(),
    ensures
        final(rep).wf(),
        final(rep).lines@ == old(rep).lines@ + stale_block(*r),
{
    let ghost start = rep.lines@;
    rep.line();
    rep.plain_str("  ");
    rep.painted(Style::Yellow, r.route.as_str(), 0);
    rep.plain_str(" — ");
    rep.plain_str(r.title.as_str());
    write_items(rep, "    changed: ", r.changed_sources.as_slice(), "");
    let n = r.log_entries.len();
    let shown = if n < 5 {
        n
    } else {
        5
    };
    write_commits(rep, "    ", r.log_entries.as_slice(), shown);
    if n > 5 {
        let ghost before = rep.lines@;
        rep.line();
        rep.plain_str("    ... and ");
        rep.plain(&decimal_of(n - 5));
        rep.plain_str(" more commits");
        assert(rep.lines@ =~~= before + seq![
            seq![
                Piece::Plain("    ... and "@),
                Piece::Plain(decimal((n - 5) as nat)),
                Piece::Plain(" more commits"@),
            ],
        ]);
    }
    assert(rep.lines@ =~~= start + stale_block(*r));
}

/// The number of results that the audit found stale, failed, unverified or
/// missing, and current.
pub(crate) fn audit_counts(rs: &Vec<AuditResult>) -> (c: (usize, usize, usize, usize))
    ensures
        c.0 == count_results(rs@, |r: AuditResult| is_stale(r)),
        c.1 == count_results(rs@, |r: AuditResult| is_error(r)),
        c.2 == count_results(rs@, |r: AuditResult| is_unverified(r)),
        c.3 == count_results(rs@, |r: AuditResult| is_current(r)),
{
    let mut c: (usize, usize, usize, usize) = (0, 0, 0, 0);
    let mut i: usize = 0;
    while i < rs.len()
        invariant
            i <= rs@.len(),
            c.0 == count_results(rs@.take(i as int), |r: AuditResult| is_stale(r)),
            c.1 == count_results(rs@.take(i as int), |r: AuditResult| is_error(r)),
            c.2 == count_results(rs@.take(i as int), |r: AuditResult| is_unverified(r)),
            c.3 == count_results(rs@.take(i as int), |r: AuditResult| is_current(r)),
            c.0 <= i,
            c.1 <= i,
            c.2 <= i,
            c.3 <= i,
        decreases rs.len() - i,
    {
        assert(rs@.take(i + 1).drop_last() =~= rs@.take(i as int));
        let r = &rs[i];
        if r.new_status == Status::Stale {
            c.0 = c.0 + 1;
        }
        if r.error.is_some() {
            c.1 = c.1 + 1;
        }
        if r.new_status == Status::Unverified || r.new_status == Status::Missing {
            c.2 = c.2 + 1;
        }
        if r.new_status == Status::Current {
            c.3 = c.3 + 1;
        }
        i = i + 1;
    }
    assert(rs@.take(rs@.len() as int) =~= rs@);
    c
}

/// Writes the stale section's lines.
fn write_stale_section(rep: &mut Report, rs: &Vec<AuditResult>)
    requires
        old(rep).wf(),
    ensures
        final(rep).wf(),
        final(rep).lines@ == old(rep).lines@ + stale_section(rs@),
{
    let ghost start = rep.lines@;
    let mut i: usize = 0;
    while i < rs.len()
        invariant
            i <= rs@.len(),
            rep.wf(),
            rep.lines@ == start + stale_section(rs@.take(i as int)),
        decreases rs.len() - i,
    {
        assert(rs@.take(i + 1).drop_last() =~= rs@.take(i as int));
        let ghost before = rep.lines@;
        if rs[i].new_status == Status::Stale {
            write_stale_block(rep, &rs[i]);
        }
        assert(rep.lines@ =~~= start + stale_section(rs@.take(i + 1)));
        i = i + 1;
    }
    assert(rs@.take(rs@.len() as int) =~= rs@);
}

/// Writes the error section's lines.
fn write_error_section(rep: &mut Report, rs: &Vec<AuditResult>)
    requires
        old(rep).wf(),
    ensures
        final(rep).wf(),
        final(rep).lines@ == old(rep).lines@ + error_section(rs@),
{
    let ghost start = rep.lines@;
    let mut i: usize = 0;
    while i < rs.len()
        invariant
            i <= rs@.len(),
            rep.wf(),
            rep.lines@ == start + error_section(rs@.take(i as int)),
        decreases rs.len() - i,
    {
        assert(rs@.take(i + 1).drop_last() =~= rs@.take(i as int));
        let ghost before = rep.lines@;
        match &rs[i].error {
            Some(e) => {
                rep.line();
                rep.plain_str("  ");
                rep.plain_str(rs[i].route.as_str());
                rep.plain_str(" — ");
                rep.plain_str(e.as_str());
                assert(rep.lines@ =~~= before.push(error_line(rs@[i as int])));
            },
            None => {},
        }
        assert(rep.lines@ =~~= start + error_section(rs@.take(i + 1)));
        i = i + 1;
    }
    assert(rs@.take(rs@.len() as int) =~= rs@);
}

/// Writes the unverified section's lines.
fn write_unverified_section(rep: &mut Report, rs: &Vec<AuditResult>)
    requires
        old(rep).wf(),
    ensures
        final(rep).wf(),
        final(rep).lines@ == old(rep).lines@ + unverified_section(rs@),
{
    let ghost start = rep.lines@;
    let mut i: usize = 0;
    while i < rs.len()
        invariant
            i <= rs@.len(),
            rep.wf(),
            rep.lines@ == start + unverified_section(rs@.take(i as int)),
        decreases rs.len() - i,
    {
        assert(rs@.take(i + 1).drop_last() =~= rs@.take(i as int));
        let ghost before = rep.lines@;
        let st = rs[i].new_status;
        if st == Status::Unverified || st == Status::Missing {
            rep.line();
            rep.plain_str("  ");
            rep.plain_str(rs[i].route.as_str());
            rep.plain_str(" (");
            let name = st.to_string();
            rep.plain_str(name.as_str());
            rep.plain_str(")");
            assert(rep.lines@ =~~= before.push(unverified_line(rs@[i as int])));
        }
        assert(rep.lines@ =~~= start + unverified_section(rs@.take(i + 1)));
        i = i + 1;
    }
    assert(rs@.take(rs@.len() as int) =~= rs@);
}

/// Writes the warning lines.
fn write_warnings(rep: &mut Report, ws: &Vec<RelatedWarning>)
    requires
        old(rep).wf(),
    ensures
        final(rep).wf(),
        final(rep).lines@ == old(rep).lines@ + warning_views(ws@).map_values(
            |w: (Seq<char>, Seq<char>)| warning_line(w),
        ),
{
    let ghost start = rep.lines@;
    let ghost wv = warning_views(ws@);
    let mut i: usize = 0;
    while i < ws.len()
        invariant
            i <= ws@.len(),
            wv == warning_views(ws@),
            rep.wf(),
            rep.lines@ == start + wv.take(i as int).map_values(
                |w: (Seq<char>, Seq<char>)| warning_line(w),
            ),
        decreases ws.len() - i,
    {
        let ghost before = rep.lines@;
        rep.line();
        rep.plain_str("  ");
        rep.plain_str(ws[i].route.as_str());
        rep.plain_str(" — references stale ");
        rep.plain_str(ws[i].stale_dependency.as_str());
        assert(wv[i as int] == (ws@[i as int].route@, ws@[i as int].stale_dependency@));
        assert(rep.lines@ =~~= before.push(warning_line(wv[i as int])));
        assert(wv.take(i + 1).map_values(|w: (Seq<char>, Seq<char>)| warning_line(w)) =~= wv.take(
            i as int,
        ).map_values(|w: (Seq<char>, Seq<char>)| warning_line(w)).push(warning_line(wv[i as int])));
        i = i + 1;
    }
    assert(wv.take(ws@.len() as int) =~= wv);
}

proof fn lemma_section_sizes(rs: Seq<AuditResult>)
    ensures
        stale_section(rs).len() > 0 <==> count_results(rs, |r: AuditResult| is_stale(r)) > 0,
        error_section(rs).len() == count_results(rs, |r: AuditResult| is_error(r)),
        unverified_section(rs).len() == count_results(rs, |r: AuditResult| is_unverified(r)),
    decreases rs.len(),
{
    if rs.len() > 0 {
        lemma_section_sizes(rs.drop_last());
    }
}

/// Writes a painted heading line.
fn write_heading(rep: &mut Report, st: Style, s: &str)
    requires
        old(rep).wf(),
    ensures
        final(rep).wf(),
        final(rep).lines@ == old(rep).lines@.push(seq![Piece::Paint(st, s@, 0)]),
{
    let ghost before = rep.lines@;
    rep.line();
    rep.painted(st, s, 0);
    assert(rep.lines@ =~~= before.push(seq![Piece::Paint(st, s@, 0)]));
}

/// Writes a painted number.
fn write_painted_number(rep: &mut Report, st: Style, n: usize)
    requires
        old(rep).wf(),
        old(rep).lines@.len() > 0,
    ensures
        final(rep).wf(),
        final(rep).lines@ == old(rep).lines@.update(
            old(rep).lines@.len() - 1,
            old(rep).lines@.last().push(Piece::Paint(st, decimal(n as nat), 0)),
        ),
{
    let t = string_of(&decimal_of(n));
    rep.painted(st, t.as_str(), 0);
}

/// The headings of the sections of the text audit report.
pub open spec fn stale_heading() -> Seq<Piece> {
    seq![Piece::Paint(Style::RedBold, "STALE (source changed since verification):"@, 0)]
}

pub open spec fn errors_heading() -> Seq<Piece> {
    seq![Piece::Paint(Style::RedBold, "ERRORS:"@, 0)]
}

pub open spec fn review_heading() -> Seq<Piece> {
    seq![Piece::Paint(Style::YellowBold, "REVIEW RECOMMENDED (related to stale pages):"@, 0)]
}

pub open spec fn unverified_heading() -> Seq<Piece> {
    seq![Piece::Paint(Style::Dimmed, "UNVERIFIED / MISSING:"@, 0)]
}

/// Writes the section of stale pages.
fn write_stale_part(rep: &mut Report, rs: &Vec<AuditResult>, n: usize)
    requires
        old(rep).wf(),
        n == count_results(rs@, |r: AuditResult| is_stale(r)),
    ensures
        final(rep).wf(),
        final(rep).lines@ == old(rep).lines@ + section(stale_heading(), stale_section(rs@)),
{
    proof {
        lemma_section_sizes(rs@);
    }
    let ghost start = rep.lines@;
    if n > 0 {
        write_heading(rep, Style::RedBold, "STALE (source changed since verification):");
        write_stale_section(rep, rs);
        write_blank(rep);
    }
    assert(rep.lines@ =~~= start + section(stale_heading(), stale_section(rs@)));
}

/// Writes the section of failed audits.
fn write_error_part(rep: &mut Report, rs: &Vec<AuditResult>, n: usize)
    requires
        old(rep).wf(),
        n == count_results(rs@, |r: AuditResult| is_error(r)),
    ensures
        final(rep).wf(),
        final(rep).lines@ == old(rep).lines@ + section(errors_heading(), error_section(rs@)),
{
    proof {
        lemma_section_sizes(rs@);
    }
    let ghost start = rep.lines@;
    if n > 0 {
        write_heading(rep, Style::RedBold, "ERRORS:");
        write_error_section(rep, rs);
        write_blank(rep);
    }
    assert(rep.lines@ =~~= start + section(errors_heading(), error_section(rs@)));
}

/// Writes the section of pages related to stale ones.
fn write_review_part(rep: &mut Report, ws: &Vec<RelatedWarning>)
    requires
        old(rep).wf(),
    ensures
        final(rep).wf(),
        final(rep).lines@ == old(rep).lines@ + section(
            review_heading(),
            warning_views(ws@).map_values(|w: (Seq<char>, Seq<char>)| warning_line(w)),
        ),
{
    let ghost start = rep.lines@;
    if ws.len() > 0 {
        write_heading(rep, Style::YellowBold, "REVIEW RECOMMENDED (related to stale pages):");
        write_warnings(rep, ws);
        write_blank(rep);
    }
    assert(rep.lines@ =~~= start + section(
        review_heading(),
        warning_views(ws@).map_values(|w: (Seq<char>, Seq<char>)| warning_line(w)),
    ));
}

/// Writes the section of unverified and missing pages.
fn write_unverified_part(rep: &mut Report, rs: &Vec<AuditResult>, n: usize)
    requires
        old(rep).wf(),
        n == count_results(rs@, |r: AuditResult| is_unverified(r)),
    ensures
        final(rep).wf(),
        final(rep).lines@ == old(rep).lines@ + section(unverified_heading(), unverified_section(rs@)),
{
    proof {
        lemma_section_sizes(rs@);
    }
    let ghost start = rep.lines@;
    if n > 0 {
        write_heading(rep, Style::Dimmed, "UNVERIFIED / MISSING:");
        write_unverified_section(rep, rs);
        write_blank(rep);
    }
    assert(rep.lines@ =~~= start + section(unverified_heading(), unverified_section(rs@)));
}

/// Writes the summary line of the audit.
fn write_audit_summary(rep: &mut Report, rs: &Vec<AuditResult>, c: (usize, usize, usize, usize))
    requires
        old(rep).wf(),
        c.0 == count_results(rs@, |r: AuditResult| is_stale(r)),
        c.1 == count_results(rs@, |r: AuditResult| is_error(r)),
        c.2 == count_results(rs@, |r: AuditResult| is_unverified(r)),
        c.3 == count_results(rs@, |r: AuditResult| is_current(r)),
    ensures
        final(rep).wf(),
        final(rep).lines@ == old(rep).lines@.push(audit_summary_line(rs@)),
{
    let ghost start = rep.lines@;
    rep.line();
    write_painted_number(rep, Style::Green, c.3);
    rep.plain_str(" current, ");
    write_painted_number(rep, Style::Red, c.0);
    rep.plain_str(" stale, ");
    write_painted_number(rep, Style::Yellow, c.2);
    rep.plain_str(" unverified/missing, ");
    rep.plain(&decimal_of(c.1));
    rep.plain_str(" errors");
    assert(rep.lines@ =~~= start.push(audit_summary_line(rs@)));
}

/// The audit as text: stale pages with their changes, failed audits,
/// pages related to stale ones, unverified and missing pages, and a summary.
fn format_audit_text(summary: &AuditSummary) -> (r: String)
    ensures
        renders(join_lines(audit_text_lines(*summary)), r@),
{
    let rs = &summary.results;
    let c = audit_counts(rs);
    let mut rep = Report::new();
    write_stale_part(&mut rep, rs, c.0);
    write_error_part(&mut rep, rs, c.1);
    write_review_part(&mut rep, &summary.related_warnings);
    write_unverified_part(&mut rep, rs, c.2);
    write_audit_summary(&mut rep, rs, c);
    assert(rep.lines@ =~~= audit_text_lines(*summary));
    rep.finish()
}

/// The Markdown lines of a stale page: route and title, then its changed
/// sources.
pub open spec fn stale_md_block(r: AuditResult) -> Seq<Seq<Piece>> {
    seq![
        seq![
            Piece::Plain("- **"@),
            Piece::Plain(r.route@),
            Piece::Plain("** — "@),
            Piece::Plain(r.title@),
        ],
    ] + item_lines("  - `"@, strs(r.changed_sources@), "`"@)
}

/// The Markdown blocks of the stale pages, in order.
pub open spec fn stale_md_section(rs: Seq<AuditResult>) -> Seq<Seq<Piece>>
    decreases rs.len(),
{
    if rs.len() == 0 {
        Seq::empty()
    } else {
        stale_md_section(rs.drop_last()) + if is_stale(rs.last()) {
            stale_md_block(rs.last())
        } else {
            Seq::empty()
        }
    }
}

/// The Markdown line of a related-page warning.
pub open spec fn warning_md_line(w: (Seq<char>, Seq<char>)) -> Seq<Piece> {
    seq![
        Piece::Plain("- **"@),
        Piece::Plain(w.0),
        Piece::Plain("** — references stale `"@),
        Piece::Plain(w.1),
        Piece::Plain("`"@),
    ]
}

/// The lines of the Markdown audit report.
pub open spec fn audit_md_lines(s: AuditSummary) -> Seq<Seq<Piece>> {
    let rs = s.results@;
    let n = count_results(rs, |r: AuditResult| is_stale(r));
    let ws = warning_views(s.related_warnings@);
    seq![seq![Piece::Plain("## Documentation Freshness Audit"@)], Seq::<Piece>::empty()] + (if n
        == 0 {
        seq![seq![Piece::Plain("All documented pages are current."@)]]
    } else {
        seq![
            seq![
                Piece::Plain("### Stale Pages ("@),
                Piece::Plain(decimal(n)),
                Piece::Plain(")"@),
            ],
            Seq::<Piece>::empty(),
        ] + stale_md_section(rs)
    }) + if ws.len() > 0 {
        seq![
            Seq::<Piece>::empty(),
            seq![Piece::Plain("### Review Recommended"@)],
            Seq::<Piece>::empty(),
        ] + ws.map_values(|w: (Seq<char>, Seq<char>)| warning_md_line(w))
    } else {
        Seq::empty()
    }
}

/// Writes the Markdown blocks of the stale pages.
fn write_stale_md_section(rep: &mut Report, rs: &Vec<AuditResult>)
    requires
        old(rep).wf(),
    ensures
        final(rep).wf(),
        final(rep).lines@ == old(rep).lines@ + stale_md_section(rs@),
{
    let ghost start = rep.lines@;
    let mut i: usize = 0;
    while i < rs.len()
        invariant
            i <= rs@.len(),
            rep.wf(),
            rep.lines@ == start + stale_md_section(rs@.take(i as int)),
        decreases rs.len() - i,
    {
        assert(rs@.take(i + 1).drop_last() =~= rs@.take(i as int));
        let ghost before = rep.lines@;
        if rs[i].new_status == Status::Stale {
            rep.line();
            rep.plain_str("- **");
            rep.plain_str(rs[i].route.as_str());
            rep.plain_str("** — ");
            rep.plain_str(rs[i].title.as_str());
            write_items(rep, "  - `", rs[i].changed_sources.as_slice(), "`");
            assert(rep.lines@ =~~= before + stale_md_block(rs@[i as int]));
        }
        assert(rep.lines@ =~~= start + stale_md_section(rs@.take(i + 1)));
        i = i + 1;
    }
    assert(rs@.take(rs@.len() as int) =~= rs@);
}

/// Writes the Markdown warning lines.
fn write_md_warnings(rep: &mut Report, ws: &Vec<RelatedWarning>)
    requires
        old(rep).wf(),
    ensures
        final(rep).wf(),
        final(rep).lines@ == old(rep).lines@ + warning_views(ws@).map_values(
            |w: (Seq<char>, Seq<char>)| warning_md_line(w),
        ),
{
    let ghost start = rep.lines@;
    let ghost wv = warning_views(ws@);
    let mut i: usize = 0;
    while i < ws.len()
        invariant
            i <= ws@.len(),
            wv == warning_views(ws@),
            rep.wf(),
            rep.lines@ == start + wv.take(i as int).map_values(
                |w: (Seq<char>, Seq<char>)| warning_md_line(w),
            ),
        decreases ws.len() - i,
    {
        let ghost before = rep.lines@;
        rep.line();
        rep.plain_str("- **");
        rep.plain_str(ws[i].route.as_str());
        rep.plain_str("** — references stale `");
        rep.plain_str(ws[i].stale_dependency.as_str());
        rep.plain_str("`");
        assert(wv[i as int] == (ws@[i as int].route@, ws@[i as int].stale_dependency@));
        assert(rep.lines@ =~~= before.push(warning_md_line(wv[i as int])));
        assert(wv.take(i + 1).map_values(|w: (Seq<char>, Seq<char>)| warning_md_line(w))
            =~= wv.take(i as int).map_values(|w: (Seq<char>, Seq<char>)| warning_md_line(w)).push(
            warning_md_line(wv[i as int]),
        ));
        i = i + 1;
    }
    assert(wv.take(ws@.len() as int) =~= wv);
}

/// The audit as Markdown: the stale pages with their changed sources, and
/// the pages related to stale ones.
fn format_audit_markdown(summary: &AuditSummary) -> (r: String)
    ensures
        renders(join_lines(audit_md_lines(*summary)), r@),
{
    let rs = &summary.results;
    let c = audit_counts(rs);
    let mut rep = Report::new();
    write_line(&mut rep, "## Documentation Freshness Audit");
    write_blank(&mut rep);
    let ghost l0 = rep.lines@;
    if c.0 == 0 {
        write_line(&mut rep, "All documented pages are current.");
    } else {
        let ghost before = rep.lines@;
        rep.line();
        rep.plain_str("### Stale Pages (");
        rep.plain(&decimal_of(c.0));
        rep.plain_str(")");
        write_blank(&mut rep);
        assert(rep.lines@ =~~= before + seq![
            seq![
                Piece::Plain("### Stale Pages ("@),
                Piece::Plain(decimal(c.0 as nat)),
                Piece::Plain(")"@),
            ],
            Seq::<Piece>::empty(),
        ]);
        write_stale_md_section(&mut rep, rs);
    }
    let ghost l1 = rep.lines@;
    if summary.related_warnings.len() > 0 {
        write_blank(&mut rep);
        write_line(&mut rep, "### Review Recommended");
        write_blank(&mut rep);
        write_md_warnings(&mut rep, &summary.related_warnings);
    }
    assert(rep.lines@ =~~= audit_md_lines(*summary));
    rep.finish()
}

/// The audit report in the given format: `None` for JSON, which the
/// application writes with `serde_json`.
pub fn format_audit(summary: &AuditSummary, format: Format) -> (r: Option<String>)
    ensures
        match format {
            Format::Json => r is None,
            Format::Text => r matches Some(t) && renders(join_lines(audit_text_lines(*summary)), t@),
            Format::Markdown => r matches Some(t) && renders(
                join_lines(audit_md_lines(*summary)),
                t@,
            ),
        },
{
    match format {
        Format::Json => None,
        Format::Text => Some(format_audit_text(summary)),
        Format::Markdown => Some(format_audit_markdown(summary)),
    }
}

// ---------------------------------------------------------------------------
// The coverage report
// ---------------------------------------------------------------------------

/// A count in a heading: `title (n):`.
pub open spec fn counted(title: Seq<char>, n: nat) -> Seq<char> {
    title + " ("@ + decimal(n) + "):"@
}

/// The line of an orphan page.
pub open spec fn orphan_page_line(o: (Seq<char>, Seq<char>)) -> Seq<Piece> {
    seq![Piece::Plain("  "@), Piece::Plain(o.0), Piece::Plain(" — "@), Piece::Plain(o.1)]
}

/// The line of a shared source.
pub open spec fn shared_line(s: (Seq<char>, Seq<Seq<char>>)) -> Seq<Piece> {
    seq![
        Piece::Plain("  "@),
        Piece::Plain(s.0),
        Piece::Plain(" ("@),
        Piece::Plain(join(s.1, ", "@)),
        Piece::Plain(")"@),
    ]
}

/// The lines of the orphan concepts of one file: the file, then each of its
/// orphans in order.
pub open spec fn orphans_of_file(os: Seq<(Seq<char>, Seq<char>, Seq<char>)>, f: Seq<char>) -> Seq<
    Seq<Piece>,
>
    decreases os.len(),
{
    if os.len() == 0 {
        Seq::empty()
    } else {
        orphans_of_file(os.drop_last(), f) + if os.last().2 == f {
            seq![
                seq![
                    Piece::Plain("    "@),
                    Piece::Plain(os.last().0),
                    Piece::Plain(" ("@),
                    Piece::Plain(os.last().1),
                    Piece::Plain(")"@),
                ],
            ]
        } else {
            Seq::empty()
        }
    }
}

/// The orphan concepts grouped by file, the files in the given order.
pub open spec fn grouped_orphans(
    files: Seq<Seq<char>>,
    os: Seq<(Seq<char>, Seq<char>, Seq<char>)>,
) -> Seq<Seq<Piece>>
    decreases files.len(),
{
    if files.len() == 0 {
        Seq::empty()
    } else {
        grouped_orphans(files.drop_last(), os) + seq![
            seq![Piece::Plain("  "@), Piece::Plain(files.last()), Piece::Plain(":"@)],
        ] + orphans_of_file(os, files.last())
    }
}

/// Whether `files` are the files of the orphans, each once, in increasing
/// order.
pub open spec fn orphan_files(files: Seq<Seq<char>>, os: Seq<(Seq<char>, Seq<char>, Seq<char>)>) -> bool {
    &&& crate::text::strictly_sorted(files)
    &&& forall|f: Seq<char>|
        files.contains(f) <==> exists|i: int| 0 <= i < os.len() && (#[trigger] os[i]).2 == f
}

/// The lines about concepts at the end of the text coverage report.
pub open spec fn concept_tail(cs: ConceptCoverageStats, files: Seq<Seq<char>>) -> Seq<Seq<Piece>> {
    let os = orphan_concept_views(cs.orphans@);
    (if os.len() > 0 {
        seq![seq![Piece::Paint(Style::YellowBold, counted("ORPHAN CONCEPTS"@, os.len()), 0)]]
            + grouped_orphans(files, os) + seq![Seq::<Piece>::empty()]
    } else {
        Seq::empty()
    }) + seq![
        seq![
            Piece::Plain(decimal(cs.total as nat)),
            Piece::Plain(" concepts in "@),
            Piece::Plain(decimal(files.len())),
            Piece::Plain(" source files; "@),
            Piece::Plain(decimal(cs.covered as nat)),
            Piece::Plain(" covered by docs, "@),
            Piece::Plain(decimal(os.len())),
            Piece::Plain(" orphaned"@),
        ],
    ]
}

/// The counts at the head of the coverage reports.
pub open spec fn coverage_head(r: CoverageReport, pct: Seq<char>, cpct: Seq<char>) -> Seq<Seq<Piece>> {
    let s = r.stats;
    seq![
        seq![
            Piece::Plain("Coverage: "@),
            Piece::Plain(decimal(s.documented_files as nat)),
            Piece::Plain("/"@),
            Piece::Plain(decimal(s.total_source_files as nat)),
            Piece::Plain(" source files documented ("@),
            Piece::Plain(pct),
            Piece::Plain("%)"@),
        ],
    ] + (match r.concept_stats {
        Some(cs) => seq![
            seq![
                Piece::Plain("Concepts: "@),
                Piece::Plain(decimal(cs.covered as nat)),
                Piece::Plain("/"@),
                Piece::Plain(decimal(cs.total as nat)),
                Piece::Plain(" covered ("@),
                Piece::Plain(cpct),
                Piece::Plain("%)"@),
            ],
        ],
        None => Seq::empty(),
    }) + seq![
        seq![
            Piece::Plain("Pages: "@),
            Piece::Plain(decimal(s.pages_with_sources as nat)),
            Piece::Plain("/"@),
            Piece::Plain(decimal(s.total_pages as nat)),
            Piece::Plain(" have source mappings"@),
        ],
        Seq::<Piece>::empty(),
    ]
}

/// The lines of the text coverage report; `pct` and `cpct` are the
/// percentages of documented files and covered concepts as the report
/// shows them, `files` the files of the orphan concepts.
pub open spec fn coverage_text_lines(
    r: CoverageReport,
    pct: Seq<char>,
    cpct: Seq<char>,
    files: Seq<Seq<char>>,
) -> Seq<Seq<Piece>> {
    let und = strs(r.undocumented@);
    let ops = r.orphan_pages@.map_values(|o: OrphanPage| orphan_page_view(o));
    let sh = r.shared_sources@.map_values(|x: SharedSource| shared_view(x));
    coverage_head(r, pct, cpct) + section(
        seq![Piece::Paint(Style::YellowBold, counted("UNDOCUMENTED"@, und.len()), 0)],
        item_lines("  "@, und, ""@),
    ) + section(
        seq![Piece::Paint(Style::RedBold, counted("ORPHAN PAGES"@, ops.len()), 0)],
        ops.map_values(|o: (Seq<char>, Seq<char>)| orphan_page_line(o)),
    ) + section(
        seq![Piece::Paint(Style::Dimmed, counted("SHARED SOURCES"@, sh.len()), 0)],
        sh.map_values(|x: (Seq<char>, Seq<Seq<char>>)| shared_line(x)),
    ) + match r.concept_stats {
        Some(cs) => concept_tail(cs, files),
        None => Seq::empty(),
    }
}

/// The text `title (n):`.
fn counted_text(title: &str, n: usize) -> (r: String)
    ensures
        r@ == counted(title@, n as nat),
{
    let mut v = chars_of(title);
    push_str(&mut v, " (");
    push_all(&mut v, &decimal_of(n));
    push_str(&mut v, "):");
    assert(v@ =~= counted(title@, n as nat));
    string_of(&v)
}

/// Writes a painted heading `title (n):`.
fn write_counted_heading(rep: &mut Report, st: Style, title: &str, n: usize)
    requires
        old(rep).wf(),
    ensures
        final(rep).wf(),
        final(rep).lines@ == old(rep).lines@.push(seq![Piece::Paint(st, counted(title@, n as nat), 0)]),
{
    let t = counted_text(title, n);
    write_heading(rep, st, t.as_str());
}

/// Writes the undocumented files section.
fn write_undocumented_part(rep: &mut Report, und: &Vec<String>)
    requires
        old(rep).wf(),
    ensures
        final(rep).wf(),
        final(rep).lines@ == old(rep).lines@ + section(
            seq![Piece::Paint(Style::YellowBold, counted("UNDOCUMENTED"@, und@.len()), 0)],
            item_lines("  "@, strs(und@), ""@),
        ),
{
    let ghost start = rep.lines@;
    if und.len() > 0 {
        write_counted_heading(rep, Style::YellowBold, "UNDOCUMENTED", und.len());
        write_items(rep, "  ", und.as_slice(), "");
        write_blank(rep);
    }
    assert(rep.lines@ =~~= start + section(
        seq![Piece::Paint(Style::YellowBold, counted("UNDOCUMENTED"@, und@.len()), 0)],
        item_lines("  "@, strs(und@), ""@),
    ));
}

/// Writes the orphan pages section.
fn write_orphan_pages_part(rep: &mut Report, ops: &Vec<OrphanPage>)
    requires
        old(rep).wf(),
    ensures
        final(rep).wf(),
        final(rep).lines@ == old(rep).lines@ + section(
            seq![Piece::Paint(Style::RedBold, counted("ORPHAN PAGES"@, ops@.len()), 0)],
            ops@.map_values(|o: OrphanPage| orphan_page_view(o)).map_values(
                |o: (Seq<char>, Seq<char>)| orphan_page_line(o),
            ),
        ),
{
    let ghost start = rep.lines@;
    let ghost ov = ops@.map_values(|o: OrphanPage| orphan_page_view(o));
    let ghost target = ov.map_values(|o: (Seq<char>, Seq<char>)| orphan_page_line(o));
    if ops.len() > 0 {
        write_counted_heading(rep, Style::RedBold, "ORPHAN PAGES", ops.len());
        let ghost mid = rep.lines@;
        let mut i: usize = 0;
        while i < ops.len()
            invariant
                i <= ops@.len(),
                rep.wf(),
                ov == ops@.map_values(|o: OrphanPage| orphan_page_view(o)),
                target == ov.map_values(|o: (Seq<char>, Seq<char>)| orphan_page_line(o)),
                rep.lines@ == mid + target.take(i as int),
            decreases ops.len() - i,
        {
            let ghost before = rep.lines@;
            rep.line();
            rep.plain_str("  ");
            rep.plain_str(ops[i].route.as_str());
            rep.plain_str(" — ");
            rep.plain_str(ops[i].reason.as_str());
            assert(target[i as int] == orphan_page_line(ov[i as int]));
            assert(rep.lines@ =~~= before.push(target[i as int]));
            assert(target.take(i + 1) =~= target.take(i as int).push(target[i as int]));
            i = i + 1;
        }
        assert(target.take(ops@.len() as int) =~= target);
        write_blank(rep);
    }
    assert(rep.lines@ =~~= start + section(
        seq![Piece::Paint(Style::RedBold, counted("ORPHAN PAGES"@, ops@.len()), 0)],
        target,
    ));
}

/// Writes the shared sources section.
fn write_shared_part(rep: &mut Report, sh: &Vec<SharedSource>)
    requires
        old(rep).wf(),
    ensures
        final(rep).wf(),
        final(rep).lines@ == old(rep).lines@ + section(
            seq![Piece::Paint(Style::Dimmed, counted("SHARED SOURCES"@, sh@.len()), 0)],
            sh@.map_values(|x: SharedSource| shared_view(x)).map_values(
                |x: (Seq<char>, Seq<Seq<char>>)| shared_line(x),
            ),
        ),
{
    let ghost start = rep.lines@;
    let ghost sv = sh@.map_values(|x: SharedSource| shared_view(x));
    let ghost target = sv.map_values(|x: (Seq<char>, Seq<Seq<char>>)| shared_line(x));
    if sh.len() > 0 {
        write_counted_heading(rep, Style::Dimmed, "SHARED SOURCES", sh.len());
        let ghost mid = rep.lines@;
        let mut i: usize = 0;
        while i < sh.len()
            invariant
                i <= sh@.len(),
                rep.wf(),
                sv == sh@.map_values(|x: SharedSource| shared_view(x)),
                target == sv.map_values(|x: (Seq<char>, Seq<Seq<char>>)| shared_line(x)),
                rep.lines@ == mid + target.take(i as int),
            decreases sh.len() - i,
        {
            let ghost before = rep.lines@;
            rep.line();
            rep.plain_str("  ");
            rep.plain_str(sh[i].path.as_str());
            rep.plain_str(" (");
            let joined = crate::text::join_strings(&sh[i].pages, ", ");
            rep.plain(&joined);
            rep.plain_str(")");
            assert(target[i as int] == shared_line(sv[i as int]));
            assert(rep.lines@ =~~= before.push(target[i as int]));
            assert(target.take(i + 1) =~= target.take(i as int).push(target[i as int]));
            i = i + 1;
        }
        assert(target.take(sh@.len() as int) =~= target);
        write_blank(rep);
    }
    assert(rep.lines@ =~~= start + section(
        seq![Piece::Paint(Style::Dimmed, counted("SHARED SOURCES"@, sh@.len()), 0)],
        target,
    ));
}

/// Writes the orphan concepts of one file.
fn write_orphans_of_file(rep: &mut Report, os: &Vec<OrphanConcept>, f: &str)
    requires
        old(rep).wf(),
    ensures
        final(rep).wf(),
        final(rep).lines@ == old(rep).lines@ + orphans_of_file(orphan_concept_views(os@), f@),
{
    let ghost start = rep.lines@;
    let ghost ov = orphan_concept_views(os@);
    let mut j: usize = 0;
    while j < os.len()
        invariant
            j <= os@.len(),
            rep.wf(),
            ov == orphan_concept_views(os@),
            rep.lines@ == start + orphans_of_file(ov.take(j as int), f@),
        decreases os.len() - j,
    {
        assert(ov.take(j + 1).drop_last() =~= ov.take(j as int));
        assert(ov[j as int] == orphan_concept_view(os@[j as int]));
        let ghost before = rep.lines@;
        if crate::text::str_eq(os[j].source_file.as_str(), f) {
            rep.line();
            rep.plain_str("    ");
            rep.plain_str(os[j].name.as_str());
            rep.plain_str(" (");
            rep.plain_str(os[j].kind.as_str());
            rep.plain_str(")");
        }
        assert(rep.lines@ =~~= start + orphans_of_file(ov.take(j + 1), f@));
        j = j + 1;
    }
    assert(ov.take(os@.len() as int) =~= ov);
}

/// The files of the orphans, each once, in increasing order.
fn orphan_file_list(os: &Vec<OrphanConcept>) -> (r: Vec<String>)
    ensures
        orphan_files(strs(r@), orphan_concept_views(os@)),
{
    let ghost ov = orphan_concept_views(os@);
    let mut all: Vec<String> = Vec::new();
    let mut j: usize = 0;
    while j < os.len()
        invariant
            j <= os@.len(),
            ov == orphan_concept_views(os@),
            forall|f: Seq<char>|
                strs(all@).contains(f) <==> exists|i: int| 0 <= i < j && (#[trigger] ov[i]).2 == f,
        decreases os.len() - j,
    {
        let ghost before = all@;
        let x = crate::text::owned(os[j].source_file.as_str());
        all.push(x);
        proof {
            crate::text::lemma_strs_push(before, x);
            assert(ov[j as int] == orphan_concept_view(os@[j as int]));
            assert forall|f: Seq<char>|
                strs(all@).contains(f) <==> exists|i: int| 0 <= i < j + 1 && (#[trigger] ov[i]).2 == f by {
                crate::text::lemma_push_contains(strs(before), x@, f);
            }
        }
        j = j + 1;
    }
    crate::text::sorted_unique(&all)
}

/// Writes the lines about concepts at the end of the text coverage report.
fn write_concept_tail(rep: &mut Report, cs: &ConceptCoverageStats) -> (files: Ghost<
    Seq<Seq<char>>,
>)
    requires
        old(rep).wf(),
    ensures
        final(rep).wf(),
        orphan_files(files@, orphan_concept_views(cs.orphans@)),
        final(rep).lines@ == old(rep).lines@ + concept_tail(*cs, files@),
{
    let ghost start = rep.lines@;
    let ghost ov = orphan_concept_views(cs.orphans@);
    let files = orphan_file_list(&cs.orphans);
    let ghost fv = strs(files@);
    if cs.orphans.len() > 0 {
        write_counted_heading(rep, Style::YellowBold, "ORPHAN CONCEPTS", cs.orphans.len());
        let ghost mid = rep.lines@;
        let mut k: usize = 0;
        while k < files.len()
            invariant
                k <= files@.len(),
                rep.wf(),
                fv == strs(files@),
                ov == orphan_concept_views(cs.orphans@),
                rep.lines@ == mid + grouped_orphans(fv.take(k as int), ov),
            decreases files.len() - k,
        {
            assert(fv.take(k + 1).drop_last() =~= fv.take(k as int));
            let ghost before = rep.lines@;
            rep.line();
            rep.plain_str("  ");
            rep.plain_str(files[k].as_str());
            rep.plain_str(":");
            write_orphans_of_file(rep, &cs.orphans, files[k].as_str());
            assert(rep.lines@ =~~= mid + grouped_orphans(fv.take(k + 1), ov));
            k = k + 1;
        }
        assert(fv.take(files@.len() as int) =~= fv);
        write_blank(rep);
    }
    let ghost l1 = rep.lines@;
    rep.line();
    rep.plain(&decimal_of(cs.total));
    rep.plain_str(" concepts in ");
    rep.plain(&decimal_of(files.len()));
    rep.plain_str(" source files; ");
    rep.plain(&decimal_of(cs.covered));
    rep.plain_str(" covered by docs, ");
    rep.plain(&decimal_of(cs.orphans.len()));
    rep.plain_str(" orphaned");
    assert(rep.lines@ =~~= start + concept_tail(*cs, fv));
    Ghost(fv)
}

/// Writes the first lines of the text coverage report.
fn write_coverage_head(rep: &mut Report, r: &CoverageReport, pct: &str, cpct: &str)
    requires
        old(rep).wf(),
        old(rep).lines@.len() == 0,
    ensures
        final(rep).wf(),
        final(rep).lines@ == coverage_head(*r, pct@, cpct@),
{
    let s = &r.stats;
    rep.line();
    rep.plain_str("Coverage: ");
    rep.plain(&decimal_of(s.documented_files));
    rep.plain_str("/");
    rep.plain(&decimal_of(s.total_source_files));
    rep.plain_str(" source files documented (");
    rep.plain_str(pct);
    rep.plain_str("%)");
    match &r.concept_stats {
        Some(cs) => {
            rep.line();
            rep.plain_str("Concepts: ");
            rep.plain(&decimal_of(cs.covered));
            rep.plain_str("/");
            rep.plain(&decimal_of(cs.total));
            rep.plain_str(" covered (");
            rep.plain_str(cpct);
            rep.plain_str("%)");
        },
        None => {},
    }
    rep.line();
    rep.plain_str("Pages: ");
    rep.plain(&decimal_of(s.pages_with_sources));
    rep.plain_str("/");
    rep.plain(&decimal_of(s.total_pages));
    rep.plain_str(" have source mappings");
    write_blank(rep);
    assert(rep.lines@ =~~= coverage_head(*r, pct@, cpct@));
}

/// The coverage as text: the counts, then the undocumented files, the orphan
/// pages, the shared sources and the orphan concepts by file.  `pct` and
/// `cpct` are the percentages of documented files and of covered concepts
/// as the report shows them.
fn format_coverage_text(r: &CoverageReport, pct: &str, cpct: &str) -> (out: String)
    ensures
        exists|files: Seq<Seq<char>>|
            (r.concept_stats matches Some(cs) ==> orphan_files(
                files,
                orphan_concept_views(cs.orphans@),
            )) && renders(join_lines(coverage_text_lines(*r, pct@, cpct@, files)), out@),
{
    let mut rep = Report::new();
    write_coverage_head(&mut rep, r, pct, cpct);
    write_undocumented_part(&mut rep, &r.undocumented);
    write_orphan_pages_part(&mut rep, &r.orphan_pages);
    write_shared_part(&mut rep, &r.shared_sources);
    let ghost l0 = rep.lines@;
    let ghost mut files: Seq<Seq<char>> = Seq::empty();
    match &r.concept_stats {
        Some(cs) => {
            let Ghost(fs) = write_concept_tail(&mut rep, cs);
            proof {
                files = fs;
            }
        },
        None => {},
    }
    assert(rep.lines@ =~~= coverage_text_lines(*r, pct@, cpct@, files));
    rep.finish()
}

/// The Markdown line of an orphan concept.
pub open spec fn orphan_concept_md_line(o: (Seq<char>, Seq<char>, Seq<char>)) -> Seq<Piece> {
    seq![
        Piece::Plain("- `"@),
        Piece::Plain(o.0),
        Piece::Plain("` ("@),
        Piece::Plain(o.1),
        Piece::Plain(") in `"@),
        Piece::Plain(o.2),
        Piece::Plain("`"@),
    ]
}

/// The counts at the head of the Markdown coverage report.
pub open spec fn coverage_md_head(r: CoverageReport, pct: Seq<char>, cpct: Seq<char>) -> Seq<
    Seq<Piece>,
> {
    let s = r.stats;
    seq![
        seq![Piece::Plain("## Coverage Report"@)],
        Seq::<Piece>::empty(),
        seq![
            Piece::Plain("- **"@),
            Piece::Plain(decimal(s.documented_files as nat)),
            Piece::Plain("/"@),
            Piece::Plain(decimal(s.total_source_files as nat)),
            Piece::Plain("** source files documented ("@),
            Piece::Plain(pct),
            Piece::Plain("%)"@),
        ],
    ] + (match r.concept_stats {
        Some(cs) => seq![
            seq![
                Piece::Plain("- **"@),
                Piece::Plain(decimal(cs.covered as nat)),
                Piece::Plain("/"@),
                Piece::Plain(decimal(cs.total as nat)),
                Piece::Plain("** concepts covered ("@),
                Piece::Plain(cpct),
                Piece::Plain("%)"@),
            ],
        ],
        None => Seq::empty(),
    }) + seq![
        seq![
            Piece::Plain("- **"@),
            Piece::Plain(decimal(s.pages_with_sources as nat)),
            Piece::Plain("/"@),
            Piece::Plain(decimal(s.total_pages as nat)),
            Piece::Plain("** pages have source mappings"@),
        ],
    ]
}

/// A Markdown subsection: a blank line, `title` with a count, a blank line
/// and the lines, when there are lines.
pub open spec fn md_subsection(title: Seq<char>, ls: Seq<Seq<Piece>>) -> Seq<Seq<Piece>> {
    if ls.len() > 0 {
        seq![
            Seq::<Piece>::empty(),
            seq![Piece::Plain(title), Piece::Plain(decimal(ls.len())), Piece::Plain(")"@)],
            Seq::<Piece>::empty(),
        ] + ls
    } else {
        Seq::empty()
    }
}

/// The lines of the Markdown coverage report.
pub open spec fn coverage_md_lines(r: CoverageReport, pct: Seq<char>, cpct: Seq<char>) -> Seq<
    Seq<Piece>,
> {
    coverage_md_head(r, pct, cpct) + md_subsection(
        "### Undocumented Files ("@,
        item_lines("- `"@, strs(r.undocumented@), "`"@),
    ) + match r.concept_stats {
        Some(cs) => md_subsection(
            "### Orphan Concepts ("@,
            orphan_concept_views(cs.orphans@).map_values(
                |o: (Seq<char>, Seq<char>, Seq<char>)| orphan_concept_md_line(o),
            ),
        ),
        None => Seq::empty(),
    }
}

/// Writes the head of the Markdown coverage report.
fn write_coverage_md_head(rep: &mut Report, r: &CoverageReport, pct: &str, cpct: &str)
    requires
        old(rep).wf(),
        old(rep).lines@.len() == 0,
    ensures
        final(rep).wf(),
        final(rep).lines@ == coverage_md_head(*r, pct@, cpct@),
{
    let s = &r.stats;
    write_line(rep, "## Coverage Report");
    write_blank(rep);
    rep.line();
    rep.plain_str("- **");
    rep.plain(&decimal_of(s.documented_files));
    rep.plain_str("/");
    rep.plain(&decimal_of(s.total_source_files));
    rep.plain_str("** source files documented (");
    rep.plain_str(pct);
    rep.plain_str("%)");
    match &r.concept_stats {
        Some(cs) => {
            rep.line();
            rep.plain_str("- **");
            rep.plain(&decimal_of(cs.covered));
            rep.plain_str("/");
            rep.plain(&decimal_of(cs.total));
            rep.plain_str("** concepts covered (");
            rep.plain_str(cpct);
            rep.plain_str("%)");
        },
        None => {},
    }
    rep.line();
    rep.plain_str("- **");
    rep.plain(&decimal_of(s.pages_with_sources));
    rep.plain_str("/");
    rep.plain(&decimal_of(s.total_pages));
    rep.plain_str("** pages have source mappings");
    assert(rep.lines@ =~~= coverage_md_head(*r, pct@, cpct@));
}

/// Writes a Markdown subheading `### title (n)` after a blank line, then a
/// blank line.
fn write_md_counted(rep: &mut Report, title: &str, n: usize)
    requires
        old(rep).wf(),
    ensures
        final(rep).wf(),
        final(rep).lines@ == old(rep).lines@ + seq![
            Seq::<Piece>::empty(),
            seq![Piece::Plain(title@), Piece::Plain(decimal(n as nat)), Piece::Plain(")"@)],
            Seq::<Piece>::empty(),
        ],
{
    let ghost start = rep.lines@;
    write_blank(rep);
    rep.line();
    rep.plain_str(title);
    rep.plain(&decimal_of(n));
    rep.plain_str(")");
    write_blank(rep);
    assert(rep.lines@ =~~= start + seq![
        Seq::<Piece>::empty(),
        seq![Piece::Plain(title@), Piece::Plain(decimal(n as nat)), Piece::Plain(")"@)],
        Seq::<Piece>::empty(),
    ]);
}

/// Writes the Markdown lines of the orphan concepts.
fn write_orphan_concepts_md(rep: &mut Report, os: &Vec<OrphanConcept>)
    requires
        old(rep).wf(),
    ensures
        final(rep).wf(),
        final(rep).lines@ == old(rep).lines@ + orphan_concept_views(os@).map_values(
            |o: (Seq<char>, Seq<char>, Seq<char>)| orphan_concept_md_line(o),
        ),
{
    let ghost start = rep.lines@;
    let ghost target = orphan_concept_views(os@).map_values(
        |o: (Seq<char>, Seq<char>, Seq<char>)| orphan_concept_md_line(o),
    );
    let mut i: usize = 0;
    while i < os.len()
        invariant
            i <= os@.len(),
            rep.wf(),
            target == orphan_concept_views(os@).map_values(
                |o: (Seq<char>, Seq<char>, Seq<char>)| orphan_concept_md_line(o),
            ),
            rep.lines@ == start + target.take(i as int),
        decreases os.len() - i,
    {
        let ghost before = rep.lines@;
        rep.line();
        rep.plain_str("- `");
        rep.plain_str(os[i].name.as_str());
        rep.plain_str("` (");
        rep.plain_str(os[i].kind.as_str());
        rep.plain_str(") in `");
        rep.plain_str(os[i].source_file.as_str());
        rep.plain_str("`");
        assert(target[i as int] == orphan_concept_md_line(orphan_concept_view(os@[i as int])));
        assert(rep.lines@ =~~= before.push(target[i as int]));
        assert(target.take(i + 1) =~= target.take(i as int).push(target[i as int]));
        i = i + 1;
    }
    assert(target.take(os@.len() as int) =~= target);
}

/// The coverage as Markdown: the counts, the undocumented files and the
/// orphan concepts.
fn format_coverage_markdown(r: &CoverageReport, pct: &str, cpct: &str) -> (out: String)
    ensures
        renders(join_lines(coverage_md_lines(*r, pct@, cpct@)), out@),
{
    let mut rep = Report::new();
    write_coverage_md_head(&mut rep, r, pct, cpct);
    let ghost l0 = rep.lines@;
    let ghost ul = item_lines("- `"@, strs(r.undocumented@), "`"@);
    if r.undocumented.len() > 0 {
        write_md_counted(&mut rep, "### Undocumented Files (", r.undocumented.len());
        write_items(&mut rep, "- `", r.undocumented.as_slice(), "`");
    }
    assert(rep.lines@ =~~= l0 + md_subsection("### Undocumented Files ("@, ul));
    let ghost l1 = rep.lines@;
    match &r.concept_stats {
        Some(cs) => {
            let ghost ol = orphan_concept_views(cs.orphans@).map_values(
                |o: (Seq<char>, Seq<char>, Seq<char>)| orphan_concept_md_line(o),
            );
            if cs.orphans.len() > 0 {
                write_md_counted(&mut rep, "### Orphan Concepts (", cs.orphans.len());
                write_orphan_concepts_md(&mut rep, &cs.orphans);
            }
            assert(rep.lines@ =~~= l1 + md_subsection("### Orphan Concepts ("@, ol));
        },
        None => {},
    }
    assert(rep.lines@ =~~= coverage_md_lines(*r, pct@, cpct@));
    rep.finish()
}

/// The coverage report in the given format: `None` for JSON, which the
/// application writes with `serde_json`.  `pct` and `cpct` are the
/// percentages of documented files and of covered concepts as the report
/// shows them.
pub fn format_coverage(report: &CoverageReport, format: Format, pct: &str, cpct: &str) -> (r:
    Option<String>)
    ensures
        match format {
            Format::Json => r is None,
            Format::Text => r matches Some(t) && exists|files: Seq<Seq<char>>|
                (report.concept_stats matches Some(cs) ==> orphan_files(
                    files,
                    orphan_concept_views(cs.orphans@),
                )) && renders(join_lines(coverage_text_lines(*report, pct@, cpct@, files)), t@),
            Format::Markdown => r matches Some(t) && renders(
                join_lines(coverage_md_lines(*report, pct@, cpct@)),
                t@,
            ),
        },
{
    match format {
        Format::Json => None,
        Format::Text => Some(format_coverage_text(report, pct, cpct)),
        Format::Markdown => Some(format_coverage_markdown(report, pct, cpct)),
    }
}

// ---------------------------------------------------------------------------
// The concept graph report
// ---------------------------------------------------------------------------

/// The line of an orphan concept of the graph.
pub open spec fn graph_orphan_line(o: (Seq<char>, Seq<char>, Seq<char>)) -> Seq<Piece> {
    seq![
        Piece::Plain("  "@),
        Piece::Plain(o.0),
        Piece::Plain(" ("@),
        Piece::Plain(o.1),
        Piece::Plain(") in "@),
        Piece::Plain(o.2),
    ]
}

/// The line of a thin coverage entry.
pub open spec fn thin_line(t: (Seq<char>, Seq<char>, Seq<Seq<char>>)) -> Seq<Piece> {
    seq![
        Piece::Plain("  "@),
        Piece::Plain(t.0),
        Piece::Plain(" <- "@),
        Piece::Plain(t.1),
        Piece::Plain(" missing: "@),
        Piece::Plain(join(t.2, ", "@)),
    ]
}

/// The line of a page of a stale sibling: route and revision.
pub open spec fn sibling_page_line(p: (Seq<char>, Option<Seq<char>>)) -> Seq<Piece> {
    seq![
        Piece::Plain("    "@),
        Piece::Plain(p.0),
        Piece::Plain(" @ "@),
        Piece::Plain(
            match p.1 {
                Some(s) => s,
                None => "unverified"@,
            },
        ),
    ]
}

/// The lines of a stale sibling: the concept, then each page.
pub open spec fn sibling_block(s: (Seq<char>, Seq<(Seq<char>, Option<Seq<char>>)>)) -> Seq<
    Seq<Piece>,
> {
    seq![seq![Piece::Plain("  concept: "@), Piece::Plain(s.0)]] + s.1.map_values(
        |p: (Seq<char>, Option<Seq<char>>)| sibling_page_line(p),
    )
}

/// The blocks of the stale siblings, in order.
pub open spec fn sibling_blocks(ss: Seq<(Seq<char>, Seq<(Seq<char>, Option<Seq<char>>)>)>) -> Seq<
    Seq<Piece>,
>
    decreases ss.len(),
{
    if ss.len() == 0 {
        Seq::empty()
    } else {
        sibling_blocks(ss.drop_last()) + sibling_block(ss.last())
    }
}

/// The counts at the head of the text concept graph report.
pub open spec fn graph_head(s: crate::concept_graph::GraphStats) -> Seq<Seq<Piece>> {
    seq![
        seq![
            Piece::Plain("Concept Graph: "@),
            Piece::Plain(decimal(s.total_concepts as nat)),
            Piece::Plain(" concepts across "@),
            Piece::Plain(decimal(s.total_pages as nat)),
            Piece::Plain(" pages"@),
        ],
        seq![
            Piece::Plain("  Orphans: "@),
            Piece::Plain(decimal(s.orphan_count as nat)),
            Piece::Plain("  Thin coverage: "@),
            Piece::Plain(decimal(s.thin_coverage_count as nat)),
            Piece::Plain("  Stale siblings: "@),
            Piece::Plain(decimal(s.stale_sibling_count as nat)),
        ],
        Seq::<Piece>::empty(),
    ]
}

/// The lines of the text concept graph report.
pub open spec fn graph_text_lines(g: ConceptGraph) -> Seq<Seq<Piece>> {
    let os = orphan_views(g.orphans@);
    let ts = g.thin_coverage@.map_values(|t: ThinCoverage| thin_view(t));
    let ss = g.stale_siblings@.map_values(|x: StaleSibling| stale_view(x));
    graph_head(g.stats) + section(
        seq![Piece::Paint(Style::RedBold, counted("ORPHAN CONCEPTS"@, os.len()), 0)],
        os.map_values(|o: (Seq<char>, Seq<char>, Seq<char>)| graph_orphan_line(o)),
    ) + section(
        seq![Piece::Paint(Style::YellowBold, counted("THIN COVERAGE"@, ts.len()), 0)],
        ts.map_values(|t: (Seq<char>, Seq<char>, Seq<Seq<char>>)| thin_line(t)),
    ) + section(
        seq![Piece::Paint(Style::YellowBold, counted("STALE SIBLINGS"@, ss.len()), 0)],
        sibling_blocks(ss),
    ) + if os.len() == 0 && ts.len() == 0 && ss.len() == 0 {
        seq![seq![Piece::Plain("All concepts are documented with full coverage."@)]]
    } else {
        Seq::empty()
    }
}

/// Writes the orphans of the graph.
fn write_graph_orphans(rep: &mut Report, os: &Vec<OrphanDetail>)
    requires
        old(rep).wf(),
    ensures
        final(rep).wf(),
        final(rep).lines@ == old(rep).lines@ + section(
            seq![Piece::Paint(Style::RedBold, counted("ORPHAN CONCEPTS"@, os@.len()), 0)],
            orphan_views(os@).map_values(
                |o: (Seq<char>, Seq<char>, Seq<char>)| graph_orphan_line(o),
            ),
        ),
{
    let ghost start = rep.lines@;
    let ghost target = orphan_views(os@).map_values(
        |o: (Seq<char>, Seq<char>, Seq<char>)| graph_orphan_line(o),
    );
    if os.len() > 0 {
        write_counted_heading(rep, Style::RedBold, "ORPHAN CONCEPTS", os.len());
        let ghost mid = rep.lines@;
        let mut i: usize = 0;
        while i < os.len()
            invariant
                i <= os@.len(),
                rep.wf(),
                target == orphan_views(os@).map_values(
                    |o: (Seq<char>, Seq<char>, Seq<char>)| graph_orphan_line(o),
                ),
                rep.lines@ == mid + target.take(i as int),
            decreases os.len() - i,
        {
            let ghost before = rep.lines@;
            rep.line();
            rep.plain_str("  ");
            rep.plain_str(os[i].name.as_str());
            rep.plain_str(" (");
            rep.plain_str(os[i].kind.as_str());
            rep.plain_str(") in ");
            rep.plain_str(os[i].source_file.as_str());
            assert(target[i as int] == graph_orphan_line(orphan_view(os@[i as int])));
            assert(rep.lines@ =~~= before.push(target[i as int]));
            assert(target.take(i + 1) =~= target.take(i as int).push(target[i as int]));
            i = i + 1;
        }
        assert(target.take(os@.len() as int) =~= target);
        write_blank(rep);
    }
    assert(rep.lines@ =~~= start + section(
        seq![Piece::Paint(Style::RedBold, counted("ORPHAN CONCEPTS"@, os@.len()), 0)],
        target,
    ));
}

/// Writes the thin coverage entries of the graph.
fn write_graph_thin(rep: &mut Report, ts: &Vec<ThinCoverage>)
    requires
        old(rep).wf(),
    ensures
        final(rep).wf(),
        final(rep).lines@ == old(rep).lines@ + section(
            seq![Piece::Paint(Style::YellowBold, counted("THIN COVERAGE"@, ts@.len()), 0)],
            ts@.map_values(|t: ThinCoverage| thin_view(t)).map_values(
                |t: (Seq<char>, Seq<char>, Seq<Seq<char>>)| thin_line(t),
            ),
        ),
{
    let ghost start = rep.lines@;
    let ghost tv = ts@.map_values(|t: ThinCoverage| thin_view(t));
    let ghost target = tv.map_values(|t: (Seq<char>, Seq<char>, Seq<Seq<char>>)| thin_line(t));
    if ts.len() > 0 {
        write_counted_heading(rep, Style::YellowBold, "THIN COVERAGE", ts.len());
        let ghost mid = rep.lines@;
        let mut i: usize = 0;
        while i < ts.len()
            invariant
                i <= ts@.len(),
                rep.wf(),
                tv == ts@.map_values(|t: ThinCoverage| thin_view(t)),
                target == tv.map_values(|t: (Seq<char>, Seq<char>, Seq<Seq<char>>)| thin_line(t)),
                rep.lines@ == mid + target.take(i as int),
            decreases ts.len() - i,
        {
            let ghost before = rep.lines@;
            rep.line();
            rep.plain_str("  ");
            rep.plain_str(ts[i].route.as_str());
            rep.plain_str(" <- ");
            rep.plain_str(ts[i].source_file.as_str());
            rep.plain_str(" missing: ");
            let joined = crate::text::join_strings(&ts[i].missing_concepts, ", ");
            rep.plain(&joined);
            assert(target[i as int] == thin_line(tv[i as int]));
            assert(rep.lines@ =~~= before.push(target[i as int]));
            assert(target.take(i + 1) =~= target.take(i as int).push(target[i as int]));
            i = i + 1;
        }
        assert(target.take(ts@.len() as int) =~= target);
        write_blank(rep);
    }
    assert(rep.lines@ =~~= start + section(
        seq![Piece::Paint(Style::YellowBold, counted("THIN COVERAGE"@, ts@.len()), 0)],
        target,
    ));
}

/// Writes the block of a stale sibling.
fn write_sibling_block(rep: &mut Report, s: &StaleSibling)
    requires
        old(rep).wf(),
    ensures
        final(rep).wf(),
        final(rep).lines@ == old(rep).lines@ + sibling_block(stale_view(*s)),
{
    let ghost start = rep.lines@;
    let ghost pv = s.pages@.map_values(|p: (String, Option<String>)| (p.0@, opt_string_view(p.1)));
    let ghost target = pv.map_values(|p: (Seq<char>, Option<Seq<char>>)| sibling_page_line(p));
    rep.line();
    rep.plain_str("  concept: ");
    rep.plain_str(s.concept.as_str());
    let ghost mid = rep.lines@;
    let mut i: usize = 0;
    while i < s.pages.len()
        invariant
            i <= s.pages@.len(),
            rep.wf(),
            pv == s.pages@.map_values(|p: (String, Option<String>)| (p.0@, opt_string_view(p.1))),
            target == pv.map_values(|p: (Seq<char>, Option<Seq<char>>)| sibling_page_line(p)),
            rep.lines@ == mid + target.take(i as int),
        decreases s.pages.len() - i,
    {
        let ghost before = rep.lines@;
        rep.line();
        rep.plain_str("    ");
        rep.plain_str(s.pages[i].0.as_str());
        rep.plain_str(" @ ");
        match &s.pages[i].1 {
            Some(sha) => rep.plain_str(sha.as_str()),
            None => rep.plain_str("unverified"),
        }
        assert(target[i as int] == sibling_page_line(pv[i as int]));
        assert(rep.lines@ =~~= before.push(target[i as int]));
        assert(target.take(i + 1) =~= target.take(i as int).push(target[i as int]));
        i = i + 1;
    }
    assert(target.take(s.pages@.len() as int) =~= target);
    assert(rep.lines@ =~~= start + sibling_block(stale_view(*s)));
}

/// Writes the stale siblings of the graph.
fn write_graph_siblings(rep: &mut Report, ss: &Vec<StaleSibling>)
    requires
        old(rep).wf(),
    ensures
        final(rep).wf(),
        final(rep).lines@ == old(rep).lines@ + section(
            seq![Piece::Paint(Style::YellowBold, counted("STALE SIBLINGS"@, ss@.len()), 0)],
            sibling_blocks(ss@.map_values(|x: StaleSibling| stale_view(x))),
        ),
{
    let ghost start = rep.lines@;
    let ghost sv = ss@.map_values(|x: StaleSibling| stale_view(x));
    proof {
        lemma_sibling_blocks_len(sv);
    }
    if ss.len() > 0 {
        write_counted_heading(rep, Style::YellowBold, "STALE SIBLINGS", ss.len());
        let ghost mid = rep.lines@;
        let mut i: usize = 0;
        while i < ss.len()
            invariant
                i <= ss@.len(),
                rep.wf(),
                sv == ss@.map_values(|x: StaleSibling| stale_view(x)),
                rep.lines@ == mid + sibling_blocks(sv.take(i as int)),
            decreases ss.len() - i,
        {
            assert(sv.take(i + 1).drop_last() =~= sv.take(i as int));
            let ghost before = rep.lines@;
            write_sibling_block(rep, &ss[i]);
            assert(rep.lines@ =~~= mid + sibling_blocks(sv.take(i + 1)));
            i = i + 1;
        }
        assert(sv.take(ss@.len() as int) =~= sv);
        write_blank(rep);
    }
    assert(rep.lines@ =~~= start + section(
        seq![Piece::Paint(Style::YellowBold, counted("STALE SIBLINGS"@, ss@.len()), 0)],
        sibling_blocks(sv),
    ));
}

proof fn lemma_sibling_blocks_len(ss: Seq<(Seq<char>, Seq<(Seq<char>, Option<Seq<char>>)>)>)
    ensures
        sibling_blocks(ss).len() >= ss.len(),
    decreases ss.len(),
{
    if ss.len() > 0 {
        lemma_sibling_blocks_len(ss.drop_last());
    }
}

/// Writes the counts at the head of the text concept graph report.
fn write_graph_head(rep: &mut Report, s: &crate::concept_graph::GraphStats)
    requires
        old(rep).wf(),
        old(rep).lines@.len() == 0,
    ensures
        final(rep).wf(),
        final(rep).lines@ == graph_head(*s),
{
    rep.line();
    rep.plain_str("Concept Graph: ");
    rep.plain(&decimal_of(s.total_concepts));
    rep.plain_str(" concepts across ");
    rep.plain(&decimal_of(s.total_pages));
    rep.plain_str(" pages");
    rep.line();
    rep.plain_str("  Orphans: ");
    rep.plain(&decimal_of(s.orphan_count));
    rep.plain_str("  Thin coverage: ");
    rep.plain(&decimal_of(s.thin_coverage_count));
    rep.plain_str("  Stale siblings: ");
    rep.plain(&decimal_of(s.stale_sibling_count));
    write_blank(rep);
    assert(rep.lines@ =~~= graph_head(*s));
}

/// The concept graph as text: counts, orphan concepts, thin coverage and
/// stale siblings.
pub fn format_concept_graph_text(graph: &ConceptGraph) -> (r: String)
    ensures
        renders(join_lines(graph_text_lines(*graph)), r@),
{
    let mut rep = Report::new();
    write_graph_head(&mut rep, &graph.stats);
    write_graph_orphans(&mut rep, &graph.orphans);
    write_graph_thin(&mut rep, &graph.thin_coverage);
    write_graph_siblings(&mut rep, &graph.stale_siblings);
    if graph.orphans.len() == 0 && graph.thin_coverage.len() == 0 && graph.stale_siblings.len()
        == 0 {
        write_line(&mut rep, "All concepts are documented with full coverage.");
    }
    assert(rep.lines@ =~~= graph_text_lines(*graph));
    rep.finish()
}

// ---------------------------------------------------------------------------
// The concept graph in DOT
// ---------------------------------------------------------------------------

/// A DOT node identifier for a string: `n_` and the string with every
/// character that is not alphanumeric replaced by `_`.
pub open spec fn dot_id_of(s: Seq<char>) -> Seq<char> {
    "n_"@ + s.map_values(|c: char| if crate::text::is_alnum(c) { c } else { '_' })
}

/// The DOT node identifier of a string.
fn dot_id(s: &str) -> (r: Vec<char>)
    ensures
        r@ == dot_id_of(s@),
{
    let v = chars_of(s);
    let mut r = chars_of("n_");
    let ghost start = r@;
    let mut i: usize = 0;
    while i < v.len()
        invariant
            i <= v@.len(),
            v@ == s@,
            start == "n_"@,
            r@ == start + v@.take(i as int).map_values(
                |c: char| if crate::text::is_alnum(c) { c } else { '_' },
            ),
        decreases v.len() - i,
    {
        let c = v[i];
        if c.is_alphanumeric() {
            r.push(c);
        } else {
            r.push('_');
        }
        assert(v@.take(i + 1).map_values(|c: char| if crate::text::is_alnum(c) { c } else { '_' })
            =~= v@.take(i as int).map_values(
            |c: char| if crate::text::is_alnum(c) { c } else { '_' },
        ).push(if crate::text::is_alnum(c) { c } else { '_' }));
        i = i + 1;
    }
    assert(v@.take(v@.len() as int) =~= v@);
    r
}

/// The pages of the nodes, node after node.
pub open spec fn node_pages(ns: Seq<(Seq<char>, Seq<Seq<char>>, Seq<Seq<char>>)>) -> Seq<Seq<char>>
    decreases ns.len(),
{
    if ns.len() == 0 {
        Seq::empty()
    } else {
        node_pages(ns.drop_last()) + ns.last().2
    }
}

/// The DOT line of a page.
pub open spec fn dot_page_line(p: Seq<char>) -> Seq<Piece> {
    seq![
        Piece::Plain("  "@),
        Piece::Plain(dot_id_of(p)),
        Piece::Plain(" [label=\""@),
        Piece::Plain(p),
        Piece::Plain("\", shape=box];"@),
    ]
}

/// The DOT line of a concept, red when it is an orphan.
pub open spec fn dot_concept_line(name: Seq<char>, orphan: bool) -> Seq<Piece> {
    seq![
        Piece::Plain("  "@),
        Piece::Plain(dot_id_of(name)),
        Piece::Plain(" [label=\""@),
        Piece::Plain(name),
        Piece::Plain(
            if orphan {
                "\", shape=circle, color=red, fontcolor=red];"@
            } else {
                "\", shape=circle];"@
            },
        ),
    ]
}

/// The DOT edge lines of a concept to its pages.
pub open spec fn dot_edges(name: Seq<char>, pages: Seq<Seq<char>>) -> Seq<Seq<Piece>> {
    pages.map_values(
        |p: Seq<char>|
            seq![
                Piece::Plain("  "@),
                Piece::Plain(dot_id_of(name)),
                Piece::Plain(" -> "@),
                Piece::Plain(dot_id_of(p)),
                Piece::Plain(";"@),
            ],
    )
}

/// The edge lines of the nodes, node after node.
pub open spec fn all_dot_edges(ns: Seq<(Seq<char>, Seq<Seq<char>>, Seq<Seq<char>>)>) -> Seq<
    Seq<Piece>,
>
    decreases ns.len(),
{
    if ns.len() == 0 {
        Seq::empty()
    } else {
        all_dot_edges(ns.drop_last()) + dot_edges(ns.last().0, ns.last().2)
    }
}

/// Whether some orphan of the graph has the name.
pub open spec fn is_orphan_name(os: Seq<(Seq<char>, Seq<char>, Seq<char>)>, name: Seq<char>) -> bool {
    exists|i: int| 0 <= i < os.len() && (#[trigger] os[i]).0 == name
}

/// The lines of the DOT rendering of the concept graph: each page (once, in
/// order of first mention) as a box, each concept as a circle (red when it
/// is an orphan), and an edge from each concept to each page that mentions
/// it.
pub open spec fn dot_lines(g: ConceptGraph) -> Seq<Seq<Piece>> {
    let ns = g.nodes@.map_values(|n: ConceptNode| node_view(n));
    let os = orphan_views(g.orphans@);
    seq![
        seq![Piece::Plain("digraph concepts {"@)],
        seq![Piece::Plain("  rankdir=LR;"@)],
        seq![Piece::Plain("  node [fontname=\"Helvetica\"];"@)],
        Seq::<Piece>::empty(),
        seq![Piece::Plain("  // Pages"@)],
    ] + crate::coverage::distinct(node_pages(ns)).map_values(|p: Seq<char>| dot_page_line(p))
        + seq![Seq::<Piece>::empty(), seq![Piece::Plain("  // Concepts"@)]] + ns.map_values(
        |n: (Seq<char>, Seq<Seq<char>>, Seq<Seq<char>>)|
            dot_concept_line(n.0, is_orphan_name(os, n.0)),
    ) + seq![Seq::<Piece>::empty(), seq![Piece::Plain("  // Edges"@)]] + all_dot_edges(ns) + seq![
        seq![Piece::Plain("}"@)],
    ]
}

/// The distinct pages of the nodes, in order of first mention.
fn distinct_node_pages(nodes: &Vec<ConceptNode>) -> (r: Vec<String>)
    ensures
        strs(r@) == crate::coverage::distinct(
            node_pages(nodes@.map_values(|n: ConceptNode| node_view(n))),
        ),
{
    let ghost ns = nodes@.map_values(|n: ConceptNode| node_view(n));
    let mut all: Vec<String> = Vec::new();
    let mut k: usize = 0;
    while k < nodes.len()
        invariant
            k <= nodes@.len(),
            ns == nodes@.map_values(|n: ConceptNode| node_view(n)),
            strs(all@) == node_pages(ns.take(k as int)),
        decreases nodes.len() - k,
    {
        assert(ns.take(k + 1).drop_last() =~= ns.take(k as int));
        let ghost before = all@;
        let mut j: usize = 0;
        while j < nodes[k].pages.len()
            invariant
                j <= nodes@[k as int].pages@.len(),
                k < nodes@.len(),
                strs(all@) == strs(before) + strs(nodes@[k as int].pages@).take(j as int),
            decreases nodes@[k as int].pages@.len() - j,
        {
            let ghost b2 = all@;
            let x = crate::text::owned(nodes[k].pages[j].as_str());
            all.push(x);
            proof {
                crate::text::lemma_strs_push(b2, x);
                assert(strs(nodes@[k as int].pages@).take(j + 1) =~= strs(nodes@[k as int].pages@).take(
                    j as int,
                ).push(x@));
            }
            j = j + 1;
        }
        assert(strs(nodes@[k as int].pages@).take(nodes@[k as int].pages@.len() as int) =~= strs(
            nodes@[k as int].pages@,
        ));
        assert(ns[k as int] == node_view(nodes@[k as int]));
        k = k + 1;
    }
    assert(ns.take(nodes@.len() as int) =~= ns);
    let ghost pv = strs(all@);
    let mut r: Vec<String> = Vec::new();
    let mut i: usize = 0;
    while i < all.len()
        invariant
            i <= all@.len(),
            pv == strs(all@),
            strs(r@) == crate::coverage::distinct(pv.take(i as int)),
        decreases all.len() - i,
    {
        proof {
            crate::coverage::lemma_distinct(pv.take(i as int));
            assert(pv.take(i + 1).drop_last() =~= pv.take(i as int));
        }
        if !contains_string(&r, all[i].as_str()) {
            let ghost before = r@;
            let x = crate::text::owned(all[i].as_str());
            r.push(x);
            proof {
                crate::text::lemma_strs_push(before, x);
            }
        }
        i = i + 1;
    }
    assert(pv.take(all@.len() as int) =~= pv);
    r
}

/// Writes the DOT lines of the pages.
fn write_dot_pages(rep: &mut Report, pages: &Vec<String>)
    requires
        old(rep).wf(),
    ensures
        final(rep).wf(),
        final(rep).lines@ == old(rep).lines@ + strs(pages@).map_values(
            |p: Seq<char>| dot_page_line(p),
        ),
{
    let ghost start = rep.lines@;
    let ghost target = strs(pages@).map_values(|p: Seq<char>| dot_page_line(p));
    let mut i: usize = 0;
    while i < pages.len()
        invariant
            i <= pages@.len(),
            rep.wf(),
            target == strs(pages@).map_values(|p: Seq<char>| dot_page_line(p)),
            rep.lines@ == start + target.take(i as int),
        decreases pages.len() - i,
    {
        let ghost before = rep.lines@;
        let id = dot_id(pages[i].as_str());
        rep.line();
        rep.plain_str("  ");
        rep.plain(&id);
        rep.plain_str(" [label=\"");
        rep.plain_str(pages[i].as_str());
        rep.plain_str("\", shape=box];");
        assert(target[i as int] == dot_page_line(pages@[i as int]@));
        assert(rep.lines@ =~~= before.push(target[i as int]));
        assert(target.take(i + 1) =~= target.take(i as int).push(target[i as int]));
        i = i + 1;
    }
    assert(target.take(pages@.len() as int) =~= target);
}

/// Whether some orphan has the name.
fn orphan_named(os: &Vec<OrphanDetail>, name: &str) -> (r: bool)
    ensures
        r == is_orphan_name(orphan_views(os@), name@),
{
    let mut i: usize = 0;
    while i < os.len()
        invariant
            i <= os@.len(),
            forall|k: int| 0 <= k < i ==> os@[k].name@ != name@,
        decreases os.len() - i,
    {
        if crate::text::str_eq(os[i].name.as_str(), name) {
            assert(orphan_views(os@)[i as int].0 == name@);
            return true;
        }
        i = i + 1;
    }
    proof {
        if is_orphan_name(orphan_views(os@), name@) {
            let k = choose|k: int| 0 <= k < orphan_views(os@).len() && (#[trigger] orphan_views(os@)[k]).0 == name@;
            assert(orphan_views(os@)[k] == orphan_view(os@[k]));
        }
    }
    false
}

/// Writes the DOT lines of the concepts.
fn write_dot_concepts(rep: &mut Report, nodes: &Vec<ConceptNode>, os: &Vec<OrphanDetail>)
    requires
        old(rep).wf(),
    ensures
        final(rep).wf(),
        final(rep).lines@ == old(rep).lines@ + nodes@.map_values(|n: ConceptNode| node_view(n)).map_values(
            |n: (Seq<char>, Seq<Seq<char>>, Seq<Seq<char>>)|
                dot_concept_line(n.0, is_orphan_name(orphan_views(os@), n.0)),
        ),
{
    let ghost start = rep.lines@;
    let ghost target = nodes@.map_values(|n: ConceptNode| node_view(n)).map_values(
        |n: (Seq<char>, Seq<Seq<char>>, Seq<Seq<char>>)|
            dot_concept_line(n.0, is_orphan_name(orphan_views(os@), n.0)),
    );
    let mut i: usize = 0;
    while i < nodes.len()
        invariant
            i <= nodes@.len(),
            rep.wf(),
            target == nodes@.map_values(|n: ConceptNode| node_view(n)).map_values(
                |n: (Seq<char>, Seq<Seq<char>>, Seq<Seq<char>>)|
                    dot_concept_line(n.0, is_orphan_name(orphan_views(os@), n.0)),
            ),
            rep.lines@ == start + target.take(i as int),
        decreases nodes.len() - i,
    {
        let ghost before = rep.lines@;
        let id = dot_id(nodes[i].name.as_str());
        let orphan = orphan_named(os, nodes[i].name.as_str());
        rep.line();
        rep.plain_str("  ");
        rep.plain(&id);
        rep.plain_str(" [label=\"");
        rep.plain_str(nodes[i].name.as_str());
        if orphan {
            rep.plain_str("\", shape=circle, color=red, fontcolor=red];");
        } else {
            rep.plain_str("\", shape=circle];");
        }
        assert(target[i as int] == dot_concept_line(nodes@[i as int].name@, orphan));
        assert(rep.lines@ =~~= before.push(target[i as int]));
        assert(target.take(i + 1) =~= target.take(i as int).push(target[i as int]));
        i = i + 1;
    }
    assert(target.take(nodes@.len() as int) =~= target);
}

/// Writes the DOT edge lines of the nodes.
fn write_dot_edges(rep: &mut Report, nodes: &Vec<ConceptNode>)
    requires
        old(rep).wf(),
    ensures
        final(rep).wf(),
        final(rep).lines@ == old(rep).lines@ + all_dot_edges(
            nodes@.map_values(|n: ConceptNode| node_view(n)),
        ),
{
    let ghost start = rep.lines@;
    let ghost ns = nodes@.map_values(|n: ConceptNode| node_view(n));
    let mut k: usize = 0;
    while k < nodes.len()
        invariant
            k <= nodes@.len(),
            rep.wf(),
            ns == nodes@.map_values(|n: ConceptNode| node_view(n)),
            rep.lines@ == start + all_dot_edges(ns.take(k as int)),
        decreases nodes.len() - k,
    {
        assert(ns.take(k + 1).drop_last() =~= ns.take(k as int));
        assert(ns[k as int] == node_view(nodes@[k as int]));
        let ghost mid = rep.lines@;
        let cid = dot_id(nodes[k].name.as_str());
        let ghost target = dot_edges(nodes@[k as int].name@, strs(nodes@[k as int].pages@));
        let mut j: usize = 0;
        while j < nodes[k].pages.len()
            invariant
                k < nodes@.len(),
                j <= nodes@[k as int].pages@.len(),
                rep.wf(),
                cid@ == dot_id_of(nodes@[k as int].name@),
                target == dot_edges(nodes@[k as int].name@, strs(nodes@[k as int].pages@)),
                rep.lines@ == mid + target.take(j as int),
            decreases nodes@[k as int].pages@.len() - j,
        {
            let ghost before = rep.lines@;
            let pid = dot_id(nodes[k].pages[j].as_str());
            rep.line();
            rep.plain_str("  ");
            rep.plain(&cid);
            rep.plain_str(" -> ");
            rep.plain(&pid);
            rep.plain_str(";");
            assert(rep.lines@ =~~= before.push(target[j as int]));
            assert(target.take(j + 1) =~= target.take(j as int).push(target[j as int]));
            j = j + 1;
        }
        assert(target.take(nodes@[k as int].pages@.len() as int) =~= target);
        assert(rep.lines@ =~~= start + all_dot_edges(ns.take(k + 1)));
        k = k + 1;
    }
    assert(ns.take(nodes@.len() as int) =~= ns);
}

/// The concept graph in the DOT language of Graphviz.
pub fn format_concept_graph_dot(graph: &ConceptGraph) -> (r: String)
    ensures
        renders(join_lines(dot_lines(*graph)), r@),
{
    let mut rep = Report::new();
    write_line(&mut rep, "digraph concepts {");
    write_line(&mut rep, "  rankdir=LR;");
    write_line(&mut rep, "  node [fontname=\"Helvetica\"];");
    write_blank(&mut rep);
    write_line(&mut rep, "  // Pages");
    let pages = distinct_node_pages(&graph.nodes);
    write_dot_pages(&mut rep, &pages);
    write_blank(&mut rep);
    write_line(&mut rep, "  // Concepts");
    write_dot_concepts(&mut rep, &graph.nodes, &graph.orphans);
    write_blank(&mut rep);
    write_line(&mut rep, "  // Edges");
    write_dot_edges(&mut rep, &graph.nodes);
    write_line(&mut rep, "}");
    assert(rep.lines@ =~~= dot_lines(*graph));
    rep.finish()
}

// ---------------------------------------------------------------------------
// The suggestion report
// ---------------------------------------------------------------------------

/// A suggested mapping as the report shows it: the source file, the page's
/// route, the confidence as the report writes it (such as `67%`), and the
/// reasons.
pub struct SuggestionLine {
    pub source_path: String,
    pub route: String,
    pub percent: String,
    pub reasons: Vec<String>,
}

/// What a suggestion line says.
pub open spec fn suggestion_view(s: SuggestionLine) -> (Seq<char>, Seq<char>, Seq<char>, Seq<Seq<char>>) {
    (s.source_path@, s.route@, s.percent@, strs(s.reasons@))
}

/// The lines of one suggestion: the mapping, then each reason.
pub open spec fn suggestion_block(s: (Seq<char>, Seq<char>, Seq<char>, Seq<Seq<char>>)) -> Seq<
    Seq<Piece>,
> {
    seq![
        seq![
            Piece::Plain("  "@),
            Piece::Plain(s.0),
            Piece::Plain(" -> "@),
            Piece::Paint(Style::Cyan, s.1, 0),
            Piece::Plain(" ("@),
            Piece::Paint(Style::Yellow, s.2, 0),
            Piece::Plain(")"@),
        ],
    ] + item_lines("    "@, s.3, ""@)
}

/// The lines of the suggestions, one block each.
pub open spec fn suggestion_blocks(ss: Seq<(Seq<char>, Seq<char>, Seq<char>, Seq<Seq<char>>)>) -> Seq<
    Seq<Piece>,
>
    decreases ss.len(),
{
    if ss.len() == 0 {
        Seq::empty()
    } else {
        suggestion_blocks(ss.drop_last()) + suggestion_block(ss.last())
    }
}

/// The lines of the suggestion report.
pub open spec fn suggest_text_lines(
    ss: Seq<(Seq<char>, Seq<char>, Seq<char>, Seq<Seq<char>>)>,
    no_match: Seq<Seq<char>>,
) -> Seq<Seq<Piece>> {
    if ss.len() == 0 && no_match.len() == 0 {
        seq![seq![Piece::Plain("All source files are already mapped."@)]]
    } else {
        (if ss.len() > 0 {
            seq![seq![Piece::Paint(Style::GreenBold, counted("SUGGESTED MAPPINGS"@, ss.len()), 0)]]
                + suggestion_blocks(ss) + seq![
                Seq::<Piece>::empty(),
                seq![
                    Piece::Plain(
                        "  Apply with: docfresh map <route> <source>  (or --apply <threshold>)"@,
                    ),
                ],
            ]
        } else {
            Seq::empty()
        }) + (if no_match.len() > 0 {
            seq![
                Seq::<Piece>::empty(),
                seq![Piece::Paint(Style::Dimmed, counted("NO MATCH"@, no_match.len()), 0)],
            ] + item_lines("  "@, no_match, ""@)
        } else {
            Seq::empty()
        })
    }
}

/// Writes the blocks of the suggestions.
fn write_suggestions(rep: &mut Report, ss: &[SuggestionLine])
    requires
        old(rep).wf(),
    ensures
        final(rep).wf(),
        final(rep).lines@ == old(rep).lines@ + suggestion_blocks(
            ss@.map_values(|s: SuggestionLine| suggestion_view(s)),
        ),
{
    let ghost start = rep.lines@;
    let ghost sv = ss@.map_values(|s: SuggestionLine| suggestion_view(s));
    let mut i: usize = 0;
    while i < ss.len()
        invariant
            i <= ss@.len(),
            sv == ss@.map_values(|s: SuggestionLine| suggestion_view(s)),
            rep.wf(),
            rep.lines@ == start + suggestion_blocks(sv.take(i as int)),
        decreases ss.len() - i,
    {
        let ghost before = rep.lines@;
        let s = &ss[i];
        rep.line();
        rep.plain_str("  ");
        rep.plain_str(s.source_path.as_str());
        rep.plain_str(" -> ");
        rep.painted(Style::Cyan, s.route.as_str(), 0);
        rep.plain_str(" (");
        rep.painted(Style::Yellow, s.percent.as_str(), 0);
        rep.plain_str(")");
        let ghost mid = rep.lines@;
        write_items(rep, "    ", &s.reasons, "");
        assert(sv.take(i + 1).drop_last() =~= sv.take(i as int));
        assert(sv[i as int] == suggestion_view(*s));
        assert(mid =~~= before + seq![suggestion_block(sv[i as int])[0]]);
        assert(rep.lines@ =~~= before + suggestion_block(sv[i as int]));
        assert(suggestion_blocks(sv.take(i + 1)) =~~= suggestion_blocks(sv.take(i as int))
            + suggestion_block(sv[i as int]));
        assert(rep.lines@ =~~= start + suggestion_blocks(sv.take(i + 1)));
        i = i + 1;
    }
    assert(sv.take(ss@.len() as int) =~= sv);
}

/// The report of `suggest`: each suggested mapping with its reasons, then
/// the source files for which no page scored high enough.
pub fn format_suggest_text(suggestions: &[SuggestionLine], no_match: &[String]) -> (r: String)
    ensures
        renders(
            join_lines(
                suggest_text_lines(
                    suggestions@.map_values(|s: SuggestionLine| suggestion_view(s)),
                    strs(no_match@),
                ),
            ),
            r@,
        ),
{
    let ghost sv = suggestions@.map_values(|s: SuggestionLine| suggestion_view(s));
    let mut rep = Report::new();
    if suggestions.len() == 0 && no_match.len() == 0 {
        write_line(&mut rep, "All source files are already mapped.");
        assert(rep.lines@ =~~= suggest_text_lines(sv, strs(no_match@)));
        return rep.finish();
    }
    if suggestions.len() > 0 {
        write_counted_heading(&mut rep, Style::GreenBold, "SUGGESTED MAPPINGS", suggestions.len());
        write_suggestions(&mut rep, suggestions);
        write_blank(&mut rep);
        write_line(&mut rep, "  Apply with: docfresh map <route> <source>  (or --apply <threshold>)");
    }
    let ghost mid = rep.lines@;
    if no_match.len() > 0 {
        write_blank(&mut rep);
        write_counted_heading(&mut rep, Style::Dimmed, "NO MATCH", no_match.len());
        write_items(&mut rep, "  ", no_match, "");
    }
    assert(rep.lines@ =~~= suggest_text_lines(sv, strs(no_match@)));
    rep.finish()
}

/// Every page has exactly one status, so the counts of the status table's
/// summary line add up to its total.
pub proof fn law_status_counts_total(pages: Seq<Page>)
    ensures
        count_status(pages, Status::Current) + count_status(pages, Status::Stale) + count_status(
            pages,
            Status::Unverified,
        ) + count_status(pages, Status::Missing) + count_status(pages, Status::Outdated)
            == pages.len(),
    decreases pages.len(),
{
    if pages.len() > 0 {
        law_status_counts_total(pages.drop_last());
    }
}

/// The number of pages with a status is the number of pages whose status
/// it is.
proof fn lemma_count_status_filter(pages: Seq<Page>, st: Status)
    ensures
        count_status(pages, st) == pages.filter(|p: Page| p.status == st).len(),
    decreases pages.len(),
{
    reveal(Seq::filter);
    if pages.len() > 0 {
        lemma_count_status_filter(pages.drop_last(), st);
    }
}

/// The summary line of the status table writes, before each status's
/// label, the number of pages that have that status, and before `total`
/// the number of pages.
pub proof fn law_status_summary_counts(pages: Seq<Page>)
    ensures
        status_summary(pages)[0] == Piece::Plain(
            decimal(pages.filter(|p: Page| p.status == Status::Current).len()),
        ),
        status_summary(pages)[1] == Piece::Plain(" current, "@),
        status_summary(pages)[2] == Piece::Plain(
            decimal(pages.filter(|p: Page| p.status == Status::Stale).len()),
        ),
        status_summary(pages)[3] == Piece::Plain(" stale, "@),
        status_summary(pages)[4] == Piece::Plain(
            decimal(pages.filter(|p: Page| p.status == Status::Unverified).len()),
        ),
        status_summary(pages)[5] == Piece::Plain(" unverified, "@),
        status_summary(pages)[6] == Piece::Plain(
            decimal(pages.filter(|p: Page| p.status == Status::Missing).len()),
        ),
        status_summary(pages)[7] == Piece::Plain(" missing, "@),
        status_summary(pages)[8] == Piece::Plain(
            decimal(pages.filter(|p: Page| p.status == Status::Outdated).len()),
        ),
        status_summary(pages)[9] == Piece::Plain(" outdated ("@),
        status_summary(pages)[10] == Piece::Plain(decimal(pages.len())),
        status_summary(pages)[11] == Piece::Plain(" total)"@),
{
    lemma_count_status_filter(pages, Status::Current);
    lemma_count_status_filter(pages, Status::Stale);
    lemma_count_status_filter(pages, Status::Unverified);
    lemma_count_status_filter(pages, Status::Missing);
    lemma_count_status_filter(pages, Status::Outdated);
}

} // verus!
