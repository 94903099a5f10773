//! Reading the output of the git commands that the tool runs.
use vstd::prelude::*;
use crate::text::{chars_of, find_char, lines, slice_of, split_lines, string_of, tail_from, trim, trim_white};

verus! {

/// One commit of a `git log --oneline` listing.
pub struct LogEntry {
    pub sha: String,
    pub message: String,
}

/// The non-empty lines of `s`.
pub open spec fn nonempty_lines(s: Seq<char>) -> Seq<Seq<char>> {
    lines(s).filter(|l: Seq<char>| l.len() > 0)
}

/// The abbreviated hash and the message of a `--oneline` log line: the text
/// before and after the first space, or the whole line and an empty message.
pub open spec fn split_log_line(line: Seq<char>) -> (Seq<char>, Seq<char>) {
    if line.contains(' ') {
        let i = choose|i: int| 0 <= i < line.len() && line[i] == ' ' && forall|j: int|
            0 <= j < i ==> line[j] != ' ';
        (line.take(i), line.skip(i + 1))
    } else {
        (line, Seq::empty())
    }
}

/// The views of a sequence of log entries.
pub open spec fn log_views(v: Seq<LogEntry>) -> Seq<(Seq<char>, Seq<char>)> {
    v.map_values(|e: LogEntry| (e.sha@, e.message@))
}

/// The strings that hold the non-empty lines of `stdout`.
pub fn nonempty_lines_of(stdout: &str) -> (r: Vec<String>)
    ensures
        r@.map_values(|s: String| s@) == nonempty_lines(stdout@),
{
    let text = chars_of(stdout);
    let ls = split_lines(&text);
    let ghost lv = ls@.map_values(|v: Vec<char>| v@);
    let mut r: Vec<String> = Vec::new();
    let mut i: usize = 0;
    while i < ls.len()
        invariant
            i <= ls.len(),
            lv == ls@.map_values(|v: Vec<char>| v@),
            lv == lines(stdout@),
            r@.map_values(|s: String| s@) == lv.take(i as int).filter(|l: Seq<char>| l.len() > 0),
        decreases ls.len() - i,
    {
        proof {
            reveal_with_fuel(Seq::filter, 1);
            assert(lv.take(i + 1).drop_last() == lv.take(i as int));
        }
        let ghost before = r@.map_values(|s: String| s@);
        if ls[i].len() > 0 {
            let s = string_of(&ls[i]);
            r.push(s);
            assert(r@.map_values(|s: String| s@) == before.push(lv[i as int]));
        }
        i = i + 1;
    }
    assert(lv.take(ls.len() as int) == lv);
    r
}

/// The names listed one per line by `git diff --name-only` or `git ls-files`.
pub fn parse_name_list(stdout: &str) -> (r: Vec<String>)
    ensures
        r@.map_values(|s: String| s@) == nonempty_lines(stdout@),
{
    nonempty_lines_of(stdout)
}

/// The log entry of one `--oneline` line.
pub fn parse_log_line(line: &Vec<char>) -> (r: LogEntry)
    ensures
        (r.sha@, r.message@) == split_log_line(line@),
{
    match find_char(line, ' ') {
        Some(i) => {
            assert(line@.contains(' '));
            let ghost k = choose|k: int| 0 <= k < line@.len() && line@[k] == ' ' && forall|j: int|
                0 <= j < k ==> line@[j] != ' ';
            assert(k == i) by {
                if k < i {
                    assert(line@[k] != ' ');
                } else if k > i {
                    assert(line@[i as int] != ' ');
                }
            }
            assert(i < line.len());
            let sha = slice_of(line, 0, i);
            let msg = tail_from(line, i + 1);
            LogEntry { sha: string_of(&sha), message: string_of(&msg) }
        },
        None => {
            assert(!line@.contains(' '));
            LogEntry { sha: string_of(line), message: String::new() }
        },
    }
}

/// The entries of a `git log --oneline` listing, one per non-empty line.
pub fn parse_log(stdout: &str) -> (r: Vec<LogEntry>)
    ensures
        log_views(r@) == nonempty_lines(stdout@).map_values(|l: Seq<char>| split_log_line(l)),
{
    let names = nonempty_lines_of(stdout);
    let ghost nv = names@.map_values(|s: String| s@);
    let mut r: Vec<LogEntry> = Vec::new();
    let mut i: usize = 0;
    while i < names.len()
        invariant
            i <= names.len(),
            nv == names@.map_values(|s: String| s@),
            nv == nonempty_lines(stdout@),
            log_views(r@) == nv.take(i as int).map_values(|l: Seq<char>| split_log_line(l)),
        decreases names.len() - i,
    {
        let line = chars_of(names[i].as_str());
        let e = parse_log_line(&line);
        let ghost before = log_views(r@);
        r.push(e);
        assert(log_views(r@) == before.push(split_log_line(nv[i as int])));
        assert(nv.take(i + 1).map_values(|l: Seq<char>| split_log_line(l)) == nv.take(
            i as int,
        ).map_values(|l: Seq<char>| split_log_line(l)).push(split_log_line(nv[i as int])));
        i = i + 1;
    }
    assert(nv.take(names.len() as int) == nv);
    r
}

/// The output of `git rev-parse` without surrounding white space.
pub fn parse_sha(stdout: &str) -> (r: String)
    ensures
        r@ == trim(stdout@),
{
    let text = chars_of(stdout);
    let t = trim_white(&text);
    string_of(&t)
}

} // verus!
