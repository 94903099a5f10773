//! Term extraction and scoring for suggesting which page documents a source
//! file.
use vstd::prelude::*;
use crate::paths::{
    extension, file_name, file_stem, opt_string_view, parent, path_extension, path_file_name,
    path_file_stem, path_parent,
};
use crate::concepts::contents_view;
use crate::manifest::{Manifest, Page};
use crate::text::{
    occurs_at, CharSet, char_index, find_first, find_first_char, find_spec, push_all, push_str, tail_from, chars_of, first_piece, first_piece_of, in_set, is_upper, lines, lowercase, lower,
    push_char, split_by, split_lines, split_set, split_words, starts_with, string_of, strip_prefix_str,
    strs, trim, trim_by, trim_set, trim_white, utf8_len, utf8_len_ge, words, lemma_strs_push,
};

verus! {

// ---------------------------------------------------------------------------
// Building blocks
// ---------------------------------------------------------------------------

/// The words of a CamelCase name, split before each uppercase character
/// that follows some text: the finished words and the word in progress.
pub open spec fn camel_acc(s: Seq<char>) -> (Seq<Seq<char>>, Seq<char>)
    decreases s.len(),
{
    if s.len() == 0 {
        (Seq::empty(), Seq::empty())
    } else {
        let (done, cur) = camel_acc(s.drop_last());
        let c = s.last();
        if is_upper(c) && cur.len() > 0 {
            (done.push(cur), seq![c])
        } else {
            (done, cur.push(c))
        }
    }
}

/// The words of a CamelCase name.
pub open spec fn camel_words(s: Seq<char>) -> Seq<Seq<char>> {
    let (done, cur) = camel_acc(s);
    if cur.len() > 0 {
        done.push(cur)
    } else {
        done
    }
}

/// Splits a CamelCase name into its words ("MyBigStruct" gives "My", "Big",
/// "Struct").
pub fn split_camel_case(s: &str) -> (r: Vec<String>)
    ensures
        strs(r@) == camel_words(s@),
{
    let v = chars_of(s);
    let mut done: Vec<String> = Vec::new();
    let mut cur = String::new();
    let mut i: usize = 0;
    while i < v.len()
        invariant
            i <= v.len(),
            v@ == s@,
            (strs(done@), cur@) == camel_acc(v@.take(i as int)),
        decreases v.len() - i,
    {
        assert(v@.take(i + 1).drop_last() == v@.take(i as int));
        let c = v[i];
        if c.is_uppercase() && !cur.as_str().is_empty() {
            let finished = cur;
            cur = String::new();
            proof {
                lemma_strs_push(done@, finished);
            }
            done.push(finished);
            push_char(&mut cur, c);
            assert(cur@ == seq![c]);
        } else {
            push_char(&mut cur, c);
        }
        i = i + 1;
    }
    assert(v@.take(v.len() as int) == v@);
    if !cur.as_str().is_empty() {
        proof {
            lemma_strs_push(done@, cur);
        }
        done.push(cur);
    }
    done
}

/// The lowercase forms of the words whose UTF-8 length is at least `min`.
pub open spec fn lowered_long(ws: Seq<Seq<char>>, min: nat) -> Seq<Seq<char>>
    decreases ws.len(),
{
    if ws.len() == 0 {
        Seq::empty()
    } else {
        let prev = lowered_long(ws.drop_last(), min);
        if utf8_len(ws.last()) >= min {
            prev.push(lowercase(ws.last()))
        } else {
            prev
        }
    }
}

/// The terms of an identifier of at least three bytes: its lowercase form,
/// then the lowercase forms of its words of at least three bytes (CamelCase
/// words, or the parts between underscores).
pub open spec fn ident_terms(name: Seq<char>, camel: bool) -> Seq<Seq<char>> {
    if utf8_len(name) >= 3 {
        seq![lowercase(name)] + lowered_long(
            if camel {
                camel_words(name)
            } else {
                split_by(name, CharSet::Is('_'))
            },
            3,
        )
    } else {
        Seq::empty()
    }
}


/// Appends all strings of `more` to `terms`.
pub fn push_terms(terms: &mut Vec<String>, more: Vec<String>)
    ensures
        strs(final(terms)@) == strs(old(terms)@) + strs(more@),
{
    let ghost start = strs(terms@);
    let mut more = more;
    let mut rev: Vec<String> = Vec::new();
    let ghost all = more@;
    while more.len() > 0
        invariant
            more@.len() + rev@.len() == all.len(),
            more@ == all.take(more@.len() as int),
            forall|j: int| 0 <= j < rev@.len() ==> rev@[j] == all[all.len() - 1 - j],
        decreases more.len(),
    {
        let x = more.pop().unwrap();
        rev.push(x);
    }
    let ghost mut k: int = 0;
    while rev.len() > 0
        invariant
            0 <= k,
            k + rev@.len() == all.len(),
            forall|j: int| 0 <= j < rev@.len() ==> rev@[j] == all[all.len() - 1 - j],
            strs(terms@) == start + strs(all.take(k)),
        decreases rev.len(),
    {
        let x = rev.pop().unwrap();
        assert(x == all[k]);
        proof {
            lemma_strs_push(terms@, x);
            assert(all.take(k + 1) == all.take(k).push(x));
            lemma_strs_push(all.take(k), x);
        }
        terms.push(x);
        proof {
            k = k + 1;
        }
    }
    assert(all.take(all.len() as int) == all);
}

/// The strings holding the given character sequences.
pub fn strings_of(vs: &Vec<Vec<char>>) -> (r: Vec<String>)
    ensures
        strs(r@) == vs@.map_values(|v: Vec<char>| v@),
{
    let ghost views = vs@.map_values(|v: Vec<char>| v@);
    let mut r: Vec<String> = Vec::new();
    let mut i: usize = 0;
    while i < vs.len()
        invariant
            i <= vs.len(),
            views == vs@.map_values(|v: Vec<char>| v@),
            strs(r@) == views.take(i as int),
        decreases vs.len() - i,
    {
        let s = string_of(&vs[i]);
        proof {
            lemma_strs_push(r@, s);
            assert(views.take(i + 1) == views.take(i as int).push(views[i as int]));
        }
        r.push(s);
        i = i + 1;
    }
    assert(views.take(vs.len() as int) == views);
    r
}

/// Appends the lowercase forms of the words of at least `min` bytes.
fn push_lowered_long(terms: &mut Vec<String>, ws: &Vec<String>, min: usize)
    ensures
        strs(final(terms)@) == strs(old(terms)@) + lowered_long(strs(ws@), min as nat),
{
    let ghost start = strs(terms@);
    let ghost wv = strs(ws@);
    let mut i: usize = 0;
    while i < ws.len()
        invariant
            i <= ws.len(),
            wv == strs(ws@),
            strs(terms@) == start + lowered_long(wv.take(i as int), min as nat),
        decreases ws.len() - i,
    {
        assert(wv.take(i + 1).drop_last() == wv.take(i as int));
        let w = chars_of(ws[i].as_str());
        if utf8_len_ge(&w, min) {
            let l = lower(&w);
            let s = string_of(&l);
            proof {
                lemma_strs_push(terms@, s);
            }
            terms.push(s);
        }
        i = i + 1;
    }
    assert(wv.take(ws.len() as int) == wv);
}

/// Appends the terms of an identifier.
pub fn push_ident_terms(terms: &mut Vec<String>, name: &Vec<char>, camel: bool)
    ensures
        strs(final(terms)@) == strs(old(terms)@) + ident_terms(name@, camel),
{
    if utf8_len_ge(name, 3) {
        let ghost start = strs(terms@);
        let l = lower(name);
        let s = string_of(&l);
        proof {
            lemma_strs_push(terms@, s);
        }
        terms.push(s);
        let parts = if camel {
            let n = string_of(name);
            split_camel_case(n.as_str())
        } else {
            let pieces = split_set(name, &CharSet::Is('_'));
            strings_of(&pieces)
        };
        push_lowered_long(terms, &parts, 3);
        assert(start.push(lowercase(name@)) + lowered_long(strs(parts@), 3) == start + (seq![
            lowercase(name@),
        ] + lowered_long(strs(parts@), 3)));
    }
}

/// The lowercase forms of the words trimmed of non-alphanumeric characters,
/// kept when they have at least `min` bytes.
pub open spec fn cleaned_long(ws: Seq<Seq<char>>, min: nat) -> Seq<Seq<char>>
    decreases ws.len(),
{
    if ws.len() == 0 {
        Seq::empty()
    } else {
        let prev = cleaned_long(ws.drop_last(), min);
        let c = lowercase(trim_by(ws.last(), CharSet::NotAlnum));
        if utf8_len(c) >= min {
            prev.push(c)
        } else {
            prev
        }
    }
}

/// The meaningful words of a line of text.
pub open spec fn clean_words(text: Seq<char>, min: nat) -> Seq<Seq<char>> {
    cleaned_long(words(text), min)
}

/// Appends the meaningful words of a line of text.
pub fn push_clean_words(terms: &mut Vec<String>, text: &Vec<char>, min: usize)
    ensures
        strs(final(terms)@) == strs(old(terms)@) + clean_words(text@, min as nat),
{
    let ws = split_words(text);
    let ghost wv = ws@.map_values(|v: Vec<char>| v@);
    let ghost start = strs(terms@);
    let mut i: usize = 0;
    while i < ws.len()
        invariant
            i <= ws.len(),
            wv == ws@.map_values(|v: Vec<char>| v@),
            wv == words(text@),
            strs(terms@) == start + cleaned_long(wv.take(i as int), min as nat),
        decreases ws.len() - i,
    {
        assert(wv.take(i + 1).drop_last() == wv.take(i as int));
        let t = trim_set(&ws[i], &CharSet::NotAlnum);
        let c = lower(&t);
        if utf8_len_ge(&c, min) {
            let s = string_of(&c);
            proof {
                lemma_strs_push(terms@, s);
            }
            terms.push(s);
        }
        i = i + 1;
    }
    assert(wv.take(ws.len() as int) == wv);
}

/// The identifier at the start of `rest`: the text up to the first character
/// that is neither alphanumeric nor an underscore.
pub open spec fn ident(rest: Seq<char>) -> Seq<char> {
    first_piece(rest, CharSet::NotAlnumExcept('_'))
}

/// `s` without the prefix `p` when it has it, else `s`.
pub open spec fn strip_or(s: Seq<char>, p: Seq<char>) -> Seq<char> {
    if starts_with(s, p) {
        s.skip(p.len() as int)
    } else {
        s
    }
}

fn strip_or_exec(s: Vec<char>, p: &str) -> (r: Vec<char>)
    ensures
        r@ == strip_or(s@, p@),
{
    match strip_prefix_str(&s, p) {
        Some(t) => t,
        None => s,
    }
}

/// `t` without the first of the prefixes that it begins with.
pub open spec fn first_strip(t: Seq<char>, ps: Seq<Seq<char>>) -> Option<Seq<char>>
    decreases ps.len(),
{
    if ps.len() == 0 {
        None
    } else if starts_with(t, ps[0]) {
        Some(t.skip(ps[0].len() as int))
    } else {
        first_strip(t, ps.drop_first())
    }
}

/// `t` without the first of the prefixes that it begins with.
pub(crate) fn first_strip_exec(t: &Vec<char>, ps: &[&str]) -> (r: Option<Vec<char>>)
    ensures
        match first_strip(t@, crate::config::str_views(ps@)) {
            None => r is None,
            Some(x) => r matches Some(y) && y@ == x,
        },
{
    let ghost pv = crate::config::str_views(ps@);
    let mut i: usize = 0;
    assert(pv.skip(0) == pv);
    while i < ps.len()
        invariant
            i <= ps@.len(),
            pv == crate::config::str_views(ps@),
            first_strip(t@, pv.skip(i as int)) == first_strip(t@, pv),
        decreases ps@.len() - i,
    {
        assert(pv.skip(i as int)[0] == ps@[i as int]@);
        match strip_prefix_str(t, ps[i]) {
            Some(rest) => {
                return Some(rest);
            },
            None => {},
        }
        assert(pv.skip(i as int).drop_first() == pv.skip(i + 1));
        i = i + 1;
    }
    None
}

/// The terms of the identifier after the prefix `p`, when `t` begins with it.
pub open spec fn prefixed_terms(t: Seq<char>, p: Seq<char>, camel: bool) -> Seq<Seq<char>> {
    if starts_with(t, p) {
        ident_terms(ident(t.skip(p.len() as int)), camel)
    } else {
        Seq::empty()
    }
}

/// The terms for each of the prefixes, in order.
pub open spec fn prefixed_all(t: Seq<char>, ps: Seq<Seq<char>>, camel: bool) -> Seq<Seq<char>>
    decreases ps.len(),
{
    if ps.len() == 0 {
        Seq::empty()
    } else {
        prefixed_all(t, ps.drop_last(), camel) + prefixed_terms(t, ps.last(), camel)
    }
}

fn push_prefixed_all(terms: &mut Vec<String>, t: &Vec<char>, ps: &[&str], camel: bool)
    ensures
        strs(final(terms)@) == strs(old(terms)@) + prefixed_all(
            t@,
            crate::config::str_views(ps@),
            camel,
        ),
{
    let ghost pv = crate::config::str_views(ps@);
    let ghost start = strs(terms@);
    let mut i: usize = 0;
    while i < ps.len()
        invariant
            i <= ps@.len(),
            pv == crate::config::str_views(ps@),
            strs(terms@) == start + prefixed_all(t@, pv.take(i as int), camel),
        decreases ps@.len() - i,
    {
        assert(pv.take(i + 1).drop_last() == pv.take(i as int));
        assert(pv.take(i + 1).last() == ps@[i as int]@);
        match strip_prefix_str(t, ps[i]) {
            Some(rest) => {
                let name = first_piece_of(&rest, &CharSet::NotAlnumExcept('_'));
                push_ident_terms(terms, &name, camel);
            },
            None => {},
        }
        i = i + 1;
    }
    assert(pv.take(ps@.len() as int) == pv);
}

/// The terms of the identifier after the first keyword that `rest` begins
/// with.
pub open spec fn first_kw_terms(rest: Seq<char>, kws: Seq<Seq<char>>) -> Seq<Seq<char>>
    decreases kws.len(),
{
    if kws.len() == 0 {
        Seq::empty()
    } else if starts_with(rest, kws[0]) {
        ident_terms(ident(rest.skip(kws[0].len() as int)), true)
    } else {
        first_kw_terms(rest, kws.drop_first())
    }
}

fn push_first_kw_terms(terms: &mut Vec<String>, rest: &Vec<char>, kws: &[&str])
    ensures
        strs(final(terms)@) == strs(old(terms)@) + first_kw_terms(
            rest@,
            crate::config::str_views(kws@),
        ),
{
    match first_strip_exec(rest, kws) {
        Some(after) => {
            let name = first_piece_of(&after, &CharSet::NotAlnumExcept('_'));
            proof {
                lemma_first_kw_strip(rest@, crate::config::str_views(kws@));
            }
            push_ident_terms(terms, &name, true);
        },
        None => {
            proof {
                lemma_first_kw_strip(rest@, crate::config::str_views(kws@));
            }
            assert(strs(terms@) == strs(terms@) + Seq::<Seq<char>>::empty());
        },
    }
}

proof fn lemma_first_kw_strip(rest: Seq<char>, kws: Seq<Seq<char>>)
    ensures
        match first_strip(rest, kws) {
            None => first_kw_terms(rest, kws) == Seq::<Seq<char>>::empty(),
            Some(after) => first_kw_terms(rest, kws) == ident_terms(ident(after), true),
        },
    decreases kws.len(),
{
    if kws.len() > 0 && !starts_with(rest, kws[0]) {
        lemma_first_kw_strip(rest, kws.drop_first());
    }
}


// ---------------------------------------------------------------------------
// Languages
// ---------------------------------------------------------------------------

/// The languages whose source files the term extraction understands.
#[derive(PartialEq, Eq, Structural, Clone, Copy, Debug)]
pub enum Lang {
    Rust,
    Go,
    Python,
    TypeScript,
    Java,
    CSharp,
    Ruby,
    Php,
    Cpp,
    Markdown,
}

/// The words of a doc comment, when there is one.
pub open spec fn doc_terms(doc: Option<Seq<char>>, min: nat) -> Seq<Seq<char>> {
    match doc {
        None => Seq::empty(),
        Some(d) => clean_words(d, min),
    }
}

/// The words of a doc comment that is not an `@` annotation.
pub open spec fn plain_doc_terms(doc: Option<Seq<char>>) -> Seq<Seq<char>> {
    match doc {
        None => Seq::empty(),
        Some(d) => if starts_with(d, "@"@) {
            Seq::empty()
        } else {
            clean_words(d, 4)
        },
    }
}

/// The name part after a Go `func ` or `type `: after the receiver of a
/// method (the trimmed text between the first and the second `)`), else
/// the rest itself.
pub open spec fn go_name_part(rest: Seq<char>) -> Seq<char> {
    if starts_with(rest, "("@) {
        let pieces = split_by(rest, CharSet::Is(')'));
        if pieces.len() >= 2 {
            trim(pieces[1])
        } else {
            Seq::empty()
        }
    } else {
        rest
    }
}

/// The terms of an exported Go function or type after the keyword `p`.
pub open spec fn go_prefixed(t: Seq<char>, p: Seq<char>) -> Seq<Seq<char>> {
    if starts_with(t, p) {
        let name = ident(go_name_part(t.skip(p.len() as int)));
        if name.len() > 0 && is_upper(name[0]) {
            ident_terms(name, true)
        } else {
            Seq::empty()
        }
    } else {
        Seq::empty()
    }
}

/// The terms of a public Python function or class after the keyword `p`.
pub open spec fn python_prefixed(t: Seq<char>, p: Seq<char>) -> Seq<Seq<char>> {
    if starts_with(t, p) {
        let name = ident(t.skip(p.len() as int));
        if name.len() > 0 && name[0] == '_' {
            Seq::empty()
        } else {
            ident_terms(name, false)
        }
    } else {
        Seq::empty()
    }
}

/// The terms of a Ruby method, class or module after the keyword `p`.
pub open spec fn ruby_prefixed(t: Seq<char>, p: Seq<char>) -> Seq<Seq<char>> {
    if starts_with(t, p) {
        ident_terms(ident(strip_or(t.skip(p.len() as int), "self."@)), false)
    } else {
        Seq::empty()
    }
}

/// The terms of a PHP `public` or `function` declaration: after the keyword,
/// an optional `static ` and then `function ` are skipped; when `function `
/// does not follow, the name is read right after the keyword.
pub open spec fn php_function_terms(t: Seq<char>) -> Seq<Seq<char>> {
    match first_strip(t, seq!["public "@, "function "@]) {
        None => Seq::empty(),
        Some(rest) => {
            let a = strip_or(rest, "static "@);
            let b = if starts_with(a, "function "@) {
                a.skip(9)
            } else {
                rest
            };
            ident_terms(ident(b), true)
        },
    }
}

/// The text of a C# XML doc comment with its angle brackets turned into
/// spaces and its `summary` tags removed.
pub open spec fn csharp_doc_text(doc: Seq<char>) -> Seq<char> {
    crate::text::replace_all(
        crate::text::replace_all(
            crate::text::replace_all(
                crate::text::replace_all(doc, "<"@, " "@),
                ">"@,
                " "@,
            ),
            "/summary"@,
            ""@,
        ),
        "summary"@,
        ""@,
    )
}

/// The keywords after `export ` that declare a TypeScript item.
pub open spec fn ts_keywords() -> Seq<Seq<char>> {
    seq![
        "function "@,
        "class "@,
        "interface "@,
        "type "@,
        "const "@,
        "enum "@,
        "async function "@,
    ]
}

/// The terms of one trimmed line of a source file in the given language.
pub open spec fn line_terms(lang: Lang, t: Seq<char>) -> Seq<Seq<char>> {
    match lang {
        Lang::Rust => prefixed_all(
            t,
            seq!["pub fn "@, "pub struct "@, "pub enum "@, "pub trait "@],
            true,
        ) + doc_terms(first_strip(t, seq!["/// "@, "//! "@]), 4),
        Lang::Go => go_prefixed(t, "func "@) + go_prefixed(t, "type "@) + doc_terms(
            first_strip(t, seq!["// "@]),
            4,
        ),
        Lang::Python => python_prefixed(t, "def "@) + python_prefixed(t, "class "@) + doc_terms(
            first_strip(t, seq!["\"\"\""@, "'''"@]),
            4,
        ),
        Lang::TypeScript => (if starts_with(t, "export "@) {
            first_kw_terms(strip_or(t.skip(7), "default "@), ts_keywords())
        } else {
            Seq::empty()
        }) + plain_doc_terms(first_strip(t, seq!["* "@, "/** "@])),
        Lang::Java => (if starts_with(t, "public "@) {
            first_kw_terms(
                strip_or(strip_or(strip_or(t.skip(7), "static "@), "final "@), "abstract "@),
                seq!["class "@, "interface "@, "enum "@, "record "@],
            )
        } else {
            Seq::empty()
        }) + plain_doc_terms(first_strip(t, seq!["* "@, "/** "@])),
        Lang::CSharp => (if starts_with(t, "public "@) {
            first_kw_terms(
                strip_or(
                    strip_or(strip_or(strip_or(t.skip(7), "static "@), "sealed "@), "abstract "@),
                    "partial "@,
                ),
                seq!["class "@, "interface "@, "enum "@, "struct "@, "record "@],
            )
        } else {
            Seq::empty()
        }) + match first_strip(t, seq!["/// "@]) {
            None => Seq::empty(),
            Some(d) => clean_words(csharp_doc_text(d), 4),
        },
        Lang::Ruby => ruby_prefixed(t, "def "@) + ruby_prefixed(t, "class "@) + ruby_prefixed(
            t,
            "module "@,
        ) + plain_doc_terms(first_strip(t, seq!["# "@])),
        Lang::Php => php_function_terms(t) + prefixed_all(
            t,
            seq!["class "@, "interface "@, "trait "@, "enum "@],
            true,
        ) + plain_doc_terms(first_strip(t, seq!["* "@, "/** "@])),
        Lang::Cpp => prefixed_all(
            t,
            seq!["class "@, "struct "@, "enum "@, "namespace "@],
            true,
        ) + match first_strip(t, seq!["/// "@, "//! "@, "* "@]) {
            None => Seq::empty(),
            Some(d) => if starts_with(d, "@"@) || starts_with(d, "\\"@) {
                Seq::empty()
            } else {
                clean_words(d, 4)
            },
        },
        Lang::Markdown => doc_terms(first_strip(t, seq!["# "@, "## "@]), 3),
    }
}

/// The terms of the trimmed lines, line by line.
pub open spec fn lines_terms(lang: Lang, ls: Seq<Seq<char>>) -> Seq<Seq<char>>
    decreases ls.len(),
{
    if ls.len() == 0 {
        Seq::empty()
    } else {
        lines_terms(lang, ls.drop_last()) + line_terms(lang, trim(ls.last()))
    }
}

/// The terms of a source file in the given language.
pub open spec fn content_terms(lang: Lang, content: Seq<char>) -> Seq<Seq<char>> {
    lines_terms(lang, lines(content))
}

/// The view of an optional character vector.
pub open spec fn opt_chars(o: Option<Vec<char>>) -> Option<Seq<char>> {
    match o {
        None => None,
        Some(d) => Some(d@),
    }
}

fn push_doc_terms(terms: &mut Vec<String>, doc: Option<Vec<char>>, min: usize)
    ensures
        strs(final(terms)@) == strs(old(terms)@) + doc_terms(opt_chars(doc), min as nat),
{
    match doc {
        Some(d) => push_clean_words(terms, &d, min),
        None => {
            assert(strs(terms@) == strs(terms@) + Seq::<Seq<char>>::empty());
        },
    }
}

fn push_plain_doc_terms(terms: &mut Vec<String>, doc: Option<Vec<char>>)
    ensures
        strs(final(terms)@) == strs(old(terms)@) + plain_doc_terms(opt_chars(doc)),
{
    match doc {
        Some(d) => {
            let at = chars_of("@");
            if crate::text::has_prefix(&d, &at) {
                assert(strs(terms@) == strs(terms@) + Seq::<Seq<char>>::empty());
            } else {
                push_clean_words(terms, &d, 4);
            }
        },
        None => {
            assert(strs(terms@) == strs(terms@) + Seq::<Seq<char>>::empty());
        },
    }
}

fn push_go_prefixed(terms: &mut Vec<String>, t: &Vec<char>, p: &str)
    ensures
        strs(final(terms)@) == strs(old(terms)@) + go_prefixed(t@, p@),
{
    match strip_prefix_str(t, p) {
        Some(rest) => {
            let paren = chars_of("(");
            let name_part = if crate::text::has_prefix(&rest, &paren) {
                let pieces = split_set(&rest, &CharSet::Is(')'));
                let ghost pv = pieces@.map_values(|v: Vec<char>| v@);
                assert(pv.len() == pieces@.len());
                if pieces.len() >= 2 {
                    assert(pv[1] == pieces@[1]@);
                    trim_white(&pieces[1])
                } else {
                    Vec::new()
                }
            } else {
                rest
            };
            let name = first_piece_of(&name_part, &CharSet::NotAlnumExcept('_'));
            if name.len() > 0 && name[0].is_uppercase() {
                push_ident_terms(terms, &name, true);
            } else {
                assert(strs(terms@) == strs(terms@) + Seq::<Seq<char>>::empty());
            }
        },
        None => {
            assert(strs(terms@) == strs(terms@) + Seq::<Seq<char>>::empty());
        },
    }
}

fn push_python_prefixed(terms: &mut Vec<String>, t: &Vec<char>, p: &str)
    ensures
        strs(final(terms)@) == strs(old(terms)@) + python_prefixed(t@, p@),
{
    match strip_prefix_str(t, p) {
        Some(rest) => {
            let name = first_piece_of(&rest, &CharSet::NotAlnumExcept('_'));
            if name.len() > 0 && name[0] == '_' {
                assert(strs(terms@) == strs(terms@) + Seq::<Seq<char>>::empty());
            } else {
                push_ident_terms(terms, &name, false);
            }
        },
        None => {
            assert(strs(terms@) == strs(terms@) + Seq::<Seq<char>>::empty());
        },
    }
}

fn push_ruby_prefixed(terms: &mut Vec<String>, t: &Vec<char>, p: &str)
    ensures
        strs(final(terms)@) == strs(old(terms)@) + ruby_prefixed(t@, p@),
{
    match strip_prefix_str(t, p) {
        Some(rest) => {
            let r2 = strip_or_exec(rest, "self.");
            let name = first_piece_of(&r2, &CharSet::NotAlnumExcept('_'));
            push_ident_terms(terms, &name, false);
        },
        None => {
            assert(strs(terms@) == strs(terms@) + Seq::<Seq<char>>::empty());
        },
    }
}

fn push_php_function_terms(terms: &mut Vec<String>, t: &Vec<char>)
    ensures
        strs(final(terms)@) == strs(old(terms)@) + php_function_terms(t@),
{
    let ks: &[&str] = &["public ", "function "];
    assert(crate::config::str_views(ks@) =~= seq!["public "@, "function "@]);
    let found = first_strip_exec(t, ks);
    match found {
        Some(rest) => {
            let a = match strip_prefix_str(&rest, "static ") {
                Some(x) => x,
                None => crate::text::slice_of(&rest, 0, rest.len()),
            };
            assert(rest@.subrange(0, rest@.len() as int) == rest@);
            proof {
                reveal_strlit("function ");
            }
            let b = match strip_prefix_str(&a, "function ") {
                Some(x) => x,
                None => rest,
            };
            let name = first_piece_of(&b, &CharSet::NotAlnumExcept('_'));
            push_ident_terms(terms, &name, true);
        },
        None => {
            assert(strs(terms@) == strs(terms@) + Seq::<Seq<char>>::empty());
        },
    }
}

/// The terms of one trimmed line of a source file in the given language.
pub fn line_terms_of(lang: Lang, t: &Vec<char>) -> (r: Vec<String>)
    ensures
        strs(r@) == line_terms(lang, t@),
{
    let mut terms: Vec<String> = Vec::new();
    assert(strs(terms@) =~= Seq::<Seq<char>>::empty());
    match lang {
        Lang::Rust => {
            let ps: &[&str] = &["pub fn ", "pub struct ", "pub enum ", "pub trait "];
            assert(crate::config::str_views(ps@) =~= seq![
                "pub fn "@,
                "pub struct "@,
                "pub enum "@,
                "pub trait "@,
            ]);
            push_prefixed_all(&mut terms, t, ps, true);
            let ds: &[&str] = &["/// ", "//! "];
            assert(crate::config::str_views(ds@) =~= seq!["/// "@, "//! "@]);
            let doc = first_strip_exec(t, ds);
            push_doc_terms(&mut terms, doc, 4);
        },
        Lang::Go => {
            push_go_prefixed(&mut terms, t, "func ");
            push_go_prefixed(&mut terms, t, "type ");
            let ds: &[&str] = &["// "];
            assert(crate::config::str_views(ds@) =~= seq!["// "@]);
            let doc = first_strip_exec(t, ds);
            push_doc_terms(&mut terms, doc, 4);
        },
        Lang::Python => {
            push_python_prefixed(&mut terms, t, "def ");
            push_python_prefixed(&mut terms, t, "class ");
            let ds: &[&str] = &["\"\"\"", "'''"];
            assert(crate::config::str_views(ds@) =~= seq!["\"\"\""@, "'''"@]);
            let doc = first_strip_exec(t, ds);
            push_doc_terms(&mut terms, doc, 4);
        },
        Lang::TypeScript => {
            match strip_prefix_str(t, "export ") {
                Some(rest) => {
                    proof {
                        reveal_strlit("export ");
                    }
                    let rest = strip_or_exec(rest, "default ");
                    let kws: &[&str] = &[
                        "function ",
                        "class ",
                        "interface ",
                        "type ",
                        "const ",
                        "enum ",
                        "async function ",
                    ];
                    assert(crate::config::str_views(kws@) =~= ts_keywords());
                    push_first_kw_terms(&mut terms, &rest, kws);
                },
                None => {},
            }
            let ds: &[&str] = &["* ", "/** "];
            assert(crate::config::str_views(ds@) =~= seq!["* "@, "/** "@]);
            let doc = first_strip_exec(t, ds);
            push_plain_doc_terms(&mut terms, doc);
        },
        Lang::Java => {
            match strip_prefix_str(t, "public ") {
                Some(rest) => {
                    proof {
                        reveal_strlit("public ");
                    }
                    let rest = strip_or_exec(rest, "static ");
                    let rest = strip_or_exec(rest, "final ");
                    let rest = strip_or_exec(rest, "abstract ");
                    let kws: &[&str] = &["class ", "interface ", "enum ", "record "];
                    assert(crate::config::str_views(kws@) =~= seq![
                        "class "@,
                        "interface "@,
                        "enum "@,
                        "record "@,
                    ]);
                    push_first_kw_terms(&mut terms, &rest, kws);
                },
                None => {},
            }
            let ds: &[&str] = &["* ", "/** "];
            assert(crate::config::str_views(ds@) =~= seq!["* "@, "/** "@]);
            let doc = first_strip_exec(t, ds);
            push_plain_doc_terms(&mut terms, doc);
        },
        Lang::CSharp => {
            match strip_prefix_str(t, "public ") {
                Some(rest) => {
                    proof {
                        reveal_strlit("public ");
                    }
                    let rest = strip_or_exec(rest, "static ");
                    let rest = strip_or_exec(rest, "sealed ");
                    let rest = strip_or_exec(rest, "abstract ");
                    let rest = strip_or_exec(rest, "partial ");
                    let kws: &[&str] = &["class ", "interface ", "enum ", "struct ", "record "];
                    assert(crate::config::str_views(kws@) =~= seq![
                        "class "@,
                        "interface "@,
                        "enum "@,
                        "struct "@,
                        "record "@,
                    ]);
                    push_first_kw_terms(&mut terms, &rest, kws);
                },
                None => {},
            }
            let ds: &[&str] = &["/// "];
            assert(crate::config::str_views(ds@) =~= seq!["/// "@]);
            let doc = first_strip_exec(t, ds);
            match doc {
                Some(doc) => {
                    proof {
                        reveal_strlit("<");
                        reveal_strlit(">");
                        reveal_strlit("/summary");
                        reveal_strlit("summary");
                    }
                    let a = crate::text::replace_str(&doc, "<", " ");
                    let b = crate::text::replace_str(&a, ">", " ");
                    let c = crate::text::replace_str(&b, "/summary", "");
                    let d = crate::text::replace_str(&c, "summary", "");
                    push_clean_words(&mut terms, &d, 4);
                },
                None => {},
            }
        },
        Lang::Ruby => {
            push_ruby_prefixed(&mut terms, t, "def ");
            push_ruby_prefixed(&mut terms, t, "class ");
            push_ruby_prefixed(&mut terms, t, "module ");
            let ds: &[&str] = &["# "];
            assert(crate::config::str_views(ds@) =~= seq!["# "@]);
            let doc = first_strip_exec(t, ds);
            push_plain_doc_terms(&mut terms, doc);
        },
        Lang::Php => {
            push_php_function_terms(&mut terms, t);
            let ps: &[&str] = &["class ", "interface ", "trait ", "enum "];
            assert(crate::config::str_views(ps@) =~= seq![
                "class "@,
                "interface "@,
                "trait "@,
                "enum "@,
            ]);
            push_prefixed_all(&mut terms, t, ps, true);
            let ds: &[&str] = &["* ", "/** "];
            assert(crate::config::str_views(ds@) =~= seq!["* "@, "/** "@]);
            let doc = first_strip_exec(t, ds);
            push_plain_doc_terms(&mut terms, doc);
        },
        Lang::Cpp => {
            let ps: &[&str] = &["class ", "struct ", "enum ", "namespace "];
            assert(crate::config::str_views(ps@) =~= seq![
                "class "@,
                "struct "@,
                "enum "@,
                "namespace "@,
            ]);
            push_prefixed_all(&mut terms, t, ps, true);
            let ds: &[&str] = &["/// ", "//! ", "* "];
            assert(crate::config::str_views(ds@) =~= seq!["/// "@, "//! "@, "* "@]);
            let doc = first_strip_exec(t, ds);
            match doc {
                Some(d) => {
                    let at = chars_of("@");
                    let bs = chars_of("\\");
                    if crate::text::has_prefix(&d, &at) || crate::text::has_prefix(&d, &bs) {
                    } else {
                        push_clean_words(&mut terms, &d, 4);
                    }
                },
                None => {},
            }
        },
        Lang::Markdown => {
            let ds: &[&str] = &["# ", "## "];
            assert(crate::config::str_views(ds@) =~= seq!["# "@, "## "@]);
            let doc = first_strip_exec(t, ds);
            push_doc_terms(&mut terms, doc, 3);
        },
    }
    terms
}

/// Appends the terms of every line of a source file in the given language.
pub fn extract_terms(lang: Lang, content: &str, terms: &mut Vec<String>)
    ensures
        strs(final(terms)@) == strs(old(terms)@) + content_terms(lang, content@),
{
    let text = chars_of(content);
    let ls = split_lines(&text);
    let ghost lv = ls@.map_values(|v: Vec<char>| v@);
    let ghost start = strs(terms@);
    let mut i: usize = 0;
    while i < ls.len()
        invariant
            i <= ls.len(),
            lv == ls@.map_values(|v: Vec<char>| v@),
            lv == lines(content@),
            strs(terms@) == start + lines_terms(lang, lv.take(i as int)),
        decreases ls.len() - i,
    {
        assert(lv.take(i + 1).drop_last() == lv.take(i as int));
        let t = trim_white(&ls[i]);
        let more = line_terms_of(lang, &t);
        push_terms(terms, more);
        i = i + 1;
    }
    assert(lv.take(ls.len() as int) == lv);
}

/// Appends the terms of a Rust source file: public item names with their
/// CamelCase words, and the words of doc comments.
pub fn extract_rust_terms(content: &str, terms: &mut Vec<String>)
    ensures
        strs(final(terms)@) == strs(old(terms)@) + content_terms(Lang::Rust, content@),
{
    extract_terms(Lang::Rust, content, terms)
}

/// Appends the words of the level one and two headings of a Markdown file.
pub fn extract_markdown_terms(content: &str, terms: &mut Vec<String>)
    ensures
        strs(final(terms)@) == strs(old(terms)@) + content_terms(Lang::Markdown, content@),
{
    extract_terms(Lang::Markdown, content, terms)
}

/// Appends the terms of a Go source file: exported functions, methods and
/// types, and comment words.
pub fn extract_go_terms(content: &str, terms: &mut Vec<String>)
    ensures
        strs(final(terms)@) == strs(old(terms)@) + content_terms(Lang::Go, content@),
{
    extract_terms(Lang::Go, content, terms)
}

/// Appends the terms of a Python source file: public functions and classes
/// with their underscore-separated parts, and docstring words.
pub fn extract_python_terms(content: &str, terms: &mut Vec<String>)
    ensures
        strs(final(terms)@) == strs(old(terms)@) + content_terms(Lang::Python, content@),
{
    extract_terms(Lang::Python, content, terms)
}

/// Appends the terms of a TypeScript or JavaScript source file: exported
/// items and JSDoc words.
pub fn extract_typescript_terms(content: &str, terms: &mut Vec<String>)
    ensures
        strs(final(terms)@) == strs(old(terms)@) + content_terms(Lang::TypeScript, content@),
{
    extract_terms(Lang::TypeScript, content, terms)
}

/// Appends the terms of a Java source file: public types and Javadoc words.
pub fn extract_java_terms(content: &str, terms: &mut Vec<String>)
    ensures
        strs(final(terms)@) == strs(old(terms)@) + content_terms(Lang::Java, content@),
{
    extract_terms(Lang::Java, content, terms)
}

/// Appends the terms of a C# source file: public types and XML doc words.
pub fn extract_csharp_terms(content: &str, terms: &mut Vec<String>)
    ensures
        strs(final(terms)@) == strs(old(terms)@) + content_terms(Lang::CSharp, content@),
{
    extract_terms(Lang::CSharp, content, terms)
}

/// Appends the terms of a Ruby source file: methods, classes, modules and
/// YARD comment words.
pub fn extract_ruby_terms(content: &str, terms: &mut Vec<String>)
    ensures
        strs(final(terms)@) == strs(old(terms)@) + content_terms(Lang::Ruby, content@),
{
    extract_terms(Lang::Ruby, content, terms)
}

/// Appends the terms of a PHP source file: functions, types and PHPDoc words.
pub fn extract_php_terms(content: &str, terms: &mut Vec<String>)
    ensures
        strs(final(terms)@) == strs(old(terms)@) + content_terms(Lang::Php, content@),
{
    extract_terms(Lang::Php, content, terms)
}

/// Appends the terms of a C++ source file: classes, structs, enums,
/// namespaces and Doxygen words.
pub fn extract_cpp_terms(content: &str, terms: &mut Vec<String>)
    ensures
        strs(final(terms)@) == strs(old(terms)@) + content_terms(Lang::Cpp, content@),
{
    extract_terms(Lang::Cpp, content, terms)
}

/// Appends the meaningful words (at least four bytes) of a doc comment line.
pub fn extract_doc_words(doc: &str, terms: &mut Vec<String>)
    ensures
        strs(final(terms)@) == strs(old(terms)@) + clean_words(doc@, 4),
{
    let d = chars_of(doc);
    push_clean_words(terms, &d, 4)
}


// ---------------------------------------------------------------------------
// Page content
// ---------------------------------------------------------------------------

/// The text between `<tag ...>` and `</tag>` on a line: after the first
/// `<tag`, after the next `>`, up to the first `</tag>` that follows.
pub open spec fn tag_text(line: Seq<char>, tag: Seq<char>) -> Option<Seq<char>> {
    let open = "<"@ + tag;
    let close = "</"@ + tag + ">"@;
    match find_spec(line, open) {
        None => None,
        Some(s) => {
            let after = line.skip(s + open.len());
            match char_index(after, '>') {
                None => None,
                Some(g) => {
                    let content = after.skip(g + 1);
                    match find_spec(content, close) {
                        None => None,
                        Some(e) => Some(content.take(e)),
                    }
                },
            }
        },
    }
}

/// The text inside the first `<tag ...>...</tag>` element of the line.
pub fn extract_tag_text(line: &str, tag: &str) -> (r: Option<String>)
    ensures
        opt_string_view(r) == tag_text(line@, tag@),
{
    let l = chars_of(line);
    let mut open = chars_of("<");
    let t = chars_of(tag);
    push_all(&mut open, &t);
    let mut close = chars_of("</");
    push_all(&mut close, &t);
    push_str(&mut close, ">");
    match find_first(&l, &open) {
        None => None,
        Some(s) => {
            assert(occurs_at(l@, open@, s as int));
            assert(s + open@.len() <= l@.len());
            let olen = open.len();
            let llen = l.len();
            assert(s + olen <= llen);
            let k = s + olen;
            let after = tail_from(&l, k);
            match find_first_char(&after, '>') {
                None => None,
                Some(g) => {
                    let content = tail_from(&after, g + 1);
                    match find_first(&content, &close) {
                        None => None,
                        Some(e) => {
                            assert(e <= content@.len());
                            let inner = crate::text::slice_of(&content, 0, e);
                            assert(content@.subrange(0, e as int) == content@.take(e as int));
                            Some(string_of(&inner))
                        },
                    }
                },
            }
        },
    }
}

/// The stems of the source paths mentioned among the words (`src/...` or
/// `docs/...`, trimmed of punctuation other than `/` and `.`), lowercased,
/// except `mod` and stems under three bytes.
pub open spec fn path_ref_terms(ws: Seq<Seq<char>>) -> Seq<Seq<char>>
    decreases ws.len(),
{
    if ws.len() == 0 {
        Seq::empty()
    } else {
        let prev = path_ref_terms(ws.drop_last());
        let clean = trim_by(ws.last(), CharSet::NotAlnumExcept2('/', '.'));
        if starts_with(clean, "src/"@) || starts_with(clean, "docs/"@) {
            match path_file_stem(clean) {
                Some(stem) => if stem != "mod"@ && utf8_len(stem) >= 3 {
                    prev.push(lowercase(stem))
                } else {
                    prev
                },
                None => prev,
            }
        } else {
            prev
        }
    }
}

/// The text of the first `h2`, else `h3`, else `dt` element of the line.
pub open spec fn heading_text(t: Seq<char>) -> Option<Seq<char>> {
    match tag_text(t, "h2"@) {
        Some(x) => Some(x),
        None => match tag_text(t, "h3"@) {
            Some(x) => Some(x),
            None => tag_text(t, "dt"@),
        },
    }
}

/// The inline code spans of `rest`, each trimmed of characters other than
/// alphanumerics, `_` and `-`, lowercased, kept when they have at least
/// three bytes and no space.
pub open spec fn code_terms(rest: Seq<char>) -> Seq<Seq<char>>
    decreases rest.len(),
{
    match char_index(rest, '`') {
        None => Seq::empty(),
        Some(start) => if start < 0 || start >= rest.len() {
            Seq::empty()
        } else {
            let r1 = rest.skip(start + 1);
            match char_index(r1, '`') {
                None => Seq::empty(),
                Some(end) => if end < 0 || end >= r1.len() {
                    Seq::empty()
                } else {
                    let clean = lowercase(
                        trim_by(r1.take(end), CharSet::NotAlnumExcept2('_', '-')),
                    );
                    (if utf8_len(clean) >= 3 && !clean.contains(' ') {
                        seq![clean]
                    } else {
                        Seq::empty()
                    }) + code_terms(r1.skip(end + 1))
                },
            }
        },
    }
}

/// The terms of one trimmed line of a page.
pub open spec fn page_line_terms(t: Seq<char>) -> Seq<Seq<char>> {
    path_ref_terms(words(t)) + match heading_text(t) {
        Some(x) => clean_words(x, 3),
        None => Seq::empty(),
    } + code_terms(t)
}

/// The terms of the trimmed lines of a page, line by line.
pub open spec fn page_lines_terms(ls: Seq<Seq<char>>) -> Seq<Seq<char>>
    decreases ls.len(),
{
    if ls.len() == 0 {
        Seq::empty()
    } else {
        page_lines_terms(ls.drop_last()) + page_line_terms(trim(ls.last()))
    }
}

fn push_path_ref_terms(terms: &mut Vec<String>, t: &Vec<char>)
    ensures
        strs(final(terms)@) == strs(old(terms)@) + path_ref_terms(words(t@)),
{
    let ws = split_words(t);
    let ghost wv = ws@.map_values(|v: Vec<char>| v@);
    let ghost start = strs(terms@);
    let mut i: usize = 0;
    while i < ws.len()
        invariant
            i <= ws.len(),
            wv == ws@.map_values(|v: Vec<char>| v@),
            wv == words(t@),
            strs(terms@) == start + path_ref_terms(wv.take(i as int)),
        decreases ws.len() - i,
    {
        assert(wv.take(i + 1).drop_last() == wv.take(i as int));
        let clean = trim_set(&ws[i], &CharSet::NotAlnumExcept2('/', '.'));
        let src = chars_of("src/");
        let docs = chars_of("docs/");
        if crate::text::has_prefix(&clean, &src) || crate::text::has_prefix(&clean, &docs) {
            let cs = string_of(&clean);
            match file_stem(cs.as_str()) {
                Some(stem) => {
                    let sv = chars_of(stem.as_str());
                    let m = chars_of("mod");
                    if !crate::text::chars_eq(&sv, &m) && utf8_len_ge(&sv, 3) {
                        let l = lower(&sv);
                        let s = string_of(&l);
                        proof {
                            lemma_strs_push(terms@, s);
                        }
                        terms.push(s);
                    }
                },
                None => {},
            }
        }
        i = i + 1;
    }
    assert(wv.take(ws.len() as int) == wv);
}

fn push_code_terms(terms: &mut Vec<String>, t: &Vec<char>)
    ensures
        strs(final(terms)@) == strs(old(terms)@) + code_terms(t@),
{
    let ghost start = strs(terms@);
    let mut rest = crate::text::slice_of(t, 0, t.len());
    assert(t@.subrange(0, t@.len() as int) == t@);
    loop
        invariant
            start == strs(old(terms)@),
            strs(terms@) + code_terms(rest@) == start + code_terms(t@),
        decreases rest@.len(),
    {
        match find_first_char(&rest, '`') {
            None => {
                assert(code_terms(rest@) =~= Seq::<Seq<char>>::empty());
                assert(strs(terms@) + code_terms(rest@) =~= strs(terms@));
                return;
            },
            Some(s) => {
                let rl = rest.len();
                assert(s < rl);
                let r1 = tail_from(&rest, s + 1);
                match find_first_char(&r1, '`') {
                    None => {
                        assert(code_terms(rest@) =~= Seq::<Seq<char>>::empty());
                        assert(strs(terms@) + code_terms(rest@) =~= strs(terms@));
                        return;
                    },
                    Some(e) => {
                        let r1l = r1.len();
                        assert(e < r1l);
                        let code = crate::text::slice_of(&r1, 0, e);
                        assert(r1@.subrange(0, e as int) == r1@.take(e as int));
                        let tr = trim_set(&code, &CharSet::NotAlnumExcept2('_', '-'));
                        let clean = lower(&tr);
                        let ghost before = strs(terms@);
                        if utf8_len_ge(&clean, 3) && !crate::text::has_char(&clean, ' ') {
                            let s = string_of(&clean);
                            proof {
                                lemma_strs_push(terms@, s);
                            }
                            terms.push(s);
                        }
                        let next = tail_from(&r1, e + 1);
                        assert(code_terms(rest@) == (if utf8_len(clean@) >= 3 && !clean@.contains(
                            ' ',
                        ) {
                            seq![clean@]
                        } else {
                            Seq::<Seq<char>>::empty()
                        }) + code_terms(next@));
                        rest = next;
                    },
                }
            },
        }
    }
}

/// Appends the terms of a page's content: stems of source paths that the
/// page mentions, words of `h2`, `h3` and `dt` elements, and inline code.
pub fn extract_page_content_terms(content: &str, terms: &mut Vec<String>)
    ensures
        strs(final(terms)@) == strs(old(terms)@) + page_lines_terms(lines(content@)),
{
    let text = chars_of(content);
    let ls = split_lines(&text);
    let ghost lv = ls@.map_values(|v: Vec<char>| v@);
    let ghost start = strs(terms@);
    let mut i: usize = 0;
    while i < ls.len()
        invariant
            i <= ls.len(),
            lv == ls@.map_values(|v: Vec<char>| v@),
            lv == lines(content@),
            strs(terms@) == start + page_lines_terms(lv.take(i as int)),
        decreases ls.len() - i,
    {
        assert(lv.take(i + 1).drop_last() == lv.take(i as int));
        let t = trim_white(&ls[i]);
        let ghost before = strs(terms@);
        push_path_ref_terms(terms, &t);
        let ts = string_of(&t);
        let h = match extract_tag_text(ts.as_str(), "h2") {
            Some(x) => Some(x),
            None => match extract_tag_text(ts.as_str(), "h3") {
                Some(x) => Some(x),
                None => extract_tag_text(ts.as_str(), "dt"),
            },
        };
        let ghost mid = strs(terms@);
        match h {
            Some(x) => {
                let xv = chars_of(x.as_str());
                push_clean_words(terms, &xv, 3);
            },
            None => {},
        }
        let ghost mid2 = strs(terms@);
        push_code_terms(terms, &t);
        assert(strs(terms@) == before + page_line_terms(t@));
        i = i + 1;
    }
    assert(lv.take(ls.len() as int) == lv);
}


// ---------------------------------------------------------------------------
// Source and page term sets, and scoring
// ---------------------------------------------------------------------------

/// File stems too generic to say what a file is about.
pub open spec fn generic_stems() -> Seq<Seq<char>> {
    seq!["mod"@, "lib"@, "main"@, "types"@, "utils"@, "helpers"@, "error"@, "errors"@]
}

/// Directory names too generic to say what a file is about.
pub open spec fn generic_dirs() -> Seq<Seq<char>> {
    seq!["src"@, "docs"@, "spec"@, "commands"@, "kernel"@, "serve"@, "tools"@]
}

/// The language whose terms a file with the given extension holds.
pub open spec fn lang_of_extension(ext: Option<Seq<char>>) -> Option<Lang> {
    match ext {
        None => None,
        Some(e) => if e == "rs"@ {
            Some(Lang::Rust)
        } else if e == "go"@ {
            Some(Lang::Go)
        } else if e == "py"@ {
            Some(Lang::Python)
        } else if e == "ts"@ || e == "tsx"@ || e == "js"@ || e == "jsx"@ {
            Some(Lang::TypeScript)
        } else if e == "java"@ {
            Some(Lang::Java)
        } else if e == "cs"@ {
            Some(Lang::CSharp)
        } else if e == "rb"@ {
            Some(Lang::Ruby)
        } else if e == "php"@ {
            Some(Lang::Php)
        } else if e == "cpp"@ || e == "cc"@ || e == "h"@ || e == "hpp"@ {
            Some(Lang::Cpp)
        } else if e == "md"@ || e == "mdx"@ || e == "rst"@ {
            Some(Lang::Markdown)
        } else {
            None
        },
    }
}

/// The language of a file extension.
pub fn lang_for_extension(ext: &str) -> (r: Option<Lang>)
    ensures
        r == lang_of_extension(Some(ext@)),
{
    let is = |x: &str| -> (b: bool)
        ensures
            b == (ext@ == x@),
        { crate::text::str_eq(ext, x) };
    if is("rs") {
        Some(Lang::Rust)
    } else if is("go") {
        Some(Lang::Go)
    } else if is("py") {
        Some(Lang::Python)
    } else if is("ts") || is("tsx") || is("js") || is("jsx") {
        Some(Lang::TypeScript)
    } else if is("java") {
        Some(Lang::Java)
    } else if is("cs") {
        Some(Lang::CSharp)
    } else if is("rb") {
        Some(Lang::Ruby)
    } else if is("php") {
        Some(Lang::Php)
    } else if is("cpp") || is("cc") || is("h") || is("hpp") {
        Some(Lang::Cpp)
    } else if is("md") || is("mdx") || is("rst") {
        Some(Lang::Markdown)
    } else {
        None
    }
}

/// The terms of a file stem: the lowercase stem, and when it holds
/// underscores, its hyphenated form and its parts of at least three bytes.
pub open spec fn stem_terms(stem: Seq<char>) -> Seq<Seq<char>> {
    if generic_stems().contains(stem) || stem.len() == 0 {
        Seq::empty()
    } else if stem.contains('_') {
        seq![lowercase(stem), lowercase(crate::text::replace_all(stem, "_"@, "-"@))]
            + lowered_long(split_by(stem, CharSet::Is('_')), 3)
    } else {
        seq![lowercase(stem)]
    }
}

/// The term of the parent directory's name, unless it is a generic one.
pub open spec fn dir_terms(path: Seq<char>) -> Seq<Seq<char>> {
    match path_parent(path) {
        None => Seq::empty(),
        Some(parent) => match path_file_name(parent) {
            None => Seq::empty(),
            Some(dir) => if generic_dirs().contains(dir) {
                Seq::empty()
            } else {
                seq![lowercase(dir)]
            },
        },
    }
}

/// The terms of a source file before sorting: its stem, its directory, and
/// the terms of its content (when it could be read) in its language.
pub open spec fn raw_source_terms(path: Seq<char>, content: Option<Seq<char>>) -> Seq<Seq<char>> {
    let stem = match path_file_stem(path) {
        Some(s) => s,
        None => Seq::empty(),
    };
    stem_terms(stem) + dir_terms(path) + match content {
        None => Seq::empty(),
        Some(c) => match lang_of_extension(path_extension(path)) {
            None => Seq::empty(),
            Some(lang) => content_terms(lang, c),
        },
    }
}

fn push_lower(terms: &mut Vec<String>, v: &Vec<char>)
    ensures
        strs(final(terms)@) == strs(old(terms)@).push(lowercase(v@)),
{
    let l = lower(v);
    let s = string_of(&l);
    proof {
        lemma_strs_push(terms@, s);
    }
    terms.push(s);
}

fn is_among(v: &Vec<char>, options: &[&str]) -> (r: bool)
    ensures
        r == crate::config::str_views(options@).contains(v@),
{
    let ghost ov = crate::config::str_views(options@);
    let mut i: usize = 0;
    while i < options.len()
        invariant
            i <= options@.len(),
            ov == crate::config::str_views(options@),
            forall|j: int| 0 <= j < i ==> ov[j] != v@,
        decreases options@.len() - i,
    {
        let o = chars_of(options[i]);
        if crate::text::chars_eq(v, &o) {
            assert(ov[i as int] == v@);
            return true;
        }
        i = i + 1;
    }
    false
}

/// The distinct terms of a source file, sorted: its stem (unless generic),
/// its directory (unless generic), and the terms of its content in the
/// language of its extension.  `content` is `None` when the file could not
/// be read.
pub fn source_terms(path: &str, content: Option<&str>) -> (r: Vec<String>)
    ensures
        crate::text::strictly_sorted(strs(r@)),
        forall|x: Seq<char>|
            strs(r@).contains(x) <==> raw_source_terms(
                path@,
                match content {
                    None => None,
                    Some(c) => Some(c@),
                },
            ).contains(x),
{
    let mut terms: Vec<String> = Vec::new();
    let stem = match file_stem(path) {
        Some(s) => chars_of(s.as_str()),
        None => Vec::new(),
    };
    let gs: &[&str] = &["mod", "lib", "main", "types", "utils", "helpers", "error", "errors"];
    assert(crate::config::str_views(gs@) =~= generic_stems());
    if !is_among(&stem, gs) && stem.len() > 0 {
        push_lower(&mut terms, &stem);
        if crate::text::has_char(&stem, '_') {
            proof {
                reveal_strlit("_");
            }
            let h = crate::text::replace_str(&stem, "_", "-");
            push_lower(&mut terms, &h);
            let pieces = split_set(&stem, &CharSet::Is('_'));
            let parts = strings_of(&pieces);
            push_lowered_long(&mut terms, &parts, 3);
        }
    }
    let ghost after_stem = strs(terms@);
    assert(after_stem =~= stem_terms(stem@));
    match parent(path) {
        Some(pr) => match file_name(pr.as_str()) {
            Some(dir) => {
                let d = chars_of(dir.as_str());
                let gd: &[&str] = &["src", "docs", "spec", "commands", "kernel", "serve", "tools"];
                assert(crate::config::str_views(gd@) =~= generic_dirs());
                if !is_among(&d, gd) {
                    push_lower(&mut terms, &d);
                }
            },
            None => {},
        },
        None => {},
    }
    assert(strs(terms@) =~= stem_terms(stem@) + dir_terms(path@));
    let ghost after_dir = strs(terms@);
    match content {
        Some(c) => match extension(path) {
            Some(ext) => match lang_for_extension(ext.as_str()) {
                Some(lang) => extract_terms(lang, c, &mut terms),
                None => {},
            },
            None => {},
        },
        None => {},
    }
    assert(strs(terms@) =~= raw_source_terms(
        path@,
        match content {
            None => None,
            Some(c) => Some(c@),
        },
    ));
    crate::text::sorted_unique(&terms)
}

/// The terms of a route: each segment of at least three bytes, lowercased,
/// followed by its hyphen-separated parts of at least three bytes.
pub open spec fn route_terms(segments: Seq<Seq<char>>) -> Seq<Seq<char>>
    decreases segments.len(),
{
    if segments.len() == 0 {
        Seq::empty()
    } else {
        let prev = route_terms(segments.drop_last());
        let seg = segments.last();
        if seg.len() > 0 && utf8_len(seg) >= 3 {
            prev.push(lowercase(seg)) + lowered_long(split_by(seg, CharSet::Is('-')), 3)
        } else {
            prev
        }
    }
}

/// The terms of a page before sorting: those of its route, then those of
/// its content when it could be read.
pub open spec fn raw_page_terms(route: Seq<char>, content: Option<Seq<char>>) -> Seq<Seq<char>> {
    route_terms(split_by(route, CharSet::Is('/'))) + match content {
        None => Seq::empty(),
        Some(c) => page_lines_terms(lines(c)),
    }
}

/// The distinct searchable terms of a page, sorted: the segments of its
/// route and the terms of its content.  `content` is `None` when the page
/// file could not be read.
pub fn page_terms(route: &str, content: Option<&str>) -> (r: Vec<String>)
    ensures
        crate::text::strictly_sorted(strs(r@)),
        forall|x: Seq<char>|
            strs(r@).contains(x) <==> raw_page_terms(
                route@,
                match content {
                    None => None,
                    Some(c) => Some(c@),
                },
            ).contains(x),
{
    let mut terms: Vec<String> = Vec::new();
    let rv = chars_of(route);
    let segs = split_set(&rv, &CharSet::Is('/'));
    let ghost sv = segs@.map_values(|v: Vec<char>| v@);
    let mut i: usize = 0;
    while i < segs.len()
        invariant
            i <= segs.len(),
            sv == segs@.map_values(|v: Vec<char>| v@),
            strs(terms@) == route_terms(sv.take(i as int)),
        decreases segs.len() - i,
    {
        assert(sv.take(i + 1).drop_last() == sv.take(i as int));
        let seg = &segs[i];
        if seg.len() > 0 && utf8_len_ge(seg, 3) {
            push_lower(&mut terms, seg);
            let pieces = split_set(seg, &CharSet::Is('-'));
            let parts = strings_of(&pieces);
            push_lowered_long(&mut terms, &parts, 3);
        }
        i = i + 1;
    }
    assert(sv.take(segs.len() as int) == sv);
    match content {
        Some(c) => extract_page_content_terms(c, &mut terms),
        None => {},
    }
    assert(strs(terms@) =~= raw_page_terms(
        route@,
        match content {
            None => None,
            Some(c) => Some(c@),
        },
    ));
    crate::text::sorted_unique(&terms)
}

/// How well a source file matches a page: whether the page's terms include
/// the file's stem, how many of the file's terms the page shares, out of how
/// many, and the reasons shown to the user.  The confidence is 0.6 for a
/// stem match plus 0.4 times the shared fraction.
pub struct MatchScore {
    pub stem_matched: bool,
    pub matched: usize,
    pub total: usize,
    pub reasons: Vec<String>,
}

/// The source terms that the page also has, in order.
pub open spec fn shared_terms(src: Seq<Seq<char>>, page: Seq<Seq<char>>) -> Seq<Seq<char>>
    decreases src.len(),
{
    if src.len() == 0 {
        Seq::empty()
    } else {
        let prev = shared_terms(src.drop_last(), page);
        if page.contains(src.last()) {
            prev.push(src.last())
        } else {
            prev
        }
    }
}

/// The reasons given for a match.
pub open spec fn match_reasons(stem: Seq<char>, stem_hit: bool, shared: Seq<Seq<char>>, total: nat) -> Seq<
    Seq<char>,
> {
    (if stem_hit {
        seq!["page mentions \""@ + stem + "\""@]
    } else {
        Seq::empty()
    }) + if total > 0 && shared.len() > 0 {
        if shared.len() <= 5 {
            seq!["shared terms: "@ + crate::text::join(shared, ", "@)]
        } else {
            seq![crate::text::decimal(shared.len()) + " shared terms"@]
        }
    } else {
        Seq::empty()
    }
}

/// The stem of a source path, empty when it has none.
pub open spec fn stem_or_empty(path: Seq<char>) -> Seq<char> {
    match path_file_stem(path) {
        Some(s) => s,
        None => Seq::<char>::empty(),
    }
}

/// Whether `r` is the score of the source file with the path and terms
/// against a page with the terms.
pub open spec fn scored(r: MatchScore, path: Seq<char>, st: Seq<Seq<char>>, pt: Seq<Seq<char>>) -> bool {
    let stem = stem_or_empty(path);
    let shared = shared_terms(st, pt);
    &&& r.stem_matched == (stem.len() > 0 && pt.contains(stem))
    &&& r.matched == shared.len()
    &&& r.total == st.len()
    &&& strs(r.reasons@) == match_reasons(stem, r.stem_matched, shared, st.len())
}

/// Scores a source file against a page by its stem and its terms.
pub fn score_match(source_path: &str, source_terms: &Vec<String>, page_terms: &Vec<String>) -> (r:
    MatchScore)
    ensures
        scored(r, source_path@, strs(source_terms@), strs(page_terms@)),
{
    let stem = match file_stem(source_path) {
        Some(s) => s,
        None => String::new(),
    };
    let stem_hit = !stem.as_str().is_empty() && crate::text::contains_string(page_terms, stem.as_str());
    let mut reasons: Vec<String> = Vec::new();
    if stem_hit {
        let mut msg = chars_of("page mentions \"");
        push_str(&mut msg, stem.as_str());
        push_str(&mut msg, "\"");
        let m = string_of(&msg);
        proof {
            lemma_strs_push(reasons@, m);
        }
        reasons.push(m);
    }
    let ghost sv = strs(source_terms@);
    let ghost pv = strs(page_terms@);
    let mut shared: Vec<String> = Vec::new();
    let mut i: usize = 0;
    while i < source_terms.len()
        invariant
            i <= source_terms.len(),
            sv == strs(source_terms@),
            pv == strs(page_terms@),
            strs(shared@) == shared_terms(sv.take(i as int), pv),
        decreases source_terms.len() - i,
    {
        assert(sv.take(i + 1).drop_last() == sv.take(i as int));
        if crate::text::contains_string(page_terms, source_terms[i].as_str()) {
            let t = source_terms[i].clone();
            proof {
                lemma_strs_push(shared@, t);
            }
            shared.push(t);
        }
        i = i + 1;
    }
    assert(sv.take(source_terms.len() as int) == sv);
    let ghost before = strs(reasons@);
    if source_terms.len() > 0 && shared.len() > 0 {
        let msg = if shared.len() <= 5 {
            let mut m = chars_of("shared terms: ");
            let j = crate::text::join_strings(&shared, ", ");
            push_all(&mut m, &j);
            m
        } else {
            let mut m = crate::text::decimal_of(shared.len());
            push_str(&mut m, " shared terms");
            m
        };
        let ms = string_of(&msg);
        proof {
            lemma_strs_push(reasons@, ms);
        }
        reasons.push(ms);
    }
    assert(strs(reasons@) =~= match_reasons(
        match path_file_stem(source_path@) {
            Some(s) => s,
            None => Seq::<char>::empty(),
        },
        stem_hit,
        strs(shared@),
        source_terms@.len(),
    ));
    MatchScore { stem_matched: stem_hit, matched: shared.len(), total: source_terms.len(), reasons }
}

// ---------------------------------------------------------------------------
// Suggesting pages for source files
// ---------------------------------------------------------------------------

/// Whether `t` holds the distinct terms of a page with the route and the
/// content, sorted.
pub open spec fn are_page_terms(t: Seq<Seq<char>>, route: Seq<char>, content: Option<Seq<char>>) -> bool {
    &&& crate::text::strictly_sorted(t)
    &&& forall|x: Seq<char>| t.contains(x) <==> raw_page_terms(route, content).contains(x)
}

/// Whether page `i` is the last page with a file and the route.
pub open spec fn last_filed_page(pages: Seq<Page>, route: Seq<char>, i: int) -> bool {
    &&& 0 <= i < pages.len()
    &&& pages[i].file is Some
    &&& pages[i].route@ == route
    &&& forall|j: int|
        i < j < pages.len() && (#[trigger] pages[j]).file is Some ==> pages[j].route@ != route
}

/// Whether the index entry holds the route and the terms of the last page
/// with a file and that route.
pub open spec fn index_entry_ok(
    e: (String, Vec<String>),
    pages: Seq<Page>,
    contents: Seq<Option<Seq<char>>>,
) -> bool {
    exists|i: int|
        #![trigger pages[i]]
        last_filed_page(pages, e.0@, i) && are_page_terms(strs(e.1@), e.0@, contents[i])
}

/// Whether `index` is the term index of the pages: one entry per route of
/// a page with a file, holding the terms of the last such page.
pub open spec fn term_index_of(
    index: Seq<(String, Vec<String>)>,
    pages: Seq<Page>,
    contents: Seq<Option<Seq<char>>>,
) -> bool {
    &&& forall|a: int, b: int|
        0 <= a < b < index.len() ==> (#[trigger] index[a]).0@ != (#[trigger] index[b]).0@
    &&& forall|j: int|
        0 <= j < pages.len() && (#[trigger] pages[j]).file is Some ==> exists|k: int|
            0 <= k < index.len() && (#[trigger] index[k]).0@ == pages[j].route@
    &&& forall|k: int| 0 <= k < index.len() ==> index_entry_ok(#[trigger] index[k], pages, contents)
}

/// The position of the entry with the route.
fn index_position(index: &Vec<(String, Vec<String>)>, route: &str) -> (r: Option<usize>)
    ensures
        match r {
            Some(k) => k < index@.len() && index@[k as int].0@ == route@,
            None => forall|k: int| 0 <= k < index@.len() ==> (#[trigger] index@[k]).0@ != route@,
        },
{
    let mut k: usize = 0;
    while k < index.len()
        invariant
            k <= index@.len(),
            forall|m: int| 0 <= m < k ==> (#[trigger] index@[m]).0@ != route@,
        decreases index@.len() - k,
    {
        if crate::text::str_eq(index[k].0.as_str(), route) {
            return Some(k);
        }
        k = k + 1;
    }
    None
}

/// A page without a file leaves the term index as it is.
proof fn lemma_index_skip(
    index: Seq<(String, Vec<String>)>,
    before: Seq<Page>,
    page: Page,
    cv: Seq<Option<Seq<char>>>,
)
    requires
        term_index_of(index, before, cv),
        page.file is None,
    ensures
        term_index_of(index, before.push(page), cv),
{
    let after = before.push(page);
    assert forall|m: int| 0 <= m < index.len() implies index_entry_ok(
        #[trigger] index[m],
        after,
        cv,
    ) by {
        assert(index_entry_ok(index[m], before, cv));
        let w = choose|w: int|
            #![trigger before[w]]
            last_filed_page(before, index[m].0@, w) && are_page_terms(
                strs(index[m].1@),
                index[m].0@,
                cv[w],
            );
        assert(last_filed_page(after, index[m].0@, w));
    }
    assert forall|j: int|
        0 <= j < after.len() && (#[trigger] after[j]).file is Some implies exists|q: int|
        0 <= q < index.len() && (#[trigger] index[q]).0@ == after[j].route@ by {
        assert(before[j] == after[j]);
    }
}

/// Setting the entry of a page's route to the page's terms, in place or at
/// the end, gives the term index of the pages up to that page.
proof fn lemma_index_add(
    old_index: Seq<(String, Vec<String>)>,
    index: Seq<(String, Vec<String>)>,
    before: Seq<Page>,
    page: Page,
    cv: Seq<Option<Seq<char>>>,
    pos: Option<int>,
    e: (String, Vec<String>),
)
    requires
        term_index_of(old_index, before, cv),
        before.len() < cv.len(),
        page.file is Some,
        e.0@ == page.route@,
        are_page_terms(strs(e.1@), page.route@, cv[before.len() as int]),
        match pos {
            Some(k) => 0 <= k < old_index.len() && old_index[k].0@ == e.0@ && index
                == old_index.update(k, e),
            None => (forall|k: int| 0 <= k < old_index.len() ==> (#[trigger] old_index[k]).0@
                != e.0@) && index == old_index.push(e),
        },
    ensures
        term_index_of(index, before.push(page), cv),
{
    let after = before.push(page);
    let i = before.len() as int;
    assert(last_filed_page(after, page.route@, i));
    let kk: int = match pos {
        Some(k) => k,
        None => old_index.len() as int,
    };
    assert(index[kk] == e);
    assert forall|m: int| 0 <= m < index.len() && m != kk implies #[trigger] index[m] == old_index[m]
        by {
    }
    assert forall|m: int| 0 <= m < index.len() implies index_entry_ok(
        #[trigger] index[m],
        after,
        cv,
    ) by {
        if m != kk {
            assert(index[m] == old_index[m]);
            assert(index_entry_ok(old_index[m], before, cv));
            let w = choose|w: int|
                #![trigger before[w]]
                last_filed_page(before, old_index[m].0@, w) && are_page_terms(
                    strs(old_index[m].1@),
                    old_index[m].0@,
                    cv[w],
                );
            assert(old_index[m].0@ != page.route@);
            assert(last_filed_page(after, index[m].0@, w));
        } else {
            assert(index[m].0@ == page.route@);
        }
    }
    assert forall|a: int, b: int| 0 <= a < b < index.len() implies (#[trigger] index[a]).0@
        != (#[trigger] index[b]).0@ by {
        if a != kk && b != kk {
            assert(old_index[a].0@ != old_index[b].0@);
        } else if a == kk {
            assert(index[b] == old_index[b]);
        } else {
            assert(index[a] == old_index[a]);
        }
    }
    assert forall|j: int|
        0 <= j < after.len() && (#[trigger] after[j]).file is Some implies exists|q: int|
        0 <= q < index.len() && (#[trigger] index[q]).0@ == after[j].route@ by {
        if j < i {
            assert(before[j] == after[j]);
            let q = choose|q: int|
                0 <= q < old_index.len() && (#[trigger] old_index[q]).0@ == before[j].route@;
            if q != kk {
                assert(index[q] == old_index[q]);
            } else {
                assert(index[kk].0@ == old_index[kk].0@);
            }
        } else {
            assert(index[kk].0@ == after[j].route@);
        }
    }
}

/// The searchable terms of each route of a page with a file: the terms of
/// the last page with that route (`page_contents[i]` is the content of the
/// i-th page's file, `None` where it has none or it could not be read).
pub fn page_term_index(manifest: &Manifest, page_contents: &[Option<String>]) -> (r: Vec<
    (String, Vec<String>),
>)
    requires
        page_contents@.len() == manifest.pages@.len(),
    ensures
        term_index_of(r@, manifest.pages@, contents_view(page_contents@)),
{
    let ghost pages = manifest.pages@;
    let ghost cv = contents_view(page_contents@);
    let mut index: Vec<(String, Vec<String>)> = Vec::new();
    let mut i: usize = 0;
    while i < manifest.pages.len()
        invariant
            i <= pages.len(),
            pages == manifest.pages@,
            cv == contents_view(page_contents@),
            page_contents@.len() == pages.len(),
            term_index_of(index@, pages.take(i as int), cv),
        decreases pages.len() - i,
    {
        let ghost old_index = index@;
        let ghost before = pages.take(i as int);
        assert(pages.take(i + 1) == before.push(pages[i as int]));
        let page = &manifest.pages[i];
        if page.file.is_some() {
            let content = match &page_contents[i] {
                Some(c) => Some(c.as_str()),
                None => None,
            };
            let terms = page_terms(page.route.as_str(), content);
            assert(cv[i as int] == match content {
                None => None::<Seq<char>>,
                Some(c) => Some(c@),
            });
            let entry = (page.route.clone(), terms);
            match index_position(&index, page.route.as_str()) {
                Some(k) => {
                    index.set(k, entry);
                    proof {
                        lemma_index_add(old_index, index@, before, *page, cv, Some(k as int), entry);
                    }
                },
                None => {
                    index.push(entry);
                    proof {
                        lemma_index_add(old_index, index@, before, *page, cv, None, entry);
                    }
                },
            }
        } else {
            proof {
                lemma_index_skip(index@, before, *page, cv);
            }
        }
        i = i + 1;
    }
    assert(pages.take(pages.len() as int) == pages);
    index
}

/// Scores the source file against every page of the term index, in order.
pub fn score_pages(source_path: &str, source_terms: &Vec<String>, index: &Vec<(String, Vec<String>)>) -> (r:
    Vec<MatchScore>)
    ensures
        r@.len() == index@.len(),
        forall|k: int|
            0 <= k < index@.len() ==> scored(
                #[trigger] r@[k],
                source_path@,
                strs(source_terms@),
                strs(index@[k].1@),
            ),
{
    let mut r: Vec<MatchScore> = Vec::new();
    let mut k: usize = 0;
    while k < index.len()
        invariant
            k <= index@.len(),
            r@.len() == k,
            forall|m: int|
                0 <= m < k ==> scored(
                    #[trigger] r@[m],
                    source_path@,
                    strs(source_terms@),
                    strs(index@[m].1@),
                ),
        decreases index@.len() - k,
    {
        let m = score_match(source_path, source_terms, &index[k].1);
        r.push(m);
        k = k + 1;
    }
    r
}

/// The files that no path of `mapped` names, in order.
pub open spec fn unmapped_of(files: Seq<Seq<char>>, mapped: Seq<Seq<char>>) -> Seq<Seq<char>>
    decreases files.len(),
{
    if files.len() == 0 {
        Seq::empty()
    } else {
        let prev = unmapped_of(files.drop_last(), mapped);
        if mapped.contains(files.last()) {
            prev
        } else {
            prev.push(files.last())
        }
    }
}

/// The source files that no page of the manifest maps yet, in order: those
/// that `suggest` finds pages for.
pub fn unmapped_files(manifest: &Manifest, files: &[String]) -> (r: Vec<String>)
    ensures
        strs(r@) == unmapped_of(strs(files@), crate::coverage::documented_paths(manifest.pages@)),
{
    let mapped = crate::coverage::documented_files(manifest);
    let ghost fv = strs(files@);
    let ghost mv = crate::coverage::documented_paths(manifest.pages@);
    let mut r: Vec<String> = Vec::new();
    let mut i: usize = 0;
    while i < files.len()
        invariant
            i <= files@.len(),
            fv == strs(files@),
            strs(mapped@) == mv,
            strs(r@) == unmapped_of(fv.take(i as int), mv),
        decreases files@.len() - i,
    {
        assert(fv.take(i + 1).drop_last() == fv.take(i as int));
        if !crate::text::contains_string(&mapped, files[i].as_str()) {
            let f = files[i].clone();
            proof {
                lemma_strs_push(r@, f);
            }
            r.push(f);
        }
        i = i + 1;
    }
    assert(fv.take(files@.len() as int) == fv);
    r
}

/// `suggest` considers exactly the scanned files that no page maps: a file
/// is among them if and only if it was scanned and no source of the
/// manifest has its path.
pub proof fn law_unmapped(files: Seq<Seq<char>>, mapped: Seq<Seq<char>>, f: Seq<char>)
    ensures
        unmapped_of(files, mapped).contains(f) <==> (files.contains(f) && !mapped.contains(f)),
    decreases files.len(),
{
    if files.len() > 0 {
        law_unmapped(files.drop_last(), mapped, f);
        crate::text::lemma_drop_last_contains(files, f);
        let prev = unmapped_of(files.drop_last(), mapped);
        if !mapped.contains(files.last()) {
            crate::text::lemma_push_contains(prev, files.last(), f);
        }
    }
}

proof fn lemma_contains_left<A>(a: Seq<A>, b: Seq<A>, x: A)
    requires
        a.contains(x),
    ensures
        (a + b).contains(x),
{
    let k = choose|k: int| 0 <= k < a.len() && a[k] == x;
    assert((a + b)[k] == x);
}

proof fn lemma_contains_right<A>(a: Seq<A>, b: Seq<A>, x: A)
    requires
        b.contains(x),
    ensures
        (a + b).contains(x),
{
    let k = choose|k: int| 0 <= k < b.len() && b[k] == x;
    assert((a + b)[a.len() + k] == x);
}

/// Whether `w`, trimmed of punctuation other than `/` and `.`, names a
/// path under `src/` or `docs/` whose file stem is `stem`.
pub open spec fn refers_to_path_with_stem(w: Seq<char>, stem: Seq<char>) -> bool {
    let clean = trim_by(w, CharSet::NotAlnumExcept2('/', '.'));
    &&& starts_with(clean, "src/"@) || starts_with(clean, "docs/"@)
    &&& path_file_stem(clean) == Some(stem)
}

proof fn lemma_path_ref_terms_has(ws: Seq<Seq<char>>, k: int, stem: Seq<char>)
    requires
        0 <= k < ws.len(),
        refers_to_path_with_stem(ws[k], stem),
        stem != "mod"@,
        utf8_len(stem) >= 3,
    ensures
        path_ref_terms(ws).contains(lowercase(stem)),
    decreases ws.len(),
{
    let prev = path_ref_terms(ws.drop_last());
    if k == ws.len() - 1 {
        assert(path_ref_terms(ws) == prev.push(lowercase(stem)));
        crate::text::lemma_push_contains(prev, lowercase(stem), lowercase(stem));
    } else {
        assert(ws.drop_last()[k] == ws[k]);
        lemma_path_ref_terms_has(ws.drop_last(), k, stem);
        let clean = trim_by(ws.last(), CharSet::NotAlnumExcept2('/', '.'));
        if starts_with(clean, "src/"@) || starts_with(clean, "docs/"@) {
            match path_file_stem(clean) {
                Some(st) => if st != "mod"@ && utf8_len(st) >= 3 {
                    crate::text::lemma_push_contains(prev, lowercase(st), lowercase(stem));
                },
                None => {},
            }
        }
    }
}

proof fn lemma_page_lines_terms_has(ls: Seq<Seq<char>>, i: int, x: Seq<char>)
    requires
        0 <= i < ls.len(),
        page_line_terms(trim(ls[i])).contains(x),
    ensures
        page_lines_terms(ls).contains(x),
    decreases ls.len(),
{
    let d = ls.drop_last();
    if i == ls.len() - 1 {
        lemma_contains_right(page_lines_terms(d), page_line_terms(trim(ls.last())), x);
    } else {
        assert(d[i] == ls[i]);
        lemma_page_lines_terms_has(d, i, x);
        lemma_contains_left(page_lines_terms(d), page_line_terms(trim(ls.last())), x);
    }
}

/// A page that mentions a path under `src/` or under `docs/` (a word of one
/// of its trimmed lines, trimmed of punctuation other than `/` and `.`) has
/// the lowercased file stem of that path among its terms, unless the stem
/// is `mod` or shorter than three bytes, so a source file with that stem
/// gets the stem match.
pub proof fn law_page_path_refs(route: Seq<char>, content: Seq<char>, i: int, k: int, stem: Seq<char>)
    requires
        0 <= i < lines(content).len(),
        0 <= k < words(trim(lines(content)[i])).len(),
        refers_to_path_with_stem(words(trim(lines(content)[i]))[k], stem),
        stem != "mod"@,
        utf8_len(stem) >= 3,
    ensures
        raw_page_terms(route, Some(content)).contains(lowercase(stem)),
{
    let t = trim(lines(content)[i]);
    let x = lowercase(stem);
    lemma_path_ref_terms_has(words(t), k, stem);
    let h = match heading_text(t) {
        Some(y) => clean_words(y, 3),
        None => Seq::empty(),
    };
    lemma_contains_left(path_ref_terms(words(t)), h, x);
    lemma_contains_left(path_ref_terms(words(t)) + h, code_terms(t), x);
    assert(page_line_terms(t) == path_ref_terms(words(t)) + h + code_terms(t));
    lemma_page_lines_terms_has(lines(content), i, x);
    lemma_contains_right(
        route_terms(split_by(route, CharSet::Is('/'))),
        page_lines_terms(lines(content)),
        x,
    );
}

} // verus!
