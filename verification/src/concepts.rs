//! Typed concepts (public items, module docs, document sections) extracted
//! from source files, and the search for them in page content.
use vstd::prelude::*;
use crate::suggest::{camel_words, first_strip, ident, split_camel_case};
use crate::paths::{extension, opt_string_view, path_extension};
use crate::text::{
    chars_of, contains, first_piece_of, lines, lower, lowercase, owned, sorted_unique, split_lines,
    strip_prefix_str, string_of, strictly_sorted, strs, trim, trim_white, utf8_len, utf8_len_ge, str_eq,
    contains_seq, CharSet, lemma_strs_push,
};

verus! {

/// The kind of a concept.
#[derive(PartialEq, Eq, Structural, Clone, Copy, Debug)]
pub enum ConceptKind {
    Struct,
    Enum,
    Trait,
    Function,
    Module,
    DocComment,
    MarkdownSection,
}

/// The name of a concept kind, as the reports write it.
pub open spec fn kind_name(k: ConceptKind) -> Seq<char> {
    match k {
        ConceptKind::Struct => "struct"@,
        ConceptKind::Enum => "enum"@,
        ConceptKind::Trait => "trait"@,
        ConceptKind::Function => "function"@,
        ConceptKind::Module => "module"@,
        ConceptKind::DocComment => "doc_comment"@,
        ConceptKind::MarkdownSection => "section"@,
    }
}

impl ConceptKind {
    /// The name of the kind.
    pub fn to_string(&self) -> (r: String)
        ensures
            r@ == kind_name(*self),
    {
        match self {
            ConceptKind::Struct => owned("struct"),
            ConceptKind::Enum => owned("enum"),
            ConceptKind::Trait => owned("trait"),
            ConceptKind::Function => owned("function"),
            ConceptKind::Module => owned("module"),
            ConceptKind::DocComment => owned("doc_comment"),
            ConceptKind::MarkdownSection => owned("section"),
        }
    }
}

/// A typed concept extracted from a source file.
pub struct Concept {
    pub name: String,
    pub kind: ConceptKind,
    pub source_file: String,
    pub line: Option<usize>,
}

/// Stats for concept-level coverage.
pub struct ConceptCoverageStats {
    pub total: usize,
    pub covered: usize,
    pub orphans: Vec<OrphanConcept>,
}

/// A concept that exists in source but is not mentioned in any doc page.
pub struct OrphanConcept {
    pub name: String,
    pub kind: String,
    pub source_file: String,
}

/// What a concept says: its name, kind, file and line.
pub type ConceptView = (Seq<char>, ConceptKind, Seq<char>, Option<nat>);

/// The view of a concept.
pub open spec fn concept_view(c: Concept) -> ConceptView {
    (
        c.name@,
        c.kind,
        c.source_file@,
        match c.line {
            None => None,
            Some(n) => Some(n as nat),
        },
    )
}

/// The views of a sequence of concepts.
pub open spec fn concept_views(v: Seq<Concept>) -> Seq<ConceptView> {
    v.map_values(|c: Concept| concept_view(c))
}

/// The concepts of the CamelCase words of at least four bytes of a name.
pub open spec fn word_concepts(ws: Seq<Seq<char>>, file: Seq<char>, n: nat) -> Seq<ConceptView>
    decreases ws.len(),
{
    if ws.len() == 0 {
        Seq::empty()
    } else {
        let prev = word_concepts(ws.drop_last(), file, n);
        if utf8_len(ws.last()) >= 4 {
            prev.push((ws.last(), ConceptKind::DocComment, file, Some(n)))
        } else {
            prev
        }
    }
}

/// The concepts of a public item declared after `prefix`: the item, then its
/// CamelCase words of at least four bytes, when the name has at least three
/// bytes.
pub open spec fn item_concepts(
    t: Seq<char>,
    prefix: Seq<char>,
    kind: ConceptKind,
    file: Seq<char>,
    n: nat,
) -> Seq<ConceptView> {
    if crate::text::starts_with(t, prefix) {
        let name = ident(t.skip(prefix.len() as int));
        if utf8_len(name) >= 3 {
            seq![(name, kind, file, Some(n))] + word_concepts(camel_words(name), file, n)
        } else {
            Seq::empty()
        }
    } else {
        Seq::empty()
    }
}

/// The concepts of one trimmed line (number `n`) of a Rust file: public
/// functions, structs, enums and traits, and module doc lines (`//! `) of
/// at least four bytes after trimming.
pub open spec fn rust_line_concepts(t: Seq<char>, file: Seq<char>, n: nat) -> Seq<ConceptView> {
    item_concepts(t, "pub fn "@, ConceptKind::Function, file, n) + item_concepts(
        t,
        "pub struct "@,
        ConceptKind::Struct,
        file,
        n,
    ) + item_concepts(t, "pub enum "@, ConceptKind::Enum, file, n) + item_concepts(
        t,
        "pub trait "@,
        ConceptKind::Trait,
        file,
        n,
    ) + match first_strip(t, seq!["//! "@]) {
        None => Seq::empty(),
        Some(doc) => if utf8_len(trim(doc)) >= 4 {
            seq![(trim(doc), ConceptKind::Module, file, Some(n))]
        } else {
            Seq::empty()
        },
    }
}

/// The concepts of one trimmed line (number `n`) of a Markdown file: the
/// text of a non-empty `###` or `##` heading.
pub open spec fn markdown_line_concepts(t: Seq<char>, file: Seq<char>, n: nat) -> Seq<ConceptView> {
    match first_strip(t, seq!["### "@, "## "@]) {
        None => Seq::empty(),
        Some(h) => if trim(h).len() > 0 {
            seq![(trim(h), ConceptKind::MarkdownSection, file, Some(n))]
        } else {
            Seq::empty()
        },
    }
}

/// The concepts of the lines of a file, line by line, numbered from one.
pub open spec fn lines_concepts(ls: Seq<Seq<char>>, file: Seq<char>, markdown: bool) -> Seq<
    ConceptView,
>
    decreases ls.len(),
{
    if ls.len() == 0 {
        Seq::empty()
    } else {
        lines_concepts(ls.drop_last(), file, markdown) + if markdown {
            markdown_line_concepts(trim(ls.last()), file, ls.len())
        } else {
            rust_line_concepts(trim(ls.last()), file, ls.len())
        }
    }
}

fn concept(name: &Vec<char>, kind: ConceptKind, file: &str, n: usize) -> (c: Concept)
    ensures
        concept_view(c) == (name@, kind, file@, Some(n as nat)),
{
    Concept { name: string_of(name), kind, source_file: owned(file), line: Some(n) }
}

fn push_concept(v: &mut Vec<Concept>, c: Concept)
    ensures
        concept_views(final(v)@) == concept_views(old(v)@).push(concept_view(c)),
{
    let ghost before = v@;
    v.push(c);
    assert(concept_views(v@) =~= concept_views(before).push(concept_view(c)));
}

fn push_item_concepts(
    v: &mut Vec<Concept>,
    t: &Vec<char>,
    prefix: &str,
    kind: ConceptKind,
    file: &str,
    n: usize,
)
    ensures
        concept_views(final(v)@) == concept_views(old(v)@) + item_concepts(
            t@,
            prefix@,
            kind,
            file@,
            n as nat,
        ),
{
    match strip_prefix_str(t, prefix) {
        Some(rest) => {
            let name = first_piece_of(&rest, &CharSet::NotAlnumExcept('_'));
            if utf8_len_ge(&name, 3) {
                let ghost start = concept_views(v@);
                push_concept(v, concept(&name, kind, file, n));
                let ns = string_of(&name);
                let words = split_camel_case(ns.as_str());
                let ghost wv = strs(words@);
                let ghost mid = concept_views(v@);
                let mut i: usize = 0;
                while i < words.len()
                    invariant
                        i <= words.len(),
                        wv == strs(words@),
                        concept_views(v@) == mid + word_concepts(wv.take(i as int), file@, n as nat),
                    decreases words.len() - i,
                {
                    assert(wv.take(i + 1).drop_last() == wv.take(i as int));
                    let w = chars_of(words[i].as_str());
                    if utf8_len_ge(&w, 4) {
                        push_concept(v, concept(&w, ConceptKind::DocComment, file, n));
                    }
                    i = i + 1;
                }
                assert(wv.take(words.len() as int) == wv);
                assert(start.push((name@, kind, file@, Some(n as nat))) + word_concepts(
                    wv,
                    file@,
                    n as nat,
                ) == start + (seq![(name@, kind, file@, Some(n as nat))] + word_concepts(
                    wv,
                    file@,
                    n as nat,
                )));
            } else {
                assert(concept_views(v@) =~= concept_views(v@) + Seq::<ConceptView>::empty());
            }
        },
        None => {
            assert(concept_views(v@) =~= concept_views(v@) + Seq::<ConceptView>::empty());
        },
    }
}

/// The concepts of a file's lines.
fn extract_line_concepts(content: &str, source_file: &str, markdown: bool) -> (r: Vec<Concept>)
    ensures
        concept_views(r@) == lines_concepts(lines(content@), source_file@, markdown),
{
    let text = chars_of(content);
    let ls = split_lines(&text);
    let ghost lv = ls@.map_values(|v: Vec<char>| v@);
    let mut r: Vec<Concept> = Vec::new();
    let mut i: usize = 0;
    assert(concept_views(r@) =~= Seq::<ConceptView>::empty());
    while i < ls.len()
        invariant
            i <= ls.len(),
            lv == ls@.map_values(|v: Vec<char>| v@),
            lv == lines(content@),
            concept_views(r@) == lines_concepts(lv.take(i as int), source_file@, markdown),
        decreases ls.len() - i,
    {
        assert(lv.take(i + 1).drop_last() == lv.take(i as int));
        let t = trim_white(&ls[i]);
        let n = i + 1;
        let ghost before = concept_views(r@);
        if markdown {
            let ds: &[&str] = &["### ", "## "];
            assert(crate::config::str_views(ds@) =~= seq!["### "@, "## "@]);
            match crate::suggest::first_strip_exec(&t, ds) {
                Some(h) => {
                    let ht = trim_white(&h);
                    if ht.len() > 0 {
                        push_concept(&mut r, concept(&ht, ConceptKind::MarkdownSection, source_file, n));
                    }
                },
                None => {},
            }
            assert(concept_views(r@) =~= before + markdown_line_concepts(t@, source_file@, n as nat));
        } else {
            push_item_concepts(&mut r, &t, "pub fn ", ConceptKind::Function, source_file, n);
            push_item_concepts(&mut r, &t, "pub struct ", ConceptKind::Struct, source_file, n);
            push_item_concepts(&mut r, &t, "pub enum ", ConceptKind::Enum, source_file, n);
            push_item_concepts(&mut r, &t, "pub trait ", ConceptKind::Trait, source_file, n);
            let ghost mid = concept_views(r@);
            let ds: &[&str] = &["//! "];
            assert(crate::config::str_views(ds@) =~= seq!["//! "@]);
            match crate::suggest::first_strip_exec(&t, ds) {
                Some(doc) => {
                    let d = trim_white(&doc);
                    if utf8_len_ge(&d, 4) {
                        push_concept(&mut r, concept(&d, ConceptKind::Module, source_file, n));
                    }
                },
                None => {},
            }
            assert(concept_views(r@) =~= before + rust_line_concepts(t@, source_file@, n as nat));
        }
        i = i + 1;
    }
    assert(lv.take(ls.len() as int) == lv);
    r
}

/// Extracts Rust concepts: public functions, structs, enums and traits with
/// their CamelCase words, and module doc lines, each with its line number.
pub fn extract_rust_concepts(content: &str, source_file: &str) -> (r: Vec<Concept>)
    ensures
        concept_views(r@) == lines_concepts(lines(content@), source_file@, false),
{
    extract_line_concepts(content, source_file, false)
}

/// Extracts Markdown concepts: `##` and `###` headings as sections.
pub fn extract_markdown_concepts(content: &str, source_file: &str) -> (r: Vec<Concept>)
    ensures
        concept_views(r@) == lines_concepts(lines(content@), source_file@, true),
{
    extract_line_concepts(content, source_file, true)
}

/// The view of optional file content.
pub open spec fn content_view(c: Option<&str>) -> Option<Seq<char>> {
    match c {
        None => None,
        Some(t) => Some(t@),
    }
}

/// The concepts of one source file: Rust concepts for `.rs`, Markdown
/// sections for `.md` and `.mdx`, none for other files or for a file that
/// could not be read (`None`).
pub open spec fn file_concepts(path: Seq<char>, content: Option<Seq<char>>) -> Seq<ConceptView> {
    match content {
        None => Seq::empty(),
        Some(c) => match path_extension(path) {
            Some(e) => if e == "rs"@ {
                lines_concepts(lines(c), path, false)
            } else if e == "md"@ || e == "mdx"@ {
                lines_concepts(lines(c), path, true)
            } else {
                Seq::empty()
            },
            None => Seq::empty(),
        },
    }
}

/// The concepts of the files, file after file.
pub open spec fn all_file_concepts(files: Seq<Seq<char>>, contents: Seq<Option<Seq<char>>>) -> Seq<
    ConceptView,
>
    decreases files.len(),
{
    if files.len() == 0 {
        Seq::empty()
    } else {
        all_file_concepts(files.drop_last(), contents.take(files.len() - 1)) + file_concepts(
            files.last(),
            contents[files.len() - 1],
        )
    }
}

/// The views of optional file contents.
pub open spec fn contents_view(v: Seq<Option<String>>) -> Seq<Option<Seq<char>>> {
    v.map_values(|o: Option<String>| opt_string_view(o))
}

/// Extracts the typed concepts of one source file, by its extension.
/// `content` is `None` when the file could not be read.
pub fn extract_concepts(path: &str, content: Option<&str>) -> (r: Vec<Concept>)
    ensures
        concept_views(r@) == file_concepts(path@, content_view(content)),
{
    match content {
        None => {
            let r: Vec<Concept> = Vec::new();
            assert(concept_views(r@) =~= Seq::<ConceptView>::empty());
            r
        },
        Some(c) => {
            let ext = extension(path);
            proof {
                reveal_strlit("rs");
                reveal_strlit("md");
                reveal_strlit("mdx");
            }
            match ext {
                Some(e) => {
                    if str_eq(e.as_str(), "rs") {
                        extract_rust_concepts(c, path)
                    } else if str_eq(e.as_str(), "md") || str_eq(e.as_str(), "mdx") {
                        extract_markdown_concepts(c, path)
                    } else {
                        let r: Vec<Concept> = Vec::new();
                        assert(concept_views(r@) =~= Seq::<ConceptView>::empty());
                        r
                    }
                },
                None => {
                    let r: Vec<Concept> = Vec::new();
                    assert(concept_views(r@) =~= Seq::<ConceptView>::empty());
                    r
                },
            }
        },
    }
}

/// Extracts the concepts of all source files; `contents[i]` is the content
/// of `source_files[i]`, `None` where it could not be read.
pub fn extract_all_concepts(source_files: &[String], contents: &[Option<String>]) -> (r: Vec<
    Concept,
>)
    requires
        source_files@.len() == contents@.len(),
    ensures
        concept_views(r@) == all_file_concepts(strs(source_files@), contents_view(contents@)),
{
    let ghost fv = strs(source_files@);
    let ghost cv = contents_view(contents@);
    let mut r: Vec<Concept> = Vec::new();
    let mut i: usize = 0;
    assert(concept_views(r@) =~= Seq::<ConceptView>::empty());
    while i < source_files.len()
        invariant
            i <= source_files@.len(),
            source_files@.len() == contents@.len(),
            fv == strs(source_files@),
            cv == contents_view(contents@),
            concept_views(r@) == all_file_concepts(fv.take(i as int), cv.take(i as int)),
        decreases source_files.len() - i,
    {
        let c: Option<&str> = match &contents[i] {
            None => None,
            Some(t) => Some(t.as_str()),
        };
        let mut more = extract_concepts(source_files[i].as_str(), c);
        let ghost before = r@;
        let ghost added = more@;
        r.append(&mut more);
        assert(concept_views(r@) =~= concept_views(before) + concept_views(added));
        assert(fv.take(i + 1).drop_last() == fv.take(i as int));
        assert(cv.take(i + 1).take(i as int) == cv.take(i as int));
        i = i + 1;
    }
    assert(fv.take(source_files@.len() as int) == fv);
    assert(cv.take(source_files@.len() as int) == cv);
    r
}

/// Whether a page mentions a name, case-insensitively: the lowercase name
/// occurs in the lowercase page.
pub open spec fn mentions(page: Seq<char>, name: Seq<char>) -> bool {
    contains_seq(lowercase(page), lowercase(name))
}

/// The names of the concepts that the page mentions, case-insensitively,
/// each once, in increasing order.
pub fn scan_page_for_concepts(page_content: &str, concepts: &[Concept]) -> (r: Vec<String>)
    ensures
        strictly_sorted(strs(r@)),
        forall|x: Seq<char>|
            strs(r@).contains(x) <==> exists|i: int|
                0 <= i < concepts@.len() && #[trigger] concepts@[i].name@ == x && mentions(
                    page_content@,
                    x,
                ),
{
    let page = chars_of(page_content);
    let low = lower(&page);
    let mut matched: Vec<String> = Vec::new();
    let mut i: usize = 0;
    while i < concepts.len()
        invariant
            i <= concepts@.len(),
            low@ == lowercase(page_content@),
            forall|x: Seq<char>|
                strs(matched@).contains(x) <==> exists|k: int|
                    0 <= k < i && #[trigger] concepts@[k].name@ == x && mentions(page_content@, x),
        decreases concepts.len() - i,
    {
        let name = chars_of(concepts[i].name.as_str());
        let nl = lower(&name);
        let found = contains(&low, &nl);
        let ghost before = matched@;
        if found {
            let nm = owned(concepts[i].name.as_str());
            matched.push(nm);
            proof {
                lemma_strs_push(before, nm);
            }
        }
        proof {
            let ghost ni = concepts@[i as int].name@;
            assert(found == mentions(page_content@, ni));
            assert forall|x: Seq<char>|
                strs(matched@).contains(x) <==> exists|k: int|
                    0 <= k < i + 1 && #[trigger] concepts@[k].name@ == x && mentions(
                        page_content@,
                        x,
                    ) by {
                if strs(matched@).contains(x) {
                    if found && x == ni {
                        assert(concepts@[i as int].name@ == x);
                    } else {
                        let j = choose|j: int| 0 <= j < strs(matched@).len() && strs(matched@)[j] == x;
                        if found {
                            assert(j < strs(before).len());
                            assert(strs(before)[j] == x);
                        }
                        assert(strs(before).contains(x));
                    }
                }
                if exists|k: int|
                    0 <= k < i + 1 && #[trigger] concepts@[k].name@ == x && mentions(
                        page_content@,
                        x,
                    ) {
                    let k = choose|k: int|
                        0 <= k < i + 1 && #[trigger] concepts@[k].name@ == x && mentions(
                            page_content@,
                            x,
                        );
                    if k == i {
                        assert(strs(matched@)[strs(matched@).len() - 1] == x);
                    } else {
                        assert(strs(before).contains(x));
                        let j = choose|j: int| 0 <= j < strs(before).len() && strs(before)[j] == x;
                        assert(strs(matched@)[j] == x);
                    }
                }
            }
        }
        i = i + 1;
    }
    sorted_unique(&matched)
}

} // verus!
