//! Character-level text utilities shared by the scanners and the report
//! writers.  Text is handled as `Vec<char>` in code and as `Seq<char>` in
//! specifications.
use vstd::prelude::*;

verus! {

// ---------------------------------------------------------------------------
// Unicode character properties and case mapping (std)
// ---------------------------------------------------------------------------

/// The Unicode `White_Space` property, as `char::is_whitespace` decides it.
pub uninterp spec fn is_white(c: char) -> bool;

/// The Unicode `Alphabetic` or `Numeric` property, as `char::is_alphanumeric`
/// decides it.
pub uninterp spec fn is_alnum(c: char) -> bool;

/// The Unicode `Uppercase` property, as `char::is_uppercase` decides it.
pub uninterp spec fn is_upper(c: char) -> bool;

/// The lowercase mapping of a whole string, as `str::to_lowercase` computes it.
pub uninterp spec fn lowercase(s: Seq<char>) -> Seq<char>;

/// `char::is_whitespace`: whether the character has the `White_Space`
/// property.  Only the name of that property is claimed here, no table of it.
pub assume_specification[ char::is_whitespace ](c: char) -> (b: bool)
    ensures
        b == is_white(c),
;

/// `char::is_alphanumeric`: whether the character is alphabetic or numeric.
/// Only the name of that property is claimed here, no table of it.
pub assume_specification[ char::is_alphanumeric ](c: char) -> (b: bool)
    ensures
        b == is_alnum(c),
;

/// `char::is_uppercase`: whether the character has the `Uppercase` property.
/// Only the name of that property is claimed here, no table of it.
pub assume_specification[ char::is_uppercase ](c: char) -> (b: bool)
    ensures
        b == is_upper(c),
;

/// `str::to_lowercase`: the lowercase form of the string.  The result is a
/// function of the characters alone; its table is not written out here.
pub assume_specification[ str::to_lowercase ](s: &str) -> (res: String)
    ensures
        res@ == lowercase(s@),
;

/// `String::push`: appends one character.
#[verifier::external_body]
pub(crate) fn push_char(s: &mut String, c: char)
    ensures
        final(s)@ == old(s)@.push(c),
{
    s.push(c);
}

// ---------------------------------------------------------------------------
// Conversions
// ---------------------------------------------------------------------------

/// The views of a sequence of strings.
pub open spec fn strs(v: Seq<String>) -> Seq<Seq<char>> {
    v.map_values(|s: String| s@)
}

pub proof fn lemma_strs_push(v: Seq<String>, s: String)
    ensures
        strs(v.push(s)) == strs(v).push(s@),
{
    assert(strs(v.push(s)) =~= strs(v).push(s@));
}

/// What a sequence with one more element at the end contains.
pub proof fn lemma_push_contains<A>(s: Seq<A>, a: A, x: A)
    ensures
        s.push(a).contains(x) <==> (s.contains(x) || x == a),
{
    if s.push(a).contains(x) {
        let k = choose|k: int| 0 <= k < s.push(a).len() && s.push(a)[k] == x;
        if k < s.len() {
            assert(s[k] == x);
        }
    }
    if s.contains(x) {
        let k = choose|k: int| 0 <= k < s.len() && s[k] == x;
        assert(s.push(a)[k] == x);
    }
    if x == a {
        assert(s.push(a)[s.len() as int] == x);
    }
}

/// What a non-empty sequence contains, split at its last element.
pub proof fn lemma_drop_last_contains<A>(s: Seq<A>, x: A)
    requires
        s.len() > 0,
    ensures
        s.contains(x) <==> (s.drop_last().contains(x) || x == s.last()),
{
    assert(s.drop_last().push(s.last()) =~= s);
    lemma_push_contains(s.drop_last(), s.last(), x);
}

/// The characters of a string slice, in order.
pub fn chars_of(s: &str) -> (v: Vec<char>)
    ensures
        v@ == s@,
{
    broadcast use vstd::string::group_string_axioms;

    let mut v: Vec<char> = Vec::new();
    for c in it: s.chars()
        invariant
            v@ == it.seq().take(it.index()),
            it.seq() == s@,
    {
        v.push(c);
    }
    v
}

/// A string holding the given characters.
pub fn string_of(v: &Vec<char>) -> (s: String)
    ensures
        s@ == v@,
{
    let mut s = String::new();
    let mut i: usize = 0;
    while i < v.len()
        invariant
            i <= v.len(),
            s@ == v@.take(i as int),
        decreases v.len() - i,
    {
        push_char(&mut s, v[i]);
        assert(v@.take(i + 1) == v@.take(i as int).push(v@[i as int]));
        i = i + 1;
    }
    assert(v@.take(v.len() as int) == v@);
    s
}

/// A copy of a string slice.
pub fn owned(s: &str) -> (r: String)
    ensures
        r@ == s@,
{
    s.to_owned()
}

/// The lowercase form of a character sequence.
pub fn lower(v: &Vec<char>) -> (r: Vec<char>)
    ensures
        r@ == lowercase(v@),
{
    let s = string_of(v);
    let l = s.as_str().to_lowercase();
    chars_of(l.as_str())
}

/// Appends all characters of `w` to `v`.
pub fn push_all(v: &mut Vec<char>, w: &Vec<char>)
    ensures
        final(v)@ == old(v)@ + w@,
{
    let ghost start = v@;
    let mut i: usize = 0;
    while i < w.len()
        invariant
            i <= w.len(),
            v@ == start + w@.take(i as int),
        decreases w.len() - i,
    {
        v.push(w[i]);
        assert(w@.take(i + 1) == w@.take(i as int).push(w@[i as int]));
        i = i + 1;
    }
    assert(w@.take(w.len() as int) == w@);
}

/// Appends the characters of a string slice to `v`.
pub fn push_str(v: &mut Vec<char>, s: &str)
    ensures
        final(v)@ == old(v)@ + s@,
{
    let w = chars_of(s);
    push_all(v, &w);
}

// ---------------------------------------------------------------------------
// Comparison, prefixes and search
// ---------------------------------------------------------------------------

/// Character-wise equality.
pub fn chars_eq(a: &Vec<char>, b: &Vec<char>) -> (r: bool)
    ensures
        r == (a@ == b@),
{
    if a.len() != b.len() {
        return false;
    }
    let mut i: usize = 0;
    while i < a.len()
        invariant
            i <= a.len(),
            a.len() == b.len(),
            a@.take(i as int) == b@.take(i as int),
        decreases a.len() - i,
    {
        if a[i] != b[i] {
            assert(a@[i as int] != b@[i as int]);
            return false;
        }
        assert(a@.take(i + 1) == a@.take(i as int).push(a@[i as int]));
        assert(b@.take(i + 1) == b@.take(i as int).push(b@[i as int]));
        i = i + 1;
    }
    assert(a@.take(a.len() as int) == a@);
    assert(b@.take(b.len() as int) == b@);
    true
}

/// Whether `s` begins with `p`.
pub open spec fn starts_with(s: Seq<char>, p: Seq<char>) -> bool {
    p.len() <= s.len() && s.take(p.len() as int) == p
}

/// Whether `s` ends with `p`.
pub open spec fn ends_with(s: Seq<char>, p: Seq<char>) -> bool {
    p.len() <= s.len() && s.skip(s.len() - p.len()) == p
}

/// Whether `p` occurs in `s` starting at index `i`.
pub open spec fn occurs_at(s: Seq<char>, p: Seq<char>, i: int) -> bool {
    0 <= i && i + p.len() <= s.len() && s.subrange(i, i + p.len()) == p
}

/// Whether `p` occurs somewhere in `s`.
pub open spec fn contains_seq(s: Seq<char>, p: Seq<char>) -> bool {
    exists|i: int| occurs_at(s, p, i)
}

/// Whether `s` begins with `p`.
pub fn has_prefix(s: &Vec<char>, p: &Vec<char>) -> (r: bool)
    ensures
        r == starts_with(s@, p@),
{
    if p.len() > s.len() {
        return false;
    }
    let mut i: usize = 0;
    while i < p.len()
        invariant
            i <= p.len() <= s.len(),
            s@.take(i as int) == p@.take(i as int),
        decreases p.len() - i,
    {
        if s[i] != p[i] {
            assert(s@.take(p.len() as int)[i as int] != p@[i as int]);
            return false;
        }
        assert(s@.take(i + 1) == s@.take(i as int).push(s@[i as int]));
        assert(p@.take(i + 1) == p@.take(i as int).push(p@[i as int]));
        i = i + 1;
    }
    assert(p@.take(p.len() as int) == p@);
    true
}

/// Whether `s` ends with `p`.
pub fn has_suffix(s: &Vec<char>, p: &Vec<char>) -> (r: bool)
    ensures
        r == ends_with(s@, p@),
{
    if p.len() > s.len() {
        return false;
    }
    let off = s.len() - p.len();
    let mut i: usize = 0;
    while i < p.len()
        invariant
            i <= p.len() <= s.len(),
            off == s.len() - p.len(),
            s@.skip(off as int).take(i as int) == p@.take(i as int),
        decreases p.len() - i,
    {
        if s[off + i] != p[i] {
            assert(s@.skip(off as int)[i as int] != p@[i as int]);
            return false;
        }
        assert(s@.skip(off as int).take(i + 1) == s@.skip(off as int).take(i as int).push(
            s@[off + i],
        ));
        assert(p@.take(i + 1) == p@.take(i as int).push(p@[i as int]));
        i = i + 1;
    }
    assert(p@.take(p.len() as int) == p@);
    assert(s@.skip(off as int).take(p.len() as int) == s@.skip(off as int));
    true
}

/// The characters of `s` from index `start` on.
pub fn tail_from(s: &Vec<char>, start: usize) -> (r: Vec<char>)
    requires
        start <= s.len(),
    ensures
        r@ == s@.skip(start as int),
{
    slice_of(s, start, s.len())
}

/// The characters of `s` in the index range `start..end`.
pub fn slice_of(s: &Vec<char>, start: usize, end: usize) -> (r: Vec<char>)
    requires
        start <= end <= s.len(),
    ensures
        r@ == s@.subrange(start as int, end as int),
{
    let mut r: Vec<char> = Vec::new();
    let mut i: usize = start;
    while i < end
        invariant
            start <= i <= end <= s.len(),
            r@ == s@.subrange(start as int, i as int),
        decreases end - i,
    {
        r.push(s[i]);
        assert(s@.subrange(start as int, i + 1) == s@.subrange(start as int, i as int).push(
            s@[i as int],
        ));
        i = i + 1;
    }
    r
}

/// `s` without the prefix `p`, when `s` begins with `p`.
pub fn strip_prefix(s: &Vec<char>, p: &Vec<char>) -> (r: Option<Vec<char>>)
    ensures
        r matches Some(t) ==> starts_with(s@, p@) && t@ == s@.skip(p@.len() as int),
        r is None ==> !starts_with(s@, p@),
{
    if has_prefix(s, p) {
        Some(tail_from(s, p.len()))
    } else {
        None
    }
}

/// `s` without the prefix given as a literal, when `s` begins with it.
pub fn strip_prefix_str(s: &Vec<char>, p: &str) -> (r: Option<Vec<char>>)
    ensures
        r matches Some(t) ==> starts_with(s@, p@) && t@ == s@.skip(p@.len() as int),
        r is None ==> !starts_with(s@, p@),
{
    let pv = chars_of(p);
    strip_prefix(s, &pv)
}

/// `s` without the suffix `p`, when `s` ends with `p`.
pub fn strip_suffix(s: &Vec<char>, p: &Vec<char>) -> (r: Option<Vec<char>>)
    ensures
        r matches Some(t) ==> ends_with(s@, p@) && t@ == s@.take(s@.len() - p@.len()),
        r is None ==> !ends_with(s@, p@),
{
    if has_suffix(s, p) {
        Some(slice_of(s, 0, s.len() - p.len()))
    } else {
        None
    }
}

/// The index of the first occurrence of `p` in `s`, if any.
pub open spec fn first_occurrence(s: Seq<char>, p: Seq<char>, i: int) -> bool {
    occurs_at(s, p, i) && forall|j: int| 0 <= j < i ==> !occurs_at(s, p, j)
}

/// Whether `p` occurs in `s` at index `i` (executable form).
pub fn matches_at(s: &Vec<char>, p: &Vec<char>, i: usize) -> (r: bool)
    ensures
        r == occurs_at(s@, p@, i as int),
{
    if i > s.len() || p.len() > s.len() - i {
        return false;
    }
    let mut k: usize = 0;
    while k < p.len()
        invariant
            i + p.len() <= s.len(),
            k <= p.len(),
            forall|t: int| 0 <= t < k ==> s@[i + t] == p@[t],
        decreases p.len() - k,
    {
        if s[i + k] != p[k] {
            assert(s@.subrange(i as int, i + p.len())[k as int] != p@[k as int]);
            return false;
        }
        k = k + 1;
    }
    assert(s@.subrange(i as int, i + p.len()) =~= p@);
    true
}

/// The index of the first occurrence of `p` in `s`.
pub fn find_seq(s: &Vec<char>, p: &Vec<char>) -> (r: Option<usize>)
    ensures
        r matches Some(i) ==> first_occurrence(s@, p@, i as int),
        r is None ==> !contains_seq(s@, p@),
{
    if p.len() > s.len() {
        return None;
    }
    let last = s.len() - p.len();
    let mut i: usize = 0;
    while i <= last
        invariant
            p.len() <= s.len(),
            last == s.len() - p.len(),
            i <= last + 1,
            forall|j: int| 0 <= j < i ==> !occurs_at(s@, p@, j),
        decreases last + 1 - i,
    {
        if matches_at(s, p, i) {
            return Some(i);
        }
        if i == last {
            return None;
        }
        i = i + 1;
    }
    None
}

/// The index of the first occurrence of the character `c` in `s`.
pub fn find_char(s: &Vec<char>, c: char) -> (r: Option<usize>)
    ensures
        r matches Some(i) ==> i < s@.len() && s@[i as int] == c && forall|j: int|
            0 <= j < i ==> s@[j] != c,
        r is None ==> forall|j: int| 0 <= j < s@.len() ==> s@[j] != c,
{
    let mut i: usize = 0;
    while i < s.len()
        invariant
            i <= s.len(),
            forall|j: int| 0 <= j < i ==> s@[j] != c,
        decreases s.len() - i,
    {
        if s[i] == c {
            return Some(i);
        }
        i = i + 1;
    }
    None
}

/// Whether the character `c` occurs in `s`.
pub fn has_char(s: &Vec<char>, c: char) -> (r: bool)
    ensures
        r == s@.contains(c),
{
    match find_char(s, c) {
        Some(i) => {
            assert(s@[i as int] == c);
            true
        },
        None => false,
    }
}

/// Whether `p` occurs in `s`.
pub fn contains(s: &Vec<char>, p: &Vec<char>) -> (r: bool)
    ensures
        r == contains_seq(s@, p@),
{
    find_seq(s, p).is_some()
}

// ---------------------------------------------------------------------------
// Numbers, padding and joining
// ---------------------------------------------------------------------------

/// The decimal digit character for `d < 10`.
pub open spec fn digit_char(d: nat) -> char {
    if d == 0 {
        '0'
    } else if d == 1 {
        '1'
    } else if d == 2 {
        '2'
    } else if d == 3 {
        '3'
    } else if d == 4 {
        '4'
    } else if d == 5 {
        '5'
    } else if d == 6 {
        '6'
    } else if d == 7 {
        '7'
    } else if d == 8 {
        '8'
    } else {
        '9'
    }
}

/// The decimal notation of a natural number, as `{}` prints it.
pub open spec fn decimal(n: nat) -> Seq<char>
    decreases n,
{
    if n < 10 {
        seq![digit_char(n)]
    } else {
        decimal(n / 10).push(digit_char(n % 10))
    }
}

fn digit(d: usize) -> (c: char)
    requires
        d < 10,
    ensures
        c == digit_char(d as nat),
{
    if d == 0 {
        '0'
    } else if d == 1 {
        '1'
    } else if d == 2 {
        '2'
    } else if d == 3 {
        '3'
    } else if d == 4 {
        '4'
    } else if d == 5 {
        '5'
    } else if d == 6 {
        '6'
    } else if d == 7 {
        '7'
    } else if d == 8 {
        '8'
    } else {
        '9'
    }
}

/// The decimal notation of `n`.
pub fn decimal_of(n: usize) -> (r: Vec<char>)
    ensures
        r@ == decimal(n as nat),
    decreases n,
{
    if n < 10 {
        let mut r: Vec<char> = Vec::new();
        r.push(digit(n));
        r
    } else {
        let mut r = decimal_of(n / 10);
        r.push(digit(n % 10));
        r
    }
}

/// `s` padded on the right with spaces to at least `w` characters, as the
/// `{:<w}` format directive does.
pub open spec fn pad_right(s: Seq<char>, w: nat) -> Seq<char> {
    if s.len() >= w {
        s
    } else {
        s + Seq::new((w - s.len()) as nat, |i: int| ' ')
    }
}

/// Appends `s` padded on the right to `w` characters.
pub fn push_padded(v: &mut Vec<char>, s: &Vec<char>, w: usize)
    ensures
        final(v)@ == old(v)@ + pad_right(s@, w as nat),
{
    let ghost start = v@;
    push_all(v, s);
    if s.len() < w {
        let mut k: usize = s.len();
        while k < w
            invariant
                s.len() <= k <= w,
                v@ == start + s@ + Seq::new((k - s.len()) as nat, |i: int| ' '),
            decreases w - k,
        {
            v.push(' ');
            assert(Seq::new((k + 1 - s.len()) as nat, |i: int| ' ') =~= Seq::new(
                (k - s.len()) as nat,
                |i: int| ' ',
            ).push(' '));
            k = k + 1;
        }
    } else {
        assert(s@.len() >= w);
    }
}

/// The lines joined with `sep` between consecutive ones.
pub open spec fn join(parts: Seq<Seq<char>>, sep: Seq<char>) -> Seq<char>
    decreases parts.len(),
{
    if parts.len() == 0 {
        Seq::empty()
    } else if parts.len() == 1 {
        parts[0]
    } else {
        join(parts.drop_last(), sep) + sep + parts.last()
    }
}

/// The strings joined with `sep` between consecutive ones.
pub fn join_strings(parts: &Vec<String>, sep: &str) -> (r: Vec<char>)
    ensures
        r@ == join(strs(parts@), sep@),
{
    let mut r: Vec<char> = Vec::new();
    let mut i: usize = 0;
    while i < parts.len()
        invariant
            i <= parts.len(),
            r@ == join(strs(parts@).take(i as int), sep@),
        decreases parts.len() - i,
    {
        let ghost before = strs(parts@).take(i as int);
        assert(strs(parts@).take(i + 1).drop_last() == before);
        if i > 0 {
            push_str(&mut r, sep);
        }
        push_str(&mut r, parts[i].as_str());
        i = i + 1;
    }
    assert(strs(parts@).take(parts.len() as int) == strs(parts@));
    r
}

/// The character sequences joined with `sep` between consecutive ones.
pub fn join_chars(parts: &Vec<Vec<char>>, sep: &str) -> (r: Vec<char>)
    ensures
        r@ == join(parts@.map_values(|v: Vec<char>| v@), sep@),
{
    let ghost views = parts@.map_values(|v: Vec<char>| v@);
    let mut r: Vec<char> = Vec::new();
    let mut i: usize = 0;
    while i < parts.len()
        invariant
            i <= parts.len(),
            views == parts@.map_values(|v: Vec<char>| v@),
            r@ == join(views.take(i as int), sep@),
        decreases parts.len() - i,
    {
        assert(views.take(i + 1).drop_last() == views.take(i as int));
        if i > 0 {
            push_str(&mut r, sep);
        }
        push_all(&mut r, &parts[i]);
        i = i + 1;
    }
    assert(views.take(parts.len() as int) == views);
    r
}


// ---------------------------------------------------------------------------
// Character classes, trimming and splitting
// ---------------------------------------------------------------------------

/// A set of characters that a trim or split removes or breaks at.
pub enum CharSet {
    /// Unicode white space.
    White,
    /// Characters that are neither alphabetic nor numeric.
    NotAlnum,
    /// Characters that are neither alphabetic nor numeric nor the given one.
    NotAlnumExcept(char),
    /// Characters that are neither alphabetic nor numeric nor one of the two.
    NotAlnumExcept2(char, char),
    /// Exactly the given character.
    Is(char),
    /// Exactly the two given characters.
    OneOf2(char, char),
    /// Exactly the four given characters.
    OneOf4(char, char, char, char),
}

/// Whether the character belongs to the set.
pub open spec fn in_set(cs: CharSet, c: char) -> bool {
    match cs {
        CharSet::White => is_white(c),
        CharSet::NotAlnum => !is_alnum(c),
        CharSet::NotAlnumExcept(x) => !is_alnum(c) && c != x,
        CharSet::NotAlnumExcept2(x, y) => !is_alnum(c) && c != x && c != y,
        CharSet::Is(x) => c == x,
        CharSet::OneOf2(x, y) => c == x || c == y,
        CharSet::OneOf4(x, y, z, w) => c == x || c == y || c == z || c == w,
    }
}

/// Whether the character belongs to the set (executable form).
pub fn member(cs: &CharSet, c: char) -> (r: bool)
    ensures
        r == in_set(*cs, c),
{
    match cs {
        CharSet::White => c.is_whitespace(),
        CharSet::NotAlnum => !c.is_alphanumeric(),
        CharSet::NotAlnumExcept(x) => !c.is_alphanumeric() && c != *x,
        CharSet::NotAlnumExcept2(x, y) => !c.is_alphanumeric() && c != *x && c != *y,
        CharSet::Is(x) => c == *x,
        CharSet::OneOf2(x, y) => c == *x || c == *y,
        CharSet::OneOf4(x, y, z, w) => c == *x || c == *y || c == *z || c == *w,
    }
}

/// `s` without its leading characters from the set.
pub open spec fn trim_start_by(s: Seq<char>, cs: CharSet) -> Seq<char>
    decreases s.len(),
{
    if s.len() > 0 && in_set(cs, s[0]) {
        trim_start_by(s.drop_first(), cs)
    } else {
        s
    }
}

/// `s` without its trailing characters from the set.
pub open spec fn trim_end_by(s: Seq<char>, cs: CharSet) -> Seq<char>
    decreases s.len(),
{
    if s.len() > 0 && in_set(cs, s.last()) {
        trim_end_by(s.drop_last(), cs)
    } else {
        s
    }
}

/// `s` without leading and trailing characters from the set, as
/// `str::trim_matches` gives it.
pub open spec fn trim_by(s: Seq<char>, cs: CharSet) -> Seq<char> {
    trim_end_by(trim_start_by(s, cs), cs)
}

/// `s` without leading and trailing white space, as `str::trim` gives it.
pub open spec fn trim(s: Seq<char>) -> Seq<char> {
    trim_by(s, CharSet::White)
}

/// `s` without leading and trailing characters from the set.
pub fn trim_set(s: &Vec<char>, cs: &CharSet) -> (r: Vec<char>)
    ensures
        r@ == trim_by(s@, *cs),
{
    let mut i: usize = 0;
    assert(s@.skip(0) == s@);
    while i < s.len() && member(cs, s[i])
        invariant
            i <= s.len(),
            trim_start_by(s@.skip(i as int), *cs) == trim_start_by(s@, *cs),
        decreases s.len() - i,
    {
        assert(s@.skip(i as int).drop_first() == s@.skip(i + 1));
        i = i + 1;
    }
    let ghost t = s@.skip(i as int);
    assert(trim_start_by(t, *cs) == t);
    let mut j: usize = s.len();
    while j > i && member(cs, s[j - 1])
        invariant
            i <= j <= s.len(),
            t == s@.skip(i as int),
            trim_end_by(s@.subrange(i as int, j as int), *cs) == trim_end_by(t, *cs),
        decreases j,
    {
        assert(s@.subrange(i as int, j as int).drop_last() == s@.subrange(i as int, j - 1));
        j = j - 1;
    }
    assert(s@.subrange(i as int, s.len() as int) == t);
    slice_of(s, i, j)
}

/// `s` without its leading characters from the set.
pub fn trim_start_set(s: &Vec<char>, cs: &CharSet) -> (r: Vec<char>)
    ensures
        r@ == trim_start_by(s@, *cs),
{
    let mut i: usize = 0;
    assert(s@.skip(0) == s@);
    while i < s.len() && member(cs, s[i])
        invariant
            i <= s.len(),
            trim_start_by(s@.skip(i as int), *cs) == trim_start_by(s@, *cs),
        decreases s.len() - i,
    {
        assert(s@.skip(i as int).drop_first() == s@.skip(i + 1));
        i = i + 1;
    }
    tail_from(s, i)
}

/// `s` without leading and trailing white space.
pub fn trim_white(s: &Vec<char>) -> (r: Vec<char>)
    ensures
        r@ == trim(s@),
{
    trim_set(s, &CharSet::White)
}

/// The length of the longest prefix of `s` with no character from the set.
pub open spec fn prefix_len_outside(s: Seq<char>, cs: CharSet) -> int
    decreases s.len(),
{
    if s.len() == 0 || in_set(cs, s[0]) {
        0
    } else {
        1 + prefix_len_outside(s.drop_first(), cs)
    }
}

/// The first piece of `s` split at characters from the set, as
/// `s.split(pred).next()` gives it.
pub open spec fn first_piece(s: Seq<char>, cs: CharSet) -> Seq<char> {
    s.take(prefix_len_outside(s, cs))
}

pub proof fn lemma_prefix_len_bounds(s: Seq<char>, cs: CharSet)
    ensures
        0 <= prefix_len_outside(s, cs) <= s.len(),
    decreases s.len(),
{
    if s.len() > 0 && !in_set(cs, s[0]) {
        lemma_prefix_len_bounds(s.drop_first(), cs);
    }
}

/// The first piece of `s` split at characters from the set.
pub fn first_piece_of(s: &Vec<char>, cs: &CharSet) -> (r: Vec<char>)
    ensures
        r@ == first_piece(s@, *cs),
{
    let mut i: usize = 0;
    assert(s@.skip(0) == s@);
    while i < s.len() && !member(cs, s[i])
        invariant
            i <= s.len(),
            prefix_len_outside(s@, *cs) == i + prefix_len_outside(s@.skip(i as int), *cs),
        decreases s.len() - i,
    {
        assert(s@.skip(i as int).drop_first() == s@.skip(i + 1));
        i = i + 1;
    }
    slice_of(s, 0, i)
}

/// The pieces of `s` between characters from the set, empty ones included,
/// as `str::split` yields them: the finished pieces and the piece in
/// progress after reading all of `s`.
pub open spec fn split_acc(s: Seq<char>, cs: CharSet) -> (Seq<Seq<char>>, Seq<char>)
    decreases s.len(),
{
    if s.len() == 0 {
        (Seq::empty(), Seq::empty())
    } else {
        let (done, cur) = split_acc(s.drop_last(), cs);
        if in_set(cs, s.last()) {
            (done.push(cur), Seq::empty())
        } else {
            (done, cur.push(s.last()))
        }
    }
}

/// The pieces of `s` between characters from the set, as `str::split` yields
/// them.
pub open spec fn split_by(s: Seq<char>, cs: CharSet) -> Seq<Seq<char>> {
    split_acc(s, cs).0.push(split_acc(s, cs).1)
}

/// The pieces of `s` between characters from the set.
pub fn split_set(s: &Vec<char>, cs: &CharSet) -> (r: Vec<Vec<char>>)
    ensures
        r@.map_values(|v: Vec<char>| v@) == split_by(s@, *cs),
{
    let mut done: Vec<Vec<char>> = Vec::new();
    let mut cur: Vec<char> = Vec::new();
    let mut i: usize = 0;
    while i < s.len()
        invariant
            i <= s.len(),
            (done@.map_values(|v: Vec<char>| v@), cur@) == split_acc(s@.take(i as int), *cs),
        decreases s.len() - i,
    {
        assert(s@.take(i + 1).drop_last() == s@.take(i as int));
        let ghost dv = done@.map_values(|v: Vec<char>| v@);
        let c = s[i];
        if member(cs, c) {
            let finished = cur;
            cur = Vec::new();
            done.push(finished);
            assert(done@.map_values(|v: Vec<char>| v@) == dv.push(finished@));
        } else {
            cur.push(c);
        }
        i = i + 1;
    }
    assert(s@.take(s.len() as int) == s@);
    let ghost dv = done@.map_values(|v: Vec<char>| v@);
    let last = cur;
    done.push(last);
    assert(done@.map_values(|v: Vec<char>| v@) == dv.push(last@));
    done
}

/// The words of `s`, separated by white space, as `str::split_whitespace`
/// yields them: the finished words and the word in progress.
pub open spec fn words_acc(s: Seq<char>) -> (Seq<Seq<char>>, Seq<char>)
    decreases s.len(),
{
    if s.len() == 0 {
        (Seq::empty(), Seq::empty())
    } else {
        let (done, cur) = words_acc(s.drop_last());
        if is_white(s.last()) {
            if cur.len() > 0 {
                (done.push(cur), Seq::empty())
            } else {
                (done, cur)
            }
        } else {
            (done, cur.push(s.last()))
        }
    }
}

/// The non-empty words of `s` separated by white space.
pub open spec fn words(s: Seq<char>) -> Seq<Seq<char>> {
    let (done, cur) = words_acc(s);
    if cur.len() > 0 {
        done.push(cur)
    } else {
        done
    }
}

/// The non-empty words of `s` separated by white space.
pub fn split_words(s: &Vec<char>) -> (r: Vec<Vec<char>>)
    ensures
        r@.map_values(|v: Vec<char>| v@) == words(s@),
{
    let mut done: Vec<Vec<char>> = Vec::new();
    let mut cur: Vec<char> = Vec::new();
    let mut i: usize = 0;
    while i < s.len()
        invariant
            i <= s.len(),
            (done@.map_values(|v: Vec<char>| v@), cur@) == words_acc(s@.take(i as int)),
        decreases s.len() - i,
    {
        assert(s@.take(i + 1).drop_last() == s@.take(i as int));
        let ghost dv = done@.map_values(|v: Vec<char>| v@);
        let c = s[i];
        if c.is_whitespace() {
            if cur.len() > 0 {
                let finished = cur;
                cur = Vec::new();
                done.push(finished);
                assert(done@.map_values(|v: Vec<char>| v@) == dv.push(finished@));
            }
        } else {
            cur.push(c);
        }
        i = i + 1;
    }
    assert(s@.take(s.len() as int) == s@);
    if cur.len() > 0 {
        let ghost dv = done@.map_values(|v: Vec<char>| v@);
        let last = cur;
        done.push(last);
        assert(done@.map_values(|v: Vec<char>| v@) == dv.push(last@));
    }
    done
}

/// `s` without one trailing carriage return.
pub open spec fn strip_cr(s: Seq<char>) -> Seq<char> {
    if s.len() > 0 && s.last() == '\r' {
        s.drop_last()
    } else {
        s
    }
}

/// The lines of `s` as `str::lines` yields them: the finished lines (each
/// ended by a line feed, with one carriage return before it removed) and the
/// text after the last line feed.
pub open spec fn lines_acc(s: Seq<char>) -> (Seq<Seq<char>>, Seq<char>)
    decreases s.len(),
{
    if s.len() == 0 {
        (Seq::empty(), Seq::empty())
    } else {
        let (done, cur) = lines_acc(s.drop_last());
        if s.last() == '\n' {
            (done.push(strip_cr(cur)), Seq::empty())
        } else {
            (done, cur.push(s.last()))
        }
    }
}

/// The lines of `s`: a final line without a line feed is kept unless it is
/// empty.
pub open spec fn lines(s: Seq<char>) -> Seq<Seq<char>> {
    let (done, cur) = lines_acc(s);
    if cur.len() > 0 {
        done.push(cur)
    } else {
        done
    }
}

/// The lines of `s`.
pub fn split_lines(s: &Vec<char>) -> (r: Vec<Vec<char>>)
    ensures
        r@.map_values(|v: Vec<char>| v@) == lines(s@),
{
    let mut done: Vec<Vec<char>> = Vec::new();
    let mut cur: Vec<char> = Vec::new();
    let mut i: usize = 0;
    while i < s.len()
        invariant
            i <= s.len(),
            (done@.map_values(|v: Vec<char>| v@), cur@) == lines_acc(s@.take(i as int)),
        decreases s.len() - i,
    {
        assert(s@.take(i + 1).drop_last() == s@.take(i as int));
        let ghost dv = done@.map_values(|v: Vec<char>| v@);
        let c = s[i];
        if c == '\n' {
            let mut finished = cur;
            cur = Vec::new();
            if finished.len() > 0 && finished[finished.len() - 1] == '\r' {
                finished.pop();
            }
            done.push(finished);
            assert(done@.map_values(|v: Vec<char>| v@) == dv.push(finished@));
        } else {
            cur.push(c);
        }
        i = i + 1;
    }
    assert(s@.take(s.len() as int) == s@);
    if cur.len() > 0 {
        let ghost dv = done@.map_values(|v: Vec<char>| v@);
        let last = cur;
        done.push(last);
        assert(done@.map_values(|v: Vec<char>| v@) == dv.push(last@));
    }
    done
}

/// `s` with every occurrence of the non-empty `pat` replaced by `to`, taken
/// from the left without overlaps, as `str::replace` does.
pub open spec fn replace_all(s: Seq<char>, pat: Seq<char>, to: Seq<char>) -> Seq<char>
    decreases s.len(),
{
    if s.len() == 0 {
        Seq::empty()
    } else if pat.len() > 0 && starts_with(s, pat) {
        to + replace_all(s.skip(pat.len() as int), pat, to)
    } else {
        seq![s[0]] + replace_all(s.drop_first(), pat, to)
    }
}

/// `s` with every occurrence of `pat` replaced by `to`.
pub fn replace(s: &Vec<char>, pat: &Vec<char>, to: &Vec<char>) -> (r: Vec<char>)
    requires
        pat.len() > 0,
    ensures
        r@ == replace_all(s@, pat@, to@),
{
    let mut r: Vec<char> = Vec::new();
    let mut i: usize = 0;
    assert(s@.skip(0) == s@);
    while i < s.len()
        invariant
            i <= s.len(),
            pat.len() > 0,
            r@ + replace_all(s@.skip(i as int), pat@, to@) == replace_all(s@, pat@, to@),
        decreases s.len() - i,
    {
        let ghost rest = s@.skip(i as int);
        if matches_at(s, pat, i) {
            assert(rest.take(pat@.len() as int) == s@.subrange(i as int, i + pat@.len()));
            assert(rest.skip(pat@.len() as int) == s@.skip(i + pat@.len()));
            push_all(&mut r, to);
            i = i + pat.len();
        } else {
            assert(!starts_with(rest, pat@)) by {
                if starts_with(rest, pat@) {
                    assert(rest.take(pat@.len() as int) == s@.subrange(i as int, i + pat@.len()));
                }
            }
            assert(rest.drop_first() == s@.skip(i + 1));
            r.push(s[i]);
            i = i + 1;
        }
    }
    assert(s@.skip(s.len() as int) == Seq::<char>::empty());
    r
}

/// `s` with every occurrence of the literal `pat` replaced by the literal `to`.
pub fn replace_str(s: &Vec<char>, pat: &str, to: &str) -> (r: Vec<char>)
    requires
        pat@.len() > 0,
    ensures
        r@ == replace_all(s@, pat@, to@),
{
    let p = chars_of(pat);
    let t = chars_of(to);
    replace(s, &p, &t)
}

// ---------------------------------------------------------------------------
// UTF-8 length
// ---------------------------------------------------------------------------

/// The length in bytes of the UTF-8 encoding of `s`, as `str::len` gives it.
pub open spec fn utf8_len(s: Seq<char>) -> nat {
    vstd::utf8::encode_utf8(s).len()
}

/// The number of UTF-8 bytes that encode `c`.
pub open spec fn char_width(c: char) -> nat {
    if (c as u32) <= 0x7f {
        1
    } else if (c as u32) <= 0x7ff {
        2
    } else if (c as u32) <= 0xffff {
        3
    } else {
        4
    }
}

pub proof fn lemma_scalar_width(c: char)
    ensures
        vstd::utf8::encode_scalar(c as u32).len() == char_width(c),
{
    broadcast use vstd::utf8::char_is_scalar;

    assert(vstd::utf8::is_scalar(c as u32));
}

pub proof fn lemma_utf8_len_push(s: Seq<char>, c: char)
    ensures
        utf8_len(s.push(c)) == utf8_len(s) + char_width(c),
    decreases s.len(),
{
    lemma_scalar_width(c);
    let t = s.push(c);
    if s.len() == 0 {
        assert(t.drop_first() =~= Seq::<char>::empty());
        assert(vstd::utf8::encode_utf8(t) == vstd::utf8::encode_scalar(c as u32)
            + vstd::utf8::encode_utf8(t.drop_first()));
        assert(vstd::utf8::encode_utf8(Seq::<char>::empty()) =~= Seq::<u8>::empty());
    } else {
        assert(t.drop_first() =~= s.drop_first().push(c));
        lemma_utf8_len_push(s.drop_first(), c);
        assert(vstd::utf8::encode_utf8(t) == vstd::utf8::encode_scalar(s[0] as u32)
            + vstd::utf8::encode_utf8(t.drop_first()));
        assert(vstd::utf8::encode_utf8(s) == vstd::utf8::encode_scalar(s[0] as u32)
            + vstd::utf8::encode_utf8(s.drop_first()));
    }
}

/// The number of UTF-8 bytes of a character.
pub fn char_width_of(c: char) -> (w: usize)
    ensures
        w == char_width(c),
{
    let u = c as u32;
    if u <= 0x7f {
        1
    } else if u <= 0x7ff {
        2
    } else if u <= 0xffff {
        3
    } else {
        4
    }
}

/// Whether the UTF-8 encoding of `s` has at least `n` bytes.
pub fn utf8_len_ge(s: &Vec<char>, n: usize) -> (r: bool)
    ensures
        r == (utf8_len(s@) >= n),
{
    let mut acc: usize = 0;
    let mut i: usize = 0;
    proof {
        assert(s@.take(0) =~= Seq::<char>::empty());
    }
    while i < s.len()
        invariant
            i <= s.len(),
            acc == utf8_len(s@.take(i as int)),
            acc < n || n == 0,
        decreases s.len() - i,
    {
        if acc >= n {
            proof {
                lemma_utf8_len_mono(s@, i as int);
            }
            return true;
        }
        let w = char_width_of(s[i]);
        proof {
            assert(s@.take(i + 1) == s@.take(i as int).push(s@[i as int]));
            lemma_utf8_len_push(s@.take(i as int), s@[i as int]);
        }
        if w >= n - acc {
            proof {
                lemma_utf8_len_mono(s@, i + 1);
            }
            return true;
        }
        acc = acc + w;
        i = i + 1;
    }
    assert(s@.take(s.len() as int) == s@);
    acc >= n
}

/// Whether the UTF-8 encoding of `s` has more than `n` bytes.
pub fn utf8_len_gt(s: &Vec<char>, n: usize) -> (r: bool)
    ensures
        r == (utf8_len(s@) > n),
{
    let mut acc: usize = 0;
    let mut i: usize = 0;
    proof {
        assert(s@.take(0) =~= Seq::<char>::empty());
    }
    while i < s.len()
        invariant
            i <= s.len(),
            acc == utf8_len(s@.take(i as int)),
            acc <= n,
        decreases s.len() - i,
    {
        let w = char_width_of(s[i]);
        proof {
            assert(s@.take(i + 1) == s@.take(i as int).push(s@[i as int]));
            lemma_utf8_len_push(s@.take(i as int), s@[i as int]);
        }
        if w > n - acc {
            proof {
                lemma_utf8_len_mono(s@, i + 1);
            }
            return true;
        }
        acc = acc + w;
        i = i + 1;
    }
    assert(s@.take(s.len() as int) == s@);
    false
}

pub proof fn lemma_utf8_len_mono(s: Seq<char>, k: int)
    requires
        0 <= k <= s.len(),
    ensures
        utf8_len(s.take(k)) <= utf8_len(s),
    decreases s.len() - k,
{
    if k < s.len() {
        lemma_utf8_len_mono(s, k + 1);
        assert(s.take(k + 1) == s.take(k).push(s[k]));
        lemma_utf8_len_push(s.take(k), s[k]);
    } else {
        assert(s.take(k) == s);
    }
}

// ---------------------------------------------------------------------------
// Ordering of strings
// ---------------------------------------------------------------------------

/// Lexicographic order by code point, which is the order of `String`s.
pub open spec fn lex_lt(a: Seq<char>, b: Seq<char>) -> bool
    decreases a.len(),
{
    if a.len() == 0 {
        b.len() > 0
    } else if b.len() == 0 {
        false
    } else if a[0] != b[0] {
        (a[0] as u32) < (b[0] as u32)
    } else {
        lex_lt(a.drop_first(), b.drop_first())
    }
}

pub proof fn lemma_char_u32_injective(a: char, b: char)
    requires
        a != b,
    ensures
        (a as u32) != (b as u32),
{
    if (a as u32) == (b as u32) {
        let u = a as u32;
        vstd::utf8::char_u32_cast(a, u);
        vstd::utf8::char_u32_cast(b, u);
    }
}

pub proof fn lemma_lex_irreflexive(a: Seq<char>)
    ensures
        !lex_lt(a, a),
    decreases a.len(),
{
    if a.len() > 0 {
        lemma_lex_irreflexive(a.drop_first());
    }
}

pub proof fn lemma_lex_transitive(a: Seq<char>, b: Seq<char>, c: Seq<char>)
    requires
        lex_lt(a, b),
        lex_lt(b, c),
    ensures
        lex_lt(a, c),
    decreases a.len(),
{
    broadcast use vstd::utf8::char_u32_cast;

    if a.len() > 0 && b.len() > 0 && c.len() > 0 {
        if a[0] == b[0] && b[0] == c[0] {
            lemma_lex_transitive(a.drop_first(), b.drop_first(), c.drop_first());
        }
    }
}

pub proof fn lemma_lex_total(a: Seq<char>, b: Seq<char>)
    ensures
        a == b || lex_lt(a, b) || lex_lt(b, a),
    decreases a.len(),
{
    if a.len() > 0 && b.len() > 0 {
        if a[0] == b[0] {
            lemma_lex_total(a.drop_first(), b.drop_first());
            if a.drop_first() == b.drop_first() {
                assert(a =~= seq![a[0]] + a.drop_first());
                assert(b =~= seq![b[0]] + b.drop_first());
            }
        } else {
            lemma_char_u32_injective(a[0], b[0]);
        }
    } else if a.len() == 0 && b.len() == 0 {
        assert(a =~= b);
    }
}

/// Whether `a` comes before `b` in the order of strings.
pub fn less_chars(a: &Vec<char>, b: &Vec<char>) -> (r: bool)
    ensures
        r == lex_lt(a@, b@),
{
    let mut i: usize = 0;
    assert(a@.skip(0) == a@);
    assert(b@.skip(0) == b@);
    while i < a.len() && i < b.len()
        invariant
            i <= a.len(),
            i <= b.len(),
            lex_lt(a@, b@) == lex_lt(a@.skip(i as int), b@.skip(i as int)),
        decreases a.len() - i,
    {
        if a[i] != b[i] {
            proof {
                lemma_char_u32_injective(a@[i as int], b@[i as int]);
            }
            return (a[i] as u32) < (b[i] as u32);
        }
        assert(a@.skip(i as int).drop_first() == a@.skip(i + 1));
        assert(b@.skip(i as int).drop_first() == b@.skip(i + 1));
        i = i + 1;
    }
    i < b.len()
}

/// Whether the sequence is strictly increasing in the order of strings.
pub open spec fn strictly_sorted(s: Seq<Seq<char>>) -> bool {
    forall|i: int, j: int| 0 <= i < j < s.len() ==> lex_lt(s[i], s[j])
}

/// The distinct strings of `v`, in increasing order, as a sort followed by a
/// dedup gives them.
pub fn sorted_unique(v: &Vec<String>) -> (r: Vec<String>)
    ensures
        strictly_sorted(strs(r@)),
        forall|x: Seq<char>| strs(r@).contains(x) <==> strs(v@).contains(x),
{
    let mut r: Vec<String> = Vec::new();
    let mut keys: Vec<Vec<char>> = Vec::new();
    let mut i: usize = 0;
    while i < v.len()
        invariant
            i <= v.len(),
            keys@.len() == r@.len(),
            forall|k: int| 0 <= k < r@.len() ==> #[trigger] keys@[k]@ == r@[k]@,
            strictly_sorted(strs(r@)),
            forall|x: Seq<char>| strs(r@).contains(x) <==> strs(v@.take(i as int)).contains(x),
        decreases v.len() - i,
    {
        let x = chars_of(v[i].as_str());
        let mut p: usize = 0;
        while p < keys.len() && less_chars(&keys[p], &x)
            invariant
                p <= keys.len(),
                keys@.len() == r@.len(),
                forall|k: int| 0 <= k < r@.len() ==> #[trigger] keys@[k]@ == r@[k]@,
                forall|k: int| 0 <= k < p ==> lex_lt(#[trigger] keys@[k]@, x@),
            decreases keys.len() - p,
        {
            p = p + 1;
        }
        let ghost old_r = strs(r@);
        let ghost pre = strs(v@.take(i as int));
        let ghost post = strs(v@.take(i + 1));
        assert(post == pre.push(x@)) by {
            assert(v@.take(i + 1) == v@.take(i as int).push(v@[i as int]));
            lemma_strs_push(v@.take(i as int), v@[i as int]);
        }
        if p < keys.len() && chars_eq(&keys[p], &x) {
            assert(old_r[p as int] == x@);
            assert forall|y: Seq<char>| old_r.contains(y) <==> post.contains(y) by {
                if y == x@ {
                    assert(old_r[p as int] == y);
                    assert(post[i as int] == y);
                }
                if pre.contains(y) {
                    let k = choose|k: int| 0 <= k < pre.len() && #[trigger] pre[k] == y;
                    assert(post[k] == y);
                }
                if post.contains(y) {
                    let k = choose|k: int| 0 <= k < post.len() && #[trigger] post[k] == y;
                    if k < i {
                        assert(pre[k] == y);
                    }
                }
            }
        } else {
            proof {
                if p < keys.len() {
                    lemma_lex_total(keys@[p as int]@, x@);
                }
            }
            let s = string_of(&x);
            r.insert(p, s);
            keys.insert(p, x);
            let ghost new_r = strs(r@);
            assert(new_r == old_r.insert(p as int, x@));
            assert forall|a: int, b: int| 0 <= a < b < new_r.len() implies lex_lt(new_r[a], new_r[b]) by {
                if a < p && b == p {
                    assert(lex_lt(keys@[a]@, x@));
                } else if a == p && b > p {
                    assert(lex_lt(x@, old_r[p as int]));
                    if b - 1 > p {
                        lemma_lex_transitive(x@, old_r[p as int], old_r[b - 1]);
                    }
                } else if a < p && b > p {
                    assert(lex_lt(old_r[a], old_r[b - 1]));
                } else if a > p {
                    assert(lex_lt(old_r[a - 1], old_r[b - 1]));
                }
            }
            assert forall|y: Seq<char>| new_r.contains(y) implies post.contains(y) by {
                let k = choose|k: int| 0 <= k < new_r.len() && #[trigger] new_r[k] == y;
                if k == p {
                    assert(post[i as int] == y);
                } else {
                    if k < p {
                        assert(old_r[k] == y);
                    } else {
                        assert(old_r[k - 1] == y);
                    }
                    assert(old_r.contains(y));
                    assert(pre.contains(y));
                    let m = choose|m: int| 0 <= m < pre.len() && #[trigger] pre[m] == y;
                    assert(post[m] == y);
                }
            }
            assert forall|y: Seq<char>| post.contains(y) implies new_r.contains(y) by {
                let k = choose|k: int| 0 <= k < post.len() && #[trigger] post[k] == y;
                if k < i {
                    assert(pre[k] == y);
                    assert(pre.contains(y));
                    assert(old_r.contains(y));
                    let m = choose|m: int| 0 <= m < old_r.len() && #[trigger] old_r[m] == y;
                    if m < p {
                        assert(new_r[m] == y);
                    } else {
                        assert(new_r[m + 1] == y);
                    }
                } else {
                    assert(new_r[p as int] == y);
                }
            }
        }
        i = i + 1;
    }
    assert(v@.take(v.len() as int) == v@);
    r
}


/// Whether a string with the characters of `s` occurs in `v`.
pub fn contains_string(v: &Vec<String>, s: &str) -> (r: bool)
    ensures
        r == strs(v@).contains(s@),
{
    let mut i: usize = 0;
    while i < v.len()
        invariant
            i <= v.len(),
            forall|k: int| 0 <= k < i ==> v@[k]@ != s@,
        decreases v.len() - i,
    {
        let a = chars_of(v[i].as_str());
        let b = chars_of(s);
        if chars_eq(&a, &b) {
            assert(strs(v@)[i as int] == s@);
            return true;
        }
        i = i + 1;
    }
    assert forall|k: int| 0 <= k < strs(v@).len() implies strs(v@)[k] != s@ by {
        assert(v@[k]@ != s@);
    }
    false
}

/// Whether two string slices hold the same characters.
pub fn str_eq(a: &str, b: &str) -> (r: bool)
    ensures
        r == (a@ == b@),
{
    let x = chars_of(a);
    let y = chars_of(b);
    chars_eq(&x, &y)
}


/// The index of the first occurrence of `p` in `s`, if any.
pub open spec fn find_spec(s: Seq<char>, p: Seq<char>) -> Option<int> {
    if contains_seq(s, p) {
        Some(choose|i: int| first_occurrence(s, p, i))
    } else {
        None
    }
}

pub proof fn lemma_first_occurrence_unique(s: Seq<char>, p: Seq<char>, i: int, j: int)
    requires
        first_occurrence(s, p, i),
        first_occurrence(s, p, j),
    ensures
        i == j,
{
}

pub proof fn lemma_find_spec(s: Seq<char>, p: Seq<char>, i: int)
    requires
        first_occurrence(s, p, i),
    ensures
        find_spec(s, p) == Some(i),
{
    assert(contains_seq(s, p));
    let k = choose|k: int| first_occurrence(s, p, k);
    lemma_first_occurrence_unique(s, p, i, k);
}

/// The index of the first occurrence of `p` in `s` (as `str::find` gives it,
/// counted in characters).
pub fn find_first(s: &Vec<char>, p: &Vec<char>) -> (r: Option<usize>)
    ensures
        r matches Some(i) ==> find_spec(s@, p@) == Some(i as int) && first_occurrence(s@, p@, i as int),
        r is None ==> find_spec(s@, p@) is None,
{
    let r = find_seq(s, p);
    proof {
        if let Some(i) = r {
            lemma_find_spec(s@, p@, i as int);
        }
    }
    r
}

/// The index of the first occurrence of the character `c` in `s`.
pub open spec fn char_index(s: Seq<char>, c: char) -> Option<int> {
    find_spec(s, seq![c])
}

/// The index of the first occurrence of the character `c` in `s`.
pub fn find_first_char(s: &Vec<char>, c: char) -> (r: Option<usize>)
    ensures
        r matches Some(i) ==> char_index(s@, c) == Some(i as int) && i < s@.len() && s@[i as int] == c,
        r is None ==> char_index(s@, c) is None,
{
    let mut p: Vec<char> = Vec::new();
    p.push(c);
    let r = find_first(s, &p);
    proof {
        if let Some(i) = r {
            assert(occurs_at(s@, p@, i as int));
            assert(s@.subrange(i as int, i + 1)[0] == c);
        }
    }
    r
}

} // verus!
