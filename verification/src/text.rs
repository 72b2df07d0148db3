//! Text as a sequence of characters: character classes, trimming, searching,
//! splitting, joining and number parsing.
use vstd::prelude::*;
use vstd::slice::slice_subrange;

verus! {

/// `String::push`: appends one character to the end of the string.
pub assume_specification[ String::push ](s: &mut String, c: char)
    ensures
        final(s)@ == old(s)@.push(c),
;

/// A code point that a `char` can have.
pub open spec fn is_scalar(u: int) -> bool {
    0 <= u <= 0x10ffff && !(0xd800 <= u <= 0xdfff)
}

pub proof fn lemma_char(c: char)
    ensures
        is_scalar(c as int),
        c as u32 == c as int,
        (c as int) as char == c,
{
}

/// `char::from_u32`: the character of a code point, or nothing where the number
/// is no Unicode scalar value.
pub assume_specification[ char::from_u32 ](i: u32) -> (r: Option<char>)
    ensures
        r == if is_scalar(i as int) {
            Some(i as char)
        } else {
            None
        },
;

// ---------------------------------------------------------------------------
// Views of lists of texts
// ---------------------------------------------------------------------------
/// The texts of a list of character vectors.
pub open spec fn rows(v: Seq<Vec<char>>) -> Seq<Seq<char>> {
    Seq::new(v.len(), |i: int| v[i]@)
}

/// The texts of a list of strings.
pub open spec fn texts(v: Seq<String>) -> Seq<Seq<char>> {
    Seq::new(v.len(), |i: int| v[i]@)
}

/// The characters of a string.
pub fn to_chars(s: &str) -> (r: Vec<char>)
    ensures
        r@ == s@,
{
    let mut out: Vec<char> = Vec::new();
    for c in it: s.chars()
        invariant
            it.seq() == s@,
            out@ == s@.take(it.index() as int),
    {
        out.push(c);
        assert(s@.take(it.index() + 1) =~= s@.take(it.index() as int).push(c));
    }
    assert(s@.take(s@.len() as int) =~= s@);
    out
}

/// The string of a list of characters.
pub fn to_text(s: &[char]) -> (r: String)
    ensures
        r@ == s@,
{
    let mut out = String::new();
    let mut i: usize = 0;
    while i < s.len()
        invariant
            i <= s@.len(),
            out@ == s@.take(i as int),
        decreases s@.len() - i,
    {
        out.push(s[i]);
        assert(s@.take(i + 1) =~= s@.take(i as int).push(s@[i as int]));
        i = i + 1;
    }
    assert(s@.take(s@.len() as int) =~= s@);
    out
}

/// Appends a list of characters to another.
pub fn push_all(out: &mut Vec<char>, s: &[char])
    ensures
        final(out)@ == old(out)@ + s@,
{
    let ghost before = out@;
    let mut i: usize = 0;
    while i < s.len()
        invariant
            i <= s@.len(),
            out@ == before + s@.take(i as int),
        decreases s@.len() - i,
    {
        out.push(s[i]);
        assert(before + s@.take(i + 1) =~= (before + s@.take(i as int)).push(s@[i as int]));
        i = i + 1;
    }
    assert(s@.take(s@.len() as int) =~= s@);
}

/// Appends a string to a list of characters.
pub fn push_text(out: &mut Vec<char>, s: &str)
    ensures
        final(out)@ == old(out)@ + s@,
{
    let v = to_chars(s);
    push_all(out, v.as_slice());
}

/// Whether two texts are the same.
pub fn same_chars(a: &[char], b: &[char]) -> (r: bool)
    ensures
        r == (a@ == b@),
{
    if a.len() != b.len() {
        return false;
    }
    let mut i: usize = 0;
    while i < a.len()
        invariant
            i <= a@.len(),
            a@.len() == b@.len(),
            forall|j: int| 0 <= j < i ==> a@[j] == b@[j],
        decreases a@.len() - i,
    {
        if a[i] != b[i] {
            return false;
        }
        i = i + 1;
    }
    assert(a@ =~= b@);
    true
}

/// Whether a list of characters spells the string.
pub fn is_text(a: &[char], b: &str) -> (r: bool)
    ensures
        r == (a@ == b@),
{
    let v = to_chars(b);
    same_chars(a, v.as_slice())
}

/// Whether two strings are the same.
pub fn same_text(a: &str, b: &str) -> (r: bool)
    ensures
        r == (a@ == b@),
{
    let v = to_chars(a);
    is_text(v.as_slice(), b)
}

// ---------------------------------------------------------------------------
// Character classes
// ---------------------------------------------------------------------------
/// The Unicode White_Space property.
pub open spec fn is_white(c: char) -> bool {
    let u = c as u32;
    ||| 0x09 <= u <= 0x0d
    ||| u == 0x20
    ||| u == 0x85
    ||| u == 0xa0
    ||| u == 0x1680
    ||| 0x2000 <= u <= 0x200a
    ||| u == 0x2028
    ||| u == 0x2029
    ||| u == 0x202f
    ||| u == 0x205f
    ||| u == 0x3000
}

/// The Unicode general category Cc.
pub open spec fn is_control(c: char) -> bool {
    let u = c as u32;
    u <= 0x1f || 0x7f <= u <= 0x9f
}

pub open spec fn is_digit(c: char) -> bool {
    '0' <= c <= '9'
}

pub open spec fn is_alnum(c: char) -> bool {
    ('0' <= c <= '9') || ('a' <= c <= 'z') || ('A' <= c <= 'Z')
}

pub open spec fn is_hex_digit(c: char) -> bool {
    ('0' <= c <= '9') || ('a' <= c <= 'f') || ('A' <= c <= 'F')
}

/// The lower-case form of an ASCII letter; every other character is itself.
pub open spec fn lower(c: char) -> char {
    if 'A' <= c <= 'Z' {
        ((c as u32) + 32) as char
    } else {
        c
    }
}

/// A text with its ASCII letters in lower case.
pub open spec fn lowered(s: Seq<char>) -> Seq<char> {
    Seq::new(s.len(), |i: int| lower(s[i]))
}

/// The code point of a character.
pub fn code(c: char) -> (r: u32)
    ensures
        r as int == c as int,
        r <= 0x10ffff,
        r < 0xd800 || r > 0xdfff,
{
    c as u32
}

pub fn white(c: char) -> (r: bool)
    ensures
        r == is_white(c),
{
    let u: u32 = c as u32;
    (0x09 <= u && u <= 0x0d) || u == 0x20 || u == 0x85 || u == 0xa0 || u == 0x1680 || (0x2000 <= u
        && u <= 0x200a) || u == 0x2028 || u == 0x2029 || u == 0x202f || u == 0x205f || u == 0x3000
}

pub fn control(c: char) -> (r: bool)
    ensures
        r == is_control(c),
{
    let u: u32 = c as u32;
    u <= 0x1f || (0x7f <= u && u <= 0x9f)
}

pub fn alnum(c: char) -> (r: bool)
    ensures
        r == is_alnum(c),
{
    ('0' <= c && c <= '9') || ('a' <= c && c <= 'z') || ('A' <= c && c <= 'Z')
}

pub fn hex_digit(c: char) -> (r: bool)
    ensures
        r == is_hex_digit(c),
{
    ('0' <= c && c <= '9') || ('a' <= c && c <= 'f') || ('A' <= c && c <= 'F')
}

pub fn lower_char(c: char) -> (r: char)
    ensures
        r == lower(c),
{
    if 'A' <= c && c <= 'Z' {
        let b: u8 = c as u8;
        (b + 32u8) as char
    } else {
        c
    }
}

pub fn lower_chars(s: &[char]) -> (r: Vec<char>)
    ensures
        r@ == lowered(s@),
{
    let mut out: Vec<char> = Vec::new();
    let mut i: usize = 0;
    while i < s.len()
        invariant
            i <= s@.len(),
            out@.len() == i,
            forall|j: int| 0 <= j < i ==> out@[j] == lower(s@[j]),
        decreases s@.len() - i,
    {
        out.push(lower_char(s[i]));
        i = i + 1;
    }
    assert(out@ =~= lowered(s@));
    out
}

/// A string with its ASCII letters in lower case.
pub fn lower_text(s: &str) -> (r: String)
    ensures
        r@ == lowered(s@),
{
    let v = to_chars(s);
    let l = lower_chars(v.as_slice());
    to_text(l.as_slice())
}

// ---------------------------------------------------------------------------
// Trimming
// ---------------------------------------------------------------------------
/// The characters that a trim removes.
#[derive(Clone, Copy)]
pub enum Cut {
    White,
    At,
    CarriageReturn,
    Underscore,
    SpaceOrDot,
}

impl Cut {
    pub open spec fn has(self, c: char) -> bool {
        match self {
            Cut::White => is_white(c),
            Cut::At => c == '@',
            Cut::CarriageReturn => c == '\r',
            Cut::Underscore => c == '_',
            Cut::SpaceOrDot => c == ' ' || c == '.',
        }
    }

    pub fn contains(self, c: char) -> (r: bool)
        ensures
            r == self.has(c),
    {
        match self {
            Cut::White => white(c),
            Cut::At => c == '@',
            Cut::CarriageReturn => c == '\r',
            Cut::Underscore => c == '_',
            Cut::SpaceOrDot => c == ' ' || c == '.',
        }
    }
}

/// The first index from `i` on that holds no character of the class.
pub open spec fn cut_front(s: Seq<char>, k: Cut, i: int) -> int
    decreases s.len() - i,
{
    if 0 <= i < s.len() && k.has(s[i]) {
        cut_front(s, k, i + 1)
    } else {
        i
    }
}

/// The end of the text before `j` once the class is removed from its back.
pub open spec fn cut_back(s: Seq<char>, k: Cut, j: int) -> int
    decreases j,
{
    if 0 < j <= s.len() && k.has(s[j - 1]) {
        cut_back(s, k, j - 1)
    } else {
        j
    }
}

pub open spec fn cut_start(s: Seq<char>, k: Cut) -> Seq<char> {
    s.skip(cut_front(s, k, 0))
}

pub open spec fn cut_end(s: Seq<char>, k: Cut) -> Seq<char> {
    s.take(cut_back(s, k, s.len() as int))
}

pub open spec fn cut_both(s: Seq<char>, k: Cut) -> Seq<char> {
    cut_end(cut_start(s, k), k)
}

/// A text without the white space at its front and back.
pub open spec fn trim(s: Seq<char>) -> Seq<char> {
    cut_both(s, Cut::White)
}

pub open spec fn trim_start(s: Seq<char>) -> Seq<char> {
    cut_start(s, Cut::White)
}

pub proof fn lemma_cut_front(s: Seq<char>, k: Cut, i: int)
    requires
        0 <= i <= s.len(),
    ensures
        i <= cut_front(s, k, i) <= s.len(),
        forall|j: int| i <= j < cut_front(s, k, i) ==> k.has(s[j]),
        cut_front(s, k, i) < s.len() ==> !k.has(s[cut_front(s, k, i)]),
    decreases s.len() - i,
{
    if i < s.len() && k.has(s[i]) {
        lemma_cut_front(s, k, i + 1);
    }
}

pub proof fn lemma_cut_back(s: Seq<char>, k: Cut, j: int)
    requires
        0 <= j <= s.len(),
    ensures
        0 <= cut_back(s, k, j) <= j,
        forall|i: int| cut_back(s, k, j) <= i < j ==> k.has(s[i]),
        cut_back(s, k, j) > 0 ==> !k.has(s[cut_back(s, k, j) - 1]),
    decreases j,
{
    if 0 < j && k.has(s[j - 1]) {
        lemma_cut_back(s, k, j - 1);
    }
}

/// What is left of a text trimmed on both sides: a part of it, with no
/// character of the class at either end.
pub proof fn lemma_cut_both(s: Seq<char>, k: Cut)
    ensures
        cut_both(s, k).len() <= cut_start(s, k).len() <= s.len(),
        cut_both(s, k) == s.subrange(
            cut_front(s, k, 0),
            cut_front(s, k, 0) + cut_both(s, k).len(),
        ),
        0 <= cut_front(s, k, 0) <= cut_front(s, k, 0) + cut_both(s, k).len() <= s.len(),
        cut_both(s, k).len() > 0 ==> !k.has(cut_both(s, k)[0]) && !k.has(cut_both(s, k).last()),
{
    lemma_cut_front(s, k, 0);
    let t = cut_start(s, k);
    lemma_cut_back(t, k, t.len() as int);
    assert(cut_both(s, k) =~= s.subrange(
        cut_front(s, k, 0),
        cut_front(s, k, 0) + cut_both(s, k).len(),
    ));
}

/// A text with nothing to trim at either end is its own trim.
pub proof fn lemma_cut_nothing(s: Seq<char>, k: Cut)
    requires
        s.len() > 0 ==> !k.has(s[0]) && !k.has(s.last()),
    ensures
        cut_both(s, k) == s,
        cut_start(s, k) == s,
        cut_end(s, k) == s,
{
    assert(cut_front(s, k, 0) == 0);
    assert(s.skip(0) =~= s);
    assert(cut_back(s, k, s.len() as int) == s.len());
    assert(s.take(s.len() as int) =~= s);
}

pub fn cut_start_chars<'a>(s: &'a [char], k: Cut) -> (r: &'a [char])
    ensures
        r@ == cut_start(s@, k),
        r@.len() <= s@.len(),
{
    let mut i: usize = 0;
    while i < s.len() && k.contains(s[i])
        invariant
            i <= s@.len(),
            cut_front(s@, k, 0) == cut_front(s@, k, i as int),
        decreases s@.len() - i,
    {
        i = i + 1;
    }
    slice_subrange(s, i, s.len())
}

pub fn cut_end_chars<'a>(s: &'a [char], k: Cut) -> (r: &'a [char])
    ensures
        r@ == cut_end(s@, k),
        r@.len() <= s@.len(),
{
    let mut j: usize = s.len();
    while j > 0 && k.contains(s[j - 1])
        invariant
            j <= s@.len(),
            cut_back(s@, k, s@.len() as int) == cut_back(s@, k, j as int),
        decreases j,
    {
        j = j - 1;
    }
    slice_subrange(s, 0, j)
}

pub fn cut_both_chars<'a>(s: &'a [char], k: Cut) -> (r: &'a [char])
    ensures
        r@ == cut_both(s@, k),
        r@.len() <= s@.len(),
{
    cut_end_chars(cut_start_chars(s, k), k)
}

pub fn trim_chars<'a>(s: &'a [char]) -> (r: &'a [char])
    ensures
        r@ == trim(s@),
        r@.len() <= s@.len(),
{
    cut_both_chars(s, Cut::White)
}

pub fn trim_text(s: &str) -> (r: String)
    ensures
        r@ == trim(s@),
{
    let v = to_chars(s);
    to_text(trim_chars(v.as_slice()))
}

// ---------------------------------------------------------------------------
// Searching
// ---------------------------------------------------------------------------
/// The first index from `i` on that holds the character, or the length.
pub open spec fn find_from(s: Seq<char>, c: char, i: int) -> int
    decreases s.len() - i,
{
    if 0 <= i < s.len() {
        if s[i] == c {
            i
        } else {
            find_from(s, c, i + 1)
        }
    } else {
        s.len() as int
    }
}

/// The first index of the character, or the length.
pub open spec fn find(s: Seq<char>, c: char) -> int {
    find_from(s, c, 0)
}

pub proof fn lemma_find_from(s: Seq<char>, c: char, i: int)
    requires
        0 <= i <= s.len(),
    ensures
        i <= find_from(s, c, i) <= s.len(),
        forall|j: int| i <= j < find_from(s, c, i) ==> s[j] != c,
        find_from(s, c, i) < s.len() ==> s[find_from(s, c, i)] == c,
    decreases s.len() - i,
{
    if i < s.len() && s[i] != c {
        lemma_find_from(s, c, i + 1);
    }
}

/// The index found is the only one with no earlier occurrence.
pub proof fn lemma_find_is(s: Seq<char>, c: char, i: int, k: int)
    requires
        0 <= i <= k <= s.len(),
        forall|j: int| i <= j < k ==> s[j] != c,
        k < s.len() ==> s[k] == c,
    ensures
        find_from(s, c, i) == k,
    decreases k - i,
{
    if i < k {
        lemma_find_is(s, c, i + 1, k);
    }
}

pub fn find_char_from(s: &[char], c: char, from: usize) -> (r: usize)
    requires
        from <= s@.len(),
    ensures
        r == find_from(s@, c, from as int),
        from <= r <= s@.len(),
        r < s@.len() ==> s@[r as int] == c,
        forall|j: int| from <= j < r ==> s@[j] != c,
{
    let mut i: usize = from;
    while i < s.len() && s[i] != c
        invariant
            from <= i <= s@.len(),
            find_from(s@, c, from as int) == find_from(s@, c, i as int),
            forall|j: int| from <= j < i ==> s@[j] != c,
        decreases s@.len() - i,
    {
        i = i + 1;
    }
    i
}

/// Whether `p` stands in `s` at `i`.
pub open spec fn stands_at(s: Seq<char>, p: Seq<char>, i: int) -> bool {
    0 <= i && i + p.len() <= s.len() && s.subrange(i, i + p.len()) == p
}

pub open spec fn starts_with(s: Seq<char>, p: Seq<char>) -> bool {
    stands_at(s, p, 0)
}

pub open spec fn ends_with(s: Seq<char>, p: Seq<char>) -> bool {
    stands_at(s, p, s.len() - p.len())
}

/// Whether `p` occurs in `s`.
pub open spec fn has_part(s: Seq<char>, p: Seq<char>) -> bool {
    exists|i: int| stands_at(s, p, i)
}

/// The first index from `i` on at which `p` stands, or -1.
pub open spec fn find_part(s: Seq<char>, p: Seq<char>, i: int) -> int
    decreases s.len() - i,
{
    if stands_at(s, p, i) {
        i
    } else if 0 <= i < s.len() {
        find_part(s, p, i + 1)
    } else {
        -1
    }
}

pub proof fn lemma_find_part(s: Seq<char>, p: Seq<char>, i: int)
    requires
        0 <= i <= s.len(),
    ensures
        find_part(s, p, i) == -1 || (i <= find_part(s, p, i) && stands_at(
            s,
            p,
            find_part(s, p, i),
        )),
        find_part(s, p, i) == -1 ==> forall|j: int| i <= j ==> !stands_at(s, p, j),
        forall|j: int| i <= j < find_part(s, p, i) ==> !stands_at(s, p, j),
    decreases s.len() - i,
{
    if !stands_at(s, p, i) && i < s.len() {
        lemma_find_part(s, p, i + 1);
    }
}

pub fn part_at(s: &[char], p: &[char], i: usize) -> (r: bool)
    requires
        i <= s@.len(),
    ensures
        r == stands_at(s@, p@, i as int),
{
    if s.len() - i < p.len() {
        return false;
    }
    same_chars(slice_subrange(s, i, i + p.len()), p)
}

/// `find_part` from the start, as an option.
pub fn find_part_chars(s: &[char], p: &[char]) -> (r: Option<usize>)
    ensures
        match r {
            Some(i) => find_part(s@, p@, 0) == i && i + p@.len() <= s@.len(),
            None => find_part(s@, p@, 0) == -1,
        },
        r is Some == has_part(s@, p@),
{
    let mut i: usize = 0;
    proof {
        lemma_find_part(s@, p@, 0);
    }
    while i < s.len()
        invariant
            i <= s@.len(),
            find_part(s@, p@, 0) == find_part(s@, p@, i as int),
            forall|j: int| 0 <= j < i ==> !stands_at(s@, p@, j),
        decreases s@.len() - i,
    {
        if part_at(s, p, i) {
            return Some(i);
        }
        i = i + 1;
    }
    if part_at(s, p, i) {
        return Some(i);
    }
    None
}

pub fn contains_part(s: &[char], p: &[char]) -> (r: bool)
    ensures
        r == has_part(s@, p@),
{
    match find_part_chars(s, p) {
        Some(_) => true,
        None => false,
    }
}

/// Whether the string occurs in the text.
pub fn contains_text(s: &[char], p: &str) -> (r: bool)
    ensures
        r == has_part(s@, p@),
{
    let v = to_chars(p);
    contains_part(s, v.as_slice())
}

pub fn starts_with_text(s: &[char], p: &str) -> (r: bool)
    ensures
        r == starts_with(s@, p@),
{
    let v = to_chars(p);
    part_at(s, v.as_slice(), 0)
}

pub fn ends_with_text(s: &[char], p: &str) -> (r: bool)
    ensures
        r == ends_with(s@, p@),
{
    let v = to_chars(p);
    if s.len() < v.len() {
        return false;
    }
    part_at(s, v.as_slice(), s.len() - v.len())
}

} // verus!
