//! Splitting text into lines and fields, and joining the parts again.
use vstd::prelude::*;
use vstd::slice::{slice_subrange, slice_to_vec};

use crate::text::{
    find_char_from, find_from, find_part, find_part_chars, lower, lower_char, lowered, push_all,
    rows, to_chars, to_text, trim, trim_chars,
};

verus! {

// ---------------------------------------------------------------------------
// Splitting at a character
// ---------------------------------------------------------------------------
/// The parts of the text from `i` on, between the occurrences of `c`.
pub open spec fn split_from(s: Seq<char>, c: char, i: int) -> Seq<Seq<char>>
    decreases s.len() - i,
{
    let k = find_from(s, c, i);
    if 0 <= i <= k < s.len() {
        seq![s.subrange(i, k)] + split_from(s, c, k + 1)
    } else {
        seq![s.skip(i)]
    }
}

/// The parts of the text between the occurrences of `c`.
pub open spec fn split(s: Seq<char>, c: char) -> Seq<Seq<char>> {
    split_from(s, c, 0)
}

pub fn split_chars(s: &[char], c: char) -> (r: Vec<Vec<char>>)
    ensures
        rows(r@) == split(s@, c),
{
    let mut out: Vec<Vec<char>> = Vec::new();
    let mut i: usize = 0;
    assert(rows(out@) + split_from(s@, c, 0) =~= split(s@, c));
    loop
        invariant
            i <= s@.len(),
            rows(out@) + split_from(s@, c, i as int) == split(s@, c),
        decreases s@.len() - i,
    {
        let k = find_char_from(s, c, i);
        let ghost before = rows(out@);
        let piece = slice_to_vec(slice_subrange(s, i, k));
        out.push(piece);
        assert(rows(out@) =~= before.push(s@.subrange(i as int, k as int)));
        if k < s.len() {
            assert(rows(out@) + split_from(s@, c, k + 1) =~= before + split_from(s@, c, i as int));
            i = k + 1;
        } else {
            assert(s@.skip(i as int) =~= s@.subrange(i as int, k as int));
            assert(rows(out@) =~= before + split_from(s@, c, i as int));
            return out;
        }
    }
}

/// Each part of a list, trimmed and with its ASCII letters in lower case.
pub open spec fn lower_trimmed(v: Seq<Seq<char>>) -> Seq<Seq<char>> {
    Seq::new(v.len(), |i: int| lowered(trim(v[i])))
}

pub fn lower_trim_all(v: &Vec<Vec<char>>) -> (r: Vec<Vec<char>>)
    ensures
        rows(r@) == lower_trimmed(rows(v@)),
{
    let mut out: Vec<Vec<char>> = Vec::new();
    let mut i: usize = 0;
    while i < v.len()
        invariant
            i <= v@.len(),
            out@.len() == i,
            forall|j: int| 0 <= j < i ==> (#[trigger] out@[j])@ == lowered(trim(v@[j]@)),
        decreases v@.len() - i,
    {
        let low = crate::text::lower_chars(trim_chars(v[i].as_slice()));
        out.push(low);
        i = i + 1;
    }
    assert(rows(out@) =~= lower_trimmed(rows(v@)));
    out
}

// ---------------------------------------------------------------------------
// Splitting once
// ---------------------------------------------------------------------------
/// The text before and after the first occurrence of `p`.
pub open spec fn split_once(s: Seq<char>, p: Seq<char>) -> Option<(Seq<char>, Seq<char>)> {
    let k = find_part(s, p, 0);
    if k < 0 {
        None
    } else {
        Some((s.take(k), s.skip(k + p.len())))
    }
}

pub open spec fn pair_of(r: Option<(Vec<char>, Vec<char>)>) -> Option<(Seq<char>, Seq<char>)> {
    match r {
        Some((a, b)) => Some((a@, b@)),
        None => None,
    }
}

pub fn split_once_text(s: &[char], p: &str) -> (r: Option<(Vec<char>, Vec<char>)>)
    ensures
        pair_of(r) == split_once(s@, p@),
{
    let v = to_chars(p);
    match find_part_chars(s, v.as_slice()) {
        Some(k) => {
            let n = s.len();
            let a = slice_to_vec(slice_subrange(s, 0, k));
            let b = slice_to_vec(slice_subrange(s, k + v.len(), n));
            assert(a@ =~= s@.take(k as int));
            assert(b@ =~= s@.skip(k + p@.len()));
            Some((a, b))
        },
        None => None,
    }
}

// ---------------------------------------------------------------------------
// Prefixes and headers
// ---------------------------------------------------------------------------
/// The text after the prefix, where the text starts with it up to the case of
/// ASCII letters.
pub open spec fn after_prefix(s: Seq<char>, p: Seq<char>) -> Option<Seq<char>> {
    if p.len() <= s.len() && lowered(s.take(p.len() as int)) == lowered(p) {
        Some(s.skip(p.len() as int))
    } else {
        None
    }
}

pub open spec fn slice_of(r: Option<&[char]>) -> Option<Seq<char>> {
    match r {
        Some(a) => Some(a@),
        None => None,
    }
}

/// Whether two texts are the same up to the case of ASCII letters.
pub fn same_ignoring_case(a: &[char], b: &[char]) -> (r: bool)
    ensures
        r == (lowered(a@) == lowered(b@)),
{
    if a.len() != b.len() {
        assert(lowered(a@).len() != lowered(b@).len());
        return false;
    }
    let mut i: usize = 0;
    while i < a.len()
        invariant
            i <= a@.len(),
            a@.len() == b@.len(),
            forall|j: int| 0 <= j < i ==> lower(a@[j]) == lower(b@[j]),
        decreases a@.len() - i,
    {
        if lower_char(a[i]) != lower_char(b[i]) {
            assert(lowered(a@)[i as int] != lowered(b@)[i as int]);
            return false;
        }
        i = i + 1;
    }
    assert(lowered(a@) =~= lowered(b@));
    true
}

pub fn strip_prefix_chars<'a>(s: &'a [char], p: &str) -> (r: Option<&'a [char]>)
    ensures
        slice_of(r) == after_prefix(s@, p@),
        r matches Some(t) ==> t@.len() <= s@.len(),
{
    let v = to_chars(p);
    if s.len() < v.len() {
        return None;
    }
    let head = slice_subrange(s, 0, v.len());
    assert(head@ =~= s@.take(v@.len() as int));
    if same_ignoring_case(head, v.as_slice()) {
        let tail = slice_subrange(s, v.len(), s.len());
        assert(tail@ =~= s@.skip(v@.len() as int));
        Some(tail)
    } else {
        None
    }
}

/// The text after the prefix, whatever the case of its ASCII letters.
pub fn strip_prefix_ci(s: &str, prefix: &str) -> (r: Option<String>)
    ensures
        match r {
            Some(t) => after_prefix(s@, prefix@) == Some(t@),
            None => after_prefix(s@, prefix@) is None,
        },
{
    let v = to_chars(s);
    match strip_prefix_chars(v.as_slice(), prefix) {
        Some(t) => Some(to_text(t)),
        None => None,
    }
}

/// The name between the square brackets that enclose the line.
pub open spec fn header_name(s: Seq<char>) -> Option<Seq<char>> {
    if s.len() >= 2 && s[0] == '[' && s.last() == ']' {
        Some(s.subrange(1, s.len() - 1))
    } else {
        None
    }
}

pub fn header_chars<'a>(s: &'a [char]) -> (r: Option<&'a [char]>)
    ensures
        slice_of(r) == header_name(s@),
{
    if s.len() >= 2 && s[0] == '[' && s[s.len() - 1] == ']' {
        Some(slice_subrange(s, 1, s.len() - 1))
    } else {
        None
    }
}

// ---------------------------------------------------------------------------
// Lines
// ---------------------------------------------------------------------------
/// A line without the carriage return that stood before its line feed.
pub open spec fn drop_return(s: Seq<char>) -> Seq<char> {
    if s.len() > 0 && s.last() == '\r' {
        s.drop_last()
    } else {
        s
    }
}

/// The lines from `i` on.
pub open spec fn lines_from(s: Seq<char>, i: int) -> Seq<Seq<char>>
    decreases s.len() - i,
{
    let k = find_from(s, '\n', i);
    if 0 <= i < s.len() {
        if i <= k < s.len() {
            seq![drop_return(s.subrange(i, k))] + lines_from(s, k + 1)
        } else {
            seq![s.skip(i)]
        }
    } else {
        seq![]
    }
}

/// The lines of a text. A line ends with a line feed, or a carriage return and
/// a line feed; the last line may end with neither.
pub open spec fn lines(s: Seq<char>) -> Seq<Seq<char>> {
    lines_from(s, 0)
}

pub fn split_lines(s: &[char]) -> (r: Vec<Vec<char>>)
    ensures
        rows(r@) == lines(s@),
{
    let mut out: Vec<Vec<char>> = Vec::new();
    let mut i: usize = 0;
    assert(rows(out@) + lines_from(s@, 0) =~= lines(s@));
    while i < s.len()
        invariant
            i <= s@.len(),
            rows(out@) + lines_from(s@, i as int) == lines(s@),
        decreases s@.len() - i,
    {
        let k = find_char_from(s, '\n', i);
        let ghost before = rows(out@);
        if k < s.len() {
            let mut e: usize = k;
            if e > i && s[e - 1] == '\r' {
                e = e - 1;
            }
            let piece = slice_to_vec(slice_subrange(s, i, e));
            assert(piece@ =~= drop_return(s@.subrange(i as int, k as int)));
            out.push(piece);
            assert(rows(out@) =~= before.push(drop_return(s@.subrange(i as int, k as int))));
            assert(rows(out@) + lines_from(s@, k + 1) =~= before + lines_from(s@, i as int));
            i = k + 1;
        } else {
            let piece = slice_to_vec(slice_subrange(s, i, k));
            assert(piece@ =~= s@.skip(i as int));
            out.push(piece);
            assert(rows(out@) =~= before.push(s@.skip(i as int)));
            assert(rows(out@) + lines_from(s@, k as int) =~= before + lines_from(s@, i as int));
            i = k;
        }
    }
    assert(rows(out@) + lines_from(s@, i as int) =~= rows(out@));
    out
}

// ---------------------------------------------------------------------------
// Joining
// ---------------------------------------------------------------------------
/// The first `n` parts with the separator between them.
pub open spec fn join_upto(v: Seq<Seq<char>>, sep: Seq<char>, n: int) -> Seq<char>
    decreases n,
{
    if n <= 0 {
        Seq::empty()
    } else if n == 1 {
        v[0]
    } else {
        join_upto(v, sep, n - 1) + sep + v[n - 1]
    }
}

/// The parts with the separator between them.
pub open spec fn join(v: Seq<Seq<char>>, sep: Seq<char>) -> Seq<char> {
    join_upto(v, sep, v.len() as int)
}

pub fn join_chars(v: &Vec<Vec<char>>, sep: &[char]) -> (r: Vec<char>)
    ensures
        r@ == join(rows(v@), sep@),
{
    let mut out: Vec<char> = Vec::new();
    let mut i: usize = 0;
    assert(out@ =~= join_upto(rows(v@), sep@, 0));
    while i < v.len()
        invariant
            i <= v@.len(),
            out@ == join_upto(rows(v@), sep@, i as int),
        decreases v@.len() - i,
    {
        if i > 0 {
            push_all(&mut out, sep);
        }
        push_all(&mut out, v[i].as_slice());
        assert(out@ =~= join_upto(rows(v@), sep@, i + 1)) by {
            assert(rows(v@)[i as int] == v@[i as int]@);
        }
        i = i + 1;
    }
    out
}

// ---------------------------------------------------------------------------
// Fields
// ---------------------------------------------------------------------------
/// `n` trimmed comma-separated fields from `i` on: the last takes the rest of
/// the text, and fields past the end are empty.
pub open spec fn fields_from(s: Seq<char>, i: int, n: int) -> Seq<Seq<char>>
    decreases n,
{
    if n <= 0 {
        seq![]
    } else if n == 1 {
        seq![trim(s.skip(i))]
    } else {
        let k = find_from(s, ',', i);
        if 0 <= i <= k < s.len() {
            seq![trim(s.subrange(i, k))] + fields_from(s, k + 1, n - 1)
        } else {
            seq![trim(s.skip(i))] + fields_from(s, s.len() as int, n - 1)
        }
    }
}

/// A line split into `n` fields.
pub open spec fn fields(s: Seq<char>, n: int) -> Seq<Seq<char>> {
    fields_from(s, 0, n)
}

pub fn split_fields(s: &[char], expected: usize) -> (r: Vec<Vec<char>>)
    ensures
        rows(r@) == fields(s@, expected as int),
        r@.len() == expected,
        forall|i: int| 0 <= i < r@.len() ==> (#[trigger] r@[i])@.len() <= s@.len(),
{
    let mut out: Vec<Vec<char>> = Vec::new();
    let mut i: usize = 0;
    let mut left: usize = expected;
    assert(rows(out@) + fields_from(s@, 0, expected as int) =~= fields(s@, expected as int));
    while left > 0
        invariant
            i <= s@.len(),
            left <= expected,
            out@.len() + left == expected,
            forall|j: int| 0 <= j < out@.len() ==> (#[trigger] out@[j])@.len() <= s@.len(),
            rows(out@) + fields_from(s@, i as int, left as int) == fields(s@, expected as int),
        decreases left,
    {
        let ghost before = rows(out@);
        let ghost at = i as int;
        let k = if left == 1 {
            s.len()
        } else {
            find_char_from(s, ',', i)
        };
        let raw = slice_subrange(s, i, k);
        let piece = slice_to_vec(trim_chars(raw));
        out.push(piece);
        assert(rows(out@) =~= before.push(trim(s@.subrange(at, k as int))));
        if k < s.len() {
            i = k + 1;
        } else {
            assert(s@.skip(at) =~= s@.subrange(at, k as int));
            i = s.len();
        }
        assert(rows(out@) + fields_from(s@, i as int, left - 1) =~= before + fields_from(
            s@,
            at,
            left as int,
        ));
        left = left - 1;
    }
    assert(rows(out@) + fields_from(s@, i as int, 0) =~= rows(out@));
    out
}

pub proof fn lemma_fields_len(s: Seq<char>, i: int, n: int)
    requires
        0 <= n,
    ensures
        fields_from(s, i, n).len() == n,
    decreases n,
{
    if n > 1 {
        let k = find_from(s, ',', i);
        if 0 <= i <= k < s.len() {
            lemma_fields_len(s, k + 1, n - 1);
        } else {
            lemma_fields_len(s, s.len() as int, n - 1);
        }
    }
}

/// The position of the first part that is the text.
pub open spec fn position_from(v: Seq<Seq<char>>, t: Seq<char>, i: int) -> Option<int>
    decreases v.len() - i,
{
    if 0 <= i < v.len() {
        if v[i] == t {
            Some(i)
        } else {
            position_from(v, t, i + 1)
        }
    } else {
        None
    }
}

pub open spec fn position(v: Seq<Seq<char>>, t: Seq<char>) -> Option<int> {
    position_from(v, t, 0)
}

pub open spec fn index_of(r: Option<usize>) -> Option<int> {
    match r {
        Some(i) => Some(i as int),
        None => None,
    }
}

pub fn position_text(v: &Vec<Vec<char>>, t: &str) -> (r: Option<usize>)
    ensures
        index_of(r) == position(rows(v@), t@),
        r matches Some(i) ==> i < v@.len(),
{
    let c = to_chars(t);
    let mut i: usize = 0;
    while i < v.len()
        invariant
            i <= v@.len(),
            c@ == t@,
            position(rows(v@), t@) == position_from(rows(v@), t@, i as int),
        decreases v@.len() - i,
    {
        if crate::text::same_chars(v[i].as_slice(), c.as_slice()) {
            return Some(i);
        }
        i = i + 1;
    }
    None
}

} // verus!
