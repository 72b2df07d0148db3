//! What holds of the texts that everything else is made of: classes of characters,
//! parts, splitting, numbers and order.
use vstd::prelude::*;

use crate::line_laws::{lemma_join_cons, lemma_trim_at};
use crate::number::{decimal, lemma_decimal};
use crate::sort::text_le;
use crate::split::{after_prefix, join, lines, lines_from, split, split_from, split_once};
use crate::text::{
    find_from, has_part, is_alnum, is_control, is_digit, is_hex_digit, is_white, lemma_find_from,
    lemma_find_part, lower, lowered, stands_at, trim,
};

verus! {

// ---------------------------------------------------------------------------
// Characters
// ---------------------------------------------------------------------------
/// White space: the controls from tab to carriage return, next line, and the spaces
/// and separators.
pub proof fn law_white_space(c: char)
    ensures
        is_white(c) <==> c == '\t' || c == '\n' || c == '\u{B}' || c == '\u{C}' || c == '\r' || c
            == ' ' || c == '\u{85}' || c == '\u{A0}' || c == '\u{1680}' || '\u{2000}' <= c
            <= '\u{200A}' || c == '\u{2028}' || c == '\u{2029}' || c == '\u{202F}' || c == '\u{205F}'
            || c == '\u{3000}',
        is_control(c) <==> c < ' ' || '\u{7F}' <= c <= '\u{9F}',
{
}

/// Only the capital letters of ASCII have a small letter, thirty-two places on.
pub proof fn law_small_letters(c: char)
    ensures
        65 <= c as int <= 90 ==> lower(c) as int == c as int + 32,
        !(65 <= c as int <= 90) ==> lower(c) == c,
        lower(lower(c)) == lower(c),
        is_digit(c) <==> 48 <= c as int <= 57,
        is_alnum(c) <==> is_digit(c) || 97 <= lower(c) as int <= 122,
        is_hex_digit(c) <==> is_digit(c) || 97 <= lower(c) as int <= 102,
{
}

// ---------------------------------------------------------------------------
// Parts
// ---------------------------------------------------------------------------
/// A trimmed text is the text without the white space at its ends; nothing else is
/// cut.
pub proof fn law_only_ends_trimmed(s: Seq<char>)
    ensures
        trim(s).len() > 0 ==> !is_white(trim(s)[0]) && !is_white(trim(s).last()),
        exists|i: int, j: int|
            0 <= i <= j <= s.len() && trim(s) == #[trigger] s.subrange(i, j) && (forall|x: int|
                (0 <= x < i || j <= x < s.len()) ==> is_white(#[trigger] s[x])),
{
    let (i, j) = lemma_trim_at(s);
    if i < j {
        assert(trim(s)[0] == s[i]);
        assert(trim(s)[j - i - 1] == s[j - 1]);
    }
    assert(trim(s) == s.subrange(i, j));
}

/// A part that stands anywhere in a text is found, whatever stands around it.
pub proof fn law_part_found(a: Seq<char>, p: Seq<char>, b: Seq<char>)
    ensures
        has_part(a + p + b, p),
{
    let s = a + p + b;
    let n = a.len() as int;
    assert(s.subrange(n, n + p.len()) =~= p);
    assert(stands_at(s, p, n));
}

/// A text is parted at the first place where the separator stands, and not at all
/// where it stands nowhere.
pub proof fn law_parted_once(s: Seq<char>, p: Seq<char>)
    ensures
        split_once(s, p) is Some <==> has_part(s, p),
        split_once(s, p) matches Some((a, b)) ==> a + p + b == s && (forall|i: int|
            0 <= i < a.len() ==> !stands_at(s, p, i)),
{
    lemma_find_part(s, p, 0);
    if split_once(s, p) is Some {
        let k = crate::text::find_part(s, p, 0);
        assert(s.take(k) + p + s.skip(k + p.len()) =~= s);
    } else if has_part(s, p) {
        let i = choose|i: int| stands_at(s, p, i);
        assert(!stands_at(s, p, i));
    }
}

/// A word in front of a text is recognised in letters of either case, and no other
/// word is.
pub proof fn law_word_in_front(word: Seq<char>, p: Seq<char>, rest: Seq<char>)
    requires
        word.len() == p.len(),
    ensures
        lowered(word) == lowered(p) ==> after_prefix(word + rest, p) == Some(rest),
        lowered(word) != lowered(p) ==> after_prefix(word + rest, p) is None,
        p.len() > rest.len() ==> after_prefix(rest, p) is None,
{
    let s = word + rest;
    assert(s.take(p.len() as int) =~= word);
    assert(s.skip(p.len() as int) =~= rest);
}

// ---------------------------------------------------------------------------
// Splitting
// ---------------------------------------------------------------------------
proof fn lemma_split_whole(s: Seq<char>, c: char, i: int)
    requires
        0 <= i <= s.len(),
    ensures
        split_from(s, c, i).len() > 0,
        join(split_from(s, c, i), seq![c]) == s.skip(i),
        forall|k: int, x: int|
            0 <= k < split_from(s, c, i).len() && 0 <= x < split_from(s, c, i)[k].len()
                ==> split_from(s, c, i)[k][x] != c,
    decreases s.len() - i,
{
    let k = find_from(s, c, i);
    lemma_find_from(s, c, i);
    let v = split_from(s, c, i);
    if k < s.len() {
        lemma_split_whole(s, c, k + 1);
        let tail = split_from(s, c, k + 1);
        assert(v.skip(1) =~= tail);
        lemma_join_cons(v, seq![c]);
        assert(s.subrange(i, k) + seq![c] + s.skip(k + 1) =~= s.skip(i));
        assert forall|y: int, x: int| 0 <= y < v.len() && 0 <= x < v[y].len() implies v[y][x]
            != c by {
            if y > 0 {
                assert(v[y] == tail[y - 1]);
            } else {
                assert(v[0][x] == s[i + x]);
            }
        }
    } else {
        assert(v.len() == 1 && v[0] == s.skip(i));
        assert(join(v, seq![c]) =~= s.skip(i));
        assert forall|x: int| 0 <= x < v[0].len() implies v[0][x] != c by {
            assert(v[0][x] == s[i + x]);
        }
    }
}

/// The parts of a text that is split at a character hold it nowhere, and joined with
/// it they are the text again.
pub proof fn law_parts_make_text(s: Seq<char>, c: char)
    ensures
        join(split(s, c), seq![c]) == s,
        forall|k: int, x: int|
            0 <= k < split(s, c).len() && 0 <= x < split(s, c)[k].len() ==> split(s, c)[k][x] != c,
{
    lemma_split_whole(s, c, 0);
    assert(s.skip(0) =~= s);
}

/// The lines of a text: what stands in front of a line feed, without a carriage
/// return right before it, is the first one, and the lines behind it follow.
pub proof fn law_first_line(a: Seq<char>, b: Seq<char>)
    requires
        forall|i: int| 0 <= i < a.len() ==> a[i] != '\n',
    ensures
        a.len() == 0 || a.last() != '\r' ==> lines(a + seq!['\n'] + b) == seq![a] + lines(b),
        lines(a + seq!['\r', '\n'] + b) == seq![a] + lines(b),
        a.len() > 0 ==> lines(a) == seq![a],
        lines(Seq::<char>::empty()).len() == 0,
{
    let s = a + seq!['\n'] + b;
    let n = a.len() as int;
    assert(s[n] == '\n');
    assert forall|j: int| 0 <= j < n implies s[j] != '\n' by {
        assert(s[j] == a[j]);
    }
    crate::text::lemma_find_is(s, '\n', 0, n);
    assert(s.subrange(0, n) =~= a);
    assert(s =~= (a + seq!['\n']) + b);
    lemma_lines_behind(a + seq!['\n'], b, 0);
    let t = a + seq!['\r', '\n'] + b;
    assert(t[n] == '\r' && t[n + 1] == '\n');
    assert forall|j: int| 0 <= j < n + 1 implies t[j] != '\n' by {
        if j < n {
            assert(t[j] == a[j]);
        }
    }
    crate::text::lemma_find_is(t, '\n', 0, n + 1);
    assert(t.subrange(0, n + 1).drop_last() =~= a);
    assert(t =~= (a + seq!['\r', '\n']) + b);
    lemma_lines_behind(a + seq!['\r', '\n'], b, 0);
    crate::text::lemma_find_is(a, '\n', 0, n);
    assert(a.skip(0) =~= a);
}

proof fn lemma_lines_behind(a: Seq<char>, b: Seq<char>, i: int)
    requires
        0 <= i <= b.len(),
    ensures
        lines_from(a + b, a.len() + i) == lines_from(b, i),
    decreases b.len() - i,
{
    let s = a + b;
    let n = a.len() as int;
    let k = find_from(b, '\n', i);
    lemma_find_from(b, '\n', i);
    assert forall|j: int| n + i <= j < n + k implies s[j] != '\n' by {
        assert(s[j] == b[j - n]);
    }
    if k < b.len() {
        assert(s[n + k] == b[k]);
    }
    crate::text::lemma_find_is(s, '\n', n + i, n + k);
    if i < b.len() {
        if k < b.len() {
            assert(s.subrange(n + i, n + k) =~= b.subrange(i, k));
            lemma_lines_behind(a, b, k + 1);
        } else {
            assert(s.skip(n + i) =~= b.skip(i));
        }
    }
}

// ---------------------------------------------------------------------------
// Numbers and order
// ---------------------------------------------------------------------------
/// A number is written in decimal digits, the last of which counts the units.
pub proof fn law_decimal_digits(n: nat)
    ensures
        decimal(n).len() > 0,
        decimal(n).last() as int == 48 + n % 10,
        n < 10 ==> decimal(n).len() == 1,
        n >= 10 ==> decimal(n).drop_last() == decimal(n / 10),
{
    lemma_decimal(n);
    if n >= 10 {
        assert(decimal(n).drop_last() =~= decimal(n / 10));
    }
}

proof fn lemma_order_from(a: Seq<char>, b: Seq<char>, i: int, k: int)
    requires
        0 <= i <= k <= a.len(),
        k <= b.len(),
        forall|j: int| 0 <= j < k ==> a[j] == b[j],
    ensures
        text_le(a, b, i) == text_le(a, b, k),
    decreases k - i,
{
    if i < k {
        lemma_order_from(a, b, i + 1, k);
    }
}

/// Texts are ordered by the first character in which they differ, and a text comes
/// before those that it begins.
pub proof fn law_text_order(a: Seq<char>, b: Seq<char>, k: int)
    requires
        0 <= k <= a.len(),
        k <= b.len(),
        forall|j: int| 0 <= j < k ==> a[j] == b[j],
    ensures
        k < a.len() && k < b.len() && a[k] != b[k] ==> (text_le(a, b, 0) <==> (a[k] as int) < (
        b[k] as int)),
        k == a.len() ==> text_le(a, b, 0),
        k == b.len() && k < a.len() ==> !text_le(a, b, 0),
{
    lemma_order_from(a, b, 0, k);
}

} // verus!
