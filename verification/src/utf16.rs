//! UTF-16 text.
use vstd::prelude::*;

use crate::text::{code, lemma_char};

verus! {

/// The code units of one character.
pub open spec fn units_of(c: char) -> Seq<u16> {
    let u = c as int;
    if u < 0x10000 {
        seq![u as u16]
    } else {
        seq![(0xd800 + (u - 0x10000) / 1024) as u16, (0xdc00 + (u - 0x10000) % 1024) as u16]
    }
}

/// The code units of the first `n` characters.
pub open spec fn units_upto(s: Seq<char>, n: int) -> Seq<u16>
    decreases n,
{
    if n <= 0 {
        seq![]
    } else {
        units_upto(s, n - 1) + units_of(s[n - 1])
    }
}

/// The UTF-16 form of a text.
pub open spec fn units(s: Seq<char>) -> Seq<u16> {
    units_upto(s, s.len() as int)
}

pub open spec fn is_high(u: u16) -> bool {
    0xd800 <= u <= 0xdbff
}

pub open spec fn is_low(u: u16) -> bool {
    0xdc00 <= u <= 0xdfff
}

/// The character of a pair of surrogates.
pub open spec fn pair_char(a: u16, b: u16) -> char {
    (0x10000 + (a - 0xd800) * 1024 + (b - 0xdc00)) as char
}

/// The text of the units from `i` on, behind what has been read: nothing where
/// a surrogate stands alone.
pub open spec fn text_from(w: Seq<u16>, i: int, acc: Seq<char>) -> Option<Seq<char>>
    decreases w.len() - i,
{
    if !(0 <= i < w.len()) {
        Some(acc)
    } else if !is_high(w[i]) && !is_low(w[i]) {
        text_from(w, i + 1, acc.push(w[i] as char))
    } else if is_high(w[i]) && i + 1 < w.len() && is_low(w[i + 1]) {
        text_from(w, i + 2, acc.push(pair_char(w[i], w[i + 1])))
    } else {
        None
    }
}

/// The text of a list of code units.
pub open spec fn units_text(w: Seq<u16>) -> Option<Seq<char>> {
    text_from(w, 0, seq![])
}

/// The text of a list of code units, with U+FFFD for every unit that is a
/// surrogate alone.
pub open spec fn lossy_from(w: Seq<u16>, i: int, acc: Seq<char>) -> Seq<char>
    decreases w.len() - i,
{
    if !(0 <= i < w.len()) {
        acc
    } else if !is_high(w[i]) && !is_low(w[i]) {
        lossy_from(w, i + 1, acc.push(w[i] as char))
    } else if is_high(w[i]) && i + 1 < w.len() && is_low(w[i + 1]) {
        lossy_from(w, i + 2, acc.push(pair_char(w[i], w[i + 1])))
    } else {
        lossy_from(w, i + 1, acc.push('\u{FFFD}'))
    }
}

pub open spec fn lossy_text(w: Seq<u16>) -> Seq<char> {
    lossy_from(w, 0, seq![])
}

/// Bytes in pairs as 16-bit numbers; the last byte of an odd number is left out.
pub open spec fn words(b: Seq<u8>, little: bool) -> Seq<u16> {
    Seq::new(
        b.len() / 2,
        |i: int|
            if little {
                (b[2 * i] + 256 * b[2 * i + 1]) as u16
            } else {
                (256 * b[2 * i] + b[2 * i + 1]) as u16
            },
    )
}

/// 16-bit numbers as bytes.
pub open spec fn word_bytes(w: Seq<u16>, little: bool) -> Seq<u8> {
    Seq::new(
        2 * w.len(),
        |i: int|
            if (i % 2 == 0) == little {
                (w[i / 2] % 256) as u8
            } else {
                (w[i / 2] / 256) as u8
            },
    )
}

pub open spec fn text_option(r: Option<Vec<char>>) -> Option<Seq<char>> {
    match r {
        Some(v) => Some(v@),
        None => None,
    }
}

fn word_char(u: u16) -> (r: char)
    requires
        !is_high(u) && !is_low(u),
    ensures
        r == u as char,
{
    match char::from_u32(u as u32) {
        Some(c) => c,
        None => '\u{FFFD}',
    }
}

fn surrogate_char(a: u16, b: u16) -> (r: char)
    requires
        is_high(a) && is_low(b),
    ensures
        r == pair_char(a, b),
{
    let u: u32 = 0x10000 + (a as u32 - 0xd800) * 1024 + (b as u32 - 0xdc00);
    match char::from_u32(u) {
        Some(c) => c,
        None => '\u{FFFD}',
    }
}

pub fn words_of(b: &[u8], little: bool) -> (r: Vec<u16>)
    ensures
        r@ == words(b@, little),
{
    let len = b.len();
    let n: usize = len / 2;
    let mut out: Vec<u16> = Vec::new();
    let mut i: usize = 0;
    while i < n
        invariant
            len == b@.len(),
            i <= n == len / 2,
            out@.len() == i,
            forall|j: int| 0 <= j < i ==> out@[j] == words(b@, little)[j],
        decreases n - i,
    {
        let x: u16 = b[2 * i] as u16;
        let y: u16 = b[2 * i + 1] as u16;
        if little {
            out.push(x + 256 * y);
        } else {
            out.push(256 * x + y);
        }
        i = i + 1;
    }
    assert(out@ =~= words(b@, little));
    out
}

/// The text of a list of code units, if it is well formed.
pub fn decode_units(w: &[u16]) -> (r: Option<Vec<char>>)
    ensures
        text_option(r) == units_text(w@),
{
    let n = w.len();
    let mut out: Vec<char> = Vec::new();
    let mut i: usize = 0;
    assert(out@ =~= seq![]);
    while i < n
        invariant
            i <= n == w@.len(),
            text_from(w@, i as int, out@) == units_text(w@),
        decreases n - i,
    {
        let u: u16 = w[i];
        if u < 0xd800 || u > 0xdfff {
            out.push(word_char(u));
            i = i + 1;
        } else if u <= 0xdbff && n - i > 1 && 0xdc00 <= w[i + 1] && w[i + 1] <= 0xdfff {
            out.push(surrogate_char(u, w[i + 1]));
            i = i + 2;
        } else {
            return None;
        }
    }
    Some(out)
}

/// The text of a list of code units, with U+FFFD for what is not well formed.
pub fn decode_units_lossy(w: &[u16]) -> (r: Vec<char>)
    ensures
        r@ == lossy_text(w@),
{
    let n = w.len();
    let mut out: Vec<char> = Vec::new();
    let mut i: usize = 0;
    assert(out@ =~= seq![]);
    while i < n
        invariant
            i <= n == w@.len(),
            lossy_from(w@, i as int, out@) == lossy_text(w@),
        decreases n - i,
    {
        let u: u16 = w[i];
        if u < 0xd800 || u > 0xdfff {
            out.push(word_char(u));
            i = i + 1;
        } else if u <= 0xdbff && n - i > 1 && 0xdc00 <= w[i + 1] && w[i + 1] <= 0xdfff {
            out.push(surrogate_char(u, w[i + 1]));
            i = i + 2;
        } else {
            out.push('\u{FFFD}');
            i = i + 1;
        }
    }
    out
}

/// The UTF-16 form of a text.
pub fn encode_units(s: &[char]) -> (r: Vec<u16>)
    ensures
        r@ == units(s@),
{
    let mut out: Vec<u16> = Vec::new();
    let mut i: usize = 0;
    assert(out@ =~= seq![]);
    while i < s.len()
        invariant
            i <= s@.len(),
            out@ == units_upto(s@, i as int),
        decreases s@.len() - i,
    {
        let ghost before = out@;
        let u: u32 = code(s[i]);
        if u < 0x10000 {
            out.push(u as u16);
        } else {
            let v: u32 = u - 0x10000;
            out.push((0xd800 + v / 1024) as u16);
            out.push((0xdc00 + v % 1024) as u16);
        }
        assert(out@ =~= before + units_of(s@[i as int]));
        i = i + 1;
    }
    out
}

/// Appends 16-bit numbers to a list of bytes.
pub fn push_words(out: &mut Vec<u8>, w: &[u16], little: bool)
    ensures
        final(out)@ == old(out)@ + word_bytes(w@, little),
{
    let ghost before = out@;
    let n = w.len();
    let mut i: usize = 0;
    while i < n
        invariant
            i <= n == w@.len(),
            out@.len() == before.len() + 2 * i,
            forall|j: int| 0 <= j < before.len() ==> out@[j] == before[j],
            forall|j: int|
                0 <= j < 2 * i ==> #[trigger] out@[before.len() + j] == word_bytes(w@, little)[j],
        decreases n - i,
    {
        let lo: u8 = (w[i] % 256) as u8;
        let hi: u8 = (w[i] / 256) as u8;
        if little {
            out.push(lo);
            out.push(hi);
        } else {
            out.push(hi);
            out.push(lo);
        }
        i = i + 1;
    }
    assert forall|j: int| 0 <= j < out@.len() implies out@[j] == (before + word_bytes(
        w@,
        little,
    ))[j] by {
        if j >= before.len() {
            assert(out@[before.len() + (j - before.len())] == word_bytes(w@, little)[j
                - before.len()]);
        }
    }
    assert(out@ =~= before + word_bytes(w@, little));
}

// ---------------------------------------------------------------------------
// Laws
// ---------------------------------------------------------------------------
/// Bytes are read back as the 16-bit numbers that were written.
pub proof fn law_words_of_bytes(w: Seq<u16>, little: bool)
    ensures
        words(word_bytes(w, little), little) == w,
{
    let b = word_bytes(w, little);
    assert forall|i: int| 0 <= i < w.len() implies words(b, little)[i] == w[i] by {
        assert(b[2 * i] == if little { (w[i] % 256) as u8 } else { (w[i] / 256) as u8 });
        assert(b[2 * i + 1] == if little { (w[i] / 256) as u8 } else { (w[i] % 256) as u8 });
    }
    assert(words(b, little) =~= w);
}

/// An even number of bytes is written back as it was read.
pub proof fn law_bytes_of_words(b: Seq<u8>, little: bool)
    requires
        b.len() % 2 == 0,
    ensures
        word_bytes(words(b, little), little) == b,
{
    let w = words(b, little);
    assert forall|i: int| 0 <= i < b.len() implies word_bytes(w, little)[i] == b[i] by {
        let k = i / 2;
        if i % 2 == 0 {
            assert(i == 2 * k);
        } else {
            assert(i == 2 * k + 1);
        }
    }
    assert(word_bytes(w, little) =~= b);
}

proof fn lemma_units_prefix(a: Seq<char>, b: Seq<char>, n: int)
    requires
        0 <= n <= a.len(),
        n <= b.len(),
        forall|i: int| 0 <= i < n ==> a[i] == b[i],
    ensures
        units_upto(a, n) == units_upto(b, n),
    decreases n,
{
    if n > 0 {
        lemma_units_prefix(a, b, n - 1);
    }
}

/// Where the units of a character stand.
proof fn lemma_units_at(s: Seq<char>, n: int, m: int)
    requires
        0 <= n < m <= s.len(),
    ensures
        units_upto(s, n).len() + units_of(s[n]).len() <= units_upto(s, m).len(),
        forall|j: int|
            0 <= j < units_of(s[n]).len() ==> #[trigger] units_upto(s, m)[units_upto(s, n).len()
                + j] == units_of(s[n])[j],
    decreases m,
{
    if n < m - 1 {
        lemma_units_at(s, n, m - 1);
        assert forall|j: int| 0 <= j < units_of(s[n]).len() implies #[trigger] units_upto(
            s,
            m,
        )[units_upto(s, n).len() + j] == units_of(s[n])[j] by {
            assert(units_upto(s, m - 1)[units_upto(s, n).len() + j] == units_of(s[n])[j]);
        }
    }
}

proof fn lemma_units_text(s: Seq<char>, n: int)
    requires
        0 <= n <= s.len(),
    ensures
        text_from(units(s), units_upto(s, n).len() as int, s.take(n)) == Some(s),
    decreases s.len() - n,
{
    let w = units(s);
    let i = units_upto(s, n).len() as int;
    if n == s.len() {
        assert(s.take(n) =~= s);
    } else {
        lemma_units_at(s, n, s.len() as int);
        lemma_units_text(s, n + 1);
        let c = s[n];
        let u = c as int;
        lemma_char(c);
        assert(s.take(n).push(c) =~= s.take(n + 1));
        assert(w[i + 0] == units_of(c)[0]);
        if u < 0x10000 {
            assert(units_of(c).len() == 1);
            assert(w[i] == u);
        } else {
            assert(w[i + 1] == units_of(c)[1]);
            assert(is_high(w[i]) && is_low(w[i + 1]));
            assert(pair_char(w[i], w[i + 1]) == c);
        }
    }
}

/// A text is read back from its UTF-16 form.
pub proof fn law_units_round_trip(s: Seq<char>)
    ensures
        units_text(units(s)) == Some(s),
{
    lemma_units_text(s, 0);
    assert(s.take(0) =~= seq![]);
}

proof fn lemma_text_units(w: Seq<u16>, i: int, acc: Seq<char>)
    requires
        0 <= i <= w.len(),
        units(acc) == w.take(i),
        text_from(w, i, acc) is Some,
    ensures
        units(text_from(w, i, acc)->0) == w,
    decreases w.len() - i,
{
    if i == w.len() {
        assert(w.take(i) =~= w);
    } else if !is_high(w[i]) && !is_low(w[i]) {
        let c = w[i] as char;
        let next = acc.push(c);
        lemma_units_prefix(acc, next, acc.len() as int);
        assert(units_of(c) =~= seq![w[i]]);
        assert(units(next) =~= w.take(i + 1));
        lemma_text_units(w, i + 1, next);
    } else {
        let c = pair_char(w[i], w[i + 1]);
        let next = acc.push(c);
        lemma_units_prefix(acc, next, acc.len() as int);
        let u = 0x10000 + (w[i] - 0xd800) * 1024 + (w[i + 1] - 0xdc00);
        assert(c as int == u);
        assert((u - 0x10000) / 1024 == w[i] - 0xd800);
        assert((u - 0x10000) % 1024 == w[i + 1] - 0xdc00);
        assert(units_of(c) =~= seq![w[i], w[i + 1]]);
        assert(units(next) =~= w.take(i + 2));
        lemma_text_units(w, i + 2, next);
    }
}

/// Well-formed units are written back as they were read.
pub proof fn law_text_units(w: Seq<u16>)
    requires
        units_text(w) is Some,
    ensures
        units(units_text(w)->0) == w,
{
    assert(units(seq![]) =~= w.take(0));
    lemma_text_units(w, 0, seq![]);
}

proof fn lemma_lossy(w: Seq<u16>, i: int, acc: Seq<char>)
    requires
        text_from(w, i, acc) is Some,
    ensures
        lossy_from(w, i, acc) == text_from(w, i, acc)->0,
    decreases w.len() - i,
{
    if 0 <= i < w.len() {
        if !is_high(w[i]) && !is_low(w[i]) {
            lemma_lossy(w, i + 1, acc.push(w[i] as char));
        } else {
            lemma_lossy(w, i + 2, acc.push(pair_char(w[i], w[i + 1])));
        }
    }
}

/// Nothing is replaced in units that are a text.
pub proof fn law_lossy_keeps_text(w: Seq<u16>)
    requires
        units_text(w) is Some,
    ensures
        lossy_text(w) == units_text(w)->0,
{
    lemma_lossy(w, 0, seq![]);
}

/// In either byte order a number is its two bytes, the lower one first where the
/// order is little-endian.
pub proof fn law_byte_order(b: Seq<u8>, i: int)
    requires
        0 <= 2 * i + 1 < b.len(),
    ensures
        words(b, true).len() == b.len() / 2,
        words(b, true)[i] == b[2 * i] + b[2 * i + 1] * 256,
        words(b, false)[i] == b[2 * i] * 256 + b[2 * i + 1],
{
}

/// A character below U+10000 is one unit, its own number; one above is two, from
/// which its number is had as the standard says.
pub proof fn law_units_of_character(c: char)
    ensures
        (c as int) < 0x10000 ==> units_of(c).len() == 1 && units_of(c)[0] == c as int,
        (c as int) >= 0x10000 ==> {
            &&& units_of(c).len() == 2
            &&& 0xd800 <= units_of(c)[0] < 0xdc00
            &&& 0xdc00 <= units_of(c)[1] < 0xe000
            &&& (units_of(c)[0] - 0xd800) * 0x400 + (units_of(c)[1] - 0xdc00) + 0x10000 == c as int
        },
{
    lemma_char(c);
}

proof fn lemma_alone(w: Seq<u16>, i: int, acc: Seq<char>)
    requires
        0 <= i <= w.len(),
        forall|j: int| 0 <= j < w.len() ==> 0xdc00 <= #[trigger] w[j] <= 0xdfff,
    ensures
        lossy_from(w, i, acc) == acc + Seq::new((w.len() - i) as nat, |j: int| '\u{FFFD}'),
    decreases w.len() - i,
{
    let fill = Seq::new((w.len() - i) as nat, |j: int| '\u{FFFD}');
    if i < w.len() {
        assert(0xdc00 <= w[i] <= 0xdfff);
        lemma_alone(w, i + 1, acc.push('\u{FFFD}'));
        let rest = Seq::new((w.len() - i - 1) as nat, |j: int| '\u{FFFD}');
        assert(acc.push('\u{FFFD}') + rest =~= acc + fill);
    } else {
        assert(acc + fill =~= acc);
    }
}

/// Each surrogate that stands alone is read as U+FFFD where the text is read all the
/// same, and makes the text unreadable where it is not.
pub proof fn law_surrogate_alone(w: Seq<u16>)
    requires
        w.len() > 0,
        forall|j: int| 0 <= j < w.len() ==> 0xdc00 <= #[trigger] w[j] <= 0xdfff,
    ensures
        lossy_text(w) == Seq::new(w.len(), |j: int| '\u{FFFD}'),
        units_text(w) is None,
{
    lemma_alone(w, 0, seq![]);
    let fill = Seq::new(w.len(), |j: int| '\u{FFFD}');
    assert(seq![] + fill =~= fill);
    assert(0xdc00 <= w[0] <= 0xdfff);
}

} // verus!
