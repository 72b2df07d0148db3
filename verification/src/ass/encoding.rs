//! The bytes of a subtitle file: UTF-8 or UTF-16, with or without a byte order mark.
use vstd::prelude::*;
use vstd::slice::slice_subrange;

use vstd::utf8::{
    codepoint_width_3, decode_first_scalar, decode_utf8, decode_utf8_encode_utf8, encode_utf8,
    encode_utf8_decode_utf8, encode_utf8_first_scalar, encode_utf8_valid_utf8, valid_utf8,
};

use crate::digest::push_bytes;
use crate::text::{lemma_char, to_chars, to_text};
use crate::utf16::{
    decode_units, encode_units, law_bytes_of_words, law_text_units, law_units_round_trip,
    law_words_of_bytes, push_words, units, units_text, word_bytes, words, words_of,
};

verus! {

/// How a file marks its encoding.
#[derive(Clone, Copy, Debug, PartialEq, Eq, Structural)]
pub enum BomKind {
    Absent,
    Utf8,
    Utf16Le,
    Utf16Be,
}

#[derive(Clone, Debug)]
pub struct DecodedSubtitle {
    pub text: String,
    pub bom: BomKind,
}

/// Why a file is no readable subtitle.
#[derive(Clone, Copy, Debug, PartialEq, Eq, Structural)]
pub enum DecodeError {
    InvalidUtf8AfterBom,
    OddUtf16Length,
    InvalidUtf16,
    NotUnicode,
}

impl DecodeError {
    pub open spec fn text(self) -> Seq<char> {
        match self {
            DecodeError::InvalidUtf8AfterBom => "invalid UTF-8 after BOM"@,
            DecodeError::OddUtf16Length => "UTF-16 subtitle has an odd byte length"@,
            DecodeError::InvalidUtf16 => "invalid UTF-16 subtitle"@,
            DecodeError::NotUnicode => "subtitle has no Unicode BOM and is not valid UTF-8"@,
        }
    }

    pub fn message(self) -> (r: &'static str)
        ensures
            r@ == self.text(),
    {
        match self {
            DecodeError::InvalidUtf8AfterBom => "invalid UTF-8 after BOM",
            DecodeError::OddUtf16Length => "UTF-16 subtitle has an odd byte length",
            DecodeError::InvalidUtf16 => "invalid UTF-16 subtitle",
            DecodeError::NotUnicode => "subtitle has no Unicode BOM and is not valid UTF-8",
        }
    }
}

/// The bytes of a byte order mark.
pub open spec fn mark(bom: BomKind) -> Seq<u8> {
    match bom {
        BomKind::Absent => seq![],
        BomKind::Utf8 => seq![0xefu8, 0xbb, 0xbf],
        BomKind::Utf16Le => seq![0xffu8, 0xfe],
        BomKind::Utf16Be => seq![0xfeu8, 0xff],
    }
}

/// Whether the bytes start with the mark.
pub open spec fn marked(b: Seq<u8>, bom: BomKind) -> bool {
    mark(bom).len() <= b.len() && b.take(mark(bom).len() as int) == mark(bom)
}

/// The mark that a file starts with.
pub open spec fn mark_of(b: Seq<u8>) -> BomKind {
    if marked(b, BomKind::Utf8) {
        BomKind::Utf8
    } else if marked(b, BomKind::Utf16Le) {
        BomKind::Utf16Le
    } else if marked(b, BomKind::Utf16Be) {
        BomKind::Utf16Be
    } else {
        BomKind::Absent
    }
}

/// The bytes of a text behind a mark.
pub open spec fn encoded(s: Seq<char>, bom: BomKind) -> Seq<u8> {
    mark(bom) + match bom {
        BomKind::Absent => encode_utf8(s),
        BomKind::Utf8 => encode_utf8(s),
        BomKind::Utf16Le => word_bytes(units(s), true),
        BomKind::Utf16Be => word_bytes(units(s), false),
    }
}

/// The text of UTF-16 bytes.
pub open spec fn utf16_text(b: Seq<u8>, little: bool) -> Result<Seq<char>, DecodeError> {
    if b.len() % 2 != 0 {
        Err(DecodeError::OddUtf16Length)
    } else {
        match units_text(words(b, little)) {
            Some(s) => Ok(s),
            None => Err(DecodeError::InvalidUtf16),
        }
    }
}

/// The text of UTF-8 bytes.
pub open spec fn utf8_text(b: Seq<u8>, e: DecodeError) -> Result<Seq<char>, DecodeError> {
    if valid_utf8(b) {
        Ok(decode_utf8(b))
    } else {
        Err(e)
    }
}

/// The text of a file.
pub open spec fn decoded(b: Seq<u8>) -> Result<Seq<char>, DecodeError> {
    let rest = b.skip(mark(mark_of(b)).len() as int);
    match mark_of(b) {
        BomKind::Absent => utf8_text(rest, DecodeError::NotUnicode),
        BomKind::Utf8 => utf8_text(rest, DecodeError::InvalidUtf8AfterBom),
        BomKind::Utf16Le => utf16_text(rest, true),
        BomKind::Utf16Be => utf16_text(rest, false),
    }
}

/// `std::str::from_utf8`: the string whose UTF-8 form the bytes are, or nothing
/// where the bytes are not valid UTF-8.
#[verifier::external_body]
pub(crate) fn from_utf8(b: &[u8]) -> (r: Option<String>)
    ensures
        match r {
            Some(s) => valid_utf8(b@) && s@ == decode_utf8(b@),
            None => !valid_utf8(b@),
        },
{
    std::str::from_utf8(b).ok().map(|s| s.to_string())
}

fn starts_with_bytes(b: &[u8], m: &[u8]) -> (r: bool)
    ensures
        r == (m@.len() <= b@.len() && b@.take(m@.len() as int) == m@),
{
    if b.len() < m.len() {
        return false;
    }
    let mut i: usize = 0;
    while i < m.len()
        invariant
            i <= m@.len() <= b@.len(),
            forall|j: int| 0 <= j < i ==> b@[j] == m@[j],
        decreases m@.len() - i,
    {
        if b[i] != m[i] {
            assert(b@.take(m@.len() as int)[i as int] != m@[i as int]);
            return false;
        }
        i = i + 1;
    }
    assert(b@.take(m@.len() as int) =~= m@);
    true
}

fn mark_bytes(bom: BomKind) -> (r: Vec<u8>)
    ensures
        r@ == mark(bom),
{
    let mut v: Vec<u8> = Vec::new();
    match bom {
        BomKind::Absent => {},
        BomKind::Utf8 => {
            v.push(0xef);
            v.push(0xbb);
            v.push(0xbf);
        },
        BomKind::Utf16Le => {
            v.push(0xff);
            v.push(0xfe);
        },
        BomKind::Utf16Be => {
            v.push(0xfe);
            v.push(0xff);
        },
    }
    assert(v@ =~= mark(bom));
    v
}

fn decode_utf16(bytes: &[u8], little: bool) -> (r: Result<String, DecodeError>)
    ensures
        match r {
            Ok(s) => utf16_text(bytes@, little) == Ok::<Seq<char>, DecodeError>(s@),
            Err(e) => utf16_text(bytes@, little) == Err::<Seq<char>, DecodeError>(e),
        },
{
    if bytes.len() % 2 != 0 {
        return Err(DecodeError::OddUtf16Length);
    }
    let w = words_of(bytes, little);
    match decode_units(w.as_slice()) {
        Some(v) => Ok(to_text(v.as_slice())),
        None => Err(DecodeError::InvalidUtf16),
    }
}

pub(crate) fn detect_mark(b: &[u8]) -> (r: BomKind)
    ensures
        r == mark_of(b@),
{
    let m8 = mark_bytes(BomKind::Utf8);
    let le = mark_bytes(BomKind::Utf16Le);
    let be = mark_bytes(BomKind::Utf16Be);
    if starts_with_bytes(b, m8.as_slice()) {
        BomKind::Utf8
    } else if starts_with_bytes(b, le.as_slice()) {
        BomKind::Utf16Le
    } else if starts_with_bytes(b, be.as_slice()) {
        BomKind::Utf16Be
    } else {
        BomKind::Absent
    }
}

/// Reads the text of a subtitle file, whatever its encoding.
pub fn decode_subtitle(bytes: &[u8]) -> (r: Result<DecodedSubtitle, DecodeError>)
    ensures
        match r {
            Ok(d) => decoded(bytes@) == Ok::<Seq<char>, DecodeError>(d.text@) && d.bom == mark_of(
                bytes@,
            ),
            Err(e) => decoded(bytes@) == Err::<Seq<char>, DecodeError>(e),
        },
{
    let bom = detect_mark(bytes);
    let m = mark_bytes(bom);
    let rest = slice_subrange(bytes, m.len(), bytes.len());
    assert(rest@ =~= bytes@.skip(mark(bom).len() as int));
    match bom {
        BomKind::Absent => match from_utf8(rest) {
            Some(text) => Ok(DecodedSubtitle { text, bom }),
            None => Err(DecodeError::NotUnicode),
        },
        BomKind::Utf8 => match from_utf8(rest) {
            Some(text) => Ok(DecodedSubtitle { text, bom }),
            None => Err(DecodeError::InvalidUtf8AfterBom),
        },
        BomKind::Utf16Le => match decode_utf16(rest, true) {
            Ok(text) => Ok(DecodedSubtitle { text, bom }),
            Err(e) => Err(e),
        },
        BomKind::Utf16Be => match decode_utf16(rest, false) {
            Ok(text) => Ok(DecodedSubtitle { text, bom }),
            Err(e) => Err(e),
        },
    }
}

/// Writes a text in the encoding that the mark names.
pub fn encode_subtitle(text: &str, bom: &BomKind) -> (r: Vec<u8>)
    ensures
        r@ == encoded(text@, *bom),
{
    let mut out = mark_bytes(*bom);
    match *bom {
        BomKind::Absent => push_bytes(&mut out, text.as_bytes()),
        BomKind::Utf8 => push_bytes(&mut out, text.as_bytes()),
        BomKind::Utf16Le => {
            let c = to_chars(text);
            let w = encode_units(c.as_slice());
            push_words(&mut out, w.as_slice(), true);
        },
        BomKind::Utf16Be => {
            let c = to_chars(text);
            let w = encode_units(c.as_slice());
            push_words(&mut out, w.as_slice(), false);
        },
    }
    out
}

// ---------------------------------------------------------------------------
// Laws
// ---------------------------------------------------------------------------
proof fn lemma_mark_codepoint()
    ensures
        codepoint_width_3(0xef, 0xbb, 0xbf) == 0xfeff,
{
    assert(((((0xefu8 & 0x0f) as u32) << 12) | (((0xbbu8 & 0x3f) as u32) << 6) | ((0xbfu8
        & 0x3f) as u32)) == 0xfeffu32) by (bit_vector);
}

/// UTF-8 bytes start with no mark, unless the text starts with U+FEFF.
proof fn lemma_unmarked(s: Seq<char>)
    requires
        s.len() > 0 ==> s[0] != '\u{FEFF}',
    ensures
        mark_of(encode_utf8(s)) == BomKind::Absent,
{
    let b = encode_utf8(s);
    if s.len() > 0 {
        encode_utf8_first_scalar(s);
        lemma_char(s[0]);
        if marked(b, BomKind::Utf8) {
            assert(b.take(3)[0] == 0xef && b.take(3)[1] == 0xbb && b.take(3)[2] == 0xbf);
            assert(b[0] == 0xef && b[1] == 0xbb && b[2] == 0xbf);
            lemma_mark_codepoint();
            assert(decode_first_scalar(b) == 0xfeff);
            assert(s[0] as u32 == 0xfeff);
        }
        if marked(b, BomKind::Utf16Le) {
            assert(b.take(2)[0] == 0xff);
            assert(b[0] == 0xff);
        }
        if marked(b, BomKind::Utf16Be) {
            assert(b.take(2)[0] == 0xfe);
            assert(b[0] == 0xfe);
        }
    }
}

proof fn lemma_marked(bom: BomKind, rest: Seq<u8>)
    requires
        bom != BomKind::Absent,
    ensures
        mark_of(mark(bom) + rest) == bom,
        (mark(bom) + rest).skip(mark(bom).len() as int) == rest,
{
    let b = mark(bom) + rest;
    assert(b.take(mark(bom).len() as int) =~= mark(bom));
    assert(b.skip(mark(bom).len() as int) =~= rest);
    assert(b[0] == mark(bom)[0]);
    if marked(b, BomKind::Utf8) {
        assert(b.take(3)[0] == 0xef);
    }
    if marked(b, BomKind::Utf16Le) {
        assert(b.take(2)[0] == 0xff);
    }
}

/// A written subtitle is read back, text and mark. (Without a mark a text that
/// starts with U+FEFF is not: its first character is read as the mark.)
pub proof fn law_decode_encode(s: Seq<char>, bom: BomKind)
    requires
        bom == BomKind::Absent && s.len() > 0 ==> s[0] != '\u{FEFF}',
    ensures
        decoded(encoded(s, bom)) == Ok::<Seq<char>, DecodeError>(s),
        mark_of(encoded(s, bom)) == bom,
{
    let b = encoded(s, bom);
    encode_utf8_valid_utf8(s);
    encode_utf8_decode_utf8(s);
    law_units_round_trip(s);
    match bom {
        BomKind::Absent => {
            lemma_unmarked(s);
            assert(b =~= encode_utf8(s));
            assert(b.skip(0) =~= b);
        },
        BomKind::Utf8 => {
            lemma_marked(bom, encode_utf8(s));
        },
        BomKind::Utf16Le => {
            lemma_marked(bom, word_bytes(units(s), true));
            law_words_of_bytes(units(s), true);
        },
        BomKind::Utf16Be => {
            lemma_marked(bom, word_bytes(units(s), false));
            law_words_of_bytes(units(s), false);
        },
    }
}

/// A subtitle that can be read is written back byte for byte.
pub proof fn law_encode_decode(b: Seq<u8>)
    requires
        decoded(b) is Ok,
    ensures
        encoded(decoded(b)->Ok_0, mark_of(b)) == b,
{
    let bom = mark_of(b);
    let rest = b.skip(mark(bom).len() as int);
    assert(b =~= mark(bom) + rest) by {
        if bom != BomKind::Absent {
            assert(b =~= b.take(mark(bom).len() as int) + rest);
        }
    }
    match bom {
        BomKind::Absent => {
            decode_utf8_encode_utf8(rest);
        },
        BomKind::Utf8 => {
            decode_utf8_encode_utf8(rest);
        },
        BomKind::Utf16Le => {
            law_text_units(words(rest, true));
            law_bytes_of_words(rest, true);
        },
        BomKind::Utf16Be => {
            law_text_units(words(rest, false));
            law_bytes_of_words(rest, false);
        },
    }
}

/// A file is read as its first bytes say: EF BB BF is UTF-8, FF FE is UTF-16 with
/// the lower byte first, FE FF is UTF-16 with the higher byte first, and a file
/// that starts with none of them is UTF-8 without a mark.
pub proof fn law_first_bytes_decide(b: Seq<u8>)
    ensures
        mark_of(b) == BomKind::Utf8 <==> b.len() >= 3 && b[0] == 0xef && b[1] == 0xbb && b[2] == 0xbf,
        mark_of(b) == BomKind::Utf16Le <==> b.len() >= 2 && b[0] == 0xff && b[1] == 0xfe,
        mark_of(b) == BomKind::Utf16Be <==> b.len() >= 2 && b[0] == 0xfe && b[1] == 0xff,
        b.len() >= 3 && b[0] == 0xef && b[1] == 0xbb && b[2] == 0xbf ==> decoded(b) == utf8_text(
            b.skip(3),
            DecodeError::InvalidUtf8AfterBom,
        ),
        b.len() >= 2 && b[0] == 0xff && b[1] == 0xfe ==> decoded(b) == utf16_text(b.skip(2), true),
        b.len() >= 2 && b[0] == 0xfe && b[1] == 0xff ==> decoded(b) == utf16_text(b.skip(2), false),
        mark_of(b) == BomKind::Absent ==> decoded(b) == utf8_text(b, DecodeError::NotUnicode),
{
    if b.len() >= 2 {
        let two = b.take(2);
        assert(two[0] == b[0] && two[1] == b[1]);
        assert(b[0] == 0xff && b[1] == 0xfe ==> two =~= seq![0xffu8, 0xfe]);
        assert(b[0] == 0xfe && b[1] == 0xff ==> two =~= seq![0xfeu8, 0xff]);
    }
    if b.len() >= 3 {
        let three = b.take(3);
        assert(three[0] == b[0] && three[1] == b[1] && three[2] == b[2]);
        assert(b[0] == 0xef && b[1] == 0xbb && b[2] == 0xbf ==> three =~= seq![0xefu8, 0xbb, 0xbf]);
    }
    assert(b.skip(0) =~= b);
}

/// UTF-16 text with an odd number of bytes is refused, and so is text that is no
/// UTF-8 where UTF-8 is due.
pub proof fn law_unreadable_refused(b: Seq<u8>, e: DecodeError)
    ensures
        b.len() % 2 == 1 ==> utf16_text(b, true) == Err::<Seq<char>, DecodeError>(
            DecodeError::OddUtf16Length,
        ),
        b.len() % 2 == 1 ==> utf16_text(b, false) == Err::<Seq<char>, DecodeError>(
            DecodeError::OddUtf16Length,
        ),
        !valid_utf8(b) ==> utf8_text(b, e) == Err::<Seq<char>, DecodeError>(e),
        valid_utf8(b) ==> utf8_text(b, e) == Ok::<Seq<char>, DecodeError>(decode_utf8(b)),
{
}

} // verus!
