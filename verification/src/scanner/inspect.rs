//! Recognising a subtitle that was subset already from its first bytes, and its
//! digest otherwise.
use vstd::prelude::*;
use vstd::slice::slice_subrange;
use vstd::utf8::{decode_utf8, valid_utf8};

use crate::ass::encoding::{
    decoded, detect_mark, encoded, law_first_bytes_decide, mark, mark_of, BomKind,
};
use crate::ass::fonts::{comments_of, parse_font_subset_comments};
use crate::digest::{push_bytes, sha256_hex, sha256_text};
use crate::text::{
    contains_text, has_part, lower_chars, lowered, stands_at, to_chars, to_text,
};
use crate::utf16::{
    decode_units_lossy, law_lossy_keeps_text, law_units_round_trip, law_words_of_bytes, lossy_text,
    units, units_text, word_bytes, words, words_of,
};

verus! {

/// How many bytes of a file are searched for a mark: 1 MiB.
pub const SUBSET_MARKER_PREFIX_LIMIT: usize = 1_048_576;

/// The text of bytes in which every part that is not UTF-8 stands as U+FFFD.
pub uninterp spec fn utf8_lossy(b: Seq<u8>) -> Seq<char>;

/// `String::from_utf8_lossy`: the text of the bytes, with replacements. Where
/// the bytes are valid UTF-8 it is the text that they are; what is replaced
/// otherwise depends on the bytes alone.
#[verifier::external_body]
fn from_utf8_lossy(b: &[u8]) -> (r: String)
    ensures
        r@ == utf8_lossy(b@),
        valid_utf8(b@) ==> r@ == decode_utf8(b@),
{
    String::from_utf8_lossy(b).into_owned()
}

/// The text of the start of a file, with replacements where it breaks off.
pub open spec fn prefix_text(b: Seq<u8>) -> Seq<char> {
    let rest = b.skip(mark(mark_of(b)).len() as int);
    match mark_of(b) {
        BomKind::Utf16Le => lossy_text(words(rest, true)),
        BomKind::Utf16Be => lossy_text(words(rest, false)),
        _ => utf8_lossy(rest),
    }
}

pub fn decode_prefix_lossy(bytes: &[u8]) -> (r: String)
    ensures
        r@ == prefix_text(bytes@),
        decoded(bytes@) matches Ok(s) ==> r@ == s,
{
    let n = bytes.len();
    let bom = detect_mark(bytes);
    let from: usize = match bom {
        BomKind::Absent => 0,
        BomKind::Utf8 => 3,
        BomKind::Utf16Le => 2,
        BomKind::Utf16Be => 2,
    };
    let rest = slice_subrange(bytes, from, n);
    assert(rest@ =~= bytes@.skip(mark(bom).len() as int));
    match bom {
        BomKind::Utf16Le => {
            let w = words_of(rest, true);
            proof {
                if units_text(w@) is Some {
                    law_lossy_keeps_text(w@);
                }
            }
            to_text(decode_units_lossy(w.as_slice()).as_slice())
        },
        BomKind::Utf16Be => {
            let w = words_of(rest, false);
            proof {
                if units_text(w@) is Some {
                    law_lossy_keeps_text(w@);
                }
            }
            to_text(decode_units_lossy(w.as_slice()).as_slice())
        },
        _ => from_utf8_lossy(rest),
    }
}

/// Whether a text says that its fonts were subset: by a comment on a font, or
/// by the name of the font for drawings.
pub open spec fn text_marked(s: Seq<char>) -> bool {
    comments_of(s).len() > 0 || has_part(lowered(s), "assdrawsubset"@)
}

pub fn text_has_marker(text: &str) -> (r: bool)
    ensures
        r == text_marked(text@),
{
    if !parse_font_subset_comments(text).is_empty() {
        return true;
    }
    let c = to_chars(text);
    contains_text(lower_chars(c.as_slice()).as_slice(), "assdrawsubset")
}

pub fn contains_subset_marker(bytes: &[u8]) -> (r: bool)
    ensures
        r == text_marked(prefix_text(bytes@)),
        decoded(bytes@) matches Ok(s) ==> r == text_marked(s),
{
    let text = decode_prefix_lossy(bytes);
    text_has_marker(text.as_str())
}

/// What was found out about a file.
#[derive(Debug)]
pub struct CandidateInspection {
    pub already_subsetted: bool,
    pub sha256: Option<String>,
}

/// The part of a file that is searched.
pub open spec fn searched(data: Seq<u8>) -> Seq<u8> {
    if data.len() < SUBSET_MARKER_PREFIX_LIMIT {
        data
    } else {
        data.take(SUBSET_MARKER_PREFIX_LIMIT as int)
    }
}

/// Whether reading stops with the bytes behind those that have been read: while
/// the part that is searched grows, a mark in it ends the search.
pub open spec fn stops_with(data: Seq<u8>, chunk: Seq<u8>) -> bool {
    data.len() < SUBSET_MARKER_PREFIX_LIMIT && text_marked(prefix_text(searched(data + chunk)))
}

/// The reading of a file in parts.
pub struct Inspection {
    data: Vec<u8>,
    marked: bool,
}

#[verifier::ext_equal]
pub struct InspectionView {
    pub data: Seq<u8>,
    pub marked: bool,
}

impl View for Inspection {
    type V = InspectionView;

    closed spec fn view(&self) -> InspectionView {
        InspectionView { data: self.data@, marked: self.marked }
    }
}

fn searched_part(data: &Vec<u8>) -> (r: &[u8])
    ensures
        r@ == searched(data@),
{
    let n: usize = if data.len() < SUBSET_MARKER_PREFIX_LIMIT {
        data.len()
    } else {
        SUBSET_MARKER_PREFIX_LIMIT
    };
    let r = slice_subrange(data.as_slice(), 0, n);
    assert(r@ =~= searched(data@));
    r
}

impl Inspection {
    pub fn start() -> (r: Inspection)
        ensures
            r@ == (InspectionView { data: seq![], marked: false }),
    {
        Inspection { data: Vec::new(), marked: false }
    }

    /// Takes the next bytes of the file, and returns whether reading goes on.
    pub fn read(&mut self, chunk: &[u8]) -> (r: bool)
        ensures
            r == !stops_with(old(self)@.data, chunk@),
            final(self)@ == (InspectionView {
                data: old(self)@.data + chunk@,
                marked: old(self)@.marked || !r,
            }),
    {
        let short = self.data.len() < SUBSET_MARKER_PREFIX_LIMIT;
        push_bytes(&mut self.data, chunk);
        if short && contains_subset_marker(searched_part(&self.data)) {
            self.marked = true;
            return false;
        }
        true
    }

    /// What was found out: a file with a mark needs no digest.
    pub fn finish(self) -> (r: CandidateInspection)
        ensures
            r.already_subsetted == (self@.marked || text_marked(prefix_text(searched(self@.data)))),
            match r.sha256 {
                Some(h) => !self@.marked && h@ == sha256_text(self@.data),
                None => self@.marked,
            },
    {
        if self.marked {
            return CandidateInspection { already_subsetted: true, sha256: None };
        }
        CandidateInspection {
            already_subsetted: contains_subset_marker(searched_part(&self.data)),
            sha256: Some(sha256_hex(self.data.as_slice())),
        }
    }
}

/// Looks at a file that is read as a whole: it is searched as far as the limit,
/// and has a digest where no mark is in it.
pub fn inspect_candidate(data: &[u8]) -> (r: CandidateInspection)
    ensures
        r.already_subsetted == text_marked(prefix_text(searched(data@))),
        match r.sha256 {
            Some(h) => !r.already_subsetted && h@ == sha256_text(data@),
            None => r.already_subsetted,
        },
{
    let mut reading = Inspection::start();
    let more = reading.read(data);
    assert(Seq::<u8>::empty() + data@ =~= data@);
    reading.finish()
}

// ---------------------------------------------------------------------------
// Laws
// ---------------------------------------------------------------------------
/// Bytes behind the limit change nothing: whether a file has a mark depends on
/// its first bytes alone.
pub proof fn law_search_is_bounded(data: Seq<u8>, more: Seq<u8>)
    requires
        data.len() >= SUBSET_MARKER_PREFIX_LIMIT,
    ensures
        searched(data + more) == searched(data),
        !stops_with(data, more),
{
    assert(searched(data + more) =~= searched(data));
}

/// The first mebibyte of a file is searched, and all of a shorter one.
pub proof fn law_first_mebibyte_searched(data: Seq<u8>, i: int)
    ensures
        searched(data).len() == (if data.len() < 1024 * 1024 {
            data.len()
        } else {
            1024 * 1024
        }),
        0 <= i < searched(data).len() ==> searched(data)[i] == data[i],
{
}

/// A text that names the font of drawings anywhere, in any case, counts as subset
/// already, and so does every text with a comment that names a subset.
pub proof fn law_marks_recognised(a: Seq<char>, word: Seq<char>, b: Seq<char>, s: Seq<char>)
    requires
        lowered(word) == "assdrawsubset"@,
    ensures
        text_marked(a + word + b),
        comments_of(s).len() > 0 ==> text_marked(s),
        text_marked(s) ==> comments_of(s).len() > 0 || has_part(lowered(s), "assdrawsubset"@),
{
    let t = a + word + b;
    let n = a.len() as int;
    let low = lowered(t);
    let part = low.subrange(n, n + word.len());
    assert(part =~= lowered(word)) by {
        assert forall|i: int| 0 <= i < word.len() implies part[i] == lowered(word)[i] by {
            assert(t[n + i] == word[i]);
        }
    }
    assert(word.len() == lowered(word).len());
    assert(stands_at(low, "assdrawsubset"@, n));
}

/// A file is searched in the text that it is written in: one with a mark of UTF-16
/// in the byte order of its mark.
pub proof fn law_searched_as_text(s: Seq<char>)
    ensures
        prefix_text(encoded(s, BomKind::Utf16Le)) == s,
        prefix_text(encoded(s, BomKind::Utf16Be)) == s,
{
    let (le, be) = (encoded(s, BomKind::Utf16Le), encoded(s, BomKind::Utf16Be));
    let w = units(s);
    assert(le[0] == 0xff && le[1] == 0xfe);
    assert(be[0] == 0xfe && be[1] == 0xff);
    law_first_bytes_decide(le);
    law_first_bytes_decide(be);
    assert(le.skip(2) =~= word_bytes(w, true));
    assert(be.skip(2) =~= word_bytes(w, false));
    law_words_of_bytes(w, true);
    law_words_of_bytes(w, false);
    law_units_round_trip(s);
    law_lossy_keeps_text(w);
}

} // verus!
