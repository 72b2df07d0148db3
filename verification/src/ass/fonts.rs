//! The `[Fonts]` section of a subtitle and the comments that name its fonts.
use vstd::prelude::*;
use vstd::slice::{slice_subrange, slice_to_vec};

use crate::ass::style::{lookup_name, lookup_name_chars};
use crate::ass::uu::{uu_decode_chars, uu_decoded, uu_encode_chars, uu_text};
use crate::models::{embedded_views, EmbeddedFont, EmbeddedFontView};
use crate::split::{
    after_prefix, header_chars, header_name, join, join_chars, lines, split_lines, split_once,
    split_once_text, strip_prefix_chars,
};
use crate::strmap::{law_lookup_put, lookup, put, StrMap};
use crate::text::{
    cut_end, cut_end_chars, is_text, lower_chars, lowered, push_all, push_text, rows, to_chars,
    to_text, trim, trim_chars, Cut,
};

verus! {

/// A font that a subtitle carries.
#[derive(Clone, Debug, PartialEq, Eq)]
pub struct AssEmbeddedFont {
    pub fontname: String,
    pub data: Vec<u8>,
}

#[verifier::ext_equal]
pub struct FontBlock {
    pub fontname: Seq<char>,
    pub data: Seq<u8>,
}

impl View for AssEmbeddedFont {
    type V = FontBlock;

    open spec fn view(&self) -> FontBlock {
        FontBlock { fontname: self.fontname@, data: self.data@ }
    }
}

pub open spec fn blocks(v: Seq<AssEmbeddedFont>) -> Seq<FontBlock> {
    Seq::new(v.len(), |i: int| v[i]@)
}

// ---------------------------------------------------------------------------
// Reading the section
// ---------------------------------------------------------------------------
/// What has been read of the embedded fonts.
#[verifier::ext_equal]
pub struct FontsView {
    pub fonts: Seq<FontBlock>,
    pub section: Seq<char>,
    pub name: Option<Seq<char>>,
    pub data: Seq<char>,
}

/// The state once the font that is being read is complete: a font whose data
/// cannot be decoded is dropped.
pub open spec fn flushed(st: FontsView) -> FontsView {
    let fonts = match (st.name, uu_decoded(st.data)) {
        (Some(fontname), Ok(data)) => st.fonts.push(FontBlock { fontname, data }),
        _ => st.fonts,
    };
    FontsView { fonts, section: st.section, name: None, data: seq![] }
}

/// The state after one more line.
pub open spec fn fonts_line(st: FontsView, raw: Seq<char>) -> FontsView {
    let t = trim(cut_end(raw, Cut::CarriageReturn));
    match header_name(t) {
        Some(h) => FontsView { section: lowered(h), ..flushed(st) },
        None => if st.section != "fonts"@ {
            st
        } else {
            match after_prefix(t, "fontname:"@) {
                Some(rest) => FontsView { name: Some(trim(rest)), ..flushed(st) },
                None => if t.len() == 0 {
                    flushed(st)
                } else if st.name is Some {
                    FontsView { data: st.data + t, ..st }
                } else {
                    st
                },
            }
        },
    }
}

pub open spec fn fonts_start() -> FontsView {
    FontsView { fonts: seq![], section: seq![], name: None, data: seq![] }
}

/// The state after the first `n` lines.
pub open spec fn fonts_upto(v: Seq<Seq<char>>, n: int) -> FontsView
    decreases n,
{
    if n <= 0 {
        fonts_start()
    } else {
        fonts_line(fonts_upto(v, n - 1), v[n - 1])
    }
}

/// The fonts of a list of lines.
pub open spec fn fonts_of_lines(v: Seq<Seq<char>>) -> Seq<FontBlock> {
    flushed(fonts_upto(v, v.len() as int)).fonts
}

/// The fonts that a file carries.
pub open spec fn fonts_of(s: Seq<char>) -> Seq<FontBlock> {
    fonts_of_lines(lines(s))
}

struct FontReader {
    fonts: Vec<AssEmbeddedFont>,
    section: Vec<char>,
    name: Option<String>,
    data: Vec<char>,
}

impl View for FontReader {
    type V = FontsView;

    closed spec fn view(&self) -> FontsView {
        FontsView {
            fonts: blocks(self.fonts@),
            section: self.section@,
            name: match self.name {
                Some(n) => Some(n@),
                None => None,
            },
            data: self.data@,
        }
    }
}

impl FontReader {
    fn flush(&mut self)
        ensures
            final(self)@ == flushed(old(self)@),
    {
        let ghost before = self@;
        let taken = self.name.take();
        if let Some(fontname) = taken {
            if let Ok(data) = uu_decode_chars(self.data.as_slice()) {
                let font = AssEmbeddedFont { fontname, data };
                let ghost block = font@;
                self.fonts.push(font);
                assert(blocks(self.fonts@) =~= before.fonts.push(block));
            }
        }
        self.data = Vec::new();
        assert(self@ =~= flushed(before));
    }

    fn read_line(&mut self, raw: &[char])
        ensures
            final(self)@ == fonts_line(old(self)@, raw@),
    {
        let line = cut_end_chars(raw, Cut::CarriageReturn);
        let t = trim_chars(line);
        if let Some(h) = header_chars(t) {
            self.flush();
            self.section = lower_chars(h);
            return ;
        }
        if !is_text(self.section.as_slice(), "fonts") {
            return ;
        }
        if let Some(rest) = strip_prefix_chars(t, "fontname:") {
            self.flush();
            self.name = Some(to_text(trim_chars(rest)));
            return ;
        }
        if t.len() == 0 {
            self.flush();
        } else if self.name.is_some() {
            push_all(&mut self.data, t);
        }
    }
}

/// Reads the fonts that a subtitle carries, in their order.
pub fn parse_embedded_fonts(text: &str) -> (r: Vec<AssEmbeddedFont>)
    ensures
        blocks(r@) == fonts_of(text@),
{
    let chars = to_chars(text);
    let all = split_lines(chars.as_slice());
    let mut reader = FontReader {
        fonts: Vec::new(),
        section: Vec::new(),
        name: None,
        data: Vec::new(),
    };
    let ghost v = rows(all@);
    let mut i: usize = 0;
    assert(reader@ =~= fonts_start());
    while i < all.len()
        invariant
            i <= all@.len(),
            v == rows(all@),
            reader@ == fonts_upto(v, i as int),
        decreases all@.len() - i,
    {
        reader.read_line(all[i].as_slice());
        i = i + 1;
    }
    reader.flush();
    let FontReader { fonts, section: _, name: _, data: _ } = reader;
    fonts
}

// ---------------------------------------------------------------------------
// Comments that name the fonts
// ---------------------------------------------------------------------------
/// The two names in a subset comment.
pub open spec fn comment_names(t: Seq<char>) -> Option<(Seq<char>, Seq<char>)> {
    match after_prefix(t, "; Font Subset:"@) {
        Some(rest) => split_once(trim(rest), " - "@),
        None => None,
    }
}

pub fn comment_parts(t: &[char]) -> (r: Option<(Vec<char>, Vec<char>)>)
    ensures
        crate::split::pair_of(r) == comment_names(t@),
{
    match strip_prefix_chars(t, "; Font Subset:") {
        Some(rest) => split_once_text(trim_chars(rest), " - "),
        None => None,
    }
}

/// The names after one more line.
pub open spec fn comments_line(
    m: Seq<(Seq<char>, Seq<char>)>,
    raw: Seq<char>,
) -> Seq<(Seq<char>, Seq<char>)> {
    match comment_names(trim(raw)) {
        Some((subset, original)) => if trim(subset).len() > 0 && trim(original).len() > 0 {
            put(m, lookup_name(trim(subset)), trim(original))
        } else {
            m
        },
        None => m,
    }
}

pub open spec fn comments_upto(v: Seq<Seq<char>>, n: int) -> Seq<(Seq<char>, Seq<char>)>
    decreases n,
{
    if n <= 0 {
        seq![]
    } else {
        comments_line(comments_upto(v, n - 1), v[n - 1])
    }
}

/// The original names of a file's subset fonts, by the subset's lookup name.
pub open spec fn comments_of(s: Seq<char>) -> Seq<(Seq<char>, Seq<char>)> {
    comments_upto(lines(s), lines(s).len() as int)
}

/// Reads which original name each subset font of a file stands for.
pub fn parse_font_subset_comments(text: &str) -> (r: StrMap<String>)
    ensures
        r@ == comments_of(text@),
{
    let chars = to_chars(text);
    let all = split_lines(chars.as_slice());
    let mut m: StrMap<String> = StrMap::new();
    let ghost v = rows(all@);
    let mut i: usize = 0;
    while i < all.len()
        invariant
            i <= all@.len(),
            v == rows(all@),
            m@ == comments_upto(v, i as int),
        decreases all@.len() - i,
    {
        let t = trim_chars(all[i].as_slice());
        assert(t@ == trim(v[i as int]));
        if let Some((subset, original)) = comment_parts(t) {
            let a = trim_chars(subset.as_slice());
            let b = trim_chars(original.as_slice());
            if a.len() > 0 && b.len() > 0 {
                let key = lookup_name_chars(a);
                m.insert(to_text(key.as_slice()), to_text(b));
            }
        }
        i = i + 1;
    }
    m
}

// ---------------------------------------------------------------------------
// Writing the section
// ---------------------------------------------------------------------------
/// A text in pieces of eighty characters.
pub open spec fn pieces(s: Seq<char>) -> Seq<Seq<char>>
    decreases s.len(),
{
    if s.len() == 0 {
        seq![]
    } else if s.len() <= 80 {
        seq![s]
    } else {
        seq![s.take(80)] + pieces(s.skip(80))
    }
}

/// The lines of one font: its name, its data, and an empty line.
pub open spec fn block_lines(b: FontBlock) -> Seq<Seq<char>> {
    (seq!["fontname: "@ + b.fontname] + pieces(uu_text(b.data))).push(seq![])
}

/// The lines of the section up to the `n`th font.
pub open spec fn section_lines_upto(v: Seq<FontBlock>, n: int) -> Seq<Seq<char>>
    decreases n,
{
    if n <= 0 {
        seq!["[Fonts]"@]
    } else {
        section_lines_upto(v, n - 1) + block_lines(v[n - 1])
    }
}

pub open spec fn section_lines(v: Seq<FontBlock>) -> Seq<Seq<char>> {
    section_lines_upto(v, v.len() as int)
}

/// The text of the section; no fonts give no section.
pub open spec fn section_text(v: Seq<FontBlock>, newline: Seq<char>) -> Seq<char> {
    if v.len() == 0 {
        seq![]
    } else {
        join(section_lines(v), newline)
    }
}

/// The block of a font under its name and the suffix of its slot.
pub open spec fn embedded_block(f: EmbeddedFontView) -> FontBlock {
    FontBlock { fontname: f.embedded_name + f.slot.suffix_text(), data: f.data }
}

pub open spec fn embedded_blocks(v: Seq<EmbeddedFontView>) -> Seq<FontBlock> {
    Seq::new(v.len(), |i: int| embedded_block(v[i]))
}

fn push_pieces(out: &mut Vec<Vec<char>>, s: &[char])
    ensures
        rows(final(out)@) == rows(old(out)@) + pieces(s@),
{
    let ghost before = rows(out@);
    let n = s.len();
    let mut i: usize = 0;
    assert(s@.skip(0) =~= s@);
    while i < n
        invariant
            i <= n == s@.len(),
            rows(out@) + pieces(s@.skip(i as int)) == before + pieces(s@),
        decreases n - i,
    {
        let ghost here = s@.skip(i as int);
        let ghost had = rows(out@);
        let e: usize = if n - i > 80 { i + 80 } else { n };
        out.push(slice_to_vec(slice_subrange(s, i, e)));
        assert(rows(out@) =~= had.push(s@.subrange(i as int, e as int)));
        if n - i > 80 {
            assert(s@.subrange(i as int, e as int) =~= here.take(80));
            assert(here.skip(80) =~= s@.skip(e as int));
        } else {
            assert(s@.subrange(i as int, e as int) =~= here);
            assert(s@.skip(e as int).len() == 0);
        }
        assert(rows(out@) + pieces(s@.skip(e as int)) =~= had + pieces(here));
        i = e;
    }
    assert(s@.skip(i as int).len() == 0);
    assert(rows(out@) + pieces(s@.skip(i as int)) =~= rows(out@));
}

fn push_block(out: &mut Vec<Vec<char>>, name: &[char], data: &[u8])
    ensures
        rows(final(out)@) == rows(old(out)@) + block_lines(
            FontBlock { fontname: name@, data: data@ },
        ),
{
    let ghost before = rows(out@);
    let ghost head = "fontname: "@ + name@;
    let mut line: Vec<char> = Vec::new();
    push_text(&mut line, "fontname: ");
    push_all(&mut line, name);
    assert(line@ =~= head);
    out.push(line);
    assert(rows(out@) =~= before.push(head));
    let enc = uu_encode_chars(data);
    push_pieces(out, enc.as_slice());
    let ghost mid = rows(out@);
    let empty: Vec<char> = Vec::new();
    out.push(empty);
    assert(rows(out@) =~= mid.push(seq![]));
    assert(rows(out@) =~= before + block_lines(FontBlock { fontname: name@, data: data@ }));
}

fn section_head() -> (r: Vec<Vec<char>>)
    ensures
        rows(r@) == seq!["[Fonts]"@],
{
    let mut out: Vec<Vec<char>> = Vec::new();
    out.push(to_chars("[Fonts]"));
    assert(rows(out@) =~= seq!["[Fonts]"@]);
    out
}

/// The `[Fonts]` section of fonts to be embedded.
pub fn build_fonts_section(embedded_fonts: &[EmbeddedFont], newline: &[char]) -> (r: Vec<char>)
    ensures
        r@ == section_text(embedded_blocks(embedded_views(embedded_fonts@)), newline@),
{
    let ghost v = embedded_blocks(embedded_views(embedded_fonts@));
    if embedded_fonts.len() == 0 {
        return Vec::new();
    }
    let mut out = section_head();
    let mut i: usize = 0;
    while i < embedded_fonts.len()
        invariant
            i <= embedded_fonts@.len(),
            v == embedded_blocks(embedded_views(embedded_fonts@)),
            rows(out@) == section_lines_upto(v, i as int),
        decreases embedded_fonts@.len() - i,
    {
        let font = &embedded_fonts[i];
        let mut name = to_chars(font.embedded_name.as_str());
        push_text(&mut name, font.slot.suffix());
        assert(v[i as int] == (FontBlock { fontname: name@, data: font.data@ }));
        push_block(&mut out, name.as_slice(), font.data.as_slice());
        i = i + 1;
    }
    join_chars(&out, newline)
}

/// The `[Fonts]` section of fonts that a subtitle carried.
pub fn build_fonts_section_from_blocks(fonts: &[AssEmbeddedFont], newline: &[char]) -> (r: Vec<
    char,
>)
    ensures
        r@ == section_text(blocks(fonts@), newline@),
{
    let ghost v = blocks(fonts@);
    if fonts.len() == 0 {
        return Vec::new();
    }
    let mut out = section_head();
    let mut i: usize = 0;
    while i < fonts.len()
        invariant
            i <= fonts@.len(),
            v == blocks(fonts@),
            rows(out@) == section_lines_upto(v, i as int),
        decreases fonts@.len() - i,
    {
        let font = &fonts[i];
        let name = to_chars(font.fontname.as_str());
        assert(v[i as int] == (FontBlock { fontname: name@, data: font.data@ }));
        push_block(&mut out, name.as_slice(), font.data.as_slice());
        i = i + 1;
    }
    join_chars(&out, newline)
}

// ---------------------------------------------------------------------------
// Laws
// ---------------------------------------------------------------------------
/// Embedded data is written in lines of eighty characters, the last of which may be
/// shorter but is not empty.
pub proof fn law_lines_of_eighty(s: Seq<char>, i: int)
    requires
        0 <= i < pieces(s).len(),
    ensures
        80 * i < s.len(),
        i < pieces(s).len() - 1 ==> 80 * (i + 1) < s.len() && pieces(s)[i] == s.subrange(
            80 * i,
            80 * (i + 1),
        ),
        i == pieces(s).len() - 1 ==> s.len() <= 80 * (i + 1) && pieces(s)[i] == s.skip(80 * i),
    decreases s.len(),
{
    if s.len() > 80 {
        let rest = s.skip(80);
        let tail = pieces(rest);
        if i > 0 {
            assert(pieces(s)[i] == tail[i - 1]);
            law_lines_of_eighty(rest, i - 1);
            if i < pieces(s).len() - 1 {
                assert(rest.subrange(80 * (i - 1), 80 * i) =~= s.subrange(80 * i, 80 * (i + 1)));
            } else {
                assert(rest.skip(80 * (i - 1)) =~= s.skip(80 * i));
            }
        } else {
            assert(tail.len() > 0);
            assert(s.take(80) =~= s.subrange(0, 80));
        }
    } else {
        assert(s.skip(0) =~= s);
    }
}

/// A font is embedded under its new name and the ending of its slot.
pub proof fn law_embedded_under_slot(f: EmbeddedFontView)
    ensures
        embedded_block(f).data == f.data,
        f.slot is Normal ==> embedded_block(f).fontname == f.embedded_name + "_0.ttf"@,
        f.slot is Bold ==> embedded_block(f).fontname == f.embedded_name + "_B0.ttf"@,
        f.slot is Italic ==> embedded_block(f).fontname == f.embedded_name + "_I0.ttf"@,
        f.slot is BoldItalic ==> embedded_block(f).fontname == f.embedded_name + "_BI0.ttf"@,
{
}

/// The key under which a line names an original font, where it is a comment of a
/// subset with both names.
pub open spec fn commented_key(raw: Seq<char>) -> Option<Seq<char>> {
    match comment_names(trim(raw)) {
        Some((subset, original)) => if trim(subset).len() > 0 && trim(original).len() > 0 {
            Some(lookup_name(trim(subset)))
        } else {
            None
        },
        None => None,
    }
}

/// Every comment of a file counts: the name that it gives is found by the subset's
/// name, unless a later comment gives another.
pub proof fn law_every_comment_counts(
    v: Seq<Seq<char>>,
    n: int,
    i: int,
    subset: Seq<char>,
    original: Seq<char>,
)
    requires
        0 <= i < n <= v.len(),
        comment_names(trim(v[i])) == Some((subset, original)),
        trim(subset).len() > 0,
        trim(original).len() > 0,
        forall|j: int|
            i < j < n ==> commented_key(#[trigger] v[j]) != Some(lookup_name(trim(subset))),
    ensures
        lookup(comments_upto(v, n), lookup_name(trim(subset))) == Some(trim(original)),
    decreases n,
{
    let key = lookup_name(trim(subset));
    let had = comments_upto(v, n - 1);
    if n - 1 == i {
        law_lookup_put(had, key, trim(original), key);
    } else {
        law_every_comment_counts(v, n - 1, i, subset, original);
        assert(commented_key(v[n - 1]) != Some(key));
        match commented_key(v[n - 1]) {
            Some(k) => {
                let (s, o) = comment_names(trim(v[n - 1]))->0;
                law_lookup_put(had, k, trim(o), key);
            },
            None => {},
        }
    }
}

} // verus!
