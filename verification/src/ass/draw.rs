//! Drawings in lines of dialogue: vector shapes that are replaced by characters
//! of a font, and put back.
use vstd::prelude::*;
use vstd::slice::{slice_subrange, slice_to_vec};

use crate::ass::parse::{columns, columns_of};
use crate::ass::tags::{tag_arg, tag_arg_chars};
use crate::number::{parse_signed, signed};
use crate::split::{
    after_prefix, fields, header_chars, header_name, join, join_chars, lines, position,
    position_text, split_fields, split_lines, strip_prefix_chars,
};
use crate::text::{
    cut_end, cut_end_chars, cut_start_chars, find_char_from, find_from, is_scalar, is_text,
    lemma_find_from, lower_chars, lowered, push_all, push_text, rows, to_chars, to_text, trim,
    trim_chars, trim_start, Cut,
};

verus! {

/// What a character of the drawing font stands for.
#[derive(Clone, Debug, PartialEq, Eq)]
pub struct DrawRestoreEntry {
    pub data: String,
    pub ch: String,
    pub flags: u8,
}

#[verifier::ext_equal]
pub struct DrawEntryView {
    pub data: Seq<char>,
    pub ch: Seq<char>,
    pub flags: u8,
}

impl View for DrawRestoreEntry {
    type V = DrawEntryView;

    open spec fn view(&self) -> DrawEntryView {
        DrawEntryView { data: self.data@, ch: self.ch@, flags: self.flags }
    }
}

pub open spec fn entry_views(v: Seq<DrawRestoreEntry>) -> Seq<DrawEntryView> {
    Seq::new(v.len(), |i: int| v[i]@)
}

#[derive(Clone, Debug)]
pub struct DrawSubsetRewrite {
    pub text: String,
    pub entries: Vec<DrawRestoreEntry>,
}

impl Default for DrawSubsetRewrite {
    fn default() -> (r: Self)
        ensures
            r.text@ == Seq::<char>::empty(),
            r.entries@ == Seq::<DrawRestoreEntry>::empty(),
    {
        let r = DrawSubsetRewrite { text: String::new(), entries: Vec::new() };
        assert(r.text@ =~= seq![]);
        r
    }
}

// ---------------------------------------------------------------------------
// Finding drawings
// ---------------------------------------------------------------------------
/// The drawing level that the tags from `i` on set first.
pub open spec fn level_from(tag: Seq<char>, i: int) -> Option<int>
    decreases tag.len() - i,
{
    if !(0 <= i < tag.len()) {
        None
    } else if tag[i] != '\\' {
        level_from(tag, i + 1)
    } else if i + 1 < tag.len() && tag[i + 1] == 'p' {
        signed(trim(tag_arg(tag, i + 2).0))
    } else {
        proof {
            lemma_find_from(tag, '\\', i + 1);
        }
        level_from(tag, find_from(tag, '\\', i + 1))
    }
}

/// The drawing level that the tags between two braces set.
pub open spec fn tag_level(tag: Seq<char>) -> Option<int> {
    level_from(tag, 0)
}

pub fn drawing_level_from_tag(tag: &[char]) -> (r: Option<i32>)
    ensures
        crate::number::i32_of(r) == tag_level(tag@),
{
    let n = tag.len();
    let mut i: usize = 0;
    while i < n
        invariant
            i <= n == tag@.len(),
            level_from(tag@, i as int) == tag_level(tag@),
        decreases n - i,
    {
        if tag[i] != '\\' {
            i = i + 1;
        } else {
            let j: usize = i + 1;
            if j < n && tag[j] == 'p' {
                let (arg, _next) = tag_arg_chars(tag, j + 1);
                return parse_signed(trim_chars(arg.as_slice()));
            }
            i = find_char_from(tag, '\\', j);
        }
    }
    None
}

/// Where the drawing ends whose commands start at `i`: behind the next tags
/// that set the drawing level to zero, or at -1 if there are none.
pub open spec fn drawing_end(s: Seq<char>, i: int) -> int
    decreases s.len() - i,
{
    if !(0 <= i < s.len()) {
        -1
    } else {
        let a = find_from(s, '{', i);
        let b = find_from(s, '}', a);
        if i <= a <= b < s.len() {
            if tag_level(s.subrange(a + 1, b)) == Some(0int) {
                b + 1
            } else {
                drawing_end(s, b + 1)
            }
        } else {
            -1
        }
    }
}

pub proof fn lemma_drawing_end(s: Seq<char>, i: int)
    requires
        0 <= i <= s.len(),
    ensures
        drawing_end(s, i) == -1 || i < drawing_end(s, i) <= s.len(),
    decreases s.len() - i,
{
    if i < s.len() {
        let a = find_from(s, '{', i);
        lemma_find_from(s, '{', i);
        lemma_find_from(s, '}', a);
        let b = find_from(s, '}', a);
        if a < s.len() && b < s.len() {
            lemma_drawing_end(s, b + 1);
        }
    }
}

pub fn find_drawing_end(s: &[char], from: usize) -> (r: Option<usize>)
    requires
        from <= s@.len(),
    ensures
        match r {
            Some(e) => drawing_end(s@, from as int) == e && from < e <= s@.len(),
            None => drawing_end(s@, from as int) == -1,
        },
{
    let n = s.len();
    let mut i: usize = from;
    while i < n
        invariant
            from <= i <= n == s@.len(),
            drawing_end(s@, i as int) == drawing_end(s@, from as int),
        decreases n - i,
    {
        let a = find_char_from(s, '{', i);
        if a >= n {
            return None;
        }
        let b = find_char_from(s, '}', a);
        if b >= n {
            return None;
        }
        assert(s@[a as int] != s@[b as int]);
        match drawing_level_from_tag(slice_subrange(s, a + 1, b)) {
            Some(level) => {
                if level == 0 {
                    return Some(b + 1);
                }
            },
            None => {},
        }
        i = b + 1;
    }
    None
}

// ---------------------------------------------------------------------------
// Replacing drawings
// ---------------------------------------------------------------------------
/// The character of the `n`th drawing: from U+E000 on.
pub open spec fn draw_char(n: int) -> char {
    let cp = (0xe000 + n % 0x1_0000_0000) % 0x1_0000_0000;
    if is_scalar(cp) {
        cp as char
    } else {
        '\u{E000}'
    }
}

/// The index of the entry with the data, or the number of entries.
pub open spec fn entry_from(v: Seq<DrawEntryView>, data: Seq<char>, i: int) -> int
    decreases v.len() - i,
{
    if 0 <= i < v.len() && v[i].data != data {
        entry_from(v, data, i + 1)
    } else {
        i
    }
}

pub open spec fn entry_at(v: Seq<DrawEntryView>, data: Seq<char>) -> int {
    entry_from(v, data, 0)
}

/// The entries once the drawing has one.
pub open spec fn with_entry(v: Seq<DrawEntryView>, data: Seq<char>, level: int) -> Seq<
    DrawEntryView,
> {
    if entry_at(v, data) < v.len() {
        v
    } else {
        v.push(DrawEntryView { data, ch: seq![draw_char(v.len() as int)], flags: (level + 16) as u8 })
    }
}

/// What stands in front of a character of the drawing font.
pub open spec fn draw_mark() -> Seq<char> {
    "{\\fnASSDrawSubset\\p0}"@
}

/// What has been written of a text.
#[verifier::ext_equal]
pub struct DrawView {
    pub out: Seq<char>,
    pub entries: Seq<DrawEntryView>,
}

/// Whether tags open a drawing that ends somewhere.
pub open spec fn opens_drawing(s: Seq<char>, a: int, b: int) -> bool {
    match tag_level(s.subrange(a + 1, b)) {
        Some(n) => 0 < n <= 15 && drawing_end(s, b + 1) >= 0,
        None => false,
    }
}

/// The text from `i` on with its drawings replaced.
pub open spec fn draw_from(s: Seq<char>, i: int, st: DrawView) -> DrawView
    decreases s.len() - i,
{
    if !(0 <= i < s.len()) {
        st
    } else {
        let a = find_from(s, '{', i);
        let b = find_from(s, '}', a);
        if !(i <= a <= b < s.len()) {
            DrawView { out: st.out + s.skip(i), ..st }
        } else if opens_drawing(s, a, b) {
            let e = drawing_end(s, b + 1);
            let data = s.subrange(a, e);
            let entries = with_entry(st.entries, data, tag_level(s.subrange(a + 1, b))->0);
            let ch = entries[entry_at(entries, data)].ch;
            proof {
                lemma_drawing_end(s, b + 1);
            }
            draw_from(
                s,
                e,
                DrawView { out: st.out + s.subrange(i, a) + draw_mark() + ch, entries },
            )
        } else {
            draw_from(s, b + 1, DrawView { out: st.out + s.subrange(i, b + 1), ..st })
        }
    }
}

/// A text with its drawings replaced by characters of the drawing font.
pub open spec fn drawn(s: Seq<char>, entries: Seq<DrawEntryView>) -> DrawView {
    draw_from(s, 0, DrawView { out: seq![], entries })
}

pub proof fn lemma_entry(v: Seq<DrawEntryView>, data: Seq<char>, i: int)
    requires
        0 <= i <= v.len(),
    ensures
        i <= entry_from(v, data, i) <= v.len(),
        entry_from(v, data, i) < v.len() ==> v[entry_from(v, data, i)].data == data,
        forall|j: int| i <= j < entry_from(v, data, i) ==> (#[trigger] v[j]).data != data,
    decreases v.len() - i,
{
    if i < v.len() && v[i].data != data {
        lemma_entry(v, data, i + 1);
    }
}

/// A new entry is found behind the others.
pub proof fn lemma_new_entry(v: Seq<DrawEntryView>, e: DrawEntryView, i: int)
    requires
        0 <= i <= v.len(),
        entry_from(v, e.data, i) == v.len(),
    ensures
        entry_from(v.push(e), e.data, i) == v.len(),
    decreases v.len() - i,
{
    if i < v.len() {
        lemma_new_entry(v, e, i + 1);
    }
}

fn draw_char_of(n: usize) -> (r: char)
    ensures
        r == draw_char(n as int),
{
    let m: u64 = (n as u64) % 0x1_0000_0000;
    let cp: u64 = (0xe000 + m) % 0x1_0000_0000;
    match char::from_u32(cp as u32) {
        Some(c) => c,
        None => '\u{E000}',
    }
}

fn find_entry(entries: &Vec<DrawRestoreEntry>, data: &[char]) -> (r: usize)
    ensures
        r == entry_at(entry_views(entries@), data@),
        r <= entries@.len(),
{
    let ghost v = entry_views(entries@);
    let mut i: usize = 0;
    while i < entries.len()
        invariant
            i <= entries@.len(),
            v == entry_views(entries@),
            entry_from(v, data@, i as int) == entry_at(v, data@),
        decreases entries@.len() - i,
    {
        if is_text(data, entries[i].data.as_str()) {
            assert(v[i as int].data == data@);
            return i;
        }
        assert(v[i as int].data != data@);
        i = i + 1;
    }
    i
}

/// Replaces the drawings in a text, adding entries for those not seen before.
pub fn rewrite_drawings_in_text(s: &[char], entries: &mut Vec<DrawRestoreEntry>) -> (r: Vec<char>)
    ensures
        r@ == drawn(s@, entry_views(old(entries)@)).out,
        entry_views(final(entries)@) == drawn(s@, entry_views(old(entries)@)).entries,
{
    let n = s.len();
    let mut out: Vec<char> = Vec::new();
    let mut i: usize = 0;
    let ghost want = drawn(s@, entry_views(entries@));
    assert(out@ =~= seq![]);
    while i < n
        invariant
            i <= n == s@.len(),
            want == drawn(s@, entry_views(old(entries)@)),
            draw_from(s@, i as int, DrawView { out: out@, entries: entry_views(entries@) }) == want,
        decreases n - i,
    {
        let ghost before = out@;
        let a = find_char_from(s, '{', i);
        if a >= n {
            push_all(&mut out, slice_subrange(s, i, n));
            assert(s@.subrange(i as int, n as int) =~= s@.skip(i as int));
            proof {
                lemma_find_from(s@, '}', a as int);
            }
            return out;
        }
        let b = find_char_from(s, '}', a);
        if b >= n {
            push_all(&mut out, slice_subrange(s, i, n));
            assert(s@.subrange(i as int, n as int) =~= s@.skip(i as int));
            return out;
        }
        assert(s@[a as int] != s@[b as int]);
        let level: i32 = match drawing_level_from_tag(slice_subrange(s, a + 1, b)) {
            Some(k) => k,
            None => 0,
        };
        if level > 0 && level <= 15 {
            if let Some(e) = find_drawing_end(s, b + 1) {
                let original = slice_subrange(s, a, e);
                let ghost had = entry_views(entries@);
                let at = find_entry(entries, original);
                if at == entries.len() {
                    let mut ch = String::new();
                    ch.push(draw_char_of(entries.len()));
                    assert(ch@ =~= seq![draw_char(entries@.len() as int)]);
                    let entry = DrawRestoreEntry {
                        data: to_text(original),
                        ch,
                        flags: level as u8 + 16,
                    };
                    let ghost ev = entry@;
                    entries.push(entry);
                    assert(entry_views(entries@) =~= had.push(ev));
                    proof {
                        lemma_new_entry(had, ev, 0);
                    }
                }
                assert(entry_views(entries@) == with_entry(had, original@, level as int));
                push_all(&mut out, slice_subrange(s, i, a));
                push_text(&mut out, "{\\fnASSDrawSubset\\p0}");
                push_text(&mut out, entries[at].ch.as_str());
                assert(entry_views(entries@)[at as int].ch == entries@[at as int].ch@);
                i = e;
                continue ;
            }
        }
        push_all(&mut out, slice_subrange(s, i, b + 1));
        i = b + 1;
    }
    out
}

// ---------------------------------------------------------------------------
// A whole file
// ---------------------------------------------------------------------------
/// What has been written of a file.
#[verifier::ext_equal]
pub struct DrawFile {
    pub out: Seq<Seq<char>>,
    pub section: Seq<char>,
    pub format: Seq<Seq<char>>,
    pub entries: Seq<DrawEntryView>,
}

/// The white space in front of a line.
pub open spec fn indent(line: Seq<char>) -> Seq<char> {
    line.take(line.len() - trim_start(line).len())
}

/// The file after one more line.
pub open spec fn draw_line(st: DrawFile, raw: Seq<char>) -> DrawFile {
    let line = cut_end(raw, Cut::CarriageReturn);
    let t = trim(line);
    let kept = DrawFile { out: st.out.push(line), ..st };
    match header_name(t) {
        Some(h) => DrawFile { section: lowered(h), ..kept },
        None => if st.section != "events"@ {
            kept
        } else {
            match after_prefix(t, "Format:"@) {
                Some(rest) => DrawFile { format: columns(rest), ..kept },
                None => match (
                    after_prefix(trim_start(line), "Dialogue:"@),
                    position(st.format, "text"@),
                ) {
                    (Some(rest), Some(at)) => {
                        let row = fields(trim_start(rest), st.format.len() as int);
                        let new = drawn(row[at], st.entries);
                        DrawFile {
                            out: st.out.push(
                                indent(line) + "Dialogue: "@ + join(
                                    row.update(at, new.out),
                                    seq![','],
                                ),
                            ),
                            entries: new.entries,
                            ..st
                        }
                    },
                    _ => kept,
                },
            }
        },
    }
}

pub open spec fn draw_start() -> DrawFile {
    DrawFile { out: seq![], section: seq![], format: seq![], entries: seq![] }
}

pub open spec fn draw_upto(v: Seq<Seq<char>>, n: int) -> DrawFile
    decreases n,
{
    if n <= 0 {
        draw_start()
    } else {
        draw_line(draw_upto(v, n - 1), v[n - 1])
    }
}

/// Lines joined again, with a last line break where the text had one.
pub open spec fn rejoined(out: Seq<Seq<char>>, newline: Seq<char>, s: Seq<char>) -> Seq<char> {
    if s.len() > 0 && s.last() == '\n' {
        join(out, newline) + newline
    } else {
        join(out, newline)
    }
}

pub fn rejoin(out: &Vec<Vec<char>>, newline: &[char], s: &[char]) -> (r: String)
    ensures
        r@ == rejoined(rows(out@), newline@, s@),
{
    let mut v = join_chars(out, newline);
    if s.len() > 0 && s[s.len() - 1] == '\n' {
        push_all(&mut v, newline);
    }
    to_text(v.as_slice())
}

/// A file with its drawings replaced.
pub open spec fn file_drawn(s: Seq<char>) -> DrawFile {
    draw_upto(lines(s), lines(s).len() as int)
}

pub fn indent_of<'a>(line: &'a [char]) -> (r: &'a [char])
    ensures
        r@ == indent(line@),
{
    let rest = cut_start_chars(line, Cut::White);
    slice_subrange(line, 0, line.len() - rest.len())
}

fn comma() -> (r: Vec<char>)
    ensures
        r@ == seq![','],
{
    let mut v: Vec<char> = Vec::new();
    v.push(',');
    assert(v@ =~= seq![',']);
    v
}

/// A line made of an indent, a word and fields.
pub fn field_line(line: &[char], word: &str, row: &Vec<Vec<char>>) -> (r: Vec<char>)
    ensures
        r@ == indent(line@) + word@ + join(rows(row@), seq![',']),
{
    let mut out = slice_to_vec(indent_of(line));
    push_text(&mut out, word);
    let sep = comma();
    let body = join_chars(row, sep.as_slice());
    push_all(&mut out, body.as_slice());
    out
}

struct Drawer {
    out: Vec<Vec<char>>,
    section: Vec<char>,
    format: Vec<Vec<char>>,
    entries: Vec<DrawRestoreEntry>,
}

impl View for Drawer {
    type V = DrawFile;

    closed spec fn view(&self) -> DrawFile {
        DrawFile {
            out: rows(self.out@),
            section: self.section@,
            format: rows(self.format@),
            entries: entry_views(self.entries@),
        }
    }
}

impl Drawer {
    fn keep(&mut self, line: &[char])
        ensures
            final(self)@ == (DrawFile { out: old(self)@.out.push(line@), ..old(self)@ }),
    {
        let ghost before = rows(self.out@);
        self.out.push(slice_to_vec(line));
        assert(rows(self.out@) =~= before.push(line@));
    }

    fn read_line(&mut self, raw: &[char])
        ensures
            final(self)@ == draw_line(old(self)@, raw@),
    {
        let line = cut_end_chars(raw, Cut::CarriageReturn);
        let t = trim_chars(line);
        if let Some(h) = header_chars(t) {
            self.section = lower_chars(h);
            self.keep(line);
            return ;
        }
        if !is_text(self.section.as_slice(), "events") {
            self.keep(line);
            return ;
        }
        if let Some(rest) = strip_prefix_chars(t, "Format:") {
            self.format = columns_of(rest);
            self.keep(line);
            return ;
        }
        let rest = match strip_prefix_chars(cut_start_chars(line, Cut::White), "Dialogue:") {
            Some(rest) => rest,
            None => {
                self.keep(line);
                return ;
            },
        };
        let at: usize = match position_text(&self.format, "text") {
            Some(at) => at,
            None => {
                self.keep(line);
                return ;
            },
        };
        let mut row = split_fields(cut_start_chars(rest, Cut::White), self.format.len());
        let ghost had = rows(row@);
        let new = rewrite_drawings_in_text(row[at].as_slice(), &mut self.entries);
        let ghost new_text = new@;
        row.set(at, new);
        assert(rows(row@) =~= had.update(at as int, new_text));
        let made = field_line(line, "Dialogue: ", &row);
        self.keep(made.as_slice());
    }
}

/// Replaces the drawings of a subtitle by characters of the drawing font.
pub fn rewrite_drawings_as_font(text: &str, newline: &str) -> (r: DrawSubsetRewrite)
    ensures
        r.text@ == rejoined(file_drawn(text@).out, newline@, text@),
        entry_views(r.entries@) == file_drawn(text@).entries,
{
    let chars = to_chars(text);
    let all = split_lines(chars.as_slice());
    let mut d = Drawer {
        out: Vec::new(),
        section: Vec::new(),
        format: Vec::new(),
        entries: Vec::new(),
    };
    let ghost v = rows(all@);
    let mut i: usize = 0;
    assert(d@ =~= draw_start());
    while i < all.len()
        invariant
            i <= all@.len(),
            v == rows(all@),
            d@ == draw_upto(v, i as int),
        decreases all@.len() - i,
    {
        d.read_line(all[i].as_slice());
        i = i + 1;
    }
    let nl = to_chars(newline);
    let Drawer { out, section: _, format: _, entries } = d;
    DrawSubsetRewrite { text: rejoin(&out, nl.as_slice(), chars.as_slice()), entries }
}

} // verus!
