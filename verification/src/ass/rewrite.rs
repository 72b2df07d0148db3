//! Writing a subtitle again with other fonts: embedding subsets, and putting
//! the original names and drawings back.
use regex::Regex;
use vstd::prelude::*;
use vstd::slice::slice_to_vec;

use crate::ass::draw::{field_line, indent, rejoin, rejoined, DrawEntryView, DrawRestoreEntry};
use crate::ass::fonts::{
    blocks, build_fonts_section, build_fonts_section_from_blocks, comment_names, comment_parts,
    embedded_blocks, section_text, AssEmbeddedFont,
};
use crate::ass::parse::{column_or, columns, columns_of, style_width};
use crate::ass::style::{lookup_name, lookup_name_chars};
use crate::models::{embedded_views, EmbeddedFont, EmbeddedFontView};
use crate::split::{
    after_prefix, fields, header_chars, header_name, join, lines, position_text, split_fields,
    split_lines, strip_prefix_chars,
};
use crate::strmap::{lookup, StrMap};
use crate::text::{
    contains_text, cut_end, cut_end_chars, cut_start_chars, find_from, has_part, is_text,
    lower_chars, lowered, push_text, rows, same_chars, same_text, to_chars, to_text, trim,
    trim_chars, trim_start, Cut,
};

verus! {

// ---------------------------------------------------------------------------
// Font tags
// ---------------------------------------------------------------------------
/// The end of the font name that starts at `i`: the next backslash or closing
/// brace, or the end of the text.
pub open spec fn name_end(s: Seq<char>, i: int) -> int
    decreases s.len() - i,
{
    if 0 <= i < s.len() && s[i] != '\\' && s[i] != '}' {
        name_end(s, i + 1)
    } else {
        i
    }
}

/// Whether `\fn` stands at `i`.
pub open spec fn fn_at(s: Seq<char>, i: int) -> bool {
    0 <= i && i + 3 <= s.len() && s[i] == '\\' && s[i + 1] == 'f' && s[i + 2] == 'n'
}

pub proof fn lemma_name_end(s: Seq<char>, i: int)
    requires
        0 <= i <= s.len(),
    ensures
        i <= name_end(s, i) <= s.len(),
        forall|j: int| i <= j < name_end(s, i) ==> s[j] != '\\' && s[j] != '}',
    decreases s.len() - i,
{
    if i < s.len() && s[i] != '\\' && s[i] != '}' {
        lemma_name_end(s, i + 1);
    }
}

/// What a font tag becomes: the new name where the map has the old one.
pub open spec fn fn_tag(
    whole: Seq<char>,
    name: Seq<char>,
    m: Seq<(Seq<char>, Seq<char>)>,
) -> Seq<char> {
    match lookup(m, lookup_name(name)) {
        Some(new) => "\\fn"@ + new,
        None => whole,
    }
}

/// The text from `i` on with its font tags renamed.
pub open spec fn fn_tags_from(s: Seq<char>, i: int, m: Seq<(Seq<char>, Seq<char>)>) -> Seq<char>
    decreases s.len() - i,
{
    if !(0 <= i < s.len()) {
        seq![]
    } else if fn_at(s, i) {
        let e = name_end(s, i + 3);
        proof {
            lemma_name_end(s, i + 3);
        }
        fn_tag(s.subrange(i, e), s.subrange(i + 3, e), m) + fn_tags_from(s, e, m)
    } else {
        seq![s[i]] + fn_tags_from(s, i + 1, m)
    }
}

/// A line with its font tags renamed.
pub open spec fn fn_tags(s: Seq<char>, m: Seq<(Seq<char>, Seq<char>)>) -> Seq<char> {
    if m.len() == 0 {
        s
    } else {
        fn_tags_from(s, 0, m)
    }
}

fn fn_tag_text(whole: &str, name: &str, m: &StrMap<String>) -> (r: String)
    ensures
        r@ == fn_tag(whole@, name@, m@),
{
    let c = to_chars(name);
    let key = lookup_name_chars(c.as_slice());
    let key_text = to_text(key.as_slice());
    match m.get(key_text.as_str()) {
        Some(new) => {
            let mut out: Vec<char> = Vec::new();
            push_text(&mut out, "\\fn");
            push_text(&mut out, new.as_str());
            assert(out@ =~= "\\fn"@ + new@);
            to_text(out.as_slice())
        },
        None => whole.to_string(),
    }
}

/// `Regex::replace_all` with the pattern `\\fn([^\\}]*)`: every leftmost
/// occurrence of `\fn`, with the longest run of characters behind it that are
/// neither a backslash nor a closing brace, is replaced by what `fn_tag_text`
/// makes of it; the search goes on behind it, and all else stays.
#[verifier::external_body]
fn replace_fn_tags(line: &str, m: &StrMap<String>) -> (r: String)
    ensures
        r@ == fn_tags_from(line@, 0, m@),
{
    let re = Regex::new(r"\\fn([^\\}]*)").expect("fn regex");
    re.replace_all(line, |caps: &regex::Captures<'_>| fn_tag_text(&caps[0], &caps[1], m)).to_string()
}

/// Renames the fonts in the tags of a line.
pub fn rewrite_fn_tags(line: &str, rename_map: &StrMap<String>) -> (r: String)
    ensures
        r@ == fn_tags(line@, rename_map@),
{
    if rename_map.is_empty() {
        line.to_string()
    } else {
        replace_fn_tags(line, rename_map)
    }
}

// ---------------------------------------------------------------------------
// Drawings put back
// ---------------------------------------------------------------------------
/// Whether a run of the drawing font starts at the brace at `i`: tags that name
/// the font, closed at `q`, and one character behind them.
pub open spec fn draw_run_at(s: Seq<char>, i: int) -> bool {
    let q = find_from(s, '}', i + 1);
    0 <= i < s.len() && s[i] == '{' && i < q && q + 1 < s.len() && s[q + 1] != '{' && has_part(
        s.subrange(i + 1, q),
        "\\fnASSDrawSubset"@,
    )
}

/// What a run of the drawing font becomes.
pub open spec fn draw_run(
    whole: Seq<char>,
    ch: Seq<char>,
    m: Seq<(Seq<char>, DrawEntryView)>,
) -> Seq<char> {
    match lookup(m, ch) {
        Some(e) => e.data,
        None => whole,
    }
}

/// The text from `i` on with its drawings put back.
pub open spec fn draw_runs_from(
    s: Seq<char>,
    i: int,
    m: Seq<(Seq<char>, DrawEntryView)>,
) -> Seq<char>
    decreases s.len() - i,
{
    if !(0 <= i < s.len()) {
        seq![]
    } else if draw_run_at(s, i) {
        let q = find_from(s, '}', i + 1);
        draw_run(s.subrange(i, q + 2), s.subrange(q + 1, q + 2), m) + draw_runs_from(s, q + 2, m)
    } else {
        seq![s[i]] + draw_runs_from(s, i + 1, m)
    }
}

/// A line with its drawings put back.
pub open spec fn draw_runs(s: Seq<char>, m: Seq<(Seq<char>, DrawEntryView)>) -> Seq<char> {
    if m.len() == 0 {
        s
    } else {
        draw_runs_from(s, 0, m)
    }
}

fn draw_run_text(whole: &str, ch: &str, m: &StrMap<DrawRestoreEntry>) -> (r: String)
    ensures
        r@ == draw_run(whole@, ch@, m@),
{
    match m.get(ch) {
        Some(e) => e.data.clone(),
        None => whole.to_string(),
    }
}

/// `Regex::replace_all` with the pattern
/// `\{([^}]*)\\fn(ASSDrawSubset[^\\}]*)[^}]*\}([^\{])`: every leftmost brace
/// whose text up to the next closing brace holds `\fnASSDrawSubset`, with one
/// character behind that is no opening brace, is replaced by what
/// `draw_run_text` makes of it and of that character; the search goes on behind
/// it, and all else stays.
#[verifier::external_body]
fn replace_draw_runs(line: &str, m: &StrMap<DrawRestoreEntry>) -> (r: String)
    ensures
        r@ == draw_runs_from(line@, 0, m@),
{
    let re = Regex::new(r"\{([^}]*)\\fn(ASSDrawSubset[^\\}]*)[^}]*\}([^\{])").expect("draw regex");
    re.replace_all(line, |caps: &regex::Captures<'_>| draw_run_text(&caps[0], &caps[3], m)).to_string()
}

/// Puts the drawings of a line back.
pub fn restore_draw_font_runs(line: &str, draw_map: &StrMap<DrawRestoreEntry>) -> (r: String)
    ensures
        r@ == draw_runs(line@, draw_map@),
{
    if draw_map.is_empty() {
        line.to_string()
    } else {
        replace_draw_runs(line, draw_map)
    }
}

// ---------------------------------------------------------------------------
// Style lines
// ---------------------------------------------------------------------------
/// A `Style:` line with its font renamed.
pub open spec fn style_line(
    line: Seq<char>,
    format: Seq<Seq<char>>,
    m: Seq<(Seq<char>, Seq<char>)>,
) -> Seq<char> {
    match after_prefix(trim_start(line), "Style:"@) {
        Some(rest) => {
            let row = fields(trim_start(rest), style_width(format));
            let at = column_or(format, "fontname"@, 1);
            match lookup(m, lookup_name(row[at])) {
                Some(new) => indent(line) + "Style: "@ + join(row.update(at, new), seq![',']),
                None => line,
            }
        },
        None => line,
    }
}

pub fn rewrite_style_line(
    line: &[char],
    style_format: &Vec<Vec<char>>,
    rename_map: &StrMap<String>,
) -> (r: Vec<char>)
    ensures
        r@ == style_line(line@, rows(style_format@), rename_map@),
{
    let rest = match strip_prefix_chars(cut_start_chars(line, Cut::White), "Style:") {
        Some(rest) => rest,
        None => {
            return slice_to_vec(line);
        },
    };
    let width: usize = if style_format.len() > 23 { style_format.len() } else { 23 };
    let mut row = split_fields(cut_start_chars(rest, Cut::White), width);
    let at: usize = match position_text(style_format, "fontname") {
        Some(i) => i,
        None => 1,
    };
    let key = lookup_name_chars(row[at].as_slice());
    let key_text = to_text(key.as_slice());
    let ghost had = rows(row@);
    assert(key@ == lookup_name(had[at as int]));
    match rename_map.get(key_text.as_str()) {
        Some(new) => {
            row.set(at, to_chars(new.as_str()));
            assert(rows(row@) =~= had.update(at as int, new@));
            field_line(line, "Style: ", &row)
        },
        None => slice_to_vec(line),
    }
}

// ---------------------------------------------------------------------------
// Comments
// ---------------------------------------------------------------------------
pub open spec fn subset_comment(new: Seq<char>, original: Seq<char>) -> Seq<char> {
    "; Font Subset: "@ + new + " - "@ + original
}

fn subset_comment_chars(new: &str, original: &str) -> (r: Vec<char>)
    ensures
        r@ == subset_comment(new@, original@),
{
    let mut out: Vec<char> = Vec::new();
    push_text(&mut out, "; Font Subset: ");
    push_text(&mut out, new);
    push_text(&mut out, " - ");
    push_text(&mut out, original);
    assert(out@ =~= subset_comment(new@, original@));
    out
}

/// The comments of the first `n` fonts and the lookup names that have one: each
/// embedded name that is not the original name has one comment.
pub open spec fn font_comments_upto(v: Seq<EmbeddedFontView>, n: int) -> (
    Seq<Seq<char>>,
    Seq<Seq<char>>,
)
    decreases n,
{
    if n <= 0 {
        (seq![], seq![])
    } else {
        let (out, seen) = font_comments_upto(v, n - 1);
        let f = v[n - 1];
        let key = lookup_name(f.embedded_name);
        if f.original_name == f.embedded_name || seen.contains(key) {
            (out, seen)
        } else {
            (out.push(subset_comment(f.embedded_name, f.original_name)), seen.push(key))
        }
    }
}

/// The comments of the first `n` renamings.
pub open spec fn rename_comments_upto(m: Seq<(Seq<char>, Seq<char>)>, n: int) -> Seq<Seq<char>>
    decreases n,
{
    if n <= 0 {
        seq![]
    } else if m[n - 1].0 == lowered(m[n - 1].1) {
        rename_comments_upto(m, n - 1)
    } else {
        rename_comments_upto(m, n - 1).push(subset_comment(m[n - 1].1, m[n - 1].0))
    }
}

/// The comments that say which font a new name stands for: those of the
/// embedded fonts, or those of the renamings where the fonts give none.
pub open spec fn subset_comments(
    fonts: Seq<EmbeddedFontView>,
    m: Seq<(Seq<char>, Seq<char>)>,
) -> Seq<Seq<char>> {
    let of_fonts = font_comments_upto(fonts, fonts.len() as int).0;
    if of_fonts.len() > 0 {
        of_fonts
    } else {
        rename_comments_upto(m, m.len() as int)
    }
}

fn contains_chars(v: &Vec<Vec<char>>, s: &[char]) -> (r: bool)
    ensures
        r == rows(v@).contains(s@),
{
    let mut i: usize = 0;
    while i < v.len()
        invariant
            i <= v@.len(),
            forall|j: int| 0 <= j < i ==> rows(v@)[j] != s@,
        decreases v@.len() - i,
    {
        if same_chars(v[i].as_slice(), s) {
            assert(rows(v@)[i as int] == s@);
            return true;
        }
        i = i + 1;
    }
    false
}

fn comments_for(fonts: &[EmbeddedFont], m: &StrMap<String>) -> (r: Vec<Vec<char>>)
    ensures
        rows(r@) == subset_comments(embedded_views(fonts@), m@),
{
    let ghost v = embedded_views(fonts@);
    let mut out: Vec<Vec<char>> = Vec::new();
    let mut seen: Vec<Vec<char>> = Vec::new();
    let mut i: usize = 0;
    assert(rows(out@) =~= seq![]);
    assert(rows(seen@) =~= seq![]);
    while i < fonts.len()
        invariant
            i <= fonts@.len(),
            v == embedded_views(fonts@),
            (rows(out@), rows(seen@)) == font_comments_upto(v, i as int),
        decreases fonts@.len() - i,
    {
        let font = &fonts[i];
        assert(v[i as int] == font@);
        if !same_text(font.original_name.as_str(), font.embedded_name.as_str()) {
            let c = to_chars(font.embedded_name.as_str());
            let key = lookup_name_chars(c.as_slice());
            if !contains_chars(&seen, key.as_slice()) {
                let ghost (had, had_seen) = (rows(out@), rows(seen@));
                let ghost kv = key@;
                seen.push(key);
                out.push(
                    subset_comment_chars(font.embedded_name.as_str(), font.original_name.as_str()),
                );
                assert(rows(seen@) =~= had_seen.push(kv));
                assert(rows(out@) =~= had.push(
                    subset_comment(font.embedded_name@, font.original_name@),
                ));
            }
        }
        i = i + 1;
    }
    if out.len() > 0 {
        return out;
    }
    let mut made: Vec<Vec<char>> = Vec::new();
    let mut k: usize = 0;
    assert(rows(made@) =~= seq![]);
    while k < m.len()
        invariant
            k <= m@.len(),
            rows(made@) == rename_comments_upto(m@, k as int),
        decreases m@.len() - k,
    {
        let orig = m.key(k);
        let new = m.value(k);
        let low = crate::text::lower_text(new.as_str());
        if !same_text(orig.as_str(), low.as_str()) {
            let ghost had = rows(made@);
            made.push(subset_comment_chars(new.as_str(), orig.as_str()));
            assert(rows(made@) =~= had.push(subset_comment(new@, orig@)));
        }
        k = k + 1;
    }
    made
}

// ---------------------------------------------------------------------------
// Embedding fonts
// ---------------------------------------------------------------------------
/// What a rewrite puts in: the names, the section and the comments.
#[verifier::ext_equal]
pub struct EmbedPlan {
    pub names: Seq<(Seq<char>, Seq<char>)>,
    pub fonts: Seq<char>,
    pub comments: Seq<Seq<char>>,
}

/// What has been written of a file.
#[verifier::ext_equal]
pub struct RewriteView {
    pub out: Seq<Seq<char>>,
    pub section: Seq<char>,
    pub skipping: bool,
    pub inserted: bool,
    pub commented: bool,
    pub format: Seq<Seq<char>>,
}

pub open spec fn rewrite_start() -> RewriteView {
    RewriteView {
        out: seq![],
        section: seq![],
        skipping: false,
        inserted: false,
        commented: false,
        format: seq![],
    }
}

/// The file after a section header: the old fonts are passed over, the new ones
/// come before the events, and the comments at the top of the script info.
pub open spec fn rewrite_header(
    st: RewriteView,
    line: Seq<char>,
    h: Seq<char>,
    fonts: Seq<char>,
    comments: Seq<Seq<char>>,
) -> RewriteView {
    let section = lowered(h);
    if section == "fonts"@ {
        RewriteView { skipping: true, section, ..st }
    } else {
        let inserts = section == "events"@ && !st.inserted && fonts.len() > 0;
        let before = if inserts {
            st.out.push(fonts).push(line)
        } else {
            st.out.push(line)
        };
        let comments_now = section == "script info"@ && !st.commented;
        RewriteView {
            out: if comments_now {
                before + comments
            } else {
                before
            },
            section,
            skipping: false,
            inserted: st.inserted || inserts,
            commented: st.commented || comments_now,
            format: st.format,
        }
    }
}

/// The file after a line of the styles.
pub open spec fn rewrite_style(
    st: RewriteView,
    line: Seq<char>,
    t: Seq<char>,
    m: Seq<(Seq<char>, Seq<char>)>,
) -> RewriteView {
    match after_prefix(t, "Format:"@) {
        Some(rest) => RewriteView { out: st.out.push(line), format: columns(rest), ..st },
        None => match after_prefix(t, "Style:"@) {
            Some(_) => RewriteView { out: st.out.push(style_line(line, st.format, m)), ..st },
            None => RewriteView { out: st.out.push(line), ..st },
        },
    }
}

/// The file after one more line.
pub open spec fn embed_line(st: RewriteView, raw: Seq<char>, p: EmbedPlan) -> RewriteView {
    let line = cut_end(raw, Cut::CarriageReturn);
    let t = trim(line);
    match header_name(t) {
        Some(h) => rewrite_header(st, line, h, p.fonts, p.comments),
        None => if st.skipping {
            st
        } else if st.section == "script info"@ && after_prefix(t, "; Font Subset:"@) is Some {
            st
        } else if has_part(st.section, "styles"@) {
            rewrite_style(st, line, t, p.names)
        } else if st.section == "events"@ {
            RewriteView { out: st.out.push(fn_tags(line, p.names)), ..st }
        } else {
            RewriteView { out: st.out.push(line), ..st }
        },
    }
}

pub open spec fn embed_upto(v: Seq<Seq<char>>, n: int, p: EmbedPlan) -> RewriteView
    decreases n,
{
    if n <= 0 {
        rewrite_start()
    } else {
        embed_line(embed_upto(v, n - 1, p), v[n - 1], p)
    }
}

/// The lines of the file, with the fonts at the end where there were no events.
pub open spec fn with_fonts(st: RewriteView, fonts: Seq<char>) -> Seq<Seq<char>> {
    if !st.inserted && fonts.len() > 0 {
        st.out.push(fonts)
    } else {
        st.out
    }
}

pub open spec fn embed_plan(
    fonts: Seq<EmbeddedFontView>,
    newline: Seq<char>,
    m: Seq<(Seq<char>, Seq<char>)>,
) -> EmbedPlan {
    EmbedPlan {
        names: m,
        fonts: section_text(embedded_blocks(fonts), newline),
        comments: subset_comments(fonts, m),
    }
}

/// A file with its fonts renamed and embedded.
pub open spec fn embedded_file(
    s: Seq<char>,
    newline: Seq<char>,
    m: Seq<(Seq<char>, Seq<char>)>,
    fonts: Seq<EmbeddedFontView>,
) -> Seq<char> {
    let p = embed_plan(fonts, newline, m);
    let st = embed_upto(lines(s), lines(s).len() as int, p);
    rejoined(with_fonts(st, p.fonts), newline, s)
}

struct Writer {
    out: Vec<Vec<char>>,
    section: Vec<char>,
    skipping: bool,
    inserted: bool,
    commented: bool,
    format: Vec<Vec<char>>,
}

impl View for Writer {
    type V = RewriteView;

    closed spec fn view(&self) -> RewriteView {
        RewriteView {
            out: rows(self.out@),
            section: self.section@,
            skipping: self.skipping,
            inserted: self.inserted,
            commented: self.commented,
            format: rows(self.format@),
        }
    }
}

impl Writer {
    fn new() -> (r: Self)
        ensures
            r@ == rewrite_start(),
    {
        let r = Writer {
            out: Vec::new(),
            section: Vec::new(),
            skipping: false,
            inserted: false,
            commented: false,
            format: Vec::new(),
        };
        assert(r@ =~= rewrite_start());
        r
    }

    fn keep(&mut self, line: &[char])
        ensures
            final(self)@ == (RewriteView { out: old(self)@.out.push(line@), ..old(self)@ }),
    {
        let ghost before = rows(self.out@);
        self.out.push(slice_to_vec(line));
        assert(rows(self.out@) =~= before.push(line@));
    }

    fn keep_all(&mut self, v: &Vec<Vec<char>>)
        ensures
            final(self)@ == (RewriteView { out: old(self)@.out + rows(v@), ..old(self)@ }),
    {
        let ghost before = self@;
        let mut i: usize = 0;
        assert(self@ =~= RewriteView { out: before.out + rows(v@).take(0), ..before });
        while i < v.len()
            invariant
                i <= v@.len(),
                self@ == (RewriteView { out: before.out + rows(v@).take(i as int), ..before }),
            decreases v@.len() - i,
        {
            self.keep(v[i].as_slice());
            assert(self@.out =~= before.out + rows(v@).take(i + 1));
            i = i + 1;
        }
        assert(rows(v@).take(v@.len() as int) =~= rows(v@));
    }

    fn read_header(&mut self, line: &[char], h: &[char], fonts: &[char], comments: &Vec<Vec<char>>)
        ensures
            final(self)@ == rewrite_header(old(self)@, line@, h@, fonts@, rows(comments@)),
    {
        let section = lower_chars(h);
        if is_text(section.as_slice(), "fonts") {
            self.skipping = true;
            self.section = section;
            return ;
        }
        self.skipping = false;
        if is_text(section.as_slice(), "events") && !self.inserted && fonts.len() > 0 {
            self.keep(fonts);
            self.inserted = true;
        }
        let info = is_text(section.as_slice(), "script info");
        self.section = section;
        self.keep(line);
        if info && !self.commented {
            self.keep_all(comments);
            self.commented = true;
        }
    }

    fn read_style(&mut self, line: &[char], t: &[char], m: &StrMap<String>)
        ensures
            final(self)@ == rewrite_style(old(self)@, line@, t@, m@),
    {
        if let Some(rest) = strip_prefix_chars(t, "Format:") {
            self.format = columns_of(rest);
            self.keep(line);
        } else if let Some(_rest) = strip_prefix_chars(t, "Style:") {
            let made = rewrite_style_line(line, &self.format, m);
            self.keep(made.as_slice());
        } else {
            self.keep(line);
        }
    }

    fn embed(&mut self, raw: &[char], m: &StrMap<String>, fonts: &[char], comments: &Vec<Vec<char>>)
        ensures
            final(self)@ == embed_line(
                old(self)@,
                raw@,
                EmbedPlan { names: m@, fonts: fonts@, comments: rows(comments@) },
            ),
    {
        let line = cut_end_chars(raw, Cut::CarriageReturn);
        let t = trim_chars(line);
        if let Some(h) = header_chars(t) {
            self.read_header(line, h, fonts, comments);
            return ;
        }
        if self.skipping {
            return ;
        }
        if is_text(self.section.as_slice(), "script info") {
            if let Some(_rest) = strip_prefix_chars(t, "; Font Subset:") {
                return ;
            }
        }
        if contains_text(self.section.as_slice(), "styles") {
            self.read_style(line, t, m);
        } else if is_text(self.section.as_slice(), "events") {
            let text = to_text(line);
            let made = rewrite_fn_tags(text.as_str(), m);
            let c = to_chars(made.as_str());
            self.keep(c.as_slice());
        } else {
            self.keep(line);
        }
    }

    fn finish(self, fonts: &[char], newline: &[char], s: &[char]) -> (r: String)
        ensures
            r@ == rejoined(with_fonts(self@, fonts@), newline@, s@),
    {
        let mut w = self;
        if !w.inserted && fonts.len() > 0 {
            w.keep(fonts);
        }
        rejoin(&w.out, newline, s)
    }
}

/// Writes a subtitle with its fonts renamed and embedded.
pub fn rewrite_with_embedded_fonts(
    text: &str,
    newline: &str,
    rename_map: &StrMap<String>,
    embedded_fonts: &[EmbeddedFont],
) -> (r: String)
    ensures
        r@ == embedded_file(text@, newline@, rename_map@, embedded_views(embedded_fonts@)),
{
    let chars = to_chars(text);
    let nl = to_chars(newline);
    let fonts = build_fonts_section(embedded_fonts, nl.as_slice());
    let comments = comments_for(embedded_fonts, rename_map);
    let all = split_lines(chars.as_slice());
    let ghost v = rows(all@);
    let ghost p = embed_plan(embedded_views(embedded_fonts@), newline@, rename_map@);
    let mut w = Writer::new();
    let mut i: usize = 0;
    while i < all.len()
        invariant
            i <= all@.len(),
            v == rows(all@),
            p == (EmbedPlan { names: rename_map@, fonts: fonts@, comments: rows(comments@) }),
            w@ == embed_upto(v, i as int, p),
        decreases all@.len() - i,
    {
        w.embed(all[i].as_slice(), rename_map, fonts.as_slice(), &comments);
        i = i + 1;
    }
    w.finish(fonts.as_slice(), nl.as_slice(), chars.as_slice())
}

// ---------------------------------------------------------------------------
// Taking fonts out
// ---------------------------------------------------------------------------
/// What a strip puts in.
#[verifier::ext_equal]
pub struct StripPlan {
    pub names: Seq<(Seq<char>, Seq<char>)>,
    pub fonts: Seq<char>,
    pub drawings: Seq<(Seq<char>, DrawEntryView)>,
}

/// Whether a line is the comment of a font that gets its name back.
pub open spec fn restored_comment(t: Seq<char>, m: Seq<(Seq<char>, Seq<char>)>) -> bool {
    match comment_names(t) {
        Some((subset, _)) => lookup(m, lookup_name(subset)) is Some,
        None => false,
    }
}

pub fn is_restored_subset_comment(t: &[char], restore_map: &StrMap<String>) -> (r: bool)
    ensures
        r == restored_comment(t@, restore_map@),
{
    match comment_parts(t) {
        Some((subset, _original)) => {
            let key = lookup_name_chars(subset.as_slice());
            let k = to_text(key.as_slice());
            restore_map.contains_key(k.as_str())
        },
        None => false,
    }
}

/// The file after one more line.
pub open spec fn strip_line(st: RewriteView, raw: Seq<char>, p: StripPlan) -> RewriteView {
    let line = cut_end(raw, Cut::CarriageReturn);
    let t = trim(line);
    match header_name(t) {
        Some(h) => rewrite_header(st, line, h, p.fonts, seq![]),
        None => if st.skipping {
            st
        } else if restored_comment(t, p.names) {
            st
        } else if has_part(st.section, "styles"@) {
            rewrite_style(st, line, t, p.names)
        } else if st.section == "events"@ {
            RewriteView { out: st.out.push(draw_runs(fn_tags(line, p.names), p.drawings)), ..st }
        } else {
            RewriteView { out: st.out.push(line), ..st }
        },
    }
}

pub open spec fn strip_upto(v: Seq<Seq<char>>, n: int, p: StripPlan) -> RewriteView
    decreases n,
{
    if n <= 0 {
        rewrite_start()
    } else {
        strip_line(strip_upto(v, n - 1, p), v[n - 1], p)
    }
}

/// A file with its subset fonts taken out and their names put back.
pub open spec fn stripped_file(s: Seq<char>, newline: Seq<char>, p: StripPlan) -> Seq<char> {
    let st = strip_upto(lines(s), lines(s).len() as int, p);
    rejoined(with_fonts(st, p.fonts), newline, s)
}

impl Writer {
    fn strip(
        &mut self,
        raw: &[char],
        m: &StrMap<String>,
        fonts: &[char],
        drawings: &StrMap<DrawRestoreEntry>,
    )
        ensures
            final(self)@ == strip_line(
                old(self)@,
                raw@,
                StripPlan { names: m@, fonts: fonts@, drawings: drawings@ },
            ),
    {
        let line = cut_end_chars(raw, Cut::CarriageReturn);
        let t = trim_chars(line);
        if let Some(h) = header_chars(t) {
            let none: Vec<Vec<char>> = Vec::new();
            assert(rows(none@) =~= seq![]);
            self.read_header(line, h, fonts, &none);
            return ;
        }
        if self.skipping {
            return ;
        }
        if is_restored_subset_comment(t, m) {
            return ;
        }
        if contains_text(self.section.as_slice(), "styles") {
            self.read_style(line, t, m);
        } else if is_text(self.section.as_slice(), "events") {
            let text = to_text(line);
            let renamed = rewrite_fn_tags(text.as_str(), m);
            let made = restore_draw_font_runs(renamed.as_str(), drawings);
            let c = to_chars(made.as_str());
            self.keep(c.as_slice());
        } else {
            self.keep(line);
        }
    }
}

/// Writes a subtitle without its subset fonts: the names and drawings are put
/// back, and the fonts that are not subsets are kept.
pub fn rewrite_strip_embedded(
    text: &str,
    newline: &str,
    restore_map: &StrMap<String>,
    kept_fonts: &[AssEmbeddedFont],
    draw_map: &StrMap<DrawRestoreEntry>,
) -> (r: String)
    ensures
        r@ == stripped_file(
            text@,
            newline@,
            StripPlan {
                names: restore_map@,
                fonts: section_text(blocks(kept_fonts@), newline@),
                drawings: draw_map@,
            },
        ),
{
    let chars = to_chars(text);
    let nl = to_chars(newline);
    let fonts = build_fonts_section_from_blocks(kept_fonts, nl.as_slice());
    let all = split_lines(chars.as_slice());
    let ghost v = rows(all@);
    let ghost p = StripPlan { names: restore_map@, fonts: fonts@, drawings: draw_map@ };
    let mut w = Writer::new();
    let mut i: usize = 0;
    while i < all.len()
        invariant
            i <= all@.len(),
            v == rows(all@),
            p == (StripPlan { names: restore_map@, fonts: fonts@, drawings: draw_map@ }),
            w@ == strip_upto(v, i as int, p),
        decreases all@.len() - i,
    {
        w.strip(all[i].as_slice(), restore_map, fonts.as_slice(), draw_map);
        i = i + 1;
    }
    w.finish(fonts.as_slice(), nl.as_slice(), chars.as_slice())
}

} // verus!
