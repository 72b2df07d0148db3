//! Reading a subtitle: its styles, and which code points it needs of which font.
use vstd::prelude::*;
use vstd::slice::slice_subrange;

use crate::ass::style::{
    boolish, boolish_chars, copy_style, font_name, norm_font_chars, slot_for_state, style_slot,
    StyleInfo, StyleView,
};
use crate::ass::tags::{after_tags, apply_override_tags, TagState};
use crate::ass::usage::{note, noted, FontUsage, UsageView};
use crate::split::{
    after_prefix, fields, header_chars, header_name, lines, lines_from, lower_trim_all,
    lower_trimmed, position, position_text, split, split_chars, split_fields, split_lines,
    strip_prefix_chars,
};
use crate::strmap::{lookup, put, StrMap};
use crate::text::{
    code, contains_text, control, cut_end, cut_end_chars, cut_start_chars, find_char_from, find_from,
    has_part, is_control, is_text, lemma_find_from, lower_chars, lowered, rows, to_chars, to_text,
    trim, trim_chars, trim_start, Cut,
};

verus! {

/// What a subtitle says of its fonts.
#[derive(Debug)]
pub struct ParsedSubtitle {
    pub newline: String,
    pub styles: StrMap<StyleInfo>,
    pub usages: StrMap<FontUsage>,
    pub drawing_count: usize,
}

// ---------------------------------------------------------------------------
// One line of dialogue
// ---------------------------------------------------------------------------
/// What has been read of a line of dialogue.
#[verifier::ext_equal]
pub struct Run {
    pub style: StyleView,
    pub level: int,
    pub drawings: int,
    pub usages: Seq<(Seq<char>, UsageView)>,
}

/// The line from `i` on: tags change the state, drawing commands are passed
/// over, and every other character but a control character is noted.
pub open spec fn dialogue_from(
    s: Seq<char>,
    i: int,
    run: Run,
    base: StyleView,
    styles: Seq<(Seq<char>, StyleView)>,
) -> Run
    decreases s.len() - i,
{
    if !(0 <= i < s.len()) {
        run
    } else {
        let close = find_from(s, '}', i + 1);
        if s[i] == '{' && i < close < s.len() {
            let st = after_tags(
                s.subrange(i + 1, close),
                TagState { style: run.style, level: run.level },
                base,
                styles,
            );
            let starts = if run.level <= 0 && st.level > 0 { 1int } else { 0 };
            dialogue_from(
                s,
                close + 1,
                Run {
                    style: st.style,
                    level: st.level,
                    drawings: run.drawings + starts,
                    usages: run.usages,
                },
                base,
                styles,
            )
        } else if run.level > 0 {
            dialogue_from(s, i + 1, run, base, styles)
        } else if s[i] == '\\' && i + 1 < s.len() && (s[i + 1] == 'N' || s[i + 1] == 'n' || s[i + 1]
            == 'h') {
            dialogue_from(s, i + 2, run, base, styles)
        } else if is_control(s[i]) {
            dialogue_from(s, i + 1, run, base, styles)
        } else {
            let usages = noted(
                run.usages,
                font_name(run.style.font),
                style_slot(run.style.bold, run.style.italic),
                s[i] as u32,
            );
            dialogue_from(s, i + 1, Run { usages, ..run }, base, styles)
        }
    }
}

/// A whole line of dialogue in a style.
pub open spec fn dialogue(
    s: Seq<char>,
    base: StyleView,
    styles: Seq<(Seq<char>, StyleView)>,
    usages: Seq<(Seq<char>, UsageView)>,
) -> Run {
    dialogue_from(s, 0, Run { style: base, level: 0, drawings: 0, usages }, base, styles)
}

/// Notes the code points of a line of dialogue and counts its drawings.
pub fn parse_dialogue_text(
    chars: &[char],
    base_style: &StyleInfo,
    styles: &StrMap<StyleInfo>,
    usages: &mut StrMap<FontUsage>,
) -> (r: usize)
    ensures
        final(usages)@ == dialogue(chars@, base_style@, styles@, old(usages)@).usages,
        r == dialogue(chars@, base_style@, styles@, old(usages)@).drawings,
        r <= chars@.len(),
{
    let n = chars.len();
    let mut state = copy_style(base_style);
    let mut drawing_level: i32 = 0;
    let mut drawing_count: usize = 0;
    let mut i: usize = 0;
    let ghost want = dialogue(chars@, base_style@, styles@, usages@);
    while i < n
        invariant
            i <= n == chars@.len(),
            drawing_count <= i,
            dialogue_from(
                chars@,
                i as int,
                Run {
                    style: state@,
                    level: drawing_level as int,
                    drawings: drawing_count as int,
                    usages: usages@,
                },
                base_style@,
                styles@,
            ) == want,
        decreases n - i,
    {
        if chars[i] == '{' {
            let close = find_char_from(chars, '}', i + 1);
            if close < n {
                let tag = slice_subrange(chars, i + 1, close);
                let was_drawing = drawing_level > 0;
                apply_override_tags(tag, &mut state, base_style, styles, &mut drawing_level);
                if !was_drawing && drawing_level > 0 {
                    drawing_count = drawing_count + 1;
                }
                i = close + 1;
                continue ;
            }
        }
        proof {
            lemma_find_from(chars@, '}', i + 1);
        }
        if drawing_level <= 0 {
            if chars[i] == '\\' && n - i > 1 && (chars[i + 1] == 'N' || chars[i + 1] == 'n'
                || chars[i + 1] == 'h') {
                i = i + 2;
                continue ;
            }
            let ch = chars[i];
            if !control(ch) {
                let slot = slot_for_state(&state);
                let name = to_chars(state.font.as_str());
                let font = to_text(norm_font_chars(name.as_slice()));
                note(usages, font, slot, code(ch));
            }
        }
        i = i + 1;
    }
    drawing_count
}

// ---------------------------------------------------------------------------
// The lines of a file
// ---------------------------------------------------------------------------
/// What has been read of a file.
#[verifier::ext_equal]
pub struct ParseView {
    pub section: Seq<char>,
    pub style_format: Seq<Seq<char>>,
    pub event_format: Seq<Seq<char>>,
    pub styles: Seq<(Seq<char>, StyleView)>,
    pub usages: Seq<(Seq<char>, UsageView)>,
    pub drawings: int,
}

/// The column names of a `Format:` line.
pub open spec fn columns(rest: Seq<char>) -> Seq<Seq<char>> {
    lower_trimmed(split(rest, ','))
}

/// How many fields a style line has.
pub open spec fn style_width(format: Seq<Seq<char>>) -> int {
    if format.len() > 23 {
        format.len() as int
    } else {
        23
    }
}

/// The column of a name, or a fixed one where no column has it.
pub open spec fn column_or(format: Seq<Seq<char>>, name: Seq<char>, other: int) -> int {
    match position(format, name) {
        Some(i) => i,
        None => other,
    }
}

/// Whether the field of a column says yes.
pub open spec fn column_flag(
    format: Seq<Seq<char>>,
    row: Seq<Seq<char>>,
    name: Seq<char>,
) -> bool {
    match position(format, name) {
        Some(i) => boolish(row[i]),
        None => false,
    }
}

/// The styles after a `Style:` line.
pub open spec fn with_style(
    styles: Seq<(Seq<char>, StyleView)>,
    format: Seq<Seq<char>>,
    rest: Seq<char>,
) -> Seq<(Seq<char>, StyleView)> {
    let row = fields(trim(rest), style_width(format));
    let name = trim(row[column_or(format, "name"@, 0)]);
    let font = font_name(trim(row[column_or(format, "fontname"@, 1)]));
    if name.len() > 0 && font.len() > 0 {
        put(
            styles,
            name,
            StyleView {
                font,
                bold: column_flag(format, row, "bold"@),
                italic: column_flag(format, row, "italic"@),
            },
        )
    } else {
        styles
    }
}

/// The style of a line whose style is not defined.
pub open spec fn fallback_style() -> StyleView {
    StyleView { font: "Arial"@, bold: false, italic: false }
}

/// The state after a `Dialogue:` line.
pub open spec fn with_dialogue(st: ParseView, rest: Seq<char>) -> ParseView {
    let format = st.event_format;
    let row = fields(trim_start(rest), format.len() as int);
    match (position(format, "style"@), position(format, "text"@)) {
        (Some(s), Some(t)) => {
            let base = match lookup(st.styles, trim(row[s])) {
                Some(b) => b,
                None => fallback_style(),
            };
            let run = dialogue(row[t], base, st.styles, st.usages);
            ParseView { usages: run.usages, drawings: st.drawings + run.drawings, ..st }
        },
        _ => st,
    }
}

/// The state after one more line.
pub open spec fn parse_line(st: ParseView, raw: Seq<char>) -> ParseView {
    let line = cut_end(raw, Cut::CarriageReturn);
    let t = trim(line);
    match header_name(t) {
        Some(h) => ParseView { section: lowered(h), ..st },
        None => if has_part(st.section, "styles"@) {
            match (after_prefix(t, "Format:"@), after_prefix(t, "Style:"@)) {
                (Some(rest), _) => ParseView { style_format: columns(rest), ..st },
                (None, Some(rest)) => ParseView {
                    styles: with_style(st.styles, st.style_format, rest),
                    ..st
                },
                _ => st,
            }
        } else if st.section == "events"@ {
            match (after_prefix(t, "Format:"@), after_prefix(trim_start(line), "Dialogue:"@)) {
                (Some(rest), _) => ParseView { event_format: columns(rest), ..st },
                (None, Some(rest)) => with_dialogue(st, rest),
                _ => st,
            }
        } else {
            st
        },
    }
}

pub open spec fn parse_start() -> ParseView {
    ParseView {
        section: seq![],
        style_format: seq![],
        event_format: seq![],
        styles: seq![],
        usages: seq![],
        drawings: 0,
    }
}

/// The state after the first `n` lines.
pub open spec fn parse_upto(v: Seq<Seq<char>>, n: int) -> ParseView
    decreases n,
{
    if n <= 0 {
        parse_start()
    } else {
        parse_line(parse_upto(v, n - 1), v[n - 1])
    }
}

/// What a file says of its fonts.
pub open spec fn parsed(s: Seq<char>) -> ParseView {
    parse_upto(lines(s), lines(s).len() as int)
}

/// The line break of a file.
pub open spec fn newline_of(s: Seq<char>) -> Seq<char> {
    if has_part(s, "\r\n"@) {
        "\r\n"@
    } else {
        "\n"@
    }
}

pub fn detect_newline(s: &[char]) -> (r: &'static str)
    ensures
        r@ == newline_of(s@),
{
    if contains_text(s, "\r\n") {
        "\r\n"
    } else {
        "\n"
    }
}

pub fn columns_of(rest: &[char]) -> (r: Vec<Vec<char>>)
    ensures
        rows(r@) == columns(rest@),
{
    let parts = split_chars(rest, ',');
    lower_trim_all(&parts)
}

/// Reads the field of a column as yes or no.
fn flag_of(format: &Vec<Vec<char>>, row: &Vec<Vec<char>>, name: &str) -> (r: bool)
    requires
        row@.len() >= format@.len(),
    ensures
        r == column_flag(rows(format@), rows(row@), name@),
{
    match position_text(format, name) {
        Some(i) => boolish_chars(row[i].as_slice()),
        None => false,
    }
}

struct Reader {
    section: Vec<char>,
    style_format: Vec<Vec<char>>,
    event_format: Vec<Vec<char>>,
    styles: StrMap<StyleInfo>,
    usages: StrMap<FontUsage>,
    drawings: usize,
}

impl View for Reader {
    type V = ParseView;

    closed spec fn view(&self) -> ParseView {
        ParseView {
            section: self.section@,
            style_format: rows(self.style_format@),
            event_format: rows(self.event_format@),
            styles: self.styles@,
            usages: self.usages@,
            drawings: self.drawings as int,
        }
    }
}

impl Reader {
    fn read_style(&mut self, rest: &[char])
        ensures
            final(self)@ == (ParseView {
                styles: with_style(old(self)@.styles, old(self)@.style_format, rest@),
                ..old(self)@
            }),
            final(self).drawings == old(self).drawings,
    {
        let width: usize = if self.style_format.len() > 23 {
            self.style_format.len()
        } else {
            23
        };
        let row = split_fields(trim_chars(rest), width);
        let name_at: usize = match position_text(&self.style_format, "name") {
            Some(i) => i,
            None => 0,
        };
        let font_at: usize = match position_text(&self.style_format, "fontname") {
            Some(i) => i,
            None => 1,
        };
        assert(row@.len() == style_width(self@.style_format));
        let name = trim_chars(row[name_at].as_slice());
        let font = norm_font_chars(trim_chars(row[font_at].as_slice()));
        if name.len() > 0 && font.len() > 0 {
            let style = StyleInfo {
                font: to_text(font),
                bold: flag_of(&self.style_format, &row, "bold"),
                italic: flag_of(&self.style_format, &row, "italic"),
            };
            self.styles.insert(to_text(name), style);
        }
    }

    fn read_dialogue(&mut self, rest: &[char])
        requires
            old(self).drawings + rest@.len() <= usize::MAX,
        ensures
            final(self)@ == with_dialogue(old(self)@, rest@),
            old(self).drawings <= final(self).drawings <= old(self).drawings + rest@.len(),
    {
        let row = split_fields(cut_start_chars(rest, Cut::White), self.event_format.len());
        let style_at: usize = match position_text(&self.event_format, "style") {
            Some(i) => i,
            None => {
                return ;
            },
        };
        let text_at: usize = match position_text(&self.event_format, "text") {
            Some(i) => i,
            None => {
                return ;
            },
        };
        let name = to_text(trim_chars(row[style_at].as_slice()));
        let base = match self.styles.get(name.as_str()) {
            Some(s) => copy_style(s),
            None => StyleInfo { font: "Arial".to_string(), bold: false, italic: false },
        };
        let n = parse_dialogue_text(
            row[text_at].as_slice(),
            &base,
            &self.styles,
            &mut self.usages,
        );
        self.drawings = self.drawings + n;
    }

    fn read_line(&mut self, raw: &[char])
        requires
            old(self).drawings + raw@.len() <= usize::MAX,
        ensures
            final(self)@ == parse_line(old(self)@, raw@),
            final(self).drawings <= old(self).drawings + raw@.len(),
    {
        let line = cut_end_chars(raw, Cut::CarriageReturn);
        let t = trim_chars(line);
        if let Some(h) = header_chars(t) {
            self.section = lower_chars(h);
            return ;
        }
        if contains_text(self.section.as_slice(), "styles") {
            if let Some(rest) = strip_prefix_chars(t, "Format:") {
                self.style_format = columns_of(rest);
            } else if let Some(rest) = strip_prefix_chars(t, "Style:") {
                self.read_style(rest);
            }
        } else if is_text(self.section.as_slice(), "events") {
            if let Some(rest) = strip_prefix_chars(t, "Format:") {
                self.event_format = columns_of(rest);
            } else if let Some(rest) = strip_prefix_chars(
                cut_start_chars(line, Cut::White),
                "Dialogue:",
            ) {
                self.read_dialogue(rest);
            }
        }
    }
}

/// The number of characters in a list of texts.
pub open spec fn total(v: Seq<Seq<char>>) -> int
    decreases v.len(),
{
    if v.len() == 0 {
        0
    } else {
        v[0].len() + total(v.skip(1))
    }
}

/// The lines of a text hold no more characters than the text.
pub proof fn lemma_lines_total(s: Seq<char>, i: int)
    requires
        0 <= i <= s.len(),
    ensures
        total(lines_from(s, i)) <= s.len() - i,
    decreases s.len() - i,
{
    lemma_find_from(s, '\n', i);
    let k = find_from(s, '\n', i);
    let v = lines_from(s, i);
    if i < s.len() {
        if k < s.len() {
            lemma_lines_total(s, k + 1);
            assert(v.skip(1) =~= lines_from(s, k + 1));
        } else {
            assert(v[0] == s.skip(i));
            assert(total(v.skip(1)) == 0);
        }
    }
}

/// Reads the styles of a subtitle and the code points it needs of each font.
pub fn parse_subtitle(text: &str) -> (r: ParsedSubtitle)
    ensures
        r.newline@ == newline_of(text@),
        r.styles@ == parsed(text@).styles,
        r.usages@ == parsed(text@).usages,
        r.drawing_count == parsed(text@).drawings,
{
    let chars = to_chars(text);
    let all = split_lines(chars.as_slice());
    let mut reader = Reader {
        section: Vec::new(),
        style_format: Vec::new(),
        event_format: Vec::new(),
        styles: StrMap::new(),
        usages: StrMap::new(),
        drawings: 0,
    };
    let ghost v = rows(all@);
    let limit = chars.len();
    let mut i: usize = 0;
    proof {
        lemma_lines_total(text@, 0);
        assert(v.skip(0) =~= v);
        assert(reader@ =~= parse_start());
    }
    while i < all.len()
        invariant
            i <= all@.len(),
            v == rows(all@),
            reader@ == parse_upto(v, i as int),
            reader.drawings + total(v.skip(i as int)) <= limit,
        decreases all@.len() - i,
    {
        assert(v.skip(i as int)[0] == v[i as int]);
        assert(v.skip(i as int).skip(1) =~= v.skip(i + 1));
        proof {
            lemma_total_nonnegative(v.skip(i + 1));
        }
        reader.read_line(all[i].as_slice());
        i = i + 1;
    }
    let Reader { section: _, style_format: _, event_format: _, styles, usages, drawings } = reader;
    ParsedSubtitle {
        newline: detect_newline(chars.as_slice()).to_string(),
        styles,
        usages,
        drawing_count: drawings,
    }
}

proof fn lemma_total_nonnegative(v: Seq<Seq<char>>)
    ensures
        0 <= total(v),
    decreases v.len(),
{
    if v.len() > 0 {
        lemma_total_nonnegative(v.skip(1));
    }
}

} // verus!
