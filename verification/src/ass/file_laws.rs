//! How the lines of a subtitle are read: its sections, the columns of its
//! formats, its styles and its dialogue.
use vstd::prelude::*;

use crate::ass::font_laws::lemma_trimmed_ends;
use crate::ass::name_laws::{lemma_fields_of_join, lemma_indent, lemma_join_begins, plain_fields};
use crate::ass::parse::{
    columns, dialogue, newline_of, parse_line, parse_upto, parsed, ParseView,
};
use crate::ass::parse_laws::{draws, is_break, is_shown, law_plain_text_drawn, law_usages_only_grow};
use crate::ass::style::{boolish, font_name, StyleView};
use crate::line_laws::{lemma_join_cons, lemma_trim_is};
use crate::split::{
    after_prefix, fields, fields_from, join, lines, position, position_from, split, split_from,
};
use crate::strmap::{law_lookup_put, lookup};
use crate::text::{
    cut_end, has_part, is_white, lemma_find_is, lower, lowered, stands_at, trim, trim_start, Cut,
};

verus! {

/// A column is the first of its name.
pub open spec fn first_column(format: Seq<Seq<char>>, i: int, name: Seq<char>) -> bool {
    &&& 0 <= i < format.len()
    &&& format[i] == name
    &&& forall|j: int| 0 <= j < i ==> (#[trigger] format[j]) != name
}

pub proof fn lemma_first_column(format: Seq<Seq<char>>, i: int, name: Seq<char>, from: int)
    requires
        first_column(format, i, name),
        0 <= from <= i,
    ensures
        position_from(format, name, from) == Some(i),
    decreases i - from,
{
    if from < i {
        assert(format[from] != name);
        lemma_first_column(format, i, name, from + 1);
    }
}

/// A line that is written without white space at its ends is read as it stands.
pub proof fn lemma_written_line(line: Seq<char>)
    requires
        line.len() > 0,
        !is_white(line[0]),
        !is_white(line.last()),
    ensures
        trim(line) == line,
        trim_start(line) == line,
        cut_end(line, Cut::CarriageReturn) == line,
{
    lemma_trim_is(line, 0, line.len() as int);
    assert(line.subrange(0, line.len() as int) =~= line);
    crate::line_laws::lemma_cut_front_is(line, Cut::White, 0, 0);
    assert(trim_start(line) =~= line);
    assert(line.take(line.len() as int) =~= line);
}

/// Joined fields end with no white space.
pub proof fn lemma_join_ends(w: Seq<Seq<char>>)
    requires
        w.len() >= 2,
        plain_fields(w),
    ensures
        join(w, seq![',']).len() > 0,
        !is_white(join(w, seq![',']).last()),
{
    let n = w.len() as int;
    let s = join(w, seq![',']);
    assert(trim(w[n - 1]) == w[n - 1]);
    assert(s == crate::split::join_upto(w, seq![','], n - 1) + seq![','] + w[n - 1]);
    if w[n - 1].len() > 0 {
        lemma_trimmed_ends(w[n - 1]);
        assert(s[s.len() - 1] == w[n - 1][w[n - 1].len() - 1]);
    } else {
        assert(s[s.len() - 1] == ',');
    }
}

/// Fields without commas, and empty fields behind them.
proof fn lemma_fields_padded(p: Seq<char>, w: Seq<Seq<char>>, n: int)
    requires
        0 < w.len() <= n,
        plain_fields(w),
        forall|j: int| 0 <= j < w.last().len() ==> w.last()[j] != ',',
    ensures
        fields_from(p + join(w, seq![',']), p.len() as int, n).len() == n,
        forall|i: int|
            0 <= i < w.len() ==> (#[trigger] fields_from(
                p + join(w, seq![',']),
                p.len() as int,
                n,
            )[i]) == w[i],
    decreases w.len(),
{
    let s = p + join(w, seq![',']);
    let at = p.len() as int;
    crate::split::lemma_fields_len(s, at, n);
    if w.len() == n {
        lemma_fields_of_join(p, w);
    } else if w.len() == 1 {
        assert(trim(w[0]) == w[0]);
        assert(s.skip(at) =~= w[0]);
        assert forall|j: int| at <= j < s.len() implies s[j] != ',' by {
            assert(s[j] == w.last()[j - at]);
        }
        lemma_find_is(s, ',', at, s.len() as int);
    } else {
        let rest = w.skip(1);
        lemma_join_cons(w, seq![',']);
        assert(trim(w[0]) == w[0]);
        let head = p + w[0] + seq![','];
        assert(s =~= head + join(rest, seq![',']));
        let k = at + w[0].len();
        assert forall|j: int| at <= j < k implies s[j] != ',' by {
            assert(s[j] == w[0][j - at]);
        }
        assert(s[k] == ',');
        lemma_find_is(s, ',', at, k);
        assert(s.subrange(at, k) =~= w[0]);
        assert forall|i: int| 0 <= i < rest.len() implies trim(#[trigger] rest[i]) == rest[i] by {
            assert(rest[i] == w[i + 1]);
        }
        assert forall|i: int, j: int|
            0 <= i < rest.len() - 1 && 0 <= j < rest[i].len() implies rest[i][j] != ',' by {
            assert(rest[i] == w[i + 1]);
            assert(w[i + 1][j] != ',');
        }
        assert(rest.last() == w.last());
        lemma_fields_padded(head, rest, n - 1);
        let tail = fields_from(s, k + 1, n - 1);
        assert(fields_from(s, at, n) =~= seq![w[0]] + tail);
        assert forall|i: int| 0 <= i < w.len() implies (#[trigger] fields_from(s, at, n)[i])
            == w[i] by {
            if i > 0 {
                assert(fields_from(s, at, n)[i] == tail[i - 1]);
                assert(rest[i - 1] == w[i]);
            }
        }
    }
}

// ---------------------------------------------------------------------------
// Laws
// ---------------------------------------------------------------------------
/// A line in square brackets starts the section of that name, whatever the case
/// of its letters, and changes nothing else.
pub proof fn law_header_read(st: ParseView, name: Seq<char>)
    ensures
        parse_line(st, seq!['['] + name + seq![']']) == (ParseView { section: lowered(name), ..st }),
{
    let line = seq!['['] + name + seq![']'];
    assert(line[0] == '[');
    assert(line[line.len() - 1] == ']');
    lemma_written_line(line);
    assert(line.subrange(1, line.len() - 1) =~= name);
}

/// The names of a format line, joined by commas and spaces.
proof fn lemma_split_of_join(p: Seq<char>, w: Seq<Seq<char>>)
    requires
        w.len() > 0,
        forall|i: int| 0 <= i < w.len() ==> trim(#[trigger] w[i]) == w[i],
        forall|i: int, j: int| 0 <= i < w.len() && 0 <= j < w[i].len() ==> w[i][j] != ',',
    ensures
        ({
            let got = split_from(p + seq![' '] + join(w, seq![',', ' ']), ',', p.len() as int);
            &&& got.len() == w.len()
            &&& forall|i: int| 0 <= i < w.len() ==> trim(#[trigger] got[i]) == w[i]
        }),
    decreases w.len(),
{
    let s = p + seq![' '] + join(w, seq![',', ' ']);
    let at = p.len() as int;
    assert(trim(w[0]) == w[0]);
    let first = seq![' '] + w[0];
    let none: Seq<char> = seq![];
    crate::line_laws::lemma_trim_around(seq![' '], w[0], none);
    assert(seq![' '] + w[0] + none =~= first);
    if w.len() == 1 {
        assert(s.skip(at) =~= first);
        assert forall|j: int| at <= j < s.len() implies s[j] != ',' by {
            if j > at {
                assert(s[j] == w[0][j - at - 1]);
            }
        }
        lemma_find_is(s, ',', at, s.len() as int);
    } else {
        let rest = w.skip(1);
        lemma_join_cons(w, seq![',', ' ']);
        let head = p + seq![' '] + w[0] + seq![','];
        assert(s =~= head + seq![' '] + join(rest, seq![',', ' ']));
        let k = at + 1 + w[0].len();
        assert forall|j: int| at <= j < k implies s[j] != ',' by {
            if j > at {
                assert(s[j] == w[0][j - at - 1]);
            }
        }
        assert(s[k] == ',');
        lemma_find_is(s, ',', at, k);
        assert(s.subrange(at, k) =~= first);
        assert forall|i: int| 0 <= i < rest.len() implies trim(#[trigger] rest[i]) == rest[i] by {
            assert(rest[i] == w[i + 1]);
        }
        assert forall|i: int, j: int|
            0 <= i < rest.len() && 0 <= j < rest[i].len() implies rest[i][j] != ',' by {
            assert(rest[i] == w[i + 1]);
            assert(w[i + 1][j] != ',');
        }
        lemma_split_of_join(head, rest);
        let tail = split_from(s, ',', k + 1);
        let got = split_from(s, ',', at);
        assert(got =~= seq![first] + tail);
        assert forall|i: int| 0 <= i < w.len() implies trim(#[trigger] got[i]) == w[i] by {
            if i > 0 {
                assert(got[i] == tail[i - 1]);
                assert(rest[i - 1] == w[i]);
            }
        }
    }
}

/// A format line names the columns in their order, whatever the case of their
/// letters: of the styles in a section of styles, and of the dialogue among the
/// events.
pub proof fn law_format_read(st: ParseView, w: Seq<Seq<char>>)
    requires
        w.len() > 0,
        w.last().len() > 0,
        forall|i: int| 0 <= i < w.len() ==> trim(#[trigger] w[i]) == w[i],
        forall|i: int, j: int| 0 <= i < w.len() && 0 <= j < w[i].len() ==> w[i][j] != ',',
    ensures
        st.section == "v4+ styles"@ || st.section == "v4 styles"@ ==> parse_line(
            st,
            "Format: "@ + join(w, seq![',', ' ']),
        ) == (ParseView { style_format: Seq::new(w.len(), |i: int| lowered(w[i])), ..st }),
        st.section == "events"@ ==> parse_line(st, "Format: "@ + join(w, seq![',', ' '])) == (
        ParseView { event_format: Seq::new(w.len(), |i: int| lowered(w[i])), ..st }),
{
    reveal_strlit("Format: ");
    reveal_strlit("Format:");
    let body = join(w, seq![',', ' ']);
    let line = "Format: "@ + body;
    let n = w.len() as int;
    assert(line[0] == 'F');
    assert(trim(w[n - 1]) == w[n - 1]);
    lemma_trimmed_ends(w[n - 1]);
    if n > 1 {
        assert(body == crate::split::join_upto(w, seq![',', ' '], n - 1) + seq![',', ' '] + w[n
            - 1]);
    } else {
        assert(body == w[0]);
    }
    assert(line[line.len() - 1] == w[n - 1][w[n - 1].len() - 1]);
    lemma_written_line(line);
    assert(line.take(7) =~= "Format:"@);
    let none: Seq<char> = seq![];
    assert(line.skip(7) =~= none + seq![' '] + body);
    lemma_split_of_join(none, w);
    let got = columns(line.skip(7));
    assert(got =~= Seq::new(w.len(), |i: int| lowered(w[i]))) by {
        let parts = split(line.skip(7), ',');
        assert forall|i: int| 0 <= i < got.len() implies got[i] == lowered(w[i]) by {
            assert(got[i] == lowered(trim(parts[i])));
        }
    }
    lemma_section_words();
}

/// The usual names of the sections of styles say so; that of the events does not.
proof fn lemma_section_words()
    ensures
        crate::text::has_part("v4+ styles"@, "styles"@),
        crate::text::has_part("v4 styles"@, "styles"@),
        !crate::text::has_part("events"@, "styles"@),
{
    reveal_strlit("v4+ styles");
    reveal_strlit("v4 styles");
    reveal_strlit("styles");
    reveal_strlit("events");
    assert("v4+ styles"@.subrange(4, 10) =~= "styles"@);
    assert(stands_at("v4+ styles"@, "styles"@, 4));
    assert("v4 styles"@.subrange(3, 9) =~= "styles"@);
    assert(stands_at("v4 styles"@, "styles"@, 3));
    assert forall|i: int| !stands_at("events"@, "styles"@, i) by {
        if stands_at("events"@, "styles"@, i) {
            assert(i == 0);
            assert("events"@.subrange(0, 6)[0] == 'e');
        }
    }
}

/// A style line defines the style of that name: its font without the mark of
/// vertical text, and whether it is bold and italic. Styles of other names stay.
pub proof fn law_style_read(
    st: ParseView,
    w: Seq<Seq<char>>,
    name: int,
    font: int,
    bold: int,
    italic: int,
    other: Seq<char>,
)
    requires
        st.section == "v4+ styles"@ || st.section == "v4 styles"@,
        first_column(st.style_format, name, "name"@),
        first_column(st.style_format, font, "fontname"@),
        first_column(st.style_format, bold, "bold"@),
        first_column(st.style_format, italic, "italic"@),
        2 <= w.len() == st.style_format.len(),
        plain_fields(w),
        forall|j: int| 0 <= j < w.last().len() ==> w.last()[j] != ',',
        w[name].len() > 0,
        font_name(w[font]).len() > 0,
    ensures
        ({
            let to = parse_line(st, "Style: "@ + join(w, seq![',']));
            &&& lookup(to.styles, w[name]) == Some(
                StyleView {
                    font: font_name(w[font]),
                    bold: boolish(w[bold]),
                    italic: boolish(w[italic]),
                },
            )
            &&& other != w[name] ==> lookup(to.styles, other) == lookup(st.styles, other)
            &&& to == (ParseView { styles: to.styles, ..st })
        }),
{
    reveal_strlit("Style: ");
    reveal_strlit("Style:");
    reveal_strlit("Format:");
    let body = join(w, seq![',']);
    let line = "Style: "@ + body;
    let format = st.style_format;
    lemma_section_words();
    lemma_first_column(format, name, "name"@, 0);
    lemma_first_column(format, font, "fontname"@, 0);
    lemma_first_column(format, bold, "bold"@, 0);
    lemma_first_column(format, italic, "italic"@, 0);
    lemma_join_begins(w);
    lemma_join_ends(w);
    assert(line[0] == 'S');
    assert(line[line.len() - 1] == body[body.len() - 1]);
    lemma_written_line(line);
    assert(after_prefix(line, "Format:"@) is None) by {
        assert(lowered(line.take(7))[0] == lower('S'));
        assert(lowered("Format:"@)[0] == lower('F'));
    }
    assert(line.take(6) =~= "Style:"@);
    let rest = line.skip(6);
    assert(rest =~= seq![' '] + body);
    let none: Seq<char> = seq![];
    crate::line_laws::lemma_trim_around(seq![' '], body, none);
    assert(seq![' '] + body + none =~= rest);
    lemma_written_line(body);
    let width = crate::ass::parse::style_width(format);
    lemma_fields_padded(none, w, width);
    assert(none + body =~= body);
    let row = fields(body, width);
    assert(row[name] == w[name] && row[font] == w[font]);
    assert(row[bold] == w[bold] && row[italic] == w[italic]);
    assert(trim(w[name]) == w[name] && trim(w[font]) == w[font]);
    let style = StyleView {
        font: font_name(w[font]),
        bold: boolish(w[bold]),
        italic: boolish(w[italic]),
    };
    law_lookup_put(st.styles, w[name], style, w[name]);
    law_lookup_put(st.styles, w[name], style, other);
}

/// The style that a line of dialogue has: the one that it names, or plain Arial
/// where no style has that name.
pub open spec fn named_style(styles: Seq<(Seq<char>, StyleView)>, name: Seq<char>) -> StyleView {
    if lookup(styles, name) is Some {
        lookup(styles, name)->0
    } else {
        StyleView { font: "Arial"@, bold: false, italic: false }
    }
}

/// A line of dialogue among the events is read as its text in the style that it
/// names. The text is the last column and may hold commas.
pub proof fn law_dialogue_read(st: ParseView, w: Seq<Seq<char>>, style: int)
    requires
        st.section == "events"@,
        first_column(st.event_format, style, "style"@),
        first_column(st.event_format, st.event_format.len() - 1, "text"@),
        2 <= w.len() == st.event_format.len(),
        plain_fields(w),
    ensures
        ({
            let to = parse_line(st, "Dialogue: "@ + join(w, seq![',']));
            let run = dialogue(w.last(), named_style(st.styles, w[style]), st.styles, st.usages);
            &&& to.usages == run.usages
            &&& to.drawings == st.drawings + run.drawings
            &&& to == (ParseView { usages: to.usages, drawings: to.drawings, ..st })
        }),
{
    reveal_strlit("Dialogue: ");
    reveal_strlit("Dialogue:");
    reveal_strlit("Format:");
    let body = join(w, seq![',']);
    let line = "Dialogue: "@ + body;
    let format = st.event_format;
    lemma_section_words();
    lemma_first_column(format, style, "style"@, 0);
    lemma_first_column(format, format.len() - 1, "text"@, 0);
    lemma_join_begins(w);
    lemma_join_ends(w);
    assert(line[0] == 'D');
    assert(line[line.len() - 1] == body[body.len() - 1]);
    lemma_written_line(line);
    assert(after_prefix(line, "Format:"@) is None) by {
        assert(lowered(line.take(7))[0] == lower('D'));
        assert(lowered("Format:"@)[0] == lower('F'));
    }
    assert(line.take(9) =~= "Dialogue:"@);
    let rest = line.skip(9);
    assert(rest =~= seq![' '] + body);
    lemma_indent(seq![' '], body);
    let none: Seq<char> = seq![];
    lemma_fields_of_join(none, w);
    assert(none + body =~= body);
    assert(trim(w[style]) == w[style]);
}

/// A remark among the events changes nothing.
pub proof fn law_remark_line_ignored(st: ParseView, text: Seq<char>)
    requires
        st.section == "events"@,
    ensures
        parse_line(st, "Comment:"@ + text) == st,
{
    reveal_strlit("Comment:");
    reveal_strlit("Dialogue:");
    reveal_strlit("Format:");
    lemma_section_words();
    let raw = "Comment:"@ + text;
    assert(raw[0] == 'C' && raw[7] == ':');
    let line = cut_end(raw, Cut::CarriageReturn);
    crate::text::lemma_cut_back(raw, Cut::CarriageReturn, raw.len() as int);
    let e = crate::text::cut_back(raw, Cut::CarriageReturn, raw.len() as int);
    if e < 8 {
        assert(Cut::CarriageReturn.has(raw[7]));
    }
    assert(line == raw.take(e));
    assert(line[0] == 'C');
    let (i, j) = crate::line_laws::lemma_trim_at(line);
    assert(i == 0) by {
        if i > 0 {
            assert(is_white(line[0]));
        }
    }
    let t = trim(line);
    if j == 0 {
        assert(is_white(line[0]));
    }
    assert(t[0] == 'C');
    crate::line_laws::lemma_cut_front_is(line, Cut::White, 0, 0);
    assert(trim_start(line) =~= line);
    assert(after_prefix(t, "Format:"@) is None) by {
        if t.len() >= 7 {
            assert(lowered(t.take(7))[0] == lower('C'));
            assert(lowered("Format:"@)[0] == lower('F'));
        }
    }
    assert(after_prefix(line, "Dialogue:"@) is None) by {
        if line.len() >= 9 {
            assert(lowered(line.take(9))[0] == lower('C'));
            assert(lowered("Dialogue:"@)[0] == lower('D'));
        }
    }
}

/// What a font has to draw after some of the lines, it has to draw after all of
/// them.
pub proof fn law_later_lines_keep_usages(
    v: Seq<Seq<char>>,
    n: int,
    m: int,
    font: Seq<char>,
    bold: bool,
    italic: bool,
    cp: u32,
)
    requires
        0 <= n <= m,
        draws(parse_upto(v, n).usages, font, bold, italic, cp),
    ensures
        draws(parse_upto(v, m).usages, font, bold, italic, cp),
    decreases m - n,
{
    if n < m {
        law_later_lines_keep_usages(v, n, m - 1, font, bold, italic, cp);
        lemma_line_keeps(parse_upto(v, m - 1), v[m - 1], font, bold, italic, cp);
    }
}

proof fn lemma_line_keeps(
    st: ParseView,
    raw: Seq<char>,
    font: Seq<char>,
    bold: bool,
    italic: bool,
    cp: u32,
)
    requires
        draws(st.usages, font, bold, italic, cp),
    ensures
        draws(parse_line(st, raw).usages, font, bold, italic, cp),
{
    let line = cut_end(raw, Cut::CarriageReturn);
    if let Some(rest) = after_prefix(trim_start(line), "Dialogue:"@) {
        let format = st.event_format;
        let row = fields(trim_start(rest), format.len() as int);
        if let (Some(s), Some(t)) = (position(format, "style"@), position(format, "text"@)) {
            let base = match lookup(st.styles, trim(row[s])) {
                Some(b) => b,
                None => crate::ass::parse::fallback_style(),
            };
            law_usages_only_grow(
                row[t],
                base,
                st.styles,
                st.usages,
                font,
                bold,
                italic,
                cp,
            );
        }
    }
}

/// Every character of every line of dialogue is in what the file asks of the font
/// of that line's style, whatever comes before and after: of a text without
/// braces, all but control characters and breaks.
pub proof fn law_file_draws_every_line(s: Seq<char>, n: int, w: Seq<Seq<char>>, style: int, k: int)
    requires
        0 <= n < lines(s).len(),
        lines(s)[n] == "Dialogue: "@ + join(w, seq![',']),
        parse_upto(lines(s), n).section == "events"@,
        first_column(parse_upto(lines(s), n).event_format, style, "style"@),
        first_column(
            parse_upto(lines(s), n).event_format,
            parse_upto(lines(s), n).event_format.len() - 1,
            "text"@,
        ),
        2 <= w.len() == parse_upto(lines(s), n).event_format.len(),
        plain_fields(w),
        forall|x: int| 0 <= x < w.last().len() ==> w.last()[x] != '{',
        0 <= k < w.last().len(),
        !is_break(w.last(), k),
        !is_break(w.last(), k - 1),
        is_shown(w.last()[k]),
    ensures
        ({
            let look = named_style(parse_upto(lines(s), n).styles, w[style]);
            draws(
                parsed(s).usages,
                font_name(look.font),
                look.bold,
                look.italic,
                w.last()[k] as u32,
            )
        }),
{
    let st = parse_upto(lines(s), n);
    let look = named_style(st.styles, w[style]);
    law_dialogue_read(st, w, style);
    law_plain_text_drawn(w.last(), k, look, st.styles, st.usages);
    law_later_lines_keep_usages(
        lines(s),
        n + 1,
        lines(s).len() as int,
        font_name(look.font),
        look.bold,
        look.italic,
        w.last()[k] as u32,
    );
}

/// A file is written with the line breaks that it has: carriage return and line feed
/// where these stand together anywhere, and a line feed otherwise.
pub proof fn law_line_break_kept(s: Seq<char>)
    ensures
        (exists|i: int| 0 <= i < s.len() - 1 && #[trigger] s[i] == '\r' && s[i + 1] == '\n')
            ==> newline_of(s) == seq!['\r', '\n'],
        !(exists|i: int| 0 <= i < s.len() - 1 && #[trigger] s[i] == '\r' && s[i + 1] == '\n')
            ==> newline_of(s) == seq!['\n'],
{
    reveal_strlit("\r\n");
    reveal_strlit("\n");
    let p = "\r\n"@;
    assert(p =~= seq!['\r', '\n']);
    assert("\n"@ =~= seq!['\n']);
    if exists|i: int| 0 <= i < s.len() - 1 && #[trigger] s[i] == '\r' && s[i + 1] == '\n' {
        let i = choose|i: int| 0 <= i < s.len() - 1 && #[trigger] s[i] == '\r' && s[i + 1] == '\n';
        assert(s.subrange(i, i + 2) =~= p);
        assert(stands_at(s, p, i));
    } else if has_part(s, p) {
        let i = choose|i: int| stands_at(s, p, i);
        assert(s.subrange(i, i + 2)[0] == s[i]);
        assert(s.subrange(i, i + 2)[1] == s[i + 1]);
    }
}

/// Without a format a style has its name in the first of twenty-three columns and
/// its font in the second, and is neither bold nor italic.
pub proof fn law_style_read_by_place(st: ParseView, w: Seq<Seq<char>>)
    requires
        st.section == "v4+ styles"@ || st.section == "v4 styles"@,
        st.style_format.len() == 0,
        w.len() == 23,
        plain_fields(w),
        w[0].len() > 0,
        font_name(w[1]).len() > 0,
    ensures
        lookup(parse_line(st, "Style: "@ + join(w, seq![','])).styles, w[0]) == Some(
            StyleView { font: font_name(w[1]), bold: false, italic: false },
        ),
{
    reveal_strlit("Style: ");
    reveal_strlit("Style:");
    reveal_strlit("Format:");
    let body = join(w, seq![',']);
    let line = "Style: "@ + body;
    lemma_section_words();
    lemma_join_begins(w);
    lemma_join_ends(w);
    assert(line[0] == 'S');
    assert(line[line.len() - 1] == body[body.len() - 1]);
    lemma_written_line(line);
    assert(after_prefix(line, "Format:"@) is None) by {
        assert(lowered(line.take(7))[0] == lower('S'));
        assert(lowered("Format:"@)[0] == lower('F'));
    }
    assert(line.take(6) =~= "Style:"@);
    let rest = line.skip(6);
    assert(rest =~= seq![' '] + body);
    let none: Seq<char> = seq![];
    crate::line_laws::lemma_trim_around(seq![' '], body, none);
    assert(seq![' '] + body + none =~= rest);
    lemma_written_line(body);
    lemma_fields_of_join(none, w);
    assert(none + body =~= body);
    assert(trim(w[0]) == w[0] && trim(w[1]) == w[1]);
    let style = StyleView { font: font_name(w[1]), bold: false, italic: false };
    law_lookup_put(st.styles, w[0], style, w[0]);
}

} // verus!
