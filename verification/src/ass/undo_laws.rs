//! What holds of a file that is converted and restored: it is the file again.
use vstd::prelude::*;

use crate::ass::draw::{
    draw_line, draw_upto, drawn, file_drawn, indent, rejoined, DrawEntryView, DrawFile, DrawView,
};
use crate::ass::draw_laws::{
    entries_fit, entries_ok, knows, law_drawings_restored, lemma_drawn_in, lemma_drawn_line,
    lemma_entries_grow, lemma_no_runs, lemma_part_of_part, unbraced,
};
use crate::ass::font_laws::{
    all_passable, law_comment_read_back, lemma_first_char, lemma_position, lemma_rejoined, passable,
};
use crate::ass::fonts::{
    comment_names, comments_of, comments_upto, embedded_block, embedded_blocks,
};
use crate::ass::name_laws::{lemma_indent_white, lemma_tags_all, style_clear, tags_clear};
use crate::ass::parse::{column_or, style_width};
use crate::ass::restore_laws::{
    commented_names, law_subsets_undone, names_embedded, own_names, put_back_file, renamed,
    subset_fonts, undoable,
};
use crate::ass::restore_steps::{
    lemma_uncut, line_clear, plain_names, put_back_line, put_back_upto, restore_plan,
};
use crate::ass::rewrite::{
    draw_runs, embed_plan, embed_upto, embedded_file, fn_at, fn_tags_from, font_comments_upto,
    lemma_name_end, name_end, strip_upto, stripped_file, style_line, subset_comment, EmbedPlan,
    RewriteView, StripPlan,
};
use crate::ass::style::lookup_name;
use crate::line_laws::{
    is_newline, law_lines_of_join, lemma_join_add, lemma_part_on_one_line, lemma_trim_at,
    lemma_trim_is, lemma_trim_on_one_line, on_one_line, same_cut, seen_lines,
};
use crate::models::EmbeddedFontView;
use crate::split::{
    after_prefix, fields, fields_from, header_name, join, join_upto, lemma_fields_len, lines,
    position,
};
use crate::strmap::{lookup, lookup_from};
use crate::text::{
    cut_end, cut_front, cut_start, find_from, has_part, is_white, lemma_cut_front, lemma_find_from,
    lowered, stands_at, trim, trim_start, Cut,
};

verus! {

// ---------------------------------------------------------------------------
// A file of lines
// ---------------------------------------------------------------------------
/// A line without its line break.
pub open spec fn bare_line(line: Seq<char>) -> bool {
    on_one_line(line) && (line.len() > 0 ==> line.last() != '\r')
}

/// The lines of a file: the last one is not empty where no line break ends it.
pub open spec fn file_lines(w: Seq<Seq<char>>, ends: bool) -> bool {
    &&& w.len() > 0
    &&& forall|i: int| 0 <= i < w.len() ==> bare_line(#[trigger] w[i])
    &&& ends || w.last().len() > 0
}

/// The text of a file of these lines, with a line break between them, and one at
/// the end where it ends so.
pub open spec fn text_of(w: Seq<Seq<char>>, nl: Seq<char>, ends: bool) -> Seq<char> {
    if ends {
        join(w, nl) + nl
    } else {
        join(w, nl)
    }
}

proof fn lemma_last_char(w: Seq<Seq<char>>, nl: Seq<char>)
    requires
        w.len() > 0,
        w.last().len() > 0,
    ensures
        join(w, nl).len() > 0,
        join(w, nl).last() == w.last().last(),
{
}

/// The lines of a file are those it was made of, up to carriage returns that are
/// cut off, and it ends as it was made.
proof fn lemma_text_of(w: Seq<Seq<char>>, nl: Seq<char>, ends: bool)
    requires
        is_newline(nl),
        file_lines(w, ends),
    ensures
        ({
            let s = text_of(w, nl, ends);
            &&& same_cut(lines(s), w)
            &&& s.len() > 0
            &&& (s.last() == '\n') == ends
            &&& forall|out: Seq<Seq<char>>| #[trigger] rejoined(out, nl, s) == text_of(out, nl, ends)
        }),
{
    let s = text_of(w, nl, ends);
    let e: Seq<char> = seq![];
    if ends {
        let rows = w.push(e);
        assert(s.last() == nl.last());
        lemma_rejoined(w, nl, s);
        assert forall|i: int| 0 <= i < rows.len() implies on_one_line(#[trigger] rows[i]) by {
            if i < w.len() {
                assert(bare_line(w[i]));
            }
        }
        law_lines_of_join(rows, nl);
        assert(seen_lines(rows) =~= w);
    } else {
        assert forall|i: int| 0 <= i < w.len() implies on_one_line(#[trigger] w[i]) by {
            assert(bare_line(w[i]));
        }
        lemma_last_char(w, nl);
        assert(on_one_line(w.last()));
        law_lines_of_join(w, nl);
    }
}

/// What is put back does not depend on carriage returns at the ends of lines.
proof fn lemma_put_back_cut(
    a: Seq<Seq<char>>,
    b: Seq<Seq<char>>,
    n: int,
    u: Seq<(Seq<char>, Seq<char>)>,
    g: Seq<(Seq<char>, DrawEntryView)>,
)
    requires
        same_cut(a, b),
        0 <= n <= a.len(),
    ensures
        put_back_upto(a, n, u, g) == put_back_upto(b, n, u, g),
    decreases n,
{
    if n > 0 {
        lemma_put_back_cut(a, b, n - 1, u, g);
        assert(cut_end(a[n - 1], Cut::CarriageReturn) == cut_end(b[n - 1], Cut::CarriageReturn));
    }
}

// ---------------------------------------------------------------------------
// Names that are written as they are put back
// ---------------------------------------------------------------------------
/// Every font that the tags from `i` on name and that is replaced is written as
/// it is put back.
pub open spec fn tags_spelled(s: Seq<char>, i: int, u: Seq<(Seq<char>, Seq<char>)>) -> bool
    decreases s.len() - i,
{
    if !(0 <= i < s.len()) {
        true
    } else if fn_at(s, i) {
        let e = name_end(s, i + 3);
        proof {
            lemma_name_end(s, i + 3);
        }
        let name = s.subrange(i + 3, e);
        &&& lookup(u, lookup_name(name)) matches Some(new) ==> new == name
        &&& tags_spelled(s, e, u)
    } else {
        tags_spelled(s, i + 1, u)
    }
}

proof fn lemma_tags_spelled(s: Seq<char>, i: int, u: Seq<(Seq<char>, Seq<char>)>)
    requires
        0 <= i <= s.len(),
        tags_spelled(s, i, u),
    ensures
        fn_tags_from(s, i, u) == s.skip(i),
    decreases s.len() - i,
{
    if i < s.len() {
        if fn_at(s, i) {
            let e = name_end(s, i + 3);
            lemma_name_end(s, i + 3);
            lemma_tags_spelled(s, e, u);
            reveal_strlit("\\fn");
            assert("\\fn"@ + s.subrange(i + 3, e) =~= s.subrange(i, e));
            assert(s.subrange(i, e) + s.skip(e) =~= s.skip(i));
        } else {
            lemma_tags_spelled(s, i + 1, u);
            assert(seq![s[i]] + s.skip(i + 1) =~= s.skip(i));
        }
    } else {
        assert(fn_tags_from(s, i, u) =~= s.skip(i));
    }
}

/// The font of a style line, where it is one that is replaced, is written as it
/// is put back, and the line is in plain form: the word, and fields without white
/// space around them.
pub open spec fn style_spelled(
    line: Seq<char>,
    format: Seq<Seq<char>>,
    u: Seq<(Seq<char>, Seq<char>)>,
) -> bool {
    match after_prefix(trim_start(line), "Style:"@) {
        Some(rest) => {
            let row = fields(trim_start(rest), style_width(format));
            let name = row[column_or(format, "fontname"@, 1)];
            match lookup(u, lookup_name(name)) {
                Some(new) => new == name && line == indent(line) + "Style: "@ + join(
                    row,
                    seq![','],
                ),
                None => true,
            }
        },
        None => true,
    }
}

proof fn lemma_style_spelled(
    line: Seq<char>,
    format: Seq<Seq<char>>,
    u: Seq<(Seq<char>, Seq<char>)>,
)
    requires
        style_spelled(line, format, u),
    ensures
        style_line(line, format, u) == line,
{
    match after_prefix(trim_start(line), "Style:"@) {
        Some(rest) => {
            let n = style_width(format);
            let row = fields(trim_start(rest), n);
            let at = column_or(format, "fontname"@, 1);
            lemma_position(format, "fontname"@, 0);
            lemma_fields_len(trim_start(rest), 0, n);
            assert(row.update(at, row[at]) =~= row);
        },
        None => {},
    }
}

/// A line that stays as it is when names are put back: it begins no `[Fonts]`
/// section and is no comment on a font in the script info, and its names are
/// written as they are put back.
pub open spec fn line_spelled(
    st: RewriteView,
    line: Seq<char>,
    u: Seq<(Seq<char>, Seq<char>)>,
) -> bool {
    match header_name(trim(line)) {
        Some(h) => lowered(h) != "fonts"@,
        None => {
            &&& st.section == "script info"@ ==> after_prefix(trim(line), "; Font Subset:"@) is None
            &&& has_part(st.section, "styles"@) ==> style_spelled(line, st.format, u)
            &&& st.section == "events"@ ==> tags_spelled(line, 0, u)
        },
    }
}

/// Every line stays as it is when names are put back.
pub open spec fn lines_spelled(
    v: Seq<Seq<char>>,
    u: Seq<(Seq<char>, Seq<char>)>,
    g: Seq<(Seq<char>, DrawEntryView)>,
) -> bool {
    forall|i: int|
        0 <= i < v.len() ==> line_spelled(put_back_upto(v, i, u, g), #[trigger] v[i], u)
}

/// Whether a line of the events is read for drawings.
pub open spec fn is_event(st: RewriteView, line: Seq<char>) -> bool {
    st.section == "events"@ && header_name(trim(line)) is None
}

/// One line that stays, but for its drawings.
proof fn lemma_kept_line(
    st: RewriteView,
    line: Seq<char>,
    u: Seq<(Seq<char>, Seq<char>)>,
    g: Seq<(Seq<char>, DrawEntryView)>,
)
    requires
        !st.skipping,
        bare_line(line),
        line_spelled(st, line, u),
    ensures
        ({
            let next = put_back_line(st, line, u, g);
            &&& !next.skipping
            &&& next.out == st.out.push(
                if is_event(st, line) {
                    draw_runs(line, g)
                } else {
                    line
                },
            )
            &&& next.section == (match header_name(trim(line)) {
                Some(h) => lowered(h),
                None => st.section,
            })
        }),
{
    let none: Seq<Seq<char>> = seq![];
    lemma_uncut(line);
    match header_name(trim(line)) {
        Some(_) => {
            assert(st.out.push(line) + none =~= st.out.push(line));
        },
        None => {
            lemma_no_event_styles();
            if has_part(st.section, "styles"@) {
                lemma_style_spelled(line, st.format, u);
            } else if st.section == "events"@ {
                lemma_tags_spelled(line, 0, u);
                assert(line.skip(0) =~= line);
                lemma_tags_all(line, u);
            }
        },
    }
}

/// The section of the events is none of the styles.
proof fn lemma_no_event_styles()
    ensures
        !has_part("events"@, "styles"@),
{
    reveal_strlit("events");
    reveal_strlit("styles");
    assert("events"@[0] != "styles"@[0]);
    if has_part("events"@, "styles"@) {
        let k = choose|k: int| stands_at("events"@, "styles"@, k);
        assert("events"@.subrange(0, 6)[0] == "styles"@[0]);
    }
}

/// The lines of `w` are those of `v` with the drawings of its events put back.
pub open spec fn redrawn(
    v: Seq<Seq<char>>,
    w: Seq<Seq<char>>,
    u: Seq<(Seq<char>, Seq<char>)>,
    g: Seq<(Seq<char>, DrawEntryView)>,
) -> bool {
    v.len() == w.len() && forall|i: int|
        0 <= i < v.len() ==> #[trigger] w[i] == (if is_event(put_back_upto(v, i, u, g), v[i]) {
            draw_runs(v[i], g)
        } else {
            v[i]
        })
}

proof fn lemma_kept_lines(
    v: Seq<Seq<char>>,
    w: Seq<Seq<char>>,
    n: int,
    u: Seq<(Seq<char>, Seq<char>)>,
    g: Seq<(Seq<char>, DrawEntryView)>,
)
    requires
        0 <= n <= v.len(),
        forall|i: int| 0 <= i < v.len() ==> bare_line(#[trigger] v[i]),
        lines_spelled(v, u, g),
        redrawn(v, w, u, g),
    ensures
        put_back_upto(v, n, u, g).out == w.take(n),
        !put_back_upto(v, n, u, g).skipping,
    decreases n,
{
    if n > 0 {
        lemma_kept_lines(v, w, n - 1, u, g);
        let st = put_back_upto(v, n - 1, u, g);
        assert(bare_line(v[n - 1]));
        assert(line_spelled(st, v[n - 1], u));
        lemma_kept_line(st, v[n - 1], u, g);
        assert(w[n - 1] == w[n - 1]);
        assert(w.take(n - 1).push(w[n - 1]) =~= w.take(n));
    } else {
        assert(w.take(0) =~= seq![]);
    }
}

/// Subsetting is undone: a file that is given subset fonts, and stripped of them
/// by the names that are read back from it, is the file again. The fonts can be
/// passed over and the new names are not in the file; the file names the fonts by
/// their original names, as they are written, and its lines on them are in plain
/// form; and it carries no fonts and no comments on them itself.
pub proof fn law_subsetting_undone(
    w: Seq<Seq<char>>,
    ends: bool,
    nl: Seq<char>,
    m: Seq<(Seq<char>, Seq<char>)>,
    fonts: Seq<EmbeddedFontView>,
)
    requires
        is_newline(nl),
        file_lines(w, ends),
        undoable(text_of(w, nl, ends), nl, m, fonts),
        lines_spelled(w, own_names(m, fonts), seq![]),
    ensures
        ({
            let s = text_of(w, nl, ends);
            let text = embedded_file(s, nl, m, fonts);
            stripped_file(text, nl, restore_plan(comments_of(text), seq![])) == s
        }),
{
    let s = text_of(w, nl, ends);
    let u = own_names(m, fonts);
    let g: Seq<(Seq<char>, DrawEntryView)> = seq![];
    let n = w.len() as int;
    law_subsets_undone(s, nl, m, fonts, g);
    lemma_text_of(w, nl, ends);
    lemma_put_back_cut(lines(s), w, n, u, g);
    assert(redrawn(w, w, u, g));
    lemma_kept_lines(w, w, n, u, g);
    assert(w.take(n) =~= w);
    assert(put_back_file(s, nl, u, g) == rejoined(w, nl, s));
}

// ---------------------------------------------------------------------------
// One font
// ---------------------------------------------------------------------------
/// A word that can stand wherever a font is named.
pub open spec fn plain_word(s: Seq<char>) -> bool {
    s.len() > 0 && forall|i: int|
        0 <= i < s.len() ==> !is_white(#[trigger] s[i]) && s[i] != ',' && s[i] != '\\' && s[i]
            != '}' && s[i] != ']'
}

/// A section of a file.
pub open spec fn has_section(w: Seq<Seq<char>>, name: Seq<char>) -> bool {
    exists|i: int|
        0 <= i < w.len() && (header_name(trim(#[trigger] w[i])) matches Some(h) && lowered(h)
            == name)
}

/// A file without fonts and without comments on them.
pub open spec fn fontless(w: Seq<Seq<char>>) -> bool {
    forall|i: int|
        0 <= i < w.len() ==> (header_name(trim(#[trigger] w[i])) matches Some(h) ==> lowered(h)
            != "fonts"@) && after_prefix(trim(w[i]), "; Font Subset:"@) is None
}

/// Every line that names a font by its own name names it as it is written, and
/// none names it by its new name.
pub open spec fn names_font(w: Seq<Seq<char>>, own: Seq<char>, new: Seq<char>) -> bool {
    let m = seq![(lookup_name(own), new)];
    let r = seq![(lookup_name(new), own)];
    let u = seq![(lookup_name(own), own)];
    &&& lines_spelled(w, u, seq![])
    &&& forall|i: int|
        0 <= i < w.len() ==> {
            let st = put_back_upto(w, i, u, seq![]);
            &&& has_part(st.section, "styles"@) ==> style_clear(#[trigger] w[i], st.format, m, r)
            &&& st.section == "events"@ ==> tags_clear(w[i], 0, m, r)
        }
}

/// Embedding and putting back read a file alike.
proof fn lemma_read_alike(
    a: Seq<Seq<char>>,
    b: Seq<Seq<char>>,
    n: int,
    p: EmbedPlan,
    u: Seq<(Seq<char>, Seq<char>)>,
    g: Seq<(Seq<char>, DrawEntryView)>,
)
    requires
        same_cut(a, b),
        0 <= n <= a.len(),
    ensures
        ({
            let e = embed_upto(a, n, p);
            let d = put_back_upto(b, n, u, g);
            e.section == d.section && e.skipping == d.skipping && e.format == d.format
        }),
    decreases n,
{
    if n > 0 {
        lemma_read_alike(a, b, n - 1, p, u, g);
        assert(cut_end(a[n - 1], Cut::CarriageReturn) == cut_end(b[n - 1], Cut::CarriageReturn));
    }
}

/// Once its section has come, the comments or the fonts are in the file.
proof fn lemma_section_seen(
    a: Seq<Seq<char>>,
    w: Seq<Seq<char>>,
    i: int,
    n: int,
    p: EmbedPlan,
)
    requires
        same_cut(a, w),
        0 <= i < n <= a.len(),
        bare_line(w[i]),
        header_name(trim(w[i])) is Some,
    ensures
        lowered(header_name(trim(w[i]))->0) == "script info"@ ==> embed_upto(a, n, p).commented,
        lowered(header_name(trim(w[i]))->0) == "events"@ && p.fonts.len() > 0 ==> embed_upto(
            a,
            n,
            p,
        ).inserted,
    decreases n,
{
    assert(cut_end(a[n - 1], Cut::CarriageReturn) == cut_end(w[n - 1], Cut::CarriageReturn));
    if i < n - 1 {
        lemma_section_seen(a, w, i, n - 1, p);
    } else {
        lemma_uncut(w[i]);
        reveal_strlit("fonts");
        reveal_strlit("script info");
        reveal_strlit("events");
        assert("fonts"@.len() == 5 && "script info"@.len() == 11 && "events"@.len() == 6);
    }
}

proof fn lemma_lookup_name_line(s: Seq<char>)
    requires
        on_one_line(s),
    ensures
        on_one_line(lookup_name(s)),
{
    lemma_trim_on_one_line(s);
    let a = trim(s);
    let b = cut_start(a, Cut::At);
    let k = cut_front(a, Cut::At, 0);
    lemma_cut_front(a, Cut::At, 0);
    lemma_part_on_one_line(a, k, a.len() as int);
    assert(a.subrange(k, a.len() as int) =~= b);
    lemma_trim_on_one_line(b);
    let c = trim(b);
    assert forall|j: int| 0 <= j < lowered(c).len() implies #[trigger] lowered(c)[j] != '\n' by {
        assert(c[j] != '\n');
    }
}

/// A font is taken out again: a file that is given one subset font under a new
/// name, and stripped of it by the name that is read back from it, is the file
/// again. The new name is a plain word that the file does not use. The file names
/// the font by its own name, as it is written, in lines in plain form; it has a
/// script info, and it has events or ends with a line break; and it carries no
/// fonts and no comments on them itself.
pub proof fn law_one_font_undone(
    w: Seq<Seq<char>>,
    ends: bool,
    nl: Seq<char>,
    f: EmbeddedFontView,
)
    requires
        is_newline(nl),
        file_lines(w, ends),
        plain_word(f.embedded_name),
        f.original_name.len() > 0,
        trim(f.original_name) == f.original_name,
        on_one_line(f.original_name),
        f.original_name != f.embedded_name,
        passable(embedded_block(f)),
        fontless(w),
        has_section(w, "script info"@),
        ends || has_section(w, "events"@),
        names_font(w, f.original_name, f.embedded_name),
    ensures
        ({
            let s = text_of(w, nl, ends);
            let m = seq![(lookup_name(f.original_name), f.embedded_name)];
            let text = embedded_file(s, nl, m, seq![f]);
            &&& comments_of(text) == seq![(lookup_name(f.embedded_name), f.original_name)]
            &&& stripped_file(text, nl, restore_plan(comments_of(text), seq![])) == s
        }),
{
    let s = text_of(w, nl, ends);
    let (o, e) = (f.original_name, f.embedded_name);
    let m = seq![(lookup_name(o), e)];
    let r = seq![(lookup_name(e), o)];
    let u = seq![(lookup_name(o), o)];
    let g: Seq<(Seq<char>, DrawEntryView)> = seq![];
    let fonts = seq![f];
    let n = w.len() as int;
    let p = embed_plan(fonts, nl, m);
    let v = lines(s);
    lemma_text_of(w, nl, ends);
    // The comment and what is read of it.
    let none: Seq<(Seq<char>, Seq<char>)> = seq![];
    let no_rows: Seq<Seq<char>> = seq![];
    let c = subset_comment(e, o);
    assert(font_comments_upto(fonts, 0) == (no_rows, no_rows));
    assert(!no_rows.contains(lookup_name(e)));
    assert(font_comments_upto(fonts, 1) == (no_rows.push(c), no_rows.push(lookup_name(e))));
    assert(p.comments =~= seq![c]);
    law_comment_read_back(none, e, o);
    assert(comments_upto(p.comments, 0) == none);
    assert(comments_upto(p.comments, 1) =~= r);
    assert(commented_names(m, fonts) == r);
    assert(lookup(r, lookup_name(e)) == Some(o));
    assert(own_names(m, fonts) =~= u);
    // The names.
    lemma_lookup_name_line(o);
    assert(on_one_line(e)) by {
        assert forall|i: int| 0 <= i < e.len() implies #[trigger] e[i] != '\n' by {
            assert(!is_white(e[i]));
        }
    }
    assert(!is_white(e[0]) && !is_white(e[e.len() - 1]));
    lemma_trim_is(e, 0, e.len() as int);
    assert(e.subrange(0, e.len() as int) =~= e);
    assert(plain_names(m));
    assert(subset_fonts(fonts));
    assert(names_embedded(m, fonts)) by {
        assert(fonts[0].embedded_name == m[0].1 && renamed(fonts[0]));
    }
    assert(embedded_blocks(fonts) =~= seq![embedded_block(f)]);
    assert(all_passable(embedded_blocks(fonts)));
    // The sections.
    let i = choose|i: int|
        0 <= i < w.len() && (header_name(trim(#[trigger] w[i])) matches Some(h) && lowered(h)
            == "script info"@);
    assert(bare_line(w[i]));
    lemma_section_seen(v, w, i, n, p);
    if !ends {
        let j = choose|j: int|
            0 <= j < w.len() && (header_name(trim(#[trigger] w[j])) matches Some(h) && lowered(h)
                == "events"@);
        assert(bare_line(w[j]));
        if p.fonts.len() > 0 {
            lemma_section_seen(v, w, j, n, p);
        }
    }
    // The lines.
    assert forall|k: int| 0 <= k < n implies line_clear(
        embed_upto(v, k, p),
        #[trigger] v[k],
        m,
        r,
    ) by {
        lemma_read_alike(v, w, k, p, u, g);
        assert(cut_end(v[k], Cut::CarriageReturn) == cut_end(w[k], Cut::CarriageReturn));
        assert(bare_line(w[k]));
        lemma_uncut(w[k]);
        assert(after_prefix(trim(w[k]), "; Font Subset:"@) is None);
        let st = put_back_upto(w, k, u, g);
        assert(has_part(st.section, "styles"@) ==> style_clear(w[k], st.format, m, r));
    }
    assert(undoable(s, nl, m, fonts));
    law_subsets_undone(s, nl, m, fonts, g);
    law_subsetting_undone(w, ends, nl, m, fonts);
}

// ---------------------------------------------------------------------------
// A font named by a word
// ---------------------------------------------------------------------------
/// A stretch of a text.
spec fn stretch(part: Seq<char>, s: Seq<char>) -> bool {
    exists|x: int, y: int| 0 <= x <= y <= s.len() && part == #[trigger] s.subrange(x, y)
}

proof fn lemma_stretch(s: Seq<char>, x: int, y: int)
    requires
        0 <= x <= y <= s.len(),
    ensures
        stretch(s.subrange(x, y), s),
{
}

proof fn lemma_stretch_of(a: Seq<char>, b: Seq<char>, c: Seq<char>)
    requires
        stretch(a, b),
        stretch(b, c),
    ensures
        stretch(a, c),
{
    let (x, y) = choose|x: int, y: int| 0 <= x <= y <= b.len() && a == #[trigger] b.subrange(x, y);
    let (u, v) = choose|u: int, v: int| 0 <= u <= v <= c.len() && b == #[trigger] c.subrange(u, v);
    assert(c.subrange(u + x, u + y) =~= a);
}

/// What stands in a stretch stands in the text, in letters of either case.
proof fn lemma_stretch_part(a: Seq<char>, s: Seq<char>, p: Seq<char>)
    requires
        stretch(a, s),
        has_part(lowered(a), p),
    ensures
        has_part(lowered(s), p),
{
    let (x, y) = choose|x: int, y: int| 0 <= x <= y <= s.len() && a == #[trigger] s.subrange(x, y);
    assert(lowered(a) =~= lowered(s).subrange(x, y));
    lemma_part_of_part(lowered(s), x, y, p);
}

proof fn lemma_trim_stretch(s: Seq<char>)
    ensures
        stretch(trim(s), s),
        stretch(trim_start(s), s),
        stretch(cut_start(s, Cut::At), s),
{
    let (i, j) = lemma_trim_at(s);
    lemma_stretch(s, i, j);
    lemma_cut_front(s, Cut::White, 0);
    let a = cut_front(s, Cut::White, 0);
    lemma_stretch(s, a, s.len() as int);
    assert(s.subrange(a, s.len() as int) =~= trim_start(s));
    lemma_cut_front(s, Cut::At, 0);
    let b = cut_front(s, Cut::At, 0);
    lemma_stretch(s, b, s.len() as int);
    assert(s.subrange(b, s.len() as int) =~= cut_start(s, Cut::At));
}

proof fn lemma_field_stretch(s: Seq<char>, i: int, n: int, k: int)
    requires
        0 <= i <= s.len(),
        0 <= k < fields_from(s, i, n).len(),
    ensures
        stretch(fields_from(s, i, n)[k], s),
    decreases n,
{
    let c = find_from(s, ',', i);
    lemma_find_from(s, ',', i);
    lemma_stretch(s, i, s.len() as int);
    assert(s.subrange(i, s.len() as int) =~= s.skip(i));
    lemma_trim_stretch(s.skip(i));
    lemma_stretch_of(trim(s.skip(i)), s.skip(i), s);
    lemma_stretch(s, i, c);
    lemma_trim_stretch(s.subrange(i, c));
    lemma_stretch_of(trim(s.subrange(i, c)), s.subrange(i, c), s);
    if n > 1 && k > 0 {
        let next = if c < s.len() {
            c + 1
        } else {
            s.len() as int
        };
        let rest = fields_from(s, next, n - 1);
        assert(fields_from(s, i, n)[k] == rest[k - 1]);
        lemma_field_stretch(s, next, n - 1, k - 1);
    }
}

/// The lines of a file stand in its text.
proof fn lemma_line_stretch(w: Seq<Seq<char>>, nl: Seq<char>, n: int, i: int)
    requires
        0 <= i < n <= w.len(),
    ensures
        stretch(w[i], join_upto(w, nl, n)),
    decreases n,
{
    let s = join_upto(w, nl, n);
    if n == 1 {
        lemma_stretch(s, 0, s.len() as int);
        assert(s.subrange(0, s.len() as int) =~= w[0]);
    } else {
        let a = join_upto(w, nl, n - 1);
        if i < n - 1 {
            lemma_line_stretch(w, nl, n - 1, i);
            lemma_stretch(s, 0, a.len() as int);
            assert(s.subrange(0, a.len() as int) =~= a);
            lemma_stretch_of(w[i], a, s);
        } else {
            let k = (a + nl).len() as int;
            lemma_stretch(s, k, s.len() as int);
            assert(s.subrange(k, s.len() as int) =~= w[i]);
        }
    }
}

/// A name that stands in a text that does not hold a word is not that word's.
proof fn lemma_other_name(name: Seq<char>, s: Seq<char>, e: Seq<char>)
    requires
        stretch(name, s),
        plain_word(e),
        e[0] != '@',
        !has_part(lowered(s), lowered(e)),
    ensures
        lookup_name(name) != lookup_name(e),
{
    let n = e.len() as int;
    assert(!is_white(e[0]) && !is_white(e[n - 1]));
    lemma_trim_is(e, 0, n);
    assert(e.subrange(0, n) =~= e);
    assert(cut_start(e, Cut::At) =~= e);
    assert(lookup_name(e) == lowered(e));
    if lookup_name(name) == lookup_name(e) {
        let a = trim(name);
        let b = cut_start(a, Cut::At);
        let c = trim(b);
        lemma_trim_stretch(name);
        lemma_trim_stretch(a);
        lemma_trim_stretch(b);
        lemma_stretch_of(a, name, s);
        lemma_stretch_of(b, a, s);
        lemma_stretch_of(c, b, s);
        assert(lowered(c) == lowered(e));
        assert(lowered(c).subrange(0, lowered(c).len() as int) =~= lowered(e));
        assert(stands_at(lowered(c), lowered(e), 0));
        lemma_stretch_part(c, s, lowered(e));
    }
}

/// The tags of a text that does not hold a word are clear of it.
proof fn lemma_word_tags(line: Seq<char>, i: int, own: Seq<char>, e: Seq<char>)
    requires
        0 <= i <= line.len(),
        plain_word(e),
        e[0] != '@',
        !has_part(lowered(line), lowered(e)),
    ensures
        tags_clear(line, i, seq![(lookup_name(own), e)], seq![(lookup_name(e), own)]),
    decreases line.len() - i,
{
    let r = seq![(lookup_name(e), own)];
    if i < line.len() {
        if fn_at(line, i) {
            let k = name_end(line, i + 3);
            lemma_name_end(line, i + 3);
            let name = line.subrange(i + 3, k);
            lemma_stretch(line, i + 3, k);
            lemma_other_name(name, line, e);
            lemma_one_key(lookup_name(e), own, lookup_name(name));
            lemma_word_tags(line, k, own, e);
        } else {
            lemma_word_tags(line, i + 1, own, e);
        }
    }
}

/// A map of one name.
proof fn lemma_one_key(k: Seq<char>, v: Seq<char>, other: Seq<char>)
    ensures
        lookup(seq![(k, v)], k) == Some(v),
        other != k ==> lookup(seq![(k, v)], other) is None,
{
    let m = seq![(k, v)];
    assert(lookup_from(m, other, 1) is None);
}

/// A style line is in plain form: the word, and as many fields as it has, without
/// white space around them. Where it names the font, it writes its name.
pub open spec fn style_plain(
    line: Seq<char>,
    format: Seq<Seq<char>>,
    own: Seq<char>,
) -> bool {
    match after_prefix(trim_start(line), "Style:"@) {
        Some(rest) => {
            let row = fields(trim_start(rest), style_width(format));
            let name = row[column_or(format, "fontname"@, 1)];
            &&& line == indent(line) + "Style: "@ + join(row, seq![','])
            &&& lookup_name(name) == lookup_name(own) ==> name == own
        },
        None => true,
    }
}

/// The file names the font by its own name alone, as it is written, and its style
/// lines are in plain form.
pub open spec fn names_plainly(w: Seq<Seq<char>>, own: Seq<char>) -> bool {
    forall|i: int|
        0 <= i < w.len() ==> {
            let st = put_back_upto(w, i, seq![], seq![]);
            &&& has_part(st.section, "styles"@) ==> style_plain(#[trigger] w[i], st.format, own)
            &&& st.section == "events"@ ==> tags_spelled(w[i], 0, seq![(lookup_name(own), own)])
        }
}

/// Which names are put back does not matter to how a file is read.
proof fn lemma_put_alike(
    w: Seq<Seq<char>>,
    n: int,
    u: Seq<(Seq<char>, Seq<char>)>,
    v: Seq<(Seq<char>, Seq<char>)>,
    g: Seq<(Seq<char>, DrawEntryView)>,
)
    requires
        0 <= n <= w.len(),
    ensures
        ({
            let (a, b) = (put_back_upto(w, n, u, g), put_back_upto(w, n, v, g));
            a.section == b.section && a.skipping == b.skipping && a.format == b.format
        }),
    decreases n,
{
    if n > 0 {
        lemma_put_alike(w, n - 1, u, v, g);
    }
}

proof fn lemma_word_line(
    line: Seq<char>,
    format: Seq<Seq<char>>,
    own: Seq<char>,
    e: Seq<char>,
)
    requires
        plain_word(e),
        e[0] != '@',
        !has_part(lowered(line), lowered(e)),
        style_plain(line, format, own),
    ensures
        style_spelled(line, format, seq![(lookup_name(own), own)]),
        style_clear(
            line,
            format,
            seq![(lookup_name(own), e)],
            seq![(lookup_name(e), own)],
        ),
{
    match after_prefix(trim_start(line), "Style:"@) {
        Some(rest) => {
            let n = style_width(format);
            let t = trim_start(rest);
            let row = fields(t, n);
            let at = column_or(format, "fontname"@, 1);
            lemma_position(format, "fontname"@, 0);
            lemma_fields_len(t, 0, n);
            let name = row[at];
            let a = trim_start(line);
            lemma_trim_stretch(line);
            let k = "Style:"@.len() as int;
            lemma_stretch(a, k, a.len() as int);
            assert(a.subrange(k, a.len() as int) =~= rest);
            lemma_stretch_of(rest, a, line);
            lemma_trim_stretch(rest);
            lemma_stretch_of(t, rest, line);
            lemma_field_stretch(t, 0, n, at);
            lemma_stretch_of(name, t, line);
            lemma_other_name(name, line, e);
            lemma_one_key(lookup_name(e), own, lookup_name(name));
            lemma_one_key(lookup_name(own), own, lookup_name(name));
        },
        None => {},
    }
}

/// Stripping undoes embedding: a file in which a font is named by a word is given
/// a subset of it under a new word, and is the file again when it is stripped by
/// the name that is read back from it. The new word does not stand in the file, in
/// letters of either case. The file ends each of its lines with the line break and
/// has a script info; it carries no fonts and no comments on them; it names the
/// font by its own name alone, and its style lines are in plain form. No piece of
/// the font's data reads as a header.
pub proof fn law_word_font_undone(w: Seq<Seq<char>>, nl: Seq<char>, f: EmbeddedFontView)
    requires
        is_newline(nl),
        file_lines(w, true),
        plain_word(f.original_name),
        plain_word(f.embedded_name),
        f.embedded_name[0] != '@',
        f.original_name != f.embedded_name,
        !has_part(lowered(text_of(w, nl, true)), lowered(f.embedded_name)),
        names_plainly(w, f.original_name),
        has_section(w, "script info"@),
        fontless(w),
        passable(embedded_block(f)),
    ensures
        ({
            let s = text_of(w, nl, true);
            let m = seq![(lookup_name(f.original_name), f.embedded_name)];
            let text = embedded_file(s, nl, m, seq![f]);
            stripped_file(text, nl, restore_plan(comments_of(text), seq![])) == s
        }),
{
    let s = text_of(w, nl, true);
    let (o, e) = (f.original_name, f.embedded_name);
    let m = seq![(lookup_name(o), e)];
    let r = seq![(lookup_name(e), o)];
    let u = seq![(lookup_name(o), o)];
    let none: Seq<(Seq<char>, Seq<char>)> = seq![];
    let g: Seq<(Seq<char>, DrawEntryView)> = seq![];
    let n = w.len() as int;
    let k = o.len() as int;
    assert(!is_white(o[0]) && !is_white(o[k - 1]));
    lemma_trim_is(o, 0, k);
    assert(o.subrange(0, k) =~= o);
    assert forall|i: int| 0 <= i < o.len() implies #[trigger] o[i] != '\n' by {
        assert(!is_white(o[i]));
    }
    assert forall|i: int| 0 <= i < n implies line_spelled(
        put_back_upto(w, i, u, g),
        #[trigger] w[i],
        u,
    ) && ({
        let st = put_back_upto(w, i, u, g);
        &&& has_part(st.section, "styles"@) ==> style_clear(w[i], st.format, m, r)
        &&& st.section == "events"@ ==> tags_clear(w[i], 0, m, r)
    }) by {
        let st = put_back_upto(w, i, u, g);
        lemma_put_alike(w, i, none, u, g);
        lemma_line_stretch(w, nl, n, i);
        let all = join(w, nl);
        lemma_stretch(s, 0, all.len() as int);
        assert(s.subrange(0, all.len() as int) =~= all);
        lemma_stretch_of(w[i], all, s);
        if has_part(lowered(w[i]), lowered(e)) {
            lemma_stretch_part(w[i], s, lowered(e));
        }
        assert(has_part(st.section, "styles"@) ==> style_plain(w[i], st.format, o));
        if has_part(st.section, "styles"@) {
            lemma_word_line(w[i], st.format, o, e);
        }
        lemma_word_tags(w[i], 0, o, e);
    }
    assert(names_font(w, o, e));
    law_one_font_undone(w, true, nl, f);
}

// ---------------------------------------------------------------------------
// Drawings of a file
// ---------------------------------------------------------------------------
/// A line whose drawings can be put back: it does not name the drawing font
/// itself, and where it is a dialogue it is in plain form, with braces in its
/// text alone.
pub open spec fn drawable(st: DrawFile, line: Seq<char>) -> bool {
    st.section == "events"@ && header_name(trim(line)) is None ==> {
        &&& !has_part(line, "\\fnASSDrawSubset"@)
        &&& after_prefix(trim(line), "Format:"@) is None ==> match (
            after_prefix(trim_start(line), "Dialogue:"@),
            position(st.format, "text"@),
        ) {
            (Some(rest), Some(at)) => {
                let row = fields(trim_start(rest), st.format.len() as int);
                &&& line == indent(line) + "Dialogue: "@ + join(row, seq![','])
                &&& forall|k: int| 0 <= k < row.len() && k != at ==> unbraced(#[trigger] row[k])
            },
            _ => true,
        }
    }
}

pub open spec fn lines_drawable(w: Seq<Seq<char>>) -> bool {
    forall|i: int| 0 <= i < w.len() ==> drawable(draw_upto(w, i), #[trigger] w[i])
}

/// What stands in front of a field, and behind it, when fields are joined.
spec fn join_front(row: Seq<Seq<char>>, at: int) -> Seq<char> {
    if at == 0 {
        seq![]
    } else {
        join(row.take(at), seq![',']) + seq![',']
    }
}

spec fn join_back(row: Seq<Seq<char>>, at: int) -> Seq<char> {
    if at + 1 == row.len() {
        seq![]
    } else {
        seq![','] + join(row.skip(at + 1), seq![','])
    }
}

proof fn lemma_join_at(row: Seq<Seq<char>>, at: int, x: Seq<char>)
    requires
        0 <= at < row.len(),
    ensures
        join(row.update(at, x), seq![',']) == join_front(row, at) + x + join_back(row, at),
{
    let sep = seq![','];
    let a = row.take(at);
    let one = seq![x];
    let b = row.skip(at + 1);
    let v = row.update(at, x);
    assert(v =~= a + one + b);
    assert(join(one, sep) == x);
    if at > 0 {
        lemma_join_add(a, one, sep);
        if b.len() > 0 {
            lemma_join_add(a + one, b, sep);
        } else {
            assert(a + one + b =~= a + one);
        }
    } else {
        assert(a + one =~= one);
        if b.len() > 0 {
            lemma_join_add(one, b, sep);
        } else {
            assert(one + b =~= one);
        }
    }
    assert(join(v, sep) =~= join_front(row, at) + x + join_back(row, at));
}

proof fn lemma_join_unbraced(v: Seq<Seq<char>>, n: int)
    requires
        0 <= n <= v.len(),
        forall|k: int| 0 <= k < v.len() ==> unbraced(#[trigger] v[k]),
    ensures
        unbraced(join_upto(v, seq![','], n)),
    decreases n,
{
    let s = join_upto(v, seq![','], n);
    if n == 1 {
        assert(unbraced(v[0]));
    } else if n > 1 {
        lemma_join_unbraced(v, n - 1);
        let a = join_upto(v, seq![','], n - 1);
        assert(unbraced(v[n - 1]));
        assert forall|i: int| 0 <= i < s.len() implies #[trigger] s[i] != '{' && s[i] != '}' by {
            if i < a.len() {
                assert(s[i] == a[i]);
            } else if i > a.len() {
                assert(s[i] == v[n - 1][i - a.len() - 1]);
            }
        }
    }
}

proof fn lemma_unbraced_add(a: Seq<char>, b: Seq<char>)
    requires
        unbraced(a),
        unbraced(b),
    ensures
        unbraced(a + b),
{
    let s = a + b;
    assert forall|i: int| 0 <= i < s.len() implies #[trigger] s[i] != '{' && s[i] != '}' by {
        if i < a.len() {
            assert(s[i] == a[i]);
        } else {
            assert(s[i] == b[i - a.len()]);
        }
    }
}

/// A dialogue in plain form with its drawings replaced is the line with its
/// drawings replaced.
proof fn lemma_dialogue(
    line: Seq<char>,
    row: Seq<Seq<char>>,
    at: int,
    entries: Seq<DrawEntryView>,
)
    requires
        0 <= at < row.len(),
        line == indent(line) + "Dialogue: "@ + join(row, seq![',']),
        forall|k: int| 0 <= k < row.len() && k != at ==> unbraced(#[trigger] row[k]),
    ensures
        ({
            let d = drawn(row[at], entries);
            let made = indent(line) + "Dialogue: "@ + join(row.update(at, d.out), seq![',']);
            &&& drawn(line, entries) == (DrawView { out: made, entries: d.entries })
            &&& header_name(trim(made)) is None
            &&& made.len() > 0
        }),
{
    let d = drawn(row[at], entries);
    let word = indent(line) + "Dialogue: "@;
    let front = join_front(row, at);
    let back = join_back(row, at);
    let made = word + join(row.update(at, d.out), seq![',']);
    reveal_strlit("Dialogue: ");
    lemma_indent_white(line);
    assert(unbraced(indent(line))) by {
        assert forall|i: int| 0 <= i < indent(line).len() implies #[trigger] indent(line)[i] != '{'
            && indent(line)[i] != '}' by {
            assert(is_white(indent(line)[i]));
        }
    }
    lemma_unbraced_add(indent(line), "Dialogue: "@);
    let comma = seq![','];
    assert(unbraced(comma));
    assert(unbraced(front)) by {
        if at > 0 {
            let v = row.take(at);
            assert forall|k: int| 0 <= k < v.len() implies unbraced(#[trigger] v[k]) by {
                assert(v[k] == row[k]);
            }
            lemma_join_unbraced(v, at);
            lemma_unbraced_add(join(v, comma), comma);
        }
    }
    assert(unbraced(back)) by {
        if at + 1 < row.len() {
            let v = row.skip(at + 1);
            assert forall|k: int| 0 <= k < v.len() implies unbraced(#[trigger] v[k]) by {
                assert(v[k] == row[at + 1 + k]);
            }
            lemma_join_unbraced(v, v.len() as int);
            lemma_unbraced_add(comma, join(v, comma));
        }
    }
    lemma_unbraced_add(word, front);
    let a = word + front;
    lemma_join_at(row, at, row[at]);
    assert(row.update(at, row[at]) =~= row);
    lemma_join_at(row, at, d.out);
    assert(line =~= a + row[at] + back);
    assert(made =~= a + d.out + back);
    lemma_drawn_in(a, row[at], back, entries);
    let rest = "Dialogue: "@ + join(row.update(at, d.out), seq![',']);
    assert(made =~= indent(line) + rest);
    lemma_first_char(indent(line), rest);
}

/// One line of a file whose drawings are replaced.
proof fn lemma_drawn_step(st: DrawFile, line: Seq<char>)
    requires
        bare_line(line),
        drawable(st, line),
        entries_ok(st.entries),
    ensures
        ({
            let next = draw_line(st, line);
            let row = next.out.last();
            &&& next.out == st.out.push(row)
            &&& entries_ok(next.entries)
            &&& st.entries.len() <= next.entries.len()
            &&& next.entries.take(st.entries.len() as int) == st.entries
            &&& next.section == (match header_name(trim(line)) {
                Some(h) => lowered(h),
                None => st.section,
            })
            &&& header_name(trim(row)) is Some ==> row == line
            &&& header_name(trim(line)) is Some ==> row == line
            &&& st.section != "events"@ ==> row == line
            &&& line.len() > 0 ==> row.len() > 0
            &&& entries_fit(next.entries) ==> bare_line(row)
        }),
{
    lemma_uncut(line);
    let next = draw_line(st, line);
    assert(st.entries.take(st.entries.len() as int) =~= st.entries);
    if st.section == "events"@ && header_name(trim(line)) is None && after_prefix(
        trim(line),
        "Format:"@,
    ) is None {
        match (after_prefix(trim_start(line), "Dialogue:"@), position(st.format, "text"@)) {
            (Some(rest), Some(at)) => {
                let row = fields(trim_start(rest), st.format.len() as int);
                lemma_position(st.format, "text"@, 0);
                lemma_fields_len(trim_start(rest), 0, st.format.len() as int);
                lemma_dialogue(line, row, at, st.entries);
                let none: Seq<char> = seq![];
                let start = DrawView { out: none, entries: st.entries };
                lemma_entries_grow(line, 0, start);
                if entries_fit(next.entries) {
                    lemma_drawn_line(line, 0, start);
                }
            },
            _ => {},
        }
    }
}

/// The drawings of a line are put back.
proof fn lemma_drawn_back(st: DrawFile, line: Seq<char>, g: Seq<(Seq<char>, DrawEntryView)>)
    requires
        bare_line(line),
        drawable(st, line),
        entries_ok(st.entries),
        st.section == "events"@,
        header_name(trim(line)) is None,
        entries_fit(draw_line(st, line).entries),
        knows(g, draw_line(st, line).entries),
    ensures
        draw_runs(draw_line(st, line).out.last(), g) == line,
{
    lemma_uncut(line);
    lemma_no_runs(line, g);
    if after_prefix(trim(line), "Format:"@) is None {
        match (after_prefix(trim_start(line), "Dialogue:"@), position(st.format, "text"@)) {
            (Some(rest), Some(at)) => {
                let row = fields(trim_start(rest), st.format.len() as int);
                lemma_position(st.format, "text"@, 0);
                lemma_fields_len(trim_start(rest), 0, st.format.len() as int);
                lemma_dialogue(line, row, at, st.entries);
                law_drawings_restored(line, st.entries, g);
            },
            _ => {},
        }
    }
}

/// What is drawn does not depend on carriage returns at the ends of lines.
proof fn lemma_draw_cut(a: Seq<Seq<char>>, b: Seq<Seq<char>>, n: int)
    requires
        same_cut(a, b),
        0 <= n <= a.len(),
    ensures
        draw_upto(a, n) == draw_upto(b, n),
    decreases n,
{
    if n > 0 {
        lemma_draw_cut(a, b, n - 1);
        assert(cut_end(a[n - 1], Cut::CarriageReturn) == cut_end(b[n - 1], Cut::CarriageReturn));
    }
}

/// The rows and entries of a file that is drawn so far.
proof fn lemma_drawn_upto(w: Seq<Seq<char>>, n: int)
    requires
        0 <= n <= w.len(),
        forall|i: int| 0 <= i < w.len() ==> bare_line(#[trigger] w[i]),
        lines_drawable(w),
    ensures
        draw_upto(w, n).out.len() == n,
        entries_ok(draw_upto(w, n).entries),
    decreases n,
{
    if n > 0 {
        lemma_drawn_upto(w, n - 1);
        assert(bare_line(w[n - 1]));
        assert(drawable(draw_upto(w, n - 1), w[n - 1]));
        lemma_drawn_step(draw_upto(w, n - 1), w[n - 1]);
    }
}

/// What has been drawn of a file stays.
proof fn lemma_drawn_stays(w: Seq<Seq<char>>, i: int, n: int)
    requires
        0 <= i <= n <= w.len(),
        forall|k: int| 0 <= k < w.len() ==> bare_line(#[trigger] w[k]),
        lines_drawable(w),
    ensures
        ({
            let (a, b) = (draw_upto(w, i), draw_upto(w, n));
            &&& a.out.len() <= b.out.len()
            &&& b.out.take(a.out.len() as int) == a.out
            &&& a.entries.len() <= b.entries.len()
            &&& b.entries.take(a.entries.len() as int) == a.entries
        }),
    decreases n,
{
    let (a, b) = (draw_upto(w, i), draw_upto(w, n));
    if i < n {
        lemma_drawn_stays(w, i, n - 1);
        lemma_drawn_upto(w, n - 1);
        let c = draw_upto(w, n - 1);
        assert(bare_line(w[n - 1]));
        assert(drawable(c, w[n - 1]));
        lemma_drawn_step(c, w[n - 1]);
        assert(b.out.take(a.out.len() as int) =~= c.out.take(a.out.len() as int));
        assert forall|k: int| 0 <= k < a.entries.len() implies b.entries[k] == a.entries[k] by {
            assert(b.entries[k] == b.entries.take(c.entries.len() as int)[k]);
            assert(c.entries[k] == c.entries.take(a.entries.len() as int)[k]);
        }
        assert(b.entries.take(a.entries.len() as int) =~= a.entries);
    } else {
        assert(b.out.take(a.out.len() as int) =~= a.out);
        assert(b.entries.take(a.entries.len() as int) =~= a.entries);
    }
}

/// The row that a line of a drawn file has become, and what holds of it.
proof fn lemma_drawn_row(w: Seq<Seq<char>>, i: int, g: Seq<(Seq<char>, DrawEntryView)>)
    requires
        0 <= i < w.len(),
        forall|k: int| 0 <= k < w.len() ==> bare_line(#[trigger] w[k]),
        lines_drawable(w),
        entries_fit(draw_upto(w, w.len() as int).entries),
        knows(g, draw_upto(w, w.len() as int).entries),
    ensures
        ({
            let st = draw_upto(w, i);
            let row = draw_upto(w, w.len() as int).out[i];
            &&& row == draw_line(st, w[i]).out.last()
            &&& bare_line(row)
            &&& w[i].len() > 0 ==> row.len() > 0
            &&& header_name(trim(row)) is Some ==> row == w[i]
            &&& header_name(trim(w[i])) is Some ==> row == w[i]
            &&& st.section != "events"@ ==> row == w[i]
            &&& st.section == "events"@ && header_name(trim(w[i])) is None ==> draw_runs(row, g)
                == w[i]
        }),
{
    let n = w.len() as int;
    let end = draw_upto(w, n);
    let st = draw_upto(w, i);
    let next = draw_upto(w, i + 1);
    lemma_drawn_upto(w, i);
    lemma_drawn_stays(w, i + 1, n);
    assert(bare_line(w[i]));
    assert(drawable(st, w[i]));
    lemma_drawn_step(st, w[i]);
    assert(next == draw_line(st, w[i]));
    assert(end.out[i] == end.out.take(next.out.len() as int)[i]);
    assert(knows(g, next.entries)) by {
        assert forall|j: int| 0 <= j < next.entries.len() implies lookup(
            g,
            (#[trigger] next.entries[j]).ch,
        ) == Some(next.entries[j]) by {
            assert(end.entries.take(next.entries.len() as int)[j] == end.entries[j]);
        }
    }
    if st.section == "events"@ && header_name(trim(w[i])) is None {
        lemma_drawn_back(st, w[i], g);
    }
}

/// The two ways to read a drawn file agree on its sections.
proof fn lemma_drawn_sections(
    w: Seq<Seq<char>>,
    n: int,
    u: Seq<(Seq<char>, Seq<char>)>,
    g: Seq<(Seq<char>, DrawEntryView)>,
)
    requires
        0 <= n <= w.len(),
        forall|k: int| 0 <= k < w.len() ==> bare_line(#[trigger] w[k]),
        lines_drawable(w),
        entries_fit(draw_upto(w, w.len() as int).entries),
        knows(g, draw_upto(w, w.len() as int).entries),
        lines_spelled(draw_upto(w, w.len() as int).out, u, g),
    ensures
        ({
            let st = put_back_upto(draw_upto(w, w.len() as int).out, n, u, g);
            &&& st.section == draw_upto(w, n).section
            &&& !st.skipping
        }),
    decreases n,
{
    if n > 0 {
        lemma_drawn_sections(w, n - 1, u, g);
        let v = draw_upto(w, w.len() as int).out;
        let st = put_back_upto(v, n - 1, u, g);
        lemma_drawn_upto(w, w.len() as int);
        lemma_drawn_upto(w, n - 1);
        lemma_drawn_row(w, n - 1, g);
        assert(bare_line(w[n - 1]));
        assert(drawable(draw_upto(w, n - 1), w[n - 1]));
        lemma_drawn_step(draw_upto(w, n - 1), w[n - 1]);
        assert(line_spelled(st, v[n - 1], u));
        lemma_kept_line(st, v[n - 1], u, g);
    }
}

/// A drawn file has the lines of the file, but for its drawings.
proof fn lemma_drawn_file(
    w: Seq<Seq<char>>,
    ends: bool,
    u: Seq<(Seq<char>, Seq<char>)>,
    g: Seq<(Seq<char>, DrawEntryView)>,
)
    requires
        file_lines(w, ends),
        lines_drawable(w),
        entries_fit(draw_upto(w, w.len() as int).entries),
        knows(g, draw_upto(w, w.len() as int).entries),
        lines_spelled(draw_upto(w, w.len() as int).out, u, g),
    ensures
        ({
            let v = draw_upto(w, w.len() as int).out;
            &&& file_lines(v, ends)
            &&& redrawn(v, w, u, g)
        }),
{
    let n = w.len() as int;
    let v = draw_upto(w, n).out;
    lemma_drawn_upto(w, n);
    assert forall|i: int| 0 <= i < v.len() implies bare_line(#[trigger] v[i]) by {
        lemma_drawn_row(w, i, g);
    }
    lemma_drawn_row(w, n - 1, g);
    assert forall|i: int| 0 <= i < v.len() implies #[trigger] w[i] == (if is_event(
        put_back_upto(v, i, u, g),
        v[i],
    ) {
        draw_runs(v[i], g)
    } else {
        v[i]
    }) by {
        lemma_drawn_row(w, i, g);
        lemma_drawn_sections(w, i, u, g);
    }
}

/// A conversion is undone: a file whose drawings are replaced by characters of
/// the drawing font, and which is given that font and subset fonts, is the file
/// again when it is stripped of them by the names that are read back from it and
/// by a map that knows the drawings. The file is such that each of the two steps
/// can be undone; there are no more drawings than characters for them.
pub proof fn law_conversion_undone(
    w: Seq<Seq<char>>,
    ends: bool,
    nl: Seq<char>,
    m: Seq<(Seq<char>, Seq<char>)>,
    fonts: Seq<EmbeddedFontView>,
    g: Seq<(Seq<char>, DrawEntryView)>,
)
    requires
        is_newline(nl),
        file_lines(w, ends),
        lines_drawable(w),
        ({
            let s = text_of(w, nl, ends);
            let d = file_drawn(s);
            &&& entries_fit(d.entries)
            &&& knows(g, d.entries)
            &&& undoable(rejoined(d.out, nl, s), nl, m, fonts)
            &&& lines_spelled(d.out, own_names(m, fonts), g)
        }),
    ensures
        ({
            let s = text_of(w, nl, ends);
            let text = embedded_file(rejoined(file_drawn(s).out, nl, s), nl, m, fonts);
            stripped_file(text, nl, restore_plan(comments_of(text), g)) == s
        }),
{
    let s = text_of(w, nl, ends);
    let n = w.len() as int;
    let u = own_names(m, fonts);
    lemma_text_of(w, nl, ends);
    lemma_draw_cut(lines(s), w, n);
    let v = draw_upto(w, n).out;
    let t = rejoined(v, nl, s);
    lemma_drawn_file(w, ends, u, g);
    lemma_text_of(v, nl, ends);
    assert(t == text_of(v, nl, ends));
    law_subsets_undone(t, nl, m, fonts, g);
    lemma_put_back_cut(lines(t), v, n, u, g);
    lemma_kept_lines(v, w, n, u, g);
    assert(w.take(n) =~= w);
    assert(put_back_file(t, nl, u, g) == rejoined(w, nl, t));
}

/// Where no names are put back, any names are written as they are.
proof fn lemma_nothing_spelled(s: Seq<char>, i: int)
    requires
        0 <= i <= s.len(),
    ensures
        tags_spelled(s, i, seq![]),
    decreases s.len() - i,
{
    let none: Seq<(Seq<char>, Seq<char>)> = seq![];
    if i < s.len() {
        if fn_at(s, i) {
            let e = name_end(s, i + 3);
            lemma_name_end(s, i + 3);
            assert(lookup(none, lookup_name(s.subrange(i + 3, e))) is None);
            lemma_nothing_spelled(s, e);
        } else {
            lemma_nothing_spelled(s, i + 1);
        }
    }
}

/// A strip without names only puts drawings back.
proof fn lemma_strip_drawings(v: Seq<Seq<char>>, n: int, g: Seq<(Seq<char>, DrawEntryView)>)
    requires
        0 <= n <= v.len(),
        forall|i: int| 0 <= i < v.len() ==> bare_line(#[trigger] v[i]),
        lines_spelled(v, seq![], g),
    ensures
        strip_upto(v, n, restore_plan(seq![], g)) == put_back_upto(v, n, seq![], g),
    decreases n,
{
    let none: Seq<(Seq<char>, Seq<char>)> = seq![];
    if n > 0 {
        lemma_strip_drawings(v, n - 1, g);
        let st = put_back_upto(v, n - 1, none, g);
        let line = v[n - 1];
        assert(bare_line(line));
        assert(line_spelled(st, line, none));
        lemma_uncut(line);
        match comment_names(trim(line)) {
            Some((new, _)) => {
                assert(lookup(none, lookup_name(new)) is None);
            },
            None => {},
        }
    }
}

/// Drawings are put back: a file whose drawings are replaced by characters of the
/// drawing font is the file again when it is stripped by a map that knows them.
/// The file carries no fonts and no comments on them, its lines with drawings are
/// in plain form, and there are no more drawings than characters for them.
pub proof fn law_file_drawings_restored(
    w: Seq<Seq<char>>,
    ends: bool,
    nl: Seq<char>,
    g: Seq<(Seq<char>, DrawEntryView)>,
)
    requires
        is_newline(nl),
        file_lines(w, ends),
        fontless(w),
        lines_drawable(w),
        entries_fit(file_drawn(text_of(w, nl, ends)).entries),
        knows(g, file_drawn(text_of(w, nl, ends)).entries),
    ensures
        ({
            let s = text_of(w, nl, ends);
            stripped_file(rejoined(file_drawn(s).out, nl, s), nl, restore_plan(seq![], g)) == s
        }),
{
    let s = text_of(w, nl, ends);
    let n = w.len() as int;
    let u: Seq<(Seq<char>, Seq<char>)> = seq![];
    let q = restore_plan(u, g);
    lemma_text_of(w, nl, ends);
    lemma_draw_cut(lines(s), w, n);
    let v = draw_upto(w, n).out;
    let t = rejoined(v, nl, s);
    lemma_drawn_upto(w, n);
    lemma_fontless_spelled(w, n, g);
    lemma_drawn_file(w, ends, u, g);
    lemma_text_of(v, nl, ends);
    assert(t == text_of(v, nl, ends));
    lemma_strip_cut(lines(t), v, n, q);
    lemma_strip_drawings(v, n, g);
    lemma_kept_lines(v, w, n, u, g);
    assert(w.take(n) =~= w);
    assert(stripped_file(t, nl, q) == rejoined(w, nl, t));
}

proof fn lemma_strip_cut(a: Seq<Seq<char>>, b: Seq<Seq<char>>, n: int, q: StripPlan)
    requires
        same_cut(a, b),
        0 <= n <= a.len(),
    ensures
        strip_upto(a, n, q) == strip_upto(b, n, q),
    decreases n,
{
    if n > 0 {
        lemma_strip_cut(a, b, n - 1, q);
        assert(cut_end(a[n - 1], Cut::CarriageReturn) == cut_end(b[n - 1], Cut::CarriageReturn));
    }
}

/// The lines of a drawn file without fonts stay when no names are put back.
proof fn lemma_fontless_spelled(w: Seq<Seq<char>>, n: int, g: Seq<(Seq<char>, DrawEntryView)>)
    requires
        n == w.len(),
        forall|k: int| 0 <= k < w.len() ==> bare_line(#[trigger] w[k]),
        fontless(w),
        lines_drawable(w),
        entries_fit(draw_upto(w, n).entries),
        knows(g, draw_upto(w, n).entries),
    ensures
        lines_spelled(draw_upto(w, n).out, seq![], g),
{
    let none: Seq<(Seq<char>, Seq<char>)> = seq![];
    let v = draw_upto(w, n).out;
    lemma_drawn_upto(w, n);
    lemma_fontless_sections(w, n, g);
    assert forall|i: int| 0 <= i < v.len() implies line_spelled(
        put_back_upto(v, i, none, g),
        #[trigger] v[i],
        none,
    ) by {
        lemma_fontless_sections(w, i, g);
        lemma_fontless_line(w, i, put_back_upto(v, i, none, g), g);
    }
}

proof fn lemma_fontless_line(
    w: Seq<Seq<char>>,
    i: int,
    st: RewriteView,
    g: Seq<(Seq<char>, DrawEntryView)>,
)
    requires
        0 <= i < w.len(),
        forall|k: int| 0 <= k < w.len() ==> bare_line(#[trigger] w[k]),
        fontless(w),
        lines_drawable(w),
        entries_fit(draw_upto(w, w.len() as int).entries),
        knows(g, draw_upto(w, w.len() as int).entries),
        st.section == draw_upto(w, i).section,
    ensures
        line_spelled(st, draw_upto(w, w.len() as int).out[i], seq![]),
{
    let none: Seq<(Seq<char>, Seq<char>)> = seq![];
    let v = draw_upto(w, w.len() as int).out;
    lemma_drawn_row(w, i, g);
    lemma_nothing_spelled(v[i], 0);
    reveal_strlit("script info");
    reveal_strlit("events");
    assert("script info"@.len() != "events"@.len());
    assert(header_name(trim(w[i])) matches Some(h) ==> lowered(h) != "fonts"@);
    match after_prefix(trim_start(v[i]), "Style:"@) {
        Some(rest) => {
            let row = fields(trim_start(rest), style_width(st.format));
            assert(lookup(
                none,
                lookup_name(row[column_or(st.format, "fontname"@, 1)]),
            ) is None);
        },
        None => {},
    }
}

proof fn lemma_fontless_sections(w: Seq<Seq<char>>, n: int, g: Seq<(Seq<char>, DrawEntryView)>)
    requires
        0 <= n <= w.len(),
        forall|k: int| 0 <= k < w.len() ==> bare_line(#[trigger] w[k]),
        fontless(w),
        lines_drawable(w),
        entries_fit(draw_upto(w, w.len() as int).entries),
        knows(g, draw_upto(w, w.len() as int).entries),
    ensures
        ({
            let st = put_back_upto(draw_upto(w, w.len() as int).out, n, seq![], g);
            &&& st.section == draw_upto(w, n).section
            &&& !st.skipping
        }),
    decreases n,
{
    let none: Seq<(Seq<char>, Seq<char>)> = seq![];
    if n > 0 {
        lemma_fontless_sections(w, n - 1, g);
        let v = draw_upto(w, w.len() as int).out;
        let st = put_back_upto(v, n - 1, none, g);
        lemma_drawn_upto(w, w.len() as int);
        lemma_drawn_upto(w, n - 1);
        lemma_drawn_row(w, n - 1, g);
        assert(bare_line(w[n - 1]));
        assert(drawable(draw_upto(w, n - 1), w[n - 1]));
        lemma_drawn_step(draw_upto(w, n - 1), w[n - 1]);
        lemma_fontless_line(w, n - 1, st, g);
        lemma_kept_line(st, v[n - 1], none, g);
    }
}

} // verus!
