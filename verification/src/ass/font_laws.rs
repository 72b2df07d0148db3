//! What holds of embedded fonts that are written and read again.
use vstd::prelude::*;

use crate::ass::draw::{indent, rejoined, DrawEntryView};
use crate::ass::fonts::{
    block_lines, comment_names, comments_line, embedded_blocks, flushed, fonts_line, fonts_of,
    fonts_of_lines, fonts_start, fonts_upto, pieces, section_lines, section_lines_upto,
    section_text, FontBlock, FontsView,
};
use crate::ass::parse::{column_or, style_width};
use crate::ass::rewrite::{
    draw_run, draw_run_at, draw_runs, draw_runs_from, embed_line, embed_plan, embed_upto,
    embedded_file, fn_at, fn_tag, fn_tags, fn_tags_from, font_comments_upto, lemma_name_end,
    name_end, rename_comments_upto, rewrite_header, strip_line, strip_upto, stripped_file,
    style_line, subset_comment, with_fonts, EmbedPlan, RewriteView, StripPlan,
};
use crate::ass::style::lookup_name;
use crate::ass::uu::{is_uu_char, law_uu_round_trip, lemma_uu_text_chars, uu_text};
use crate::line_laws::{
    is_newline, law_lines_of_join, lemma_add_on_one_line, lemma_fields_on_one_line, lemma_join_add,
    lemma_join_flat, lemma_join_on_one_line, lemma_lines_on_one_line, lemma_part_on_one_line,
    lemma_trim_at, lemma_trim_cut_return, lemma_trim_is, lemma_trim_on_one_line, on_one_line,
    same_trimmed, seen_lines,
};
use crate::models::EmbeddedFontView;
use crate::split::{after_prefix, fields, header_name, join, lemma_fields_len, lines, position_from};
use crate::strmap::{lookup, put};
use crate::text::{
    cut_end, cut_front, find_from, find_part, is_white, lemma_cut_front, lemma_find_part, lowered,
    stands_at, trim, trim_start, Cut,
};

verus! {

// ---------------------------------------------------------------------------
// Reading a list of lines from a state
// ---------------------------------------------------------------------------
/// The state after the first `n` lines, from a given state on.
pub open spec fn fonts_run(st: FontsView, v: Seq<Seq<char>>, n: int) -> FontsView
    decreases n,
{
    if n <= 0 {
        st
    } else {
        fonts_line(fonts_run(st, v, n - 1), v[n - 1])
    }
}

pub open spec fn fonts_run_all(st: FontsView, v: Seq<Seq<char>>) -> FontsView {
    fonts_run(st, v, v.len() as int)
}

proof fn lemma_upto_run(v: Seq<Seq<char>>, n: int)
    ensures
        fonts_upto(v, n) == fonts_run(fonts_start(), v, n),
    decreases n,
{
    if n > 0 {
        lemma_upto_run(v, n - 1);
    }
}

/// Only the trimmed lines matter.
proof fn lemma_run_same(st: FontsView, a: Seq<Seq<char>>, b: Seq<Seq<char>>, n: int)
    requires
        same_trimmed(a, b),
        0 <= n <= a.len(),
    ensures
        fonts_run(st, a, n) == fonts_run(st, b, n),
    decreases n,
{
    if n > 0 {
        lemma_run_same(st, a, b, n - 1);
        lemma_trim_cut_return(a[n - 1]);
        lemma_trim_cut_return(b[n - 1]);
        assert(trim(a[n - 1]) == trim(b[n - 1]));
    }
}

proof fn lemma_run_add(st: FontsView, a: Seq<Seq<char>>, b: Seq<Seq<char>>, n: int)
    requires
        0 <= n <= b.len(),
    ensures
        fonts_run(st, a + b, a.len() + n) == fonts_run(fonts_run_all(st, a), b, n),
    decreases n,
{
    if n == 0 {
        lemma_run_prefix(st, a + b, a, a.len() as int);
    } else {
        lemma_run_add(st, a, b, n - 1);
        assert((a + b)[a.len() + n - 1] == b[n - 1]);
    }
}

proof fn lemma_run_prefix(st: FontsView, a: Seq<Seq<char>>, b: Seq<Seq<char>>, n: int)
    requires
        0 <= n <= a.len(),
        n <= b.len(),
        forall|i: int| 0 <= i < n ==> a[i] == b[i],
    ensures
        fonts_run(st, a, n) == fonts_run(st, b, n),
    decreases n,
{
    if n > 0 {
        lemma_run_prefix(st, a, b, n - 1);
    }
}

proof fn lemma_run_all_add(st: FontsView, a: Seq<Seq<char>>, b: Seq<Seq<char>>)
    ensures
        fonts_run_all(st, a + b) == fonts_run_all(fonts_run_all(st, a), b),
{
    lemma_run_add(st, a, b, b.len() as int);
    assert((a + b).len() == a.len() + b.len());
}

// ---------------------------------------------------------------------------
// One font
// ---------------------------------------------------------------------------
/// A piece of data that cannot be taken for a header or the name of a font.
pub open spec fn plain_piece(t: Seq<char>) -> bool {
    header_name(t) is None && after_prefix(t, "fontname:"@) is None
}

/// A font that can be passed over: its name stands on one line, and no piece of
/// its data looks like a header.
pub open spec fn passable(b: FontBlock) -> bool {
    &&& on_one_line(b.fontname)
    &&& forall|i: int|
        0 <= i < pieces(uu_text(b.data)).len() ==> header_name(
            #[trigger] pieces(uu_text(b.data))[i],
        ) is None
}

pub open spec fn all_passable(v: Seq<FontBlock>) -> bool {
    forall|i: int| 0 <= i < v.len() ==> passable(#[trigger] v[i])
}

/// A font that can be read back: its name stands on one line, and no piece of
/// its data looks like another line.
pub open spec fn readable(b: FontBlock) -> bool {
    &&& on_one_line(b.fontname)
    &&& forall|i: int|
        0 <= i < pieces(uu_text(b.data)).len() ==> plain_piece(#[trigger] pieces(uu_text(b.data))[i])
}

proof fn lemma_all_passable(v: Seq<FontBlock>)
    requires
        all_readable(v),
    ensures
        all_passable(v),
{
    assert forall|i: int| 0 <= i < v.len() implies passable(#[trigger] v[i]) by {
        assert(readable(v[i]));
        let b = v[i];
        assert forall|k: int| 0 <= k < pieces(uu_text(b.data)).len() implies header_name(
            #[trigger] pieces(uu_text(b.data))[k],
        ) is None by {
            assert(plain_piece(pieces(uu_text(b.data))[k]));
        }
    }
}

/// A font as it is read back: without white space around its name.
pub open spec fn as_read(b: FontBlock) -> FontBlock {
    FontBlock { fontname: trim(b.fontname), data: b.data }
}

pub open spec fn all_as_read(v: Seq<FontBlock>) -> Seq<FontBlock> {
    Seq::new(v.len(), |i: int| as_read(v[i]))
}

/// What the section is read to so far: fonts complete, none begun.
pub open spec fn complete(fonts: Seq<FontBlock>, section: Seq<char>) -> FontsView {
    FontsView { fonts, section, name: None, data: seq![] }
}

/// A name without white space around it has none at its ends.
pub proof fn lemma_trimmed_ends(name: Seq<char>)
    requires
        trim(name) == name,
        name.len() > 0,
    ensures
        !is_white(name[0]),
        !is_white(name.last()),
{
    let (i, j) = lemma_trim_at(name);
    assert(trim(name).len() == j - i);
    assert(i == 0 && j == name.len());
}

proof fn lemma_fontname_word()
    ensures
        "fontname: "@.len() == 10,
        "fontname:"@.len() == 9,
        "fontname: "@.take(9) == "fontname:"@,
        "fontname: "@[9] == ' ',
        "fontname: "@[0] == 'f',
        "fontname: "@[8] == ':',
        "fontname:"@[0] == 'f',
{
    reveal_strlit("fontname: ");
    reveal_strlit("fontname:");
    assert("fontname: "@.take(9) =~= "fontname:"@);
}

proof fn lemma_fontname_trim(name: Seq<char>)
    ensures
        ({
            let t = trim("fontname: "@ + name);
            &&& t.len() >= 9
            &&& t.take(9) == "fontname:"@
            &&& trim(t.skip(9)) == trim(name)
        }),
{
    let head = "fontname: "@;
    lemma_fontname_word();
    let raw = head + name;
    let (i, j) = lemma_trim_at(name);
    assert forall|x: int| 10 + j <= x < raw.len() implies is_white(#[trigger] raw[x]) by {
        assert(raw[x] == name[x - 10]);
    }
    assert(raw[0] == head[0]);
    if i < j {
        assert(raw[10 + j - 1] == name[j - 1]);
        lemma_trim_is(raw, 0, 10 + j);
        let t = trim(raw);
        assert(t.take(9) =~= head.take(9));
        let u = t.skip(9);
        assert forall|x: int| 0 <= x < 1 + i implies is_white(#[trigger] u[x]) by {
            if x == 0 {
                assert(u[0] == head[9]);
            } else {
                assert(u[x] == name[x - 1]);
            }
        }
        assert(u[1 + i] == name[i]);
        assert(u[1 + j - 1] == name[j - 1]);
        lemma_trim_is(u, 1 + i, 1 + j);
        assert(u.subrange(1 + i, 1 + j) =~= name.subrange(i, j));
    } else {
        assert forall|x: int| 9 <= x < raw.len() implies is_white(#[trigger] raw[x]) by {
            if x == 9 {
                assert(raw[9] == head[9]);
            } else {
                assert(raw[x] == name[x - 10]);
            }
        }
        assert(raw[8] == head[8]);
        lemma_trim_is(raw, 0, 9);
        let t = trim(raw);
        assert(t =~= head.take(9));
        assert(t.take(9) =~= t);
        let u = t.skip(9);
        lemma_trim_is(u, 0, 0);
        assert(u.subrange(0, 0) =~= name.subrange(i, j));
    }
}

proof fn lemma_fontname_line(st: FontsView, name: Seq<char>)
    requires
        st.section == "fonts"@,
    ensures
        fonts_line(st, "fontname: "@ + name) == (FontsView {
            name: Some(trim(name)),
            ..flushed(st)
        }),
{
    let raw = "fontname: "@ + name;
    let t = trim(raw);
    lemma_trim_cut_return(raw);
    lemma_fontname_trim(name);
    lemma_fontname_word();
    assert(t[0] == t.take(9)[0]);
    assert(after_prefix(t, "fontname:"@) == Some(t.skip(9)));
}

proof fn lemma_piece_line(st: FontsView, t: Seq<char>)
    requires
        st.section == "fonts"@,
        st.name is Some,
        t.len() > 0,
        plain_piece(t),
        forall|i: int| 0 <= i < t.len() ==> is_uu_char(#[trigger] t[i]),
    ensures
        fonts_line(st, t) == (FontsView { data: st.data + t, ..st }),
{
    lemma_trim_cut_return(t);
    assert(is_uu_char(t[0]) && is_uu_char(t[t.len() - 1]));
    lemma_trim_is(t, 0, t.len() as int);
    assert(t.subrange(0, t.len() as int) =~= t);
}

proof fn lemma_pieces_run(st: FontsView, s: Seq<char>)
    requires
        st.section == "fonts"@,
        st.name is Some,
        forall|i: int| 0 <= i < s.len() ==> is_uu_char(#[trigger] s[i]),
        forall|i: int| 0 <= i < pieces(s).len() ==> plain_piece(#[trigger] pieces(s)[i]),
    ensures
        fonts_run_all(st, pieces(s)) == (FontsView { data: st.data + s, ..st }),
    decreases s.len(),
{
    let v = pieces(s);
    if s.len() == 0 {
        assert(st.data + s =~= st.data);
    } else if s.len() <= 80 {
        assert(v == seq![s]);
        assert(plain_piece(v[0]));
        lemma_piece_line(st, s);
        assert(fonts_run(st, v, 0) == st);
    } else {
        let a = s.take(80);
        let b = s.skip(80);
        assert(plain_piece(v[0]));
        lemma_piece_line(st, a);
        let one = seq![a];
        assert(fonts_run(st, one, 0) == st);
        let next = FontsView { data: st.data + a, ..st };
        assert(fonts_run_all(st, one) == next);
        assert forall|i: int| 0 <= i < pieces(b).len() implies plain_piece(
            #[trigger] pieces(b)[i],
        ) by {
            assert(pieces(b)[i] == v[i + 1]);
        }
        assert forall|i: int| 0 <= i < b.len() implies is_uu_char(#[trigger] b[i]) by {
            assert(b[i] == s[80 + i]);
        }
        lemma_pieces_run(next, b);
        lemma_run_all_add(st, one, pieces(b));
        assert(st.data + a + b =~= st.data + s);
    }
}

proof fn lemma_empty_line(st: FontsView)
    requires
        st.section == "fonts"@,
    ensures
        fonts_line(st, seq![]) == flushed(st),
{
    reveal_strlit("fontname:");
    let e: Seq<char> = seq![];
    lemma_trim_cut_return(e);
    lemma_trim_is(e, 0, 0);
    assert(e.subrange(0, 0) =~= e);
}

proof fn lemma_block_run(st: FontsView, b: FontBlock)
    requires
        st.section == "fonts"@,
        readable(b),
    ensures
        fonts_run_all(st, block_lines(b)) == complete(
            flushed(st).fonts.push(as_read(b)),
            "fonts"@,
        ),
{
    let s = uu_text(b.data);
    let head = seq!["fontname: "@ + b.fontname];
    let last: Seq<Seq<char>> = seq![seq![]];
    let v = block_lines(b);
    assert(v =~= head + pieces(s) + last);
    lemma_fontname_line(st, b.fontname);
    let st1 = FontsView { name: Some(trim(b.fontname)), ..flushed(st) };
    assert(fonts_run(st, head, 0) == st);
    assert(fonts_run_all(st, head) == st1);
    lemma_uu_text_chars(b.data);
    lemma_pieces_run(st1, s);
    let st2 = FontsView { data: st1.data + s, ..st1 };
    assert(st2.data =~= s);
    lemma_run_all_add(st, head, pieces(s));
    lemma_run_all_add(st, head + pieces(s), last);
    lemma_empty_line(st2);
    assert(fonts_run(st2, last, 0) == st2);
    assert(fonts_run_all(st2, last) == flushed(st2));
    law_uu_round_trip(b.data);
}

// ---------------------------------------------------------------------------
// The section
// ---------------------------------------------------------------------------
pub open spec fn all_readable(v: Seq<FontBlock>) -> bool {
    forall|i: int| 0 <= i < v.len() ==> readable(#[trigger] v[i])
}

proof fn lemma_section_head(st: FontsView)
    ensures
        fonts_line(st, "[Fonts]"@) == complete(flushed(st).fonts, "fonts"@),
{
    reveal_strlit("[Fonts]");
    reveal_strlit("fonts");
    let t = "[Fonts]"@;
    lemma_trim_cut_return(t);
    lemma_trim_is(t, 0, 7);
    assert(t.subrange(0, 7) =~= t);
    assert(lowered(t.subrange(1, 6)) =~= "fonts"@);
}

proof fn lemma_section_run(st: FontsView, v: Seq<FontBlock>, n: int)
    requires
        0 <= n <= v.len(),
        all_readable(v),
    ensures
        fonts_run_all(st, section_lines_upto(v, n)) == complete(
            flushed(st).fonts + all_as_read(v).take(n),
            "fonts"@,
        ),
    decreases n,
{
    if n == 0 {
        lemma_section_head(st);
        let one = seq!["[Fonts]"@];
        assert(fonts_run(st, one, 0) == st);
        assert(fonts_run_all(st, one) == fonts_line(st, "[Fonts]"@));
        assert(flushed(st).fonts + all_as_read(v).take(0) =~= flushed(st).fonts);
    } else {
        lemma_section_run(st, v, n - 1);
        let st1 = complete(flushed(st).fonts + all_as_read(v).take(n - 1), "fonts"@);
        lemma_block_run(st1, v[n - 1]);
        lemma_run_all_add(st, section_lines_upto(v, n - 1), block_lines(v[n - 1]));
        assert(flushed(st1).fonts == st1.fonts);
        assert(st1.fonts.push(as_read(v[n - 1])) =~= flushed(st).fonts + all_as_read(v).take(n));
    }
}

/// The lines of a `[Fonts]` section are read back as the fonts they were
/// written from, without white space around their names.
pub proof fn law_section_read_back(v: Seq<FontBlock>)
    requires
        all_readable(v),
    ensures
        fonts_of_lines(section_lines(v)) == all_as_read(v),
{
    let st = fonts_start();
    lemma_section_run(st, v, v.len() as int);
    lemma_upto_run(section_lines(v), section_lines(v).len() as int);
    assert(flushed(st).fonts + all_as_read(v).take(v.len() as int) =~= all_as_read(v));
}

// ---------------------------------------------------------------------------
// The other lines of a file
// ---------------------------------------------------------------------------
/// A line that begins no `[Fonts]` section.
pub open spec fn quiet(line: Seq<char>) -> bool {
    match header_name(trim(line)) {
        Some(h) => lowered(h) != "fonts"@,
        None => true,
    }
}

pub open spec fn ok_line(line: Seq<char>) -> bool {
    on_one_line(line) && quiet(line)
}

pub open spec fn ok_lines(v: Seq<Seq<char>>) -> bool {
    forall|i: int| 0 <= i < v.len() ==> ok_line(#[trigger] v[i])
}

/// Outside the section nothing is read.
proof fn lemma_quiet_run(fonts: Seq<FontBlock>, section: Seq<char>, v: Seq<Seq<char>>, n: int)
    requires
        section != "fonts"@,
        ok_lines(v),
        0 <= n <= v.len(),
    ensures
        exists|other: Seq<char>|
            other != "fonts"@ && #[trigger] complete(fonts, other) == fonts_run(
                complete(fonts, section),
                v,
                n,
            ),
    decreases n,
{
    let st = complete(fonts, section);
    if n == 0 {
        assert(complete(fonts, section) == fonts_run(st, v, 0));
    } else {
        lemma_quiet_run(fonts, section, v, n - 1);
        let other = choose|other: Seq<char>|
            other != "fonts"@ && #[trigger] complete(fonts, other) == fonts_run(st, v, n - 1);
        assert(ok_line(v[n - 1]));
        lemma_trim_cut_return(v[n - 1]);
        let now = complete(fonts, other);
        assert(flushed(now) == now);
        match header_name(trim(v[n - 1])) {
            Some(h) => {
                assert(complete(fonts, lowered(h)) == fonts_run(st, v, n));
            },
            None => {
                assert(complete(fonts, other) == fonts_run(st, v, n));
            },
        }
    }
}

/// Text whose first character after white space is known is no header.
pub proof fn lemma_first_char(a: Seq<char>, b: Seq<char>)
    requires
        forall|i: int| 0 <= i < a.len() ==> is_white(#[trigger] a[i]),
        b.len() > 0,
        !is_white(b[0]),
        b[0] != '[',
    ensures
        header_name(trim(a + b)) is None,
{
    let r = a + b;
    let (i, j) = lemma_trim_at(r);
    let n = a.len() as int;
    assert(r[n] == b[0]);
    assert(i <= n < j);
    if i < n {
        assert(r[i] == a[i]);
        assert(is_white(a[i]));
    }
    assert(trim(r)[0] == r[i]);
}

pub proof fn lemma_comment_ok(new: Seq<char>, original: Seq<char>)
    requires
        on_one_line(new),
        on_one_line(original),
    ensures
        ok_line(subset_comment(new, original)),
{
    reveal_strlit("; Font Subset: ");
    reveal_strlit(" - ");
    let c = subset_comment(new, original);
    lemma_add_on_one_line("; Font Subset: "@, new);
    lemma_add_on_one_line("; Font Subset: "@ + new, " - "@);
    lemma_add_on_one_line("; Font Subset: "@ + new + " - "@, original);
    let none: Seq<char> = seq![];
    assert(none + c =~= c);
    assert(c[0] == ';');
    lemma_first_char(none, c);
}

/// Names that stand on one line each.
pub open spec fn names_on_one_line(m: Seq<(Seq<char>, Seq<char>)>) -> bool {
    forall|i: int|
        0 <= i < m.len() ==> on_one_line((#[trigger] m[i]).0) && on_one_line(m[i].1)
}

pub open spec fn fonts_on_one_line(v: Seq<EmbeddedFontView>) -> bool {
    forall|i: int|
        0 <= i < v.len() ==> on_one_line((#[trigger] v[i]).embedded_name) && on_one_line(
            v[i].original_name,
        )
}

proof fn lemma_font_comments_ok(v: Seq<EmbeddedFontView>, n: int)
    requires
        0 <= n <= v.len(),
        fonts_on_one_line(v),
    ensures
        ok_lines(font_comments_upto(v, n).0),
    decreases n,
{
    if n > 0 {
        lemma_font_comments_ok(v, n - 1);
        lemma_comment_ok(v[n - 1].embedded_name, v[n - 1].original_name);
    }
}

proof fn lemma_rename_comments_ok(m: Seq<(Seq<char>, Seq<char>)>, n: int)
    requires
        0 <= n <= m.len(),
        names_on_one_line(m),
    ensures
        ok_lines(rename_comments_upto(m, n)),
    decreases n,
{
    if n > 0 {
        lemma_rename_comments_ok(m, n - 1);
        lemma_comment_ok(m[n - 1].1, m[n - 1].0);
    }
}

pub proof fn lemma_lookup_on_one_line(m: Seq<(Seq<char>, Seq<char>)>, k: Seq<char>, i: int)
    requires
        0 <= i <= m.len(),
        names_on_one_line(m),
        crate::strmap::lookup_from(m, k, i) is Some,
    ensures
        on_one_line(crate::strmap::lookup_from(m, k, i)->0),
    decreases m.len() - i,
{
    if i < m.len() && m[i].0 != k {
        lemma_lookup_on_one_line(m, k, i + 1);
    }
}

/// Renaming font tags keeps a line on one line, and changes it only where a
/// tag, and so a backslash, stays.
pub proof fn lemma_fn_tags_from(s: Seq<char>, i: int, m: Seq<(Seq<char>, Seq<char>)>)
    requires
        0 <= i <= s.len(),
        on_one_line(s),
        names_on_one_line(m),
    ensures
        on_one_line(fn_tags_from(s, i, m)),
        fn_tags_from(s, i, m) == s.skip(i) || fn_tags_from(s, i, m).contains('\\'),
    decreases s.len() - i,
{
    let r = fn_tags_from(s, i, m);
    if i < s.len() {
        if fn_at(s, i) {
            let e = name_end(s, i + 3);
            lemma_name_end(s, i + 3);
            lemma_fn_tags_from(s, e, m);
            let whole = s.subrange(i, e);
            let name = s.subrange(i + 3, e);
            let made = fn_tag(whole, name, m);
            lemma_part_on_one_line(s, i, e);
            reveal_strlit("\\fn");
            match lookup(m, lookup_name(name)) {
                Some(new) => {
                    lemma_lookup_on_one_line(m, lookup_name(name), 0);
                    lemma_add_on_one_line("\\fn"@, new);
                },
                None => {},
            }
            assert(made[0] == '\\');
            lemma_add_on_one_line(made, fn_tags_from(s, e, m));
            assert(r[0] == '\\');
        } else {
            lemma_fn_tags_from(s, i + 1, m);
            let rest = fn_tags_from(s, i + 1, m);
            assert(r == seq![s[i]] + rest);
            assert(on_one_line(seq![s[i]]));
            lemma_add_on_one_line(seq![s[i]], rest);
            if rest == s.skip(i + 1) {
                assert(r =~= s.skip(i));
            } else {
                let k = choose|k: int| 0 <= k < rest.len() && rest[k] == '\\';
                assert(r[k + 1] == '\\');
            }
        }
    } else {
        assert(r =~= s.skip(i));
    }
}

pub proof fn lemma_fn_tags_ok(line: Seq<char>, m: Seq<(Seq<char>, Seq<char>)>)
    requires
        on_one_line(line),
        header_name(trim(line)) is None,
        names_on_one_line(m),
    ensures
        ok_line(fn_tags(line, m)),
{
    if m.len() > 0 {
        lemma_fn_tags_from(line, 0, m);
        let r = fn_tags(line, m);
        assert(line.skip(0) =~= line);
        if r != line {
            lemma_backslash_ok(r);
        }
    }
}

pub proof fn lemma_position(v: Seq<Seq<char>>, t: Seq<char>, i: int)
    requires
        0 <= i <= v.len(),
    ensures
        position_from(v, t, i) matches Some(k) ==> i <= k < v.len(),
    decreases v.len() - i,
{
    if i < v.len() && v[i] != t {
        lemma_position(v, t, i + 1);
    }
}

pub proof fn lemma_style_line_ok(
    line: Seq<char>,
    format: Seq<Seq<char>>,
    m: Seq<(Seq<char>, Seq<char>)>,
)
    requires
        on_one_line(line),
        header_name(trim(line)) is None,
        names_on_one_line(m),
    ensures
        ok_line(style_line(line, format, m)),
{
    match after_prefix(trim_start(line), "Style:"@) {
        Some(rest) => {
            let n = style_width(format);
            let row = fields(trim_start(rest), n);
            let at = column_or(format, "fontname"@, 1);
            lemma_position(format, "fontname"@, 0);
            lemma_fields_len(trim_start(rest), 0, n);
            match lookup(m, lookup_name(row[at])) {
                Some(new) => {
                    lemma_lookup_on_one_line(m, lookup_name(row[at]), 0);
                    reveal_strlit("Style: ");
                    reveal_strlit("Style:");
                    lemma_trim_on_one_line(line);
                    let ts = trim_start(line);
                    lemma_part_on_one_line(ts, 6, ts.len() as int);
                    assert(ts.subrange(6, ts.len() as int) =~= rest);
                    lemma_trim_on_one_line(rest);
                    lemma_fields_on_one_line(trim_start(rest), 0, n);
                    let made = row.update(at, new);
                    assert forall|i: int| 0 <= i < made.len() implies on_one_line(
                        #[trigger] made[i],
                    ) by {
                        if i != at {
                            assert(made[i] == row[i]);
                        }
                    }
                    lemma_join_on_one_line(made, seq![','], made.len() as int);
                    let body = join(made, seq![',']);
                    let a = indent(line);
                    lemma_cut_front(line, Cut::White, 0);
                    let k = cut_front(line, Cut::White, 0);
                    assert(a =~= line.take(k));
                    assert forall|i: int| 0 <= i < a.len() implies is_white(#[trigger] a[i]) by {
                        assert(Cut::White.has(line[i]));
                    }
                    lemma_part_on_one_line(line, 0, k);
                    assert(line.subrange(0, k) =~= a);
                    let b = "Style: "@ + body;
                    assert(a + "Style: "@ + body =~= a + b);
                    assert(b[0] == 'S');
                    lemma_first_char(a, b);
                    lemma_add_on_one_line("Style: "@, body);
                    lemma_add_on_one_line(a, b);
                },
                None => {},
            }
        },
        None => {},
    }
}

// ---------------------------------------------------------------------------
// A whole file
// ---------------------------------------------------------------------------
/// The section stands in front of a header.
pub open spec fn section_at(out: Seq<Seq<char>>, fonts: Seq<char>, k: int) -> bool {
    &&& 0 <= k
    &&& k + 1 < out.len()
    &&& out[k] == fonts
    &&& header_name(trim(out[k + 1])) is Some
    &&& ok_lines(out.take(k))
    &&& ok_lines(out.skip(k + 1))
}

/// What has been written: no section yet, or one.
pub open spec fn one_section(out: Seq<Seq<char>>, inserted: bool, fonts: Seq<char>) -> bool {
    if inserted {
        exists|k: int| section_at(out, fonts, k)
    } else {
        ok_lines(out)
    }
}

proof fn lemma_ok_lines_push(v: Seq<Seq<char>>, line: Seq<char>)
    requires
        ok_lines(v),
        ok_line(line),
    ensures
        ok_lines(v.push(line)),
{
}

proof fn lemma_section_push(out: Seq<Seq<char>>, inserted: bool, fonts: Seq<char>, line: Seq<char>)
    requires
        one_section(out, inserted, fonts),
        ok_line(line),
    ensures
        one_section(out.push(line), inserted, fonts),
{
    if inserted {
        let k = choose|k: int| section_at(out, fonts, k);
        let new = out.push(line);
        assert(new.take(k) =~= out.take(k));
        assert(new.skip(k + 1) =~= out.skip(k + 1).push(line));
        lemma_ok_lines_push(out.skip(k + 1), line);
        assert(section_at(new, fonts, k));
    } else {
        lemma_ok_lines_push(out, line);
    }
}

proof fn lemma_section_add(
    out: Seq<Seq<char>>,
    inserted: bool,
    fonts: Seq<char>,
    more: Seq<Seq<char>>,
    n: int,
)
    requires
        one_section(out, inserted, fonts),
        ok_lines(more),
        0 <= n <= more.len(),
    ensures
        one_section(out + more.take(n), inserted, fonts),
    decreases n,
{
    if n == 0 {
        assert(out + more.take(0) =~= out);
    } else {
        lemma_section_add(out, inserted, fonts, more, n - 1);
        assert(out + more.take(n) =~= (out + more.take(n - 1)).push(more[n - 1]));
        assert(ok_line(more[n - 1]));
        lemma_section_push(out + more.take(n - 1), inserted, fonts, more[n - 1]);
    }
}

proof fn lemma_header_keeps(
    st: RewriteView,
    line: Seq<char>,
    h: Seq<char>,
    fonts: Seq<char>,
    comments: Seq<Seq<char>>,
)
    requires
        one_section(st.out, st.inserted, fonts),
        on_one_line(line),
        header_name(trim(line)) == Some(h),
        ok_lines(comments),
    ensures
        ({
            let r = rewrite_header(st, line, h, fonts, comments);
            one_section(r.out, r.inserted, fonts)
        }),
{
    let section = lowered(h);
    if section != "fonts"@ {
        assert(ok_line(line));
        let inserts = section == "events"@ && !st.inserted && fonts.len() > 0;
        let inserted = st.inserted || inserts;
        let mid = if inserts {
            st.out.push(fonts).push(line)
        } else {
            st.out.push(line)
        };
        if inserts {
            let k = st.out.len() as int;
            assert(mid.take(k) =~= st.out);
            assert(mid.skip(k + 1) =~= seq![line]);
            assert(section_at(mid, fonts, k));
        } else {
            lemma_section_push(st.out, st.inserted, fonts, line);
        }
        lemma_section_add(mid, inserted, fonts, comments, comments.len() as int);
        assert(comments.take(comments.len() as int) =~= comments);
    }
}

proof fn lemma_embed_keeps(st: RewriteView, raw: Seq<char>, p: EmbedPlan)
    requires
        one_section(st.out, st.inserted, p.fonts),
        on_one_line(raw),
        names_on_one_line(p.names),
        ok_lines(p.comments),
    ensures
        ({
            let r = embed_line(st, raw, p);
            one_section(r.out, r.inserted, p.fonts)
        }),
{
    let line = cut_end(raw, Cut::CarriageReturn);
    let t = trim(line);
    lemma_trim_on_one_line(raw);
    match header_name(t) {
        Some(h) => {
            lemma_header_keeps(st, line, h, p.fonts, p.comments);
        },
        None => {
            assert(ok_line(line));
            lemma_section_push(st.out, st.inserted, p.fonts, line);
            lemma_fn_tags_ok(line, p.names);
            let tagged = fn_tags(line, p.names);
            lemma_section_push(st.out, st.inserted, p.fonts, tagged);
            lemma_style_line_ok(line, st.format, p.names);
            let styled = style_line(line, st.format, p.names);
            lemma_section_push(st.out, st.inserted, p.fonts, styled);
        },
    }
}

proof fn lemma_embed_upto(v: Seq<Seq<char>>, n: int, p: EmbedPlan)
    requires
        0 <= n <= v.len(),
        forall|i: int| 0 <= i < v.len() ==> on_one_line(#[trigger] v[i]),
        names_on_one_line(p.names),
        ok_lines(p.comments),
    ensures
        one_section(embed_upto(v, n, p).out, embed_upto(v, n, p).inserted, p.fonts),
    decreases n,
{
    if n > 0 {
        lemma_embed_upto(v, n - 1, p);
        lemma_embed_keeps(embed_upto(v, n - 1, p), v[n - 1], p);
    }
}

/// An empty last line changes nothing of what is read.
proof fn lemma_last_empty(v: Seq<Seq<char>>)
    requires
        v.len() > 0,
        v.last().len() == 0,
    ensures
        fonts_of_lines(v.drop_last()) == fonts_of_lines(v),
{
    let w = v.drop_last();
    let n = w.len() as int;
    lemma_upto_run(v, n);
    lemma_upto_run(w, n);
    lemma_run_prefix(fonts_start(), v, w, n);
    let st = fonts_upto(v, n);
    assert(v[n] =~= seq![]);
    let e: Seq<char> = seq![];
    lemma_trim_cut_return(e);
    lemma_trim_is(e, 0, 0);
    assert(e.subrange(0, 0) =~= e);
    if st.section == "fonts"@ {
        lemma_empty_line(st);
        assert(flushed(flushed(st)).fonts == flushed(st).fonts);
    }
}

/// What is read of joined lines.
proof fn lemma_fonts_of_join(v: Seq<Seq<char>>, nl: Seq<char>)
    requires
        is_newline(nl),
        v.len() > 0,
        forall|i: int| 0 <= i < v.len() ==> on_one_line(#[trigger] v[i]),
    ensures
        fonts_of(join(v, nl)) == fonts_of_lines(v),
{
    let got = lines(join(v, nl));
    let want = seen_lines(v);
    law_lines_of_join(v, nl);
    let n = got.len() as int;
    lemma_upto_run(got, n);
    lemma_upto_run(want, n);
    lemma_run_same(fonts_start(), got, want, n);
    if v.last().len() == 0 {
        lemma_last_empty(v);
    }
}

proof fn lemma_pieces_on_one_line(s: Seq<char>)
    requires
        on_one_line(s),
    ensures
        forall|i: int| 0 <= i < pieces(s).len() ==> on_one_line(#[trigger] pieces(s)[i]),
    decreases s.len(),
{
    if s.len() > 80 {
        lemma_part_on_one_line(s, 0, 80);
        assert(s.subrange(0, 80) =~= s.take(80));
        lemma_part_on_one_line(s, 80, s.len() as int);
        assert(s.subrange(80, s.len() as int) =~= s.skip(80));
        lemma_pieces_on_one_line(s.skip(80));
        let v = pieces(s);
        assert forall|i: int| 0 <= i < v.len() implies on_one_line(#[trigger] v[i]) by {
            if i > 0 {
                assert(v[i] == pieces(s.skip(80))[i - 1]);
            }
        }
    }
}

pub proof fn lemma_section_on_one_line(v: Seq<FontBlock>, n: int)
    requires
        0 <= n <= v.len(),
        all_passable(v),
    ensures
        section_lines_upto(v, n).len() > 0,
        forall|i: int|
            0 <= i < section_lines_upto(v, n).len() ==> on_one_line(
                #[trigger] section_lines_upto(v, n)[i],
            ),
    decreases n,
{
    if n == 0 {
        reveal_strlit("[Fonts]");
        assert(on_one_line("[Fonts]"@));
    } else {
        lemma_section_on_one_line(v, n - 1);
        let b = v[n - 1];
        assert(passable(b));
        let s = uu_text(b.data);
        lemma_uu_text_chars(b.data);
        assert(on_one_line(s)) by {
            assert forall|i: int| 0 <= i < s.len() implies #[trigger] s[i] != '\n' by {
                assert(is_uu_char(s[i]));
            }
        }
        lemma_pieces_on_one_line(s);
        reveal_strlit("fontname: ");
        assert(on_one_line("fontname: "@));
        lemma_add_on_one_line("fontname: "@, b.fontname);
        let a = section_lines_upto(v, n - 1);
        let w = block_lines(b);
        assert forall|i: int| 0 <= i < w.len() implies on_one_line(#[trigger] w[i]) by {
            if 0 < i < w.len() - 1 {
                assert(w[i] == pieces(s)[i - 1]);
            }
        }
        let all = section_lines_upto(v, n);
        assert forall|i: int| 0 <= i < all.len() implies on_one_line(#[trigger] all[i]) by {
            if i < a.len() {
                assert(all[i] == a[i]);
            } else {
                assert(all[i] == w[i - a.len()]);
            }
        }
    }
}

/// Lines, a section, and lines that begin with a header or are one empty line.
proof fn lemma_file_lines(
    a: Seq<Seq<char>>,
    v: Seq<FontBlock>,
    b: Seq<Seq<char>>,
)
    requires
        ok_lines(a),
        ok_lines(b),
        all_readable(v),
        b.len() > 0 ==> header_name(trim(b[0])) is Some || (b.len() == 1 && b[0].len() == 0),
    ensures
        fonts_of_lines(a + section_lines(v) + b) == all_as_read(v),
{
    let st = fonts_start();
    let sl = section_lines(v);
    let all = a + sl + b;
    lemma_upto_run(all, all.len() as int);
    lemma_run_all_add(st, a + sl, b);
    lemma_run_all_add(st, a, sl);
    reveal_strlit("fonts");
    assert(st == complete(seq![], seq![]));
    assert(st.section.len() != "fonts"@.len());
    lemma_quiet_run(seq![], seq![], a, a.len() as int);
    let other = choose|other: Seq<char>|
        other != "fonts"@ && #[trigger] complete(seq![], other) == fonts_run_all(st, a);
    let st1 = complete(seq![], other);
    lemma_section_run(st1, v, v.len() as int);
    let r = all_as_read(v);
    let st2 = complete(r, "fonts"@);
    assert(flushed(st1).fonts + r.take(r.len() as int) =~= r);
    assert(fonts_run_all(st, a + sl) == st2);
    assert(flushed(st2) == st2);
    if b.len() > 0 {
        if b.len() == 1 && b[0].len() == 0 {
            assert(b[0] =~= seq![]);
            lemma_empty_line(st2);
            assert(fonts_run(st2, b, 0) == st2);
            assert(fonts_run_all(st2, b) == st2);
        } else {
            let first = seq![b[0]];
            let rest = b.skip(1);
            assert(b =~= first + rest);
            lemma_run_all_add(st2, first, rest);
            lemma_trim_cut_return(b[0]);
            let h = header_name(trim(b[0]))->0;
            assert(ok_line(b[0]));
            assert(fonts_run(st2, first, 0) == st2);
            assert(fonts_run_all(st2, first) == complete(r, lowered(h)));
            assert forall|i: int| 0 <= i < rest.len() implies ok_line(#[trigger] rest[i]) by {
                assert(rest[i] == b[i + 1]);
            }
            lemma_quiet_run(r, lowered(h), rest, rest.len() as int);
            let last = choose|last: Seq<char>|
                last != "fonts"@ && #[trigger] complete(r, last) == fonts_run_all(
                    complete(r, lowered(h)),
                    rest,
                );
            assert(flushed(complete(r, last)) == complete(r, last));
        }
    }
}

/// Lines without a section.
proof fn lemma_no_fonts(v: Seq<Seq<char>>)
    requires
        ok_lines(v),
    ensures
        fonts_of_lines(v) == Seq::<FontBlock>::empty(),
{
    reveal_strlit("fonts");
    let st = fonts_start();
    assert(st == complete(seq![], seq![]));
    assert(st.section.len() != "fonts"@.len());
    lemma_quiet_run(seq![], seq![], v, v.len() as int);
    lemma_upto_run(v, v.len() as int);
    let last = choose|last: Seq<char>|
        last != "fonts"@ && #[trigger] complete(seq![], last) == fonts_run_all(st, v);
    assert(flushed(complete(seq![], last)) == complete(seq![], last));
}

/// A last line break is an empty last line.
pub proof fn lemma_rejoined(out: Seq<Seq<char>>, nl: Seq<char>, s: Seq<char>)
    requires
        out.len() > 0,
    ensures
        rejoined(out, nl, s) == join(
            if s.len() > 0 && s.last() == '\n' {
                out.push(seq![])
            } else {
                out
            },
            nl,
        ),
{
    if s.len() > 0 && s.last() == '\n' {
        let e: Seq<Seq<char>> = seq![seq![]];
        lemma_join_add(out, e, nl);
        assert(out.push(seq![]) =~= out + e);
        assert(join(e, nl) =~= seq![]);
        assert(join(out, nl) + nl + seq![] =~= join(out, nl) + nl);
    }
}

proof fn lemma_empty_ok()
    ensures
        ok_line(Seq::<char>::empty()),
{
    let e: Seq<char> = seq![];
    lemma_trim_is(e, 0, 0);
    assert(e.subrange(0, 0) =~= e);
}

/// The lines `a`, the section and the lines `b`, joined with a line break at
/// the end or without.
proof fn lemma_with_section(
    a: Seq<Seq<char>>,
    v: Seq<FontBlock>,
    b: Seq<Seq<char>>,
    nl: Seq<char>,
    s: Seq<char>,
)
    requires
        is_newline(nl),
        ok_lines(a),
        ok_lines(b),
        all_readable(v),
        b.len() > 0 ==> header_name(trim(b[0])) is Some,
    ensures
        fonts_of(rejoined(a.push(join(section_lines(v), nl)) + b, nl, s)) == all_as_read(v),
{
    let sl = section_lines(v);
    lemma_all_passable(v);
    lemma_section_on_one_line(v, v.len() as int);
    let e: Seq<Seq<char>> = seq![seq![]];
    let ends = s.len() > 0 && s.last() == '\n';
    let c = if ends {
        b + e
    } else {
        b
    };
    let out = a.push(join(sl, nl)) + b;
    let flat = a + sl + c;
    lemma_rejoined(out, nl, s);
    lemma_join_flat(a, sl, c, nl);
    if ends {
        assert(out.push(seq![]) =~= a.push(join(sl, nl)) + c);
    }
    assert(rejoined(out, nl, s) == join(flat, nl));
    lemma_empty_ok();
    assert(ok_lines(c)) by {
        assert forall|i: int| 0 <= i < c.len() implies ok_line(#[trigger] c[i]) by {
            if i < b.len() {
                assert(c[i] == b[i]);
            } else {
                assert(c[i] =~= seq![]);
            }
        }
    }
    assert forall|i: int| 0 <= i < flat.len() implies on_one_line(#[trigger] flat[i]) by {
        if i < a.len() {
            assert(flat[i] == a[i]);
            assert(ok_line(a[i]));
        } else if i < a.len() + sl.len() {
            assert(flat[i] == sl[i - a.len()]);
        } else {
            assert(flat[i] == c[i - a.len() - sl.len()]);
            assert(ok_line(c[i - a.len() - sl.len()]));
        }
    }
    lemma_fonts_of_join(flat, nl);
    if b.len() > 0 {
        assert(c[0] == b[0]);
    }
    lemma_file_lines(a, v, c);
}

/// Embedded fonts are read back: the fonts of a rewritten file are those that
/// were embedded, in their order, whatever the file carried before. Each has its
/// name and the suffix of its slot, without white space around them, and its
/// data. The names stand on one line each, and the fonts are readable.
pub proof fn law_embedded_fonts_read_back(
    s: Seq<char>,
    nl: Seq<char>,
    m: Seq<(Seq<char>, Seq<char>)>,
    fonts: Seq<EmbeddedFontView>,
)
    requires
        is_newline(nl),
        names_on_one_line(m),
        fonts_on_one_line(fonts),
        all_readable(embedded_blocks(fonts)),
    ensures
        fonts_of(embedded_file(s, nl, m, fonts)) == all_as_read(embedded_blocks(fonts)),
{
    let p = embed_plan(fonts, nl, m);
    let v = lines(s);
    let n = v.len() as int;
    lemma_font_comments_ok(fonts, fonts.len() as int);
    lemma_rename_comments_ok(m, m.len() as int);
    lemma_lines_on_one_line(s, 0);
    lemma_embed_upto(v, n, p);
    let st = embed_upto(v, n, p);
    if st.inserted {
        lemma_inserted(v, n, p);
    }
    lemma_sectioned_file(st, p.fonts, embedded_blocks(fonts), nl, s);
}

/// A section is inserted only where there is one.
pub proof fn lemma_inserted(v: Seq<Seq<char>>, n: int, p: EmbedPlan)
    requires
        0 <= n <= v.len(),
        embed_upto(v, n, p).inserted,
    ensures
        p.fonts.len() > 0,
    decreases n,
{
    if n > 0 && embed_upto(v, n - 1, p).inserted {
        lemma_inserted(v, n - 1, p);
    }
}

/// Fonts give a section that is not empty.
pub proof fn lemma_no_section(v: Seq<FontBlock>, nl: Seq<char>)
    requires
        section_text(v, nl).len() == 0,
        all_readable(v),
    ensures
        v.len() == 0,
{
    if v.len() > 0 {
        let sl = section_lines(v);
        lemma_section_first(v, v.len() as int);
        reveal_strlit("[Fonts]");
        if sl.len() >= 2 {
            crate::line_laws::lemma_join_cons(sl, nl);
        }
    }
}

proof fn lemma_section_first(v: Seq<FontBlock>, n: int)
    requires
        0 <= n <= v.len(),
    ensures
        section_lines_upto(v, n).len() > 0,
        section_lines_upto(v, n)[0] == "[Fonts]"@,
    decreases n,
{
    if n > 0 {
        lemma_section_first(v, n - 1);
    }
}

/// A file without a section carries no fonts.
proof fn lemma_plain_file(out: Seq<Seq<char>>, nl: Seq<char>, s: Seq<char>)
    requires
        is_newline(nl),
        ok_lines(out),
    ensures
        fonts_of(rejoined(out, nl, s)) == Seq::<FontBlock>::empty(),
{
    let ends = s.len() > 0 && s.last() == '\n';
    let e: Seq<char> = seq![];
    lemma_empty_ok();
    let all = if ends {
        out.push(e)
    } else {
        out
    };
    assert(ok_lines(all));
    if out.len() > 0 {
        lemma_rejoined(out, nl, s);
    } else if ends {
        // A lone line break is one empty line and the end of it.
        let two: Seq<Seq<char>> = seq![e, e];
        assert(join(seq![e], nl) == e);
        crate::line_laws::lemma_join_cons(two, nl);
        assert(two.skip(1) =~= seq![e]);
        assert(join(two, nl) =~= rejoined(out, nl, s));
        assert(ok_lines(two));
        assert forall|i: int| 0 <= i < two.len() implies on_one_line(#[trigger] two[i]) by {
            assert(ok_line(two[i]));
        }
        lemma_fonts_of_join(two, nl);
        lemma_no_fonts(two);
    } else {
        assert(rejoined(out, nl, s) =~= e);
        assert(lines(e) =~= seq![]);
        lemma_no_fonts(seq![]);
    }
    if out.len() > 0 {
        assert forall|i: int| 0 <= i < all.len() implies on_one_line(#[trigger] all[i]) by {
            assert(ok_line(all[i]));
        }
        lemma_fonts_of_join(all, nl);
        lemma_no_fonts(all);
    }
}

// ---------------------------------------------------------------------------
// Taking fonts out
// ---------------------------------------------------------------------------
/// Drawings that stand on one line each and hold a tag.
pub open spec fn drawings_tagged(m: Seq<(Seq<char>, DrawEntryView)>) -> bool {
    forall|i: int|
        0 <= i < m.len() ==> on_one_line((#[trigger] m[i]).1.data) && m[i].1.data.contains('\\')
}

proof fn lemma_drawing_tagged(m: Seq<(Seq<char>, DrawEntryView)>, k: Seq<char>, i: int)
    requires
        0 <= i <= m.len(),
        drawings_tagged(m),
        crate::strmap::lookup_from(m, k, i) is Some,
    ensures
        on_one_line((crate::strmap::lookup_from(m, k, i)->0).data),
        (crate::strmap::lookup_from(m, k, i)->0).data.contains('\\'),
    decreases m.len() - i,
{
    if i < m.len() && m[i].0 != k {
        lemma_drawing_tagged(m, k, i + 1);
    }
}

/// Putting drawings back keeps a line on one line, and changes it only where a
/// backslash comes in.
proof fn lemma_draw_runs_from(s: Seq<char>, i: int, m: Seq<(Seq<char>, DrawEntryView)>)
    requires
        0 <= i <= s.len(),
        on_one_line(s),
        drawings_tagged(m),
    ensures
        on_one_line(draw_runs_from(s, i, m)),
        draw_runs_from(s, i, m) == s.skip(i) || draw_runs_from(s, i, m).contains('\\'),
    decreases s.len() - i,
{
    let r = draw_runs_from(s, i, m);
    if i < s.len() {
        let q = find_from(s, '}', i + 1);
        let next = if draw_run_at(s, i) { q + 2 } else { i + 1 };
        let whole = s.subrange(i, next);
        lemma_part_on_one_line(s, i, next);
        lemma_draw_runs_from(s, next, m);
        let rest = draw_runs_from(s, next, m);
        let ch = s.subrange(q + 1, q + 2);
        let made = if draw_run_at(s, i) { draw_run(whole, ch, m) } else { whole };
        assert(whole =~= seq![s[i]] || draw_run_at(s, i));
        assert(r == made + rest);
        if made != whole {
            lemma_drawing_tagged(m, ch, 0);
            let k = choose|k: int| 0 <= k < made.len() && made[k] == '\\';
            assert(r[k] == '\\');
        }
        lemma_add_on_one_line(made, rest);
        if rest == s.skip(next) {
            if made == whole {
                assert(r =~= s.skip(i));
            }
        } else {
            let k = choose|k: int| 0 <= k < rest.len() && rest[k] == '\\';
            assert(r[made.len() + k] == '\\');
        }
    } else {
        assert(r =~= s.skip(i));
    }
}

/// A line with a backslash begins no `[Fonts]` section.
proof fn lemma_backslash_ok(r: Seq<char>)
    requires
        on_one_line(r),
        r.contains('\\'),
    ensures
        ok_line(r),
{
    let x = choose|x: int| 0 <= x < r.len() && r[x] == '\\';
    let (i, j) = lemma_trim_at(r);
    assert(i <= x < j);
    let t = trim(r);
    assert(t[x - i] == '\\');
    match header_name(t) {
        Some(h) => {
            if lowered(h) == "fonts"@ {
                assert(forall|q: int| 0 <= q < 5 ==> "fonts"@[q] != '\\') by {
                    reveal_strlit("fonts");
                }
                assert("fonts"@.len() == 5) by {
                    reveal_strlit("fonts");
                }
                assert(0 < x - i < t.len() - 1);
                assert(h[x - i - 1] == '\\');
                assert(lowered(h)[x - i - 1] == '\\');
            }
        },
        None => {},
    }
}

proof fn lemma_draw_runs_ok(line: Seq<char>, m: Seq<(Seq<char>, DrawEntryView)>)
    requires
        ok_line(line),
        drawings_tagged(m),
    ensures
        ok_line(draw_runs(line, m)),
{
    if m.len() > 0 {
        lemma_draw_runs_from(line, 0, m);
        assert(line.skip(0) =~= line);
        if draw_runs(line, m) != line {
            lemma_backslash_ok(draw_runs(line, m));
        }
    }
}

proof fn lemma_strip_keeps(st: RewriteView, raw: Seq<char>, p: StripPlan)
    requires
        one_section(st.out, st.inserted, p.fonts),
        on_one_line(raw),
        names_on_one_line(p.names),
        drawings_tagged(p.drawings),
    ensures
        ({
            let r = strip_line(st, raw, p);
            one_section(r.out, r.inserted, p.fonts)
        }),
{
    let line = cut_end(raw, Cut::CarriageReturn);
    let t = trim(line);
    lemma_trim_on_one_line(raw);
    match header_name(t) {
        Some(h) => {
            lemma_header_keeps(st, line, h, p.fonts, seq![]);
        },
        None => {
            assert(ok_line(line));
            lemma_section_push(st.out, st.inserted, p.fonts, line);
            lemma_fn_tags_ok(line, p.names);
            lemma_draw_runs_ok(fn_tags(line, p.names), p.drawings);
            let tagged = draw_runs(fn_tags(line, p.names), p.drawings);
            lemma_section_push(st.out, st.inserted, p.fonts, tagged);
            lemma_style_line_ok(line, st.format, p.names);
            let styled = style_line(line, st.format, p.names);
            lemma_section_push(st.out, st.inserted, p.fonts, styled);
        },
    }
}

proof fn lemma_strip_upto(v: Seq<Seq<char>>, n: int, p: StripPlan)
    requires
        0 <= n <= v.len(),
        forall|i: int| 0 <= i < v.len() ==> on_one_line(#[trigger] v[i]),
        names_on_one_line(p.names),
        drawings_tagged(p.drawings),
    ensures
        one_section(strip_upto(v, n, p).out, strip_upto(v, n, p).inserted, p.fonts),
        strip_upto(v, n, p).inserted ==> p.fonts.len() > 0,
    decreases n,
{
    if n > 0 {
        lemma_strip_upto(v, n - 1, p);
        lemma_strip_keeps(strip_upto(v, n - 1, p), v[n - 1], p);
    }
}

/// Fonts that are kept are read back: the fonts of a stripped file are the kept
/// ones, in their order, and no others; white space around a name is not kept.
pub proof fn law_kept_fonts_read_back(
    s: Seq<char>,
    nl: Seq<char>,
    names: Seq<(Seq<char>, Seq<char>)>,
    kept: Seq<FontBlock>,
    drawings: Seq<(Seq<char>, DrawEntryView)>,
)
    requires
        is_newline(nl),
        names_on_one_line(names),
        drawings_tagged(drawings),
        all_readable(kept),
    ensures
        fonts_of(
            stripped_file(s, nl, StripPlan { names, fonts: section_text(kept, nl), drawings }),
        ) == all_as_read(kept),
{
    let p = StripPlan { names, fonts: section_text(kept, nl), drawings };
    let v = lines(s);
    let n = v.len() as int;
    lemma_lines_on_one_line(s, 0);
    lemma_strip_upto(v, n, p);
    let st = strip_upto(v, n, p);
    lemma_sectioned_file(st, p.fonts, kept, nl, s);
}

proof fn lemma_sectioned_file(
    st: RewriteView,
    fonts: Seq<char>,
    blocks: Seq<FontBlock>,
    nl: Seq<char>,
    s: Seq<char>,
)
    requires
        is_newline(nl),
        fonts == section_text(blocks, nl),
        all_readable(blocks),
        one_section(st.out, st.inserted, fonts),
        st.inserted ==> fonts.len() > 0,
    ensures
        fonts_of(rejoined(with_fonts(st, fonts), nl, s)) == all_as_read(blocks),
{
    let none: Seq<Seq<char>> = seq![];
    if st.inserted {
        let k = choose|k: int| section_at(st.out, fonts, k);
        let a = st.out.take(k);
        let b = st.out.skip(k + 1);
        assert(st.out =~= a.push(fonts) + b);
        assert(b[0] == st.out[k + 1]);
        lemma_with_section(a, blocks, b, nl, s);
    } else if fonts.len() > 0 {
        assert(st.out.push(fonts) =~= st.out.push(fonts) + none);
        lemma_with_section(st.out, blocks, none, nl, s);
    } else {
        lemma_no_section(blocks, nl);
        assert(all_as_read(blocks) =~= seq![]);
        lemma_plain_file(st.out, nl, s);
    }
}

// ---------------------------------------------------------------------------
// Comments
// ---------------------------------------------------------------------------
/// A subset comment is read back in its two parts.
pub proof fn lemma_comment_parts(new: Seq<char>, original: Seq<char>)
    requires
        new.len() > 0,
        forall|i: int| 0 <= i < new.len() ==> !is_white(#[trigger] new[i]),
        original.len() > 0,
        trim(original) == original,
    ensures
        comment_names(trim(subset_comment(new, original))) == Some((new, original)),
        header_name(trim(subset_comment(new, original))) is None,
{
    reveal_strlit("; Font Subset: ");
    reveal_strlit("; Font Subset:");
    reveal_strlit(" - ");
    let word = "; Font Subset:"@;
    let c = subset_comment(new, original);
    let body = new + " - "@ + original;
    lemma_trimmed_ends(original);
    assert(c[0] == ';');
    assert(c[c.len() - 1] == original.last());
    lemma_trim_is(c, 0, c.len() as int);
    assert(trim(c) =~= c);
    assert(c.take(14) =~= word);
    let rest = c.skip(14);
    assert(after_prefix(c, word) == Some(rest));
    assert(rest[0] == ' ');
    assert(rest[1] == new[0]);
    assert(rest[rest.len() - 1] == original.last());
    lemma_trim_is(rest, 1, rest.len() as int);
    assert(rest.subrange(1, rest.len() as int) =~= body);
    let n = new.len() as int;
    assert(body.subrange(n, n + 3) =~= " - "@);
    assert(stands_at(body, " - "@, n));
    assert forall|j: int| 0 <= j < n implies !stands_at(body, " - "@, j) by {
        assert(body[j] == new[j]);
        if stands_at(body, " - "@, j) {
            assert(body.subrange(j, j + 3)[0] == ' ');
        }
    }
    lemma_find_part(body, " - "@, 0);
    assert(find_part(body, " - "@, 0) == n);
    assert(body.take(n) =~= new);
    assert(body.skip(n + 3) =~= original);
}

/// A subset comment is read back: the new name, which holds no space, is the
/// key of the original name.
pub proof fn law_comment_read_back(
    m: Seq<(Seq<char>, Seq<char>)>,
    new: Seq<char>,
    original: Seq<char>,
)
    requires
        new.len() > 0,
        forall|i: int| 0 <= i < new.len() ==> !is_white(#[trigger] new[i]),
        original.len() > 0,
        trim(original) == original,
    ensures
        comments_line(m, subset_comment(new, original)) == put(m, lookup_name(new), original),
{
    lemma_comment_parts(new, original);
    let n = new.len() as int;
    assert(!is_white(new[0]) && !is_white(new[n - 1]));
    lemma_trim_is(new, 0, n);
    assert(new.subrange(0, n) =~= new);
}

} // verus!
