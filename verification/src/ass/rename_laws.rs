//! What rewriting a subtitle does to its tags, its styles and its sections.
use vstd::prelude::*;

use crate::ass::draw::{draw_line, draw_upto, drawn, rejoined, DrawFile};
use crate::ass::file_laws::{
    first_column, lemma_first_column, lemma_join_ends, lemma_written_line,
};
use crate::ass::name_laws::{
    lemma_fields_of_join, lemma_indent, lemma_join_begins, lemma_name_end_is, lemma_style_fields,
    lemma_tags_all, lemma_tags_behind, plain_fields,
};
use crate::ass::rewrite::{
    draw_runs, embed_line, embed_upto, fn_at, fn_tags, fn_tags_from, font_comments_upto,
    rename_comments_upto, restored_comment, strip_line, strip_upto, style_line, subset_comment,
    subset_comments, with_fonts, EmbedPlan, RewriteView, StripPlan,
};
use crate::ass::style::lookup_name;
use crate::models::EmbeddedFontView;
use crate::split::{after_prefix, header_name, join};
use crate::strmap::lookup;
use crate::text::{cut_end, has_part, lower, lowered, stands_at, trim, Cut};

verus! {

// ---------------------------------------------------------------------------
// Tags
// ---------------------------------------------------------------------------
proof fn lemma_no_tags(s: Seq<char>, i: int, m: Seq<(Seq<char>, Seq<char>)>)
    requires
        0 <= i <= s.len(),
        forall|j: int| i <= j < s.len() ==> !fn_at(s, j),
    ensures
        fn_tags_from(s, i, m) == s.skip(i),
    decreases s.len() - i,
{
    if i < s.len() {
        lemma_no_tags(s, i + 1, m);
        assert(!fn_at(s, i));
        assert(s.skip(i) =~= seq![s[i]] + s.skip(i + 1));
    } else {
        assert(s.skip(i) =~= seq![]);
    }
}

/// A line in which no tag names a font stays as it is.
pub proof fn law_line_without_tags_kept(s: Seq<char>, m: Seq<(Seq<char>, Seq<char>)>)
    requires
        forall|j: int|
            0 <= j && j + 3 <= s.len() ==> !(#[trigger] s[j] == '\\' && s[j + 1] == 'f' && s[j + 2]
                == 'n'),
    ensures
        fn_tags(s, m) == s,
{
    lemma_tags_all(s, m);
    assert forall|j: int| 0 <= j < s.len() implies !fn_at(s, j) by {
        assert(s[j] == s[j]);
    }
    lemma_no_tags(s, 0, m);
    assert(s.skip(0) =~= s);
}

proof fn lemma_front_kept(a: Seq<char>, s: Seq<char>, i: int, m: Seq<(Seq<char>, Seq<char>)>)
    requires
        0 <= i <= a.len(),
        forall|j: int| 0 <= j < a.len() ==> a[j] != '\\',
    ensures
        fn_tags_from(a + s, i, m) == a.skip(i) + fn_tags_from(a + s, a.len() as int, m),
    decreases a.len() - i,
{
    let t = a + s;
    if i < a.len() {
        assert(t[i] == a[i]);
        lemma_front_kept(a, s, i + 1, m);
        assert(a.skip(i) =~= seq![a[i]] + a.skip(i + 1));
        assert(fn_tags_from(t, i, m) =~= a.skip(i) + fn_tags_from(t, a.len() as int, m));
    } else {
        assert(a.skip(i) + fn_tags_from(t, i, m) =~= fn_tags_from(t, i, m));
    }
}

/// A tag that names a font with a new name names the new one, and one whose font
/// has none stays. The text in front stays too, and the tags behind are replaced in
/// the same way.
pub proof fn law_tag_renamed(
    a: Seq<char>,
    name: Seq<char>,
    b: Seq<char>,
    m: Seq<(Seq<char>, Seq<char>)>,
)
    requires
        forall|j: int| 0 <= j < a.len() ==> a[j] != '\\',
        forall|j: int| 0 <= j < name.len() ==> name[j] != '\\' && name[j] != '}',
        b.len() > 0 ==> b[0] == '\\' || b[0] == '}',
    ensures
        lookup(m, lookup_name(name)) matches Some(new) ==> fn_tags(
            a + seq!['\\', 'f', 'n'] + name + b,
            m,
        ) == a + seq!['\\', 'f', 'n'] + new + fn_tags(b, m),
        lookup(m, lookup_name(name)) is None ==> fn_tags(a + seq!['\\', 'f', 'n'] + name + b, m)
            == a + seq!['\\', 'f', 'n'] + name + fn_tags(b, m),
{
    let word = seq!['\\', 'f', 'n'];
    let s = word + name + b;
    let whole = a + word + name + b;
    assert(whole =~= a + s);
    lemma_tags_all(whole, m);
    lemma_tags_all(b, m);
    lemma_front_kept(a, s, 0, m);
    assert(a.skip(0) =~= a);
    lemma_tags_behind(a, s, 0, m);
    let e = (3 + name.len()) as int;
    assert(s[0] == '\\' && s[1] == 'f' && s[2] == 'n');
    assert forall|j: int| 3 <= j < e implies s[j] != '\\' && s[j] != '}' by {
        assert(s[j] == name[j - 3]);
    }
    if b.len() > 0 {
        assert(s[e] == b[0]);
    }
    lemma_name_end_is(s, 3, e);
    assert(s.subrange(3, e) =~= name);
    assert(s.subrange(0, e) =~= word + name);
    assert(s =~= (word + name) + b);
    lemma_tags_behind(word + name, b, 0, m);
    reveal_strlit("\\fn");
    assert("\\fn"@ =~= word);
    match lookup(m, lookup_name(name)) {
        Some(new) => {
            assert(fn_tags(whole, m) =~= a + word + new + fn_tags(b, m));
        },
        None => {
            assert(fn_tags(whole, m) =~= a + word + name + fn_tags(b, m));
        },
    }
}

// ---------------------------------------------------------------------------
// Styles
// ---------------------------------------------------------------------------
/// A style line has its font renamed in the column that the format calls
/// `Fontname`, and nothing else changed; a font without a new name stays.
pub proof fn law_style_renamed(
    format: Seq<Seq<char>>,
    w: Seq<Seq<char>>,
    at: int,
    m: Seq<(Seq<char>, Seq<char>)>,
)
    requires
        first_column(format, at, "fontname"@),
        23 <= w.len() == format.len(),
        plain_fields(w),
    ensures
        lookup(m, lookup_name(w[at])) matches Some(new) ==> style_line(
            "Style: "@ + join(w, seq![',']),
            format,
            m,
        ) == "Style: "@ + join(w.update(at, new), seq![',']),
        lookup(m, lookup_name(w[at])) is None ==> style_line(
            "Style: "@ + join(w, seq![',']),
            format,
            m,
        ) == "Style: "@ + join(w, seq![',']),
{
    let none: Seq<char> = seq![];
    lemma_style_fields(none, w);
    let line = "Style: "@ + join(w, seq![',']);
    assert(none + "Style: "@ + join(w, seq![',']) =~= line);
    lemma_first_column(format, at, "fontname"@, 0);
    match lookup(m, lookup_name(w[at])) {
        Some(new) => {
            let body = join(w.update(at, new), seq![',']);
            assert(none + "Style: "@ + body =~= "Style: "@ + body);
        },
        None => {},
    }
}

/// Without a format the font stands in the second of twenty-three columns.
pub proof fn law_style_renamed_by_place(
    w: Seq<Seq<char>>,
    m: Seq<(Seq<char>, Seq<char>)>,
)
    requires
        w.len() == 23,
        plain_fields(w),
    ensures
        lookup(m, lookup_name(w[1])) matches Some(new) ==> style_line(
            "Style: "@ + join(w, seq![',']),
            seq![],
            m,
        ) == "Style: "@ + join(w.update(1, new), seq![',']),
{
    let none: Seq<char> = seq![];
    lemma_style_fields(none, w);
    let line = "Style: "@ + join(w, seq![',']);
    assert(none + "Style: "@ + join(w, seq![',']) =~= line);
    match lookup(m, lookup_name(w[1])) {
        Some(new) => {
            let body = join(w.update(1, new), seq![',']);
            assert(none + "Style: "@ + body =~= "Style: "@ + body);
        },
        None => {},
    }
}

// ---------------------------------------------------------------------------
// Sections
// ---------------------------------------------------------------------------
proof fn lemma_sections()
    ensures
        !has_part("events"@, "styles"@),
        !has_part("script info"@, "styles"@),
        !has_part("aegisub project garbage"@, "styles"@),
        has_part("v4+ styles"@, "styles"@),
        has_part("v4 styles"@, "styles"@),
        "events"@ != "script info"@,
        "events"@ != "fonts"@,
        "script info"@ != "fonts"@,
{
    reveal_strlit("events");
    reveal_strlit("script info");
    reveal_strlit("styles");
    reveal_strlit("v4+ styles");
    reveal_strlit("v4 styles");
    reveal_strlit("fonts");
    reveal_strlit("aegisub project garbage");
    assert("events"@[0] == 'e' && "fonts"@[0] == 'f' && "script info"@[0] == 's');
    assert("v4+ styles"@.subrange(4, 10) =~= "styles"@);
    assert(stands_at("v4+ styles"@, "styles"@, 4));
    assert("v4 styles"@.subrange(3, 9) =~= "styles"@);
    assert(stands_at("v4 styles"@, "styles"@, 3));
    assert forall|k: int| !stands_at("events"@, "styles"@, k) by {
        if stands_at("events"@, "styles"@, k) {
            assert("events"@.subrange(k, k + 6)[0] == 's');
            assert(k == 0);
        }
    }
    assert forall|k: int| !stands_at("script info"@, "styles"@, k) by {
        if stands_at("script info"@, "styles"@, k) {
            let w = "script info"@.subrange(k, k + 6);
            assert(w[0] == 's' && w[1] == 't');
            assert("script info"@[k + 1] == 't');
            assert(0 <= k <= 5);
        }
    }
    assert forall|k: int| !stands_at("aegisub project garbage"@, "styles"@, k) by {
        if stands_at("aegisub project garbage"@, "styles"@, k) {
            let w = "aegisub project garbage"@.subrange(k, k + 6);
            assert(w[0] == 's' && w[1] == 't');
            assert("aegisub project garbage"@[k + 1] == 't');
            assert(0 <= k <= 17);
        }
    }
}

/// When fonts are embedded, the fonts are renamed in the tags among the events and
/// in the style lines. The fonts that the file had are left out, and so are the
/// comments of an earlier subset; other lines of the script info stay.
pub proof fn law_lines_embedded(st: RewriteView, line: Seq<char>, p: EmbedPlan)
    requires
        line.len() > 0 ==> line.last() != '\r',
        header_name(trim(line)) is None,
    ensures
        st.skipping ==> embed_line(st, line, p) == st,
        !st.skipping ==> {
            &&& st.section == "events"@ ==> embed_line(st, line, p) == (RewriteView {
                out: st.out.push(fn_tags(line, p.names)),
                ..st
            })
            &&& st.section == "script info"@ ==> embed_line(st, line, p) == (if after_prefix(
                trim(line),
                "; Font Subset:"@,
            ) is Some {
                st
            } else {
                RewriteView { out: st.out.push(line), ..st }
            })
            &&& (st.section == "v4+ styles"@ || st.section == "v4 styles"@) && after_prefix(
                trim(line),
                "Format:"@,
            ) is None && after_prefix(trim(line), "Style:"@) is Some ==> embed_line(st, line, p)
                == (RewriteView { out: st.out.push(style_line(line, st.format, p.names)), ..st })
        },
{
    lemma_sections();
    assert(cut_end(line, Cut::CarriageReturn) =~= line);
    reveal_strlit("script info");
    reveal_strlit("v4+ styles");
    reveal_strlit("v4 styles");
    assert("v4+ styles"@[0] == 'v' && "v4 styles"@[0] == 'v' && "script info"@[0] == 's');
}

/// When subsets are taken out, the names are put back in the tags among the events
/// and in the style lines, and the drawings among the events. The comments of the
/// subsets are left out; other lines of the script info stay.
pub proof fn law_lines_stripped(st: RewriteView, line: Seq<char>, p: StripPlan)
    requires
        line.len() > 0 ==> line.last() != '\r',
        header_name(trim(line)) is None,
    ensures
        st.skipping ==> strip_line(st, line, p) == st,
        !st.skipping && restored_comment(trim(line), p.names) ==> strip_line(st, line, p) == st,
        !st.skipping && !restored_comment(trim(line), p.names) ==> {
            &&& st.section == "events"@ ==> strip_line(st, line, p) == (RewriteView {
                out: st.out.push(draw_runs(fn_tags(line, p.names), p.drawings)),
                ..st
            })
            &&& st.section == "script info"@ ==> strip_line(st, line, p) == (RewriteView {
                out: st.out.push(line),
                ..st
            })
            &&& (st.section == "v4+ styles"@ || st.section == "v4 styles"@) && after_prefix(
                trim(line),
                "Format:"@,
            ) is None && after_prefix(trim(line), "Style:"@) is Some ==> strip_line(st, line, p)
                == (RewriteView { out: st.out.push(style_line(line, st.format, p.names)), ..st })
        },
{
    lemma_sections();
    assert(cut_end(line, Cut::CarriageReturn) =~= line);
    reveal_strlit("v4+ styles");
    reveal_strlit("v4 styles");
    reveal_strlit("events");
    assert("v4+ styles"@[0] == 'v' && "v4 styles"@[0] == 'v' && "events"@[0] == 'e');
}

/// The headers of a file, whatever the case of their letters: the fonts come once,
/// right before the events; the section of the old fonts is left out with its
/// header; the comments stand once, right behind the header of the script info.
pub proof fn law_headers_embedded(st: RewriteView, name: Seq<char>, p: EmbedPlan)
    requires
        p.fonts.len() > 0,
    ensures
        ({
            let line = seq!['['] + name + seq![']'];
            let to = embed_line(st, line, p);
            &&& to.section == lowered(name)
            &&& lowered(name) == "fonts"@ ==> to.out == st.out && to.skipping
            &&& lowered(name) != "fonts"@ ==> !to.skipping
            &&& lowered(name) == "events"@ && !st.inserted ==> to.out == st.out.push(p.fonts).push(
                line,
            ) && to.inserted
            &&& lowered(name) == "events"@ && st.inserted ==> to.out == st.out.push(line)
                && to.inserted
            &&& lowered(name) == "script info"@ && !st.commented ==> to.out == st.out.push(line)
                + p.comments && to.commented
            &&& lowered(name) == "script info"@ && st.commented ==> to.out == st.out.push(line)
                && to.commented
            &&& lowered(name) != "fonts"@ && lowered(name) != "events"@ && lowered(name)
                != "script info"@ ==> to.out == st.out.push(line)
        }),
{
    let line = seq!['['] + name + seq![']'];
    assert(line[0] == '[');
    assert(line[line.len() - 1] == ']');
    lemma_written_line(line);
    assert(line.subrange(1, line.len() - 1) =~= name);
    lemma_sections();
}

// ---------------------------------------------------------------------------
// Comments
// ---------------------------------------------------------------------------
/// The lookup names with a comment are those of fonts in front.
proof fn lemma_seen(v: Seq<EmbeddedFontView>, n: int, key: Seq<char>)
    requires
        0 <= n <= v.len(),
        forall|k: int|
            0 <= k < n ==> v[k].original_name == v[k].embedded_name || lookup_name(
                (#[trigger] v[k]).embedded_name,
            ) != key,
    ensures
        !font_comments_upto(v, n).1.contains(key),
    decreases n,
{
    if n > 0 {
        lemma_seen(v, n - 1, key);
        let f = v[n - 1];
        let seen = font_comments_upto(v, n - 1).1;
        let now = font_comments_upto(v, n).1;
        if now.contains(key) {
            let x = choose|x: int| 0 <= x < now.len() && now[x] == key;
            if x < seen.len() {
                assert(seen[x] == key);
            }
        }
    }
}

proof fn lemma_comments_stay(v: Seq<EmbeddedFontView>, n: int, c: Seq<char>, to: int)
    requires
        0 <= n <= to,
        font_comments_upto(v, n).0.contains(c),
    ensures
        font_comments_upto(v, to).0.contains(c),
    decreases to - n,
{
    if n < to {
        lemma_comments_stay(v, n, c, to - 1);
        let out = font_comments_upto(v, to - 1).0;
        let x = choose|x: int| 0 <= x < out.len() && out[x] == c;
        assert(font_comments_upto(v, to).0[x] == c);
    }
}

/// Every embedded font with a name of its own is commented with that name and its
/// original one, where no font in front of it has the same new name.
pub proof fn law_every_subset_commented(
    v: Seq<EmbeddedFontView>,
    i: int,
    m: Seq<(Seq<char>, Seq<char>)>,
)
    requires
        0 <= i < v.len(),
        v[i].original_name != v[i].embedded_name,
        forall|k: int|
            0 <= k < i ==> v[k].original_name == v[k].embedded_name || lookup_name(
                (#[trigger] v[k]).embedded_name,
            ) != lookup_name(v[i].embedded_name),
    ensures
        subset_comments(v, m).contains(
            "; Font Subset: "@ + v[i].embedded_name + " - "@ + v[i].original_name,
        ),
{
    let c = subset_comment(v[i].embedded_name, v[i].original_name);
    lemma_seen(v, i, lookup_name(v[i].embedded_name));
    let out = font_comments_upto(v, i).0;
    assert(font_comments_upto(v, i + 1).0 == out.push(c));
    assert(out.push(c)[out.len() as int] == c);
    lemma_comments_stay(v, i + 1, c, v.len() as int);
}

// ---------------------------------------------------------------------------
// Drawings
// ---------------------------------------------------------------------------
/// A line of dialogue has the drawings of its text replaced, and its other columns
/// stay; lines outside the events stay whole.
pub proof fn law_dialogue_drawn(st: DrawFile, w: Seq<Seq<char>>)
    requires
        first_column(st.format, st.format.len() - 1, "text"@),
        2 <= w.len() == st.format.len(),
        plain_fields(w),
        w.last().len() > 0,
    ensures
        ({
            let line = "Dialogue: "@ + join(w, seq![',']);
            let to = draw_line(st, line);
            let new = drawn(w.last(), st.entries);
            &&& st.section == "events"@ ==> {
                &&& to.out == st.out.push(
                    "Dialogue: "@ + join(w.update(w.len() - 1, new.out), seq![',']),
                )
                &&& to.entries == new.entries
                &&& to.format == st.format
                &&& to.section == st.section
            }
            &&& st.section != "events"@ ==> to == (DrawFile { out: st.out.push(line), ..st })
        }),
{
    reveal_strlit("Dialogue: ");
    reveal_strlit("Dialogue:");
    reveal_strlit("Format:");
    let body = join(w, seq![',']);
    let line = "Dialogue: "@ + body;
    lemma_first_column(st.format, st.format.len() - 1, "text"@, 0);
    lemma_join_begins(w);
    lemma_join_ends(w);
    assert(line[0] == 'D');
    assert(line[line.len() - 1] == body[body.len() - 1]);
    lemma_written_line(line);
    assert(header_name(line) is None);
    assert(after_prefix(line, "Format:"@) is None) by {
        assert(lowered(line.take(7))[0] == lower('D'));
        assert(lowered("Format:"@)[0] == lower('F'));
    }
    assert(line.take(9) =~= "Dialogue:"@);
    let rest = line.skip(9);
    assert(rest =~= seq![' '] + body);
    lemma_indent(seq![' '], body);
    let none: Seq<char> = seq![];
    lemma_fields_of_join(none, w);
    assert(none + body =~= body);
    assert(crate::ass::draw::indent(line) =~= none);
    let new = join(w.update(w.len() - 1, drawn(w.last(), st.entries).out), seq![',']);
    assert(none + "Dialogue: "@ + new =~= "Dialogue: "@ + new);
}

/// Every renaming is commented with its new and its old name, where the fonts give no
/// comments; one that changes only the case of the name is not.
pub proof fn law_every_renaming_commented(m: Seq<(Seq<char>, Seq<char>)>, n: int, i: int)
    requires
        0 <= i < n <= m.len(),
        m[i].0 != lowered(m[i].1),
    ensures
        rename_comments_upto(m, n).contains("; Font Subset: "@ + m[i].1 + " - "@ + m[i].0),
    decreases n,
{
    let c = subset_comment(m[i].1, m[i].0);
    let had = rename_comments_upto(m, n - 1);
    if n - 1 == i {
        assert(had.push(c)[had.len() as int] == c);
    } else {
        law_every_renaming_commented(m, n - 1, i);
        let x = choose|x: int| 0 <= x < had.len() && had[x] == c;
        assert(rename_comments_upto(m, n)[x] == c);
    }
}

// ---------------------------------------------------------------------------
// Whole files
// ---------------------------------------------------------------------------
/// Every line of a file is rewritten, from the first on: with the drawings replaced
/// there are as many lines as before.
pub proof fn law_every_line_drawn(v: Seq<Seq<char>>, n: int)
    requires
        0 <= n <= v.len(),
    ensures
        draw_upto(v, n).out.len() == n,
        n > 0 ==> draw_upto(v, n) == draw_line(draw_upto(v, n - 1), v[n - 1]),
    decreases n,
{
    if n > 0 {
        law_every_line_drawn(v, n - 1);
    }
}

/// Every line is looked at when fonts are embedded and when they are taken out, from
/// the first on.
pub proof fn law_every_line_rewritten(v: Seq<Seq<char>>, n: int, p: EmbedPlan, q: StripPlan)
    requires
        0 < n <= v.len(),
    ensures
        embed_upto(v, n, p) == embed_line(embed_upto(v, n - 1, p), v[n - 1], p),
        strip_upto(v, n, q) == strip_line(strip_upto(v, n - 1, q), v[n - 1], q),
        ({
            let start = embed_upto(v, 0, p);
            &&& start.out.len() == 0 && start.section.len() == 0 && start.format.len() == 0
            &&& !start.skipping && !start.inserted && !start.commented
            &&& strip_upto(v, 0, q) == start
        }),
{
}

/// A file ends with a line break where it did before.
pub proof fn law_last_break_kept(out: Seq<Seq<char>>, nl: Seq<char>, s: Seq<char>)
    ensures
        s.len() > 0 && s.last() == '\n' ==> rejoined(out, nl, s) == join(out, nl) + nl,
        s.len() == 0 || s.last() != '\n' ==> rejoined(out, nl, s) == join(out, nl),
{
}

/// Fonts are put at the end of a file without events, and nowhere else at the end.
pub proof fn law_fonts_at_end(st: RewriteView, fonts: Seq<char>)
    requires
        fonts.len() > 0,
    ensures
        !st.inserted ==> with_fonts(st, fonts) == st.out.push(fonts),
        st.inserted ==> with_fonts(st, fonts) == st.out,
        with_fonts(st, seq![]) == st.out,
{
}

} // verus!
