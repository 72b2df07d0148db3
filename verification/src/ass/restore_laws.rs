//! What holds of a file that is given subset fonts and stripped of them again.
use vstd::prelude::*;

use crate::ass::draw::{rejoined, DrawEntryView};
use crate::ass::font_laws::{
    all_passable, law_comment_read_back, lemma_comment_ok, lemma_comment_parts, lemma_fn_tags_ok,
    lemma_inserted, lemma_rejoined, lemma_section_on_one_line, lemma_style_line_ok,
    names_on_one_line, passable,
};
use crate::ass::fonts::{
    block_lines, comment_names, comments_line, comments_of, comments_upto, embedded_blocks,
    section_lines, section_lines_upto, section_text, FontBlock,
};
use crate::ass::name_laws::{gives_back, replaced_twice};
use crate::ass::restore_steps::{
    added, alike, body_line, comment_taken, flat_upto, lemma_block_no_header, lemma_body_step,
    lemma_comment_word, lemma_empty_row, lemma_header_step, lemma_nonempty, lemma_section_passed,
    lemma_strip_all_add, lemma_strip_one, lemma_strip_prefix, lemma_upto_strip, line_clear,
    plain_names, put_back_upto, restore_plan, strip_all,
};
use crate::ass::rewrite::{
    embed_line, embed_plan, embed_upto, embedded_file, font_comments_upto, rewrite_start,
    strip_line, strip_upto, stripped_file, subset_comment, subset_comments, with_fonts, EmbedPlan,
    RewriteView, StripPlan,
};
use crate::ass::style::lookup_name;
use crate::line_laws::{
    is_newline, law_lines_of_join, lemma_join_cons, lemma_join_flat, lemma_lines_on_one_line,
    lemma_trim_is, lemma_trim_on_one_line, on_one_line, seen_lines,
};
use crate::models::EmbeddedFontView;
use crate::scanner::inspect::text_marked;
use crate::split::{after_prefix, header_name, join, join_upto, lines};
use crate::strmap::{law_lookup_put, lemma_place, lookup, put};
use crate::text::{cut_end, is_white, lowered, trim, Cut};

verus! {

// ---------------------------------------------------------------------------
// Comments on fonts
// ---------------------------------------------------------------------------
/// The names after the first `n` lines, from given names on.
pub open spec fn comments_run(
    m: Seq<(Seq<char>, Seq<char>)>,
    v: Seq<Seq<char>>,
    n: int,
) -> Seq<(Seq<char>, Seq<char>)>
    decreases n,
{
    if n <= 0 {
        m
    } else {
        comments_line(comments_run(m, v, n - 1), v[n - 1])
    }
}

pub open spec fn uncommented(v: Seq<Seq<char>>) -> bool {
    forall|i: int|
        0 <= i < v.len() ==> after_prefix(trim(#[trigger] v[i]), "; Font Subset:"@) is None
}

proof fn lemma_comments_start(v: Seq<Seq<char>>, n: int)
    ensures
        comments_run(seq![], v, n) == comments_upto(v, n),
    decreases n,
{
    if n > 0 {
        lemma_comments_start(v, n - 1);
    }
}

proof fn lemma_uncommented_run(m: Seq<(Seq<char>, Seq<char>)>, v: Seq<Seq<char>>, n: int)
    requires
        0 <= n <= v.len(),
        uncommented(v),
    ensures
        comments_run(m, v, n) == m,
    decreases n,
{
    if n > 0 {
        lemma_uncommented_run(m, v, n - 1);
        assert(after_prefix(trim(v[n - 1]), "; Font Subset:"@) is None);
    }
}

proof fn lemma_comments_prefix(
    m: Seq<(Seq<char>, Seq<char>)>,
    a: Seq<Seq<char>>,
    b: Seq<Seq<char>>,
    n: int,
)
    requires
        0 <= n <= a.len(),
        n <= b.len(),
        forall|i: int| 0 <= i < n ==> trim(#[trigger] a[i]) == trim(b[i]),
    ensures
        comments_run(m, a, n) == comments_run(m, b, n),
    decreases n,
{
    if n > 0 {
        lemma_comments_prefix(m, a, b, n - 1);
        assert(trim(a[n - 1]) == trim(b[n - 1]));
    }
}

proof fn lemma_comments_add(
    m: Seq<(Seq<char>, Seq<char>)>,
    a: Seq<Seq<char>>,
    b: Seq<Seq<char>>,
    n: int,
)
    requires
        0 <= n <= b.len(),
    ensures
        comments_run(m, a + b, a.len() + n) == comments_run(
            comments_run(m, a, a.len() as int),
            b,
            n,
        ),
    decreases n,
{
    if n == 0 {
        lemma_comments_prefix(m, a + b, a, a.len() as int);
    } else {
        lemma_comments_add(m, a, b, n - 1);
        assert((a + b)[a.len() + n - 1] == b[n - 1]);
    }
}

proof fn lemma_section_uncommented(v: Seq<FontBlock>, n: int)
    requires
        0 <= n <= v.len(),
        all_passable(v),
    ensures
        uncommented(section_lines_upto(v, n)),
    decreases n,
{
    if n == 0 {
        reveal_strlit("[Fonts]");
        let t = "[Fonts]"@;
        lemma_trim_is(t, 0, 7);
        assert(t.subrange(0, 7) =~= t);
        lemma_comment_word();
    } else {
        lemma_section_uncommented(v, n - 1);
        assert(passable(v[n - 1]));
        let a = section_lines_upto(v, n - 1);
        let w = block_lines(v[n - 1]);
        let all = section_lines_upto(v, n);
        assert forall|i: int| 0 <= i < all.len() implies after_prefix(
            trim(#[trigger] all[i]),
            "; Font Subset:"@,
        ) is None by {
            if i < a.len() {
                assert(all[i] == a[i]);
            } else {
                assert(all[i] == w[i - a.len()]);
                lemma_block_no_header(v[n - 1], i - a.len());
            }
        }
    }
}

proof fn lemma_header_uncommented(line: Seq<char>)
    requires
        header_name(trim(line)) is Some,
    ensures
        after_prefix(trim(line), "; Font Subset:"@) is None,
{
    let t = trim(line);
    lemma_comment_word();
    if t.len() >= 14 {
        assert(lowered(t.take(14))[0] == '[');
        assert(lowered("; Font Subset:"@)[0] == ';');
    }
}

// ---------------------------------------------------------------------------
// A whole file
// ---------------------------------------------------------------------------
/// The lines of a file, with the section as one row or line by line.
pub open spec fn flat_at(
    out: Seq<Seq<char>>,
    flat: Seq<Seq<char>>,
    fonts: Seq<char>,
    sl: Seq<Seq<char>>,
    k: int,
) -> bool {
    &&& 0 <= k < out.len()
    &&& out[k] == fonts
    &&& flat == out.take(k) + sl + out.skip(k + 1)
}

pub open spec fn flattened(
    out: Seq<Seq<char>>,
    inserted: bool,
    flat: Seq<Seq<char>>,
    fonts: Seq<char>,
    sl: Seq<Seq<char>>,
) -> bool {
    if inserted {
        exists|k: int| flat_at(out, flat, fonts, sl, k)
    } else {
        flat == out
    }
}

proof fn lemma_flattened_add(
    had: Seq<Seq<char>>,
    inserted: bool,
    flat: Seq<Seq<char>>,
    fonts: Seq<char>,
    sl: Seq<Seq<char>>,
    more: Seq<Seq<char>>,
)
    requires
        flattened(had, inserted, flat, fonts, sl),
    ensures
        flattened(had + more, inserted, flat + more, fonts, sl),
{
    if inserted {
        let k = choose|k: int| flat_at(had, flat, fonts, sl, k);
        let out = had + more;
        assert(out.take(k) =~= had.take(k));
        assert(out.skip(k + 1) =~= had.skip(k + 1) + more);
        assert(flat_at(out, flat + more, fonts, sl, k)) by {
            assert(flat + more =~= out.take(k) + sl + out.skip(k + 1));
        }
    }
}

/// Every line of the first `n` is clear when it is read.
pub open spec fn lines_clear(
    v: Seq<Seq<char>>,
    n: int,
    p: EmbedPlan,
    r: Seq<(Seq<char>, Seq<char>)>,
) -> bool {
    forall|i: int| 0 <= i < n ==> line_clear(embed_upto(v, i, p), #[trigger] v[i], p.names, r)
}

/// What the rewrite needs of its plan.
pub open spec fn plan_ok(
    p: EmbedPlan,
    r: Seq<(Seq<char>, Seq<char>)>,
    b: Seq<FontBlock>,
) -> bool {
    &&& plain_names(p.names)
    &&& gives_back(p.names, r)
    &&& all_passable(b)
    &&& each_on_one_line(p.comments)
    &&& forall|i: int| 0 <= i < p.comments.len() ==> comment_taken(#[trigger] p.comments[i], r)
}

/// Comments that stand on one line each.
pub open spec fn each_on_one_line(v: Seq<Seq<char>>) -> bool {
    forall|i: int| 0 <= i < v.len() ==> on_one_line(#[trigger] v[i])
}

/// The lines that a header adds.
proof fn lemma_header_layout(
    e: RewriteView,
    flat: Seq<Seq<char>>,
    raw: Seq<char>,
    p: EmbedPlan,
    b: Seq<FontBlock>,
)
    requires
        all_passable(b),
        each_on_one_line(p.comments),
        on_one_line(raw),
        header_name(trim(cut_end(raw, Cut::CarriageReturn))) is Some,
        flattened(e.out, e.inserted, flat, p.fonts, section_lines(b)),
    ensures
        ({
            let e1 = embed_line(e, raw, p);
            let sl = section_lines(b);
            let rows = added(e, raw, p, sl);
            &&& flattened(e1.out, e1.inserted, flat + rows, p.fonts, sl)
            &&& each_on_one_line(rows)
            &&& e1.commented && !e.commented && p.comments.len() > 0 ==> rows.contains(
                p.comments[0],
            )
        }),
{
    let line = cut_end(raw, Cut::CarriageReturn);
    let h = header_name(trim(line))->0;
    let sl = section_lines(b);
    let rows = added(e, raw, p, sl);
    let e1 = embed_line(e, raw, p);
    let all = flat + rows;
    let none: Seq<Seq<char>> = seq![];
    lemma_trim_on_one_line(raw);
    lemma_section_on_one_line(b, b.len() as int);
    if lowered(h) == "fonts"@ {
        assert(all =~= flat);
    } else {
        let inserts = lowered(h) == "events"@ && !e.inserted && p.fonts.len() > 0;
        let before = if inserts {
            sl
        } else {
            none
        };
        let comments_now = lowered(h) == "script info"@ && !e.commented;
        let after = if comments_now {
            p.comments
        } else {
            none
        };
        assert(rows == before + seq![line] + after);
        assert forall|i: int| 0 <= i < rows.len() implies on_one_line(#[trigger] rows[i]) by {
            if i < before.len() {
                assert(rows[i] == sl[i]);
            } else if i == before.len() {
                assert(rows[i] == line);
            } else {
                assert(rows[i] == p.comments[i - before.len() - 1]);
            }
        }
        let more = seq![line] + after;
        if inserts {
            let k = e.out.len() as int;
            assert(e1.out =~= e.out.push(p.fonts) + more);
            assert(e1.out.take(k) =~= e.out);
            assert(e1.out.skip(k + 1) =~= more);
            assert(all =~= e1.out.take(k) + sl + e1.out.skip(k + 1));
            assert(flat_at(e1.out, all, p.fonts, sl, k));
        } else {
            lemma_flattened_add(e.out, e.inserted, flat, p.fonts, sl, more);
            assert(rows =~= more);
            assert(e1.out =~= e.out + more);
        }
        if comments_now && p.comments.len() > 0 {
            assert(rows[before.len() as int + 1] == p.comments[0]);
        }
    }
}

/// The comments that a header brings with it.
proof fn lemma_header_comments(
    e: RewriteView,
    flat: Seq<Seq<char>>,
    raw: Seq<char>,
    p: EmbedPlan,
    b: Seq<FontBlock>,
)
    requires
        all_passable(b),
        header_name(trim(cut_end(raw, Cut::CarriageReturn))) is Some,
        comments_upto(flat, flat.len() as int) == (if e.commented {
            comments_upto(p.comments, p.comments.len() as int)
        } else {
            seq![]
        }),
    ensures
        ({
            let e1 = embed_line(e, raw, p);
            let all = flat + added(e, raw, p, section_lines(b));
            comments_upto(all, all.len() as int) == (if e1.commented {
                comments_upto(p.comments, p.comments.len() as int)
            } else {
                seq![]
            })
        }),
{
    let line = cut_end(raw, Cut::CarriageReturn);
    let h = header_name(trim(line))->0;
    let sl = section_lines(b);
    let rows = added(e, raw, p, sl);
    let all = flat + rows;
    let none: Seq<Seq<char>> = seq![];
    if lowered(h) == "fonts"@ {
        assert(all =~= flat);
    } else {
        let before = if lowered(h) == "events"@ && !e.inserted && p.fonts.len() > 0 {
            sl
        } else {
            none
        };
        let comments_now = lowered(h) == "script info"@ && !e.commented;
        let after = if comments_now {
            p.comments
        } else {
            none
        };
        assert(rows == before + seq![line] + after);
        lemma_comments_start(flat, flat.len() as int);
        lemma_comments_start(all, all.len() as int);
        lemma_comments_add(seq![], flat, rows, rows.len() as int);
        let had = comments_run(seq![], flat, flat.len() as int);
        let first = before + seq![line];
        lemma_comments_add(had, first, after, after.len() as int);
        lemma_section_uncommented(b, b.len() as int);
        lemma_header_uncommented(line);
        assert(uncommented(first)) by {
            assert forall|i: int| 0 <= i < first.len() implies after_prefix(
                trim(#[trigger] first[i]),
                "; Font Subset:"@,
            ) is None by {
                if i < before.len() {
                    assert(first[i] == sl[i]);
                }
            }
        }
        lemma_uncommented_run(had, first, first.len() as int);
        if comments_now {
            lemma_comments_start(p.comments, p.comments.len() as int);
        }
    }
}

/// What the end of a stripped file looks like: some line of it stays where it
/// has one, and a last line that is empty stays empty.
pub open spec fn ends_alike(flat: Seq<Seq<char>>, q: StripPlan) -> bool {
    let s = strip_all(rewrite_start(), flat, q);
    &&& flat.len() > 0 ==> s.out.len() > 0
    &&& flat.len() > 0 && flat.last().len() == 0 ==> {
        let before = strip_all(rewrite_start(), flat.drop_last(), q);
        &&& s.out == before.out.push(seq![])
        &&& flat.len() > 1 ==> before.out.len() > 0
    }
}

/// The end of a file stays so when lines are added that keep it so.
proof fn lemma_ends_alike(had: Seq<Seq<char>>, rows: Seq<Seq<char>>, q: StripPlan)
    requires
        ends_alike(had, q),
        ({
            let s = strip_all(rewrite_start(), had, q);
            let s1 = strip_all(rewrite_start(), had + rows, q);
            &&& !s.skipping
            &&& s1 == strip_all(s, rows, q)
            &&& rows.len() > 0 ==> s1.out.len() > 0
            &&& rows.len() > 0 && rows.last().len() == 0 ==> rows.len() == 1
        }),
    ensures
        ends_alike(had + rows, q),
{
    let flat = had + rows;
    if rows.len() == 0 {
        assert(flat =~= had);
    } else {
        assert(flat.last() == rows.last());
        if rows.last().len() == 0 {
            let e: Seq<char> = seq![];
            let s = strip_all(rewrite_start(), had, q);
            assert(flat.drop_last() =~= had);
            assert(rows =~= seq![rows[0]]);
            lemma_strip_one(s, rows[0], q);
            lemma_empty_row(s, rows[0], q);
            assert(rows[0] =~= e);
        }
    }
}

proof fn lemma_side_by_side(
    v: Seq<Seq<char>>,
    n: int,
    p: EmbedPlan,
    r: Seq<(Seq<char>, Seq<char>)>,
    g: Seq<(Seq<char>, DrawEntryView)>,
    b: Seq<FontBlock>,
)
    requires
        0 <= n <= v.len(),
        forall|i: int| 0 <= i < v.len() ==> on_one_line(#[trigger] v[i]),
        plan_ok(p, r, b),
        lines_clear(v, n, p, r),
    ensures
        ({
            let e = embed_upto(v, n, p);
            let d = put_back_upto(v, n, replaced_twice(p.names, r), g);
            let sl = section_lines(b);
            let flat = flat_upto(v, n, p, sl);
            &&& alike(e, d, strip_all(rewrite_start(), flat, restore_plan(r, g)))
            &&& ends_alike(flat, restore_plan(r, g))
            &&& flattened(e.out, e.inserted, flat, p.fonts, sl)
            &&& comments_upto(flat, flat.len() as int) == (if e.commented {
                comments_upto(p.comments, p.comments.len() as int)
            } else {
                seq![]
            })
            &&& each_on_one_line(flat)
        }),
    decreases n,
{
    if n > 0 {
        lemma_side_by_side(v, n - 1, p, r, g, b);
        let q = restore_plan(r, g);
        let u = replaced_twice(p.names, r);
        let e = embed_upto(v, n - 1, p);
        let d = put_back_upto(v, n - 1, u, g);
        let sl = section_lines(b);
        let had = flat_upto(v, n - 1, p, sl);
        let s = strip_all(rewrite_start(), had, q);
        let raw = v[n - 1];
        let rows = added(e, raw, p, sl);
        let flat = had + rows;
        assert(line_clear(e, raw, p.names, r));
        lemma_strip_all_add(rewrite_start(), had, rows, q);
        match header_name(trim(cut_end(raw, Cut::CarriageReturn))) {
            Some(_) => {
                lemma_header_step(e, d, s, raw, p, r, g, b);
                lemma_header_layout(e, had, raw, p, b);
                lemma_header_comments(e, had, raw, p, b);
            },
            None => {
                lemma_body_step(e, d, s, raw, p, r, g);
                lemma_flattened_add(e.out, e.inserted, had, p.fonts, sl, rows);
                lemma_comments_start(had, had.len() as int);
                lemma_comments_start(flat, flat.len() as int);
                lemma_comments_add(seq![], had, rows, rows.len() as int);
                assert(uncommented(rows)) by {
                    assert forall|i: int| 0 <= i < rows.len() implies after_prefix(
                        trim(#[trigger] rows[i]),
                        "; Font Subset:"@,
                    ) is None by {
                        assert(body_line(rows[i]));
                    }
                }
                lemma_uncommented_run(
                    comments_run(seq![], had, had.len() as int),
                    rows,
                    rows.len() as int,
                );
                let e1 = embed_line(e, raw, p);
                assert(flattened(e1.out, e1.inserted, flat, p.fonts, sl));
            },
        }
        lemma_ends_alike(had, rows, q);
        assert forall|i: int| 0 <= i < flat.len() implies on_one_line(#[trigger] flat[i]) by {
            if i < had.len() {
                assert(flat[i] == had[i]);
            } else {
                assert(flat[i] == rows[i - had.len()]);
            }
        }
    } else {
        let flat = flat_upto(v, 0, p, section_lines(b));
        assert(flat =~= seq![]);
    }
}

/// The lines of the rewritten file.
pub open spec fn full_lines(st: RewriteView, flat: Seq<Seq<char>>, p: EmbedPlan, sl: Seq<Seq<char>>) -> Seq<
    Seq<char>,
> {
    if !st.inserted && p.fonts.len() > 0 {
        flat + sl
    } else {
        flat
    }
}

/// Whether the fonts come before the events, or the file ends with a line break:
/// fonts at the end of a file end it with one.
pub open spec fn fonts_fit(st: RewriteView, fonts: Seq<char>, s: Seq<char>) -> bool {
    st.inserted || fonts.len() == 0 || (s.len() > 0 && s.last() == '\n')
}

/// The text of the rewritten file is that of its lines.
proof fn lemma_full_text(
    st: RewriteView,
    flat: Seq<Seq<char>>,
    p: EmbedPlan,
    b: Seq<FontBlock>,
    nl: Seq<char>,
    s: Seq<char>,
)
    requires
        p.fonts == section_text(b, nl),
        st.inserted ==> p.fonts.len() > 0,
        all_passable(b),
        flattened(st.out, st.inserted, flat, p.fonts, section_lines(b)),
    ensures
        ({
            let full = full_lines(st, flat, p, section_lines(b));
            let text = rejoined(with_fonts(st, p.fonts), nl, s);
            &&& full.len() > 0 ==> text == rejoined(full, nl, s)
            &&& full.len() == 0 ==> text == rejoined(seq![], nl, s)
        }),
{
    let sl = section_lines(b);
    let full = full_lines(st, flat, p, sl);
    let out = with_fonts(st, p.fonts);
    let none: Seq<Seq<char>> = seq![];
    lemma_section_on_one_line(b, b.len() as int);
    if st.inserted {
        let k = choose|k: int| flat_at(st.out, flat, p.fonts, sl, k);
        let a = out.take(k);
        let c = out.skip(k + 1);
        assert(out =~= a.push(p.fonts) + c);
        lemma_join_flat(a, sl, c, nl);
        assert(full =~= a + sl + c);
    } else if p.fonts.len() > 0 {
        assert(out =~= st.out.push(p.fonts) + none);
        lemma_join_flat(st.out, sl, none, nl);
        assert(full =~= st.out + sl + none);
    } else {
        assert(full =~= seq![] || full.len() > 0);
    }
}

/// A file with its embedded fonts and the comments on them taken out, its names
/// replaced, and its drawings put back.
pub open spec fn put_back_file(
    s: Seq<char>,
    nl: Seq<char>,
    m: Seq<(Seq<char>, Seq<char>)>,
    g: Seq<(Seq<char>, DrawEntryView)>,
) -> Seq<char> {
    rejoined(put_back_upto(lines(s), lines(s).len() as int, m, g).out, nl, s)
}

/// What is read of joined lines when they are stripped: the lines as they were
/// joined, but for a last one that is empty.
proof fn lemma_strip_joined(rows: Seq<Seq<char>>, nl: Seq<char>, q: StripPlan)
    requires
        is_newline(nl),
        rows.len() > 0,
        each_on_one_line(rows),
    ensures
        ({
            let got = lines(join(rows, nl));
            let seen = seen_lines(rows);
            &&& strip_upto(got, got.len() as int, q) == strip_all(rewrite_start(), seen, q)
            &&& comments_of(join(rows, nl)) == comments_upto(seen, seen.len() as int)
        }),
{
    let start = rewrite_start();
    let got = lines(join(rows, nl));
    let seen = seen_lines(rows);
    law_lines_of_join(rows, nl);
    lemma_upto_strip(got, got.len() as int, q);
    lemma_strip_prefix(start, got, seen, seen.len() as int, q);
    lemma_comments_start(got, got.len() as int);
    lemma_comments_start(seen, seen.len() as int);
    lemma_comments_prefix(seq![], got, seen, seen.len() as int);
}

/// Nothing is read of a last line that is empty.
proof fn lemma_comments_dropped(rows: Seq<Seq<char>>)
    requires
        rows.len() > 0,
        rows.last().len() == 0,
    ensures
        comments_upto(rows, rows.len() as int) == comments_upto(
            rows.drop_last(),
            rows.len() - 1,
        ),
{
    let n = rows.len() as int;
    let e = rows.last();
    lemma_trim_is(e, 0, 0);
    assert(e.subrange(0, 0) =~= e);
    lemma_comment_word();
    lemma_comments_start(rows, n - 1);
    lemma_comments_start(rows.drop_last(), n - 1);
    lemma_comments_prefix(seq![], rows, rows.drop_last(), n - 1);
}

/// The strip of joined lines with a last line break.
proof fn lemma_strip_ended(full: Seq<Seq<char>>, nl: Seq<char>, s: Seq<char>, q: StripPlan)
    requires
        is_newline(nl),
        s.len() > 0,
        s.last() == '\n',
        each_on_one_line(full),
        q.fonts.len() == 0,
    ensures
        ({
            let text = rejoined(full, nl, s);
            let done = strip_all(rewrite_start(), full, q);
            &&& stripped_file(text, nl, q) == rejoined(done.out, nl, s)
            &&& comments_of(text) == comments_upto(full, full.len() as int)
        }),
{
    let e: Seq<char> = seq![];
    let start = rewrite_start();
    let text = rejoined(full, nl, s);
    assert(text.last() == nl.last());
    if full.len() > 0 {
        let rows = full.push(e);
        lemma_rejoined(full, nl, s);
        assert(each_on_one_line(rows));
        lemma_strip_joined(rows, nl, q);
        assert(seen_lines(rows) =~= full);
    } else {
        let two: Seq<Seq<char>> = seq![e, e];
        let one: Seq<Seq<char>> = seq![e];
        lemma_join_cons(two, nl);
        assert(two.skip(1) =~= one);
        assert(join(one, nl) == e);
        assert(join(two, nl) =~= nl);
        assert(text =~= nl);
        assert(each_on_one_line(two));
        lemma_strip_joined(two, nl, q);
        assert(seen_lines(two) =~= one);
        lemma_strip_one(start, e, q);
        lemma_empty_row(start, e, q);
        assert(strip_line(start, e, q).out =~= one);
        assert(full =~= seq![]);
        assert(join(one, nl) =~= join(start.out, nl));
        lemma_comments_dropped(one);
        assert(one.drop_last() =~= full);
    }
}

/// The strip of joined lines without a last line break.
proof fn lemma_strip_unended(full: Seq<Seq<char>>, nl: Seq<char>, q: StripPlan)
    requires
        is_newline(nl),
        each_on_one_line(full),
        q.fonts.len() == 0,
        ends_alike(full, q),
    ensures
        ({
            let text = join(full, nl);
            let done = strip_all(rewrite_start(), full, q);
            &&& stripped_file(text, nl, q) == join(done.out, nl)
            &&& comments_of(text) == comments_upto(full, full.len() as int)
        }),
{
    let e: Seq<char> = seq![];
    let start = rewrite_start();
    let text = join(full, nl);
    let done = strip_all(start, full, q);
    if full.len() == 0 {
        assert(full =~= seq![]);
        assert(text =~= e);
        assert(lines(e) =~= seq![]);
        assert(join(done.out, nl) =~= e);
    } else {
        lemma_strip_joined(full, nl, q);
        let last = full.last();
        lemma_join_last(full, nl);
        if last.len() > 0 {
            assert(text.last() == last.last());
            assert(on_one_line(last));
            assert(seen_lines(full) == full);
        } else {
            let seen = full.drop_last();
            let before = strip_all(start, seen, q);
            assert(done.out == before.out.push(e));
            lemma_comments_dropped(full);
            if full.len() > 1 {
                assert(text.last() == nl.last());
                assert(stripped_file(text, nl, q) == join(before.out, nl) + nl);
                lemma_join_last(done.out, nl);
                assert(done.out.drop_last() =~= before.out);
                assert(join(before.out, nl) + nl + e =~= join(before.out, nl) + nl);
            } else {
                assert(text =~= e);
                assert(seen =~= seq![]);
                assert(before == start);
                assert(join(before.out, nl) =~= e);
                assert(join(done.out, nl) =~= e);
            }
        }
    }
}

/// The last of joined parts stands behind the others.
proof fn lemma_join_last(v: Seq<Seq<char>>, sep: Seq<char>)
    requires
        v.len() > 0,
    ensures
        v.len() == 1 ==> join(v, sep) == v[0],
        v.len() > 1 ==> join(v, sep) == join(v.drop_last(), sep) + sep + v.last(),
{
    if v.len() > 1 {
        lemma_join_same(v, v.drop_last(), sep, v.len() - 1);
    }
}

proof fn lemma_join_same(a: Seq<Seq<char>>, b: Seq<Seq<char>>, sep: Seq<char>, n: int)
    requires
        0 <= n <= a.len(),
        n <= b.len(),
        forall|i: int| 0 <= i < n ==> a[i] == b[i],
    ensures
        join_upto(a, sep, n) == join_upto(b, sep, n),
    decreases n,
{
    if n > 1 {
        lemma_join_same(a, b, sep, n - 1);
    }
}

proof fn lemma_restored(
    s: Seq<char>,
    nl: Seq<char>,
    p: EmbedPlan,
    r: Seq<(Seq<char>, Seq<char>)>,
    g: Seq<(Seq<char>, DrawEntryView)>,
    b: Seq<FontBlock>,
)
    requires
        is_newline(nl),
        p.fonts == section_text(b, nl),
        plan_ok(p, r, b),
        lines_clear(lines(s), lines(s).len() as int, p, r),
        fonts_fit(embed_upto(lines(s), lines(s).len() as int, p), p.fonts, s),
    ensures
        ({
            let st = embed_upto(lines(s), lines(s).len() as int, p);
            let text = rejoined(with_fonts(st, p.fonts), nl, s);
            &&& stripped_file(text, nl, restore_plan(r, g)) == put_back_file(
                s,
                nl,
                replaced_twice(p.names, r),
                g,
            )
            &&& comments_of(text) == (if st.commented {
                comments_upto(p.comments, p.comments.len() as int)
            } else {
                seq![]
            })
        }),
{
    let v = lines(s);
    let n = v.len() as int;
    let q = restore_plan(r, g);
    let u = replaced_twice(p.names, r);
    let st = embed_upto(v, n, p);
    let d = put_back_upto(v, n, u, g);
    let sl = section_lines(b);
    let flat = flat_upto(v, n, p, sl);
    let full = full_lines(st, flat, p, sl);
    lemma_lines_on_one_line(s, 0);
    lemma_side_by_side(v, n, p, r, g, b);
    if st.inserted {
        lemma_inserted(v, n, p);
    }
    lemma_full_text(st, flat, p, b, nl, s);
    lemma_section_on_one_line(b, b.len() as int);
    // What is read of the lines.
    let start = rewrite_start();
    let done = strip_all(start, full, q);
    assert(done.out == d.out && comments_upto(full, full.len() as int) == comments_upto(
        flat,
        flat.len() as int,
    )) by {
        if full != flat {
            lemma_strip_all_add(start, flat, sl, q);
            lemma_section_passed(strip_all(start, flat, q), b, b.len() as int, q);
            lemma_comments_start(flat, flat.len() as int);
            lemma_comments_start(full, full.len() as int);
            lemma_comments_add(seq![], flat, sl, sl.len() as int);
            lemma_section_uncommented(b, b.len() as int);
            lemma_uncommented_run(
                comments_run(seq![], flat, flat.len() as int),
                sl,
                sl.len() as int,
            );
        }
    }
    assert forall|i: int| 0 <= i < full.len() implies on_one_line(#[trigger] full[i]) by {
        if i < flat.len() {
            assert(full[i] == flat[i]);
        } else {
            assert(full[i] == sl[i - flat.len()]);
        }
    }
    if full.len() == 0 {
        assert(full =~= seq![]);
    }
    if s.len() > 0 && s.last() == '\n' {
        lemma_strip_ended(full, nl, s, q);
    } else {
        assert(full == flat);
        lemma_strip_unended(full, nl, q);
    }
}

/// Names are put back: a file that is given fonts and stripped of them again
/// is the file with each name replaced by what its new name stands for, and with
/// the drawings that are given put back. The new names are such as can be written
/// and read, and the comments, names and tags of the file are clear of them. The
/// fonts come before the events, or the file ends with a line break.
pub proof fn law_names_put_back(
    s: Seq<char>,
    nl: Seq<char>,
    m: Seq<(Seq<char>, Seq<char>)>,
    fonts: Seq<EmbeddedFontView>,
    r: Seq<(Seq<char>, Seq<char>)>,
    g: Seq<(Seq<char>, DrawEntryView)>,
)
    requires
        is_newline(nl),
        plan_ok(embed_plan(fonts, nl, m), r, embedded_blocks(fonts)),
        lines_clear(lines(s), lines(s).len() as int, embed_plan(fonts, nl, m), r),
        fonts_fit(
            embed_upto(lines(s), lines(s).len() as int, embed_plan(fonts, nl, m)),
            embed_plan(fonts, nl, m).fonts,
            s,
        ),
    ensures
        stripped_file(embedded_file(s, nl, m, fonts), nl, restore_plan(r, g)) == put_back_file(
            s,
            nl,
            replaced_twice(m, r),
            g,
        ),
{
    lemma_restored(s, nl, embed_plan(fonts, nl, m), r, g, embedded_blocks(fonts));
}

// ---------------------------------------------------------------------------
// The comments of the fonts
// ---------------------------------------------------------------------------
/// A font that is embedded under another name than its own.
pub open spec fn renamed(f: EmbeddedFontView) -> bool {
    f.original_name != f.embedded_name
}

/// A font whose two names, where it has two, can be read back from a comment.
pub open spec fn subset_font(f: EmbeddedFontView) -> bool {
    renamed(f) ==> {
        &&& f.embedded_name.len() > 0
        &&& forall|i: int|
            0 <= i < f.embedded_name.len() ==> !is_white(#[trigger] f.embedded_name[i])
        &&& f.original_name.len() > 0
        &&& trim(f.original_name) == f.original_name
        &&& on_one_line(f.original_name)
    }
}

pub open spec fn subset_fonts(v: Seq<EmbeddedFontView>) -> bool {
    forall|i: int| 0 <= i < v.len() ==> subset_font(#[trigger] v[i])
}

pub open spec fn font_key(v: Seq<EmbeddedFontView>, i: int) -> Seq<char> {
    lookup_name(v[i].embedded_name)
}

/// The first renamed font of its name.
pub open spec fn first_named(v: Seq<EmbeddedFontView>, i: int) -> bool {
    renamed(v[i]) && forall|j: int|
        0 <= j < i && renamed(v[j]) ==> #[trigger] font_key(v, j) != font_key(v, i)
}

proof fn lemma_font_comments(v: Seq<EmbeddedFontView>, n: int)
    requires
        0 <= n <= v.len(),
        subset_fonts(v),
    ensures
        ({
            let (out, seen) = font_comments_upto(v, n);
            let names = comments_upto(out, out.len() as int);
            &&& forall|i: int|
                0 <= i < n && renamed(#[trigger] v[i]) ==> out.len() > 0 && seen.contains(
                    font_key(v, i),
                )
            &&& forall|k: Seq<char>|
                #![trigger seen.contains(k)]
                seen.contains(k) ==> lookup(names, k) is Some && exists|i: int|
                    0 <= i < n && renamed(v[i]) && #[trigger] font_key(v, i) == k
            &&& forall|i: int|
                0 <= i < n && first_named(v, i) ==> lookup(names, #[trigger] font_key(v, i))
                    == Some(v[i].original_name)
            &&& forall|i: int|
                0 <= i < out.len() ==> on_one_line(#[trigger] out[i]) && header_name(
                    trim(out[i]),
                ) is None && (comment_names(trim(out[i])) matches Some((new, original))
                    && seen.contains(lookup_name(new)) && trim(new).len() > 0 && trim(
                    original,
                ).len() > 0)
        }),
    decreases n,
{
    if n > 0 {
        lemma_font_comments(v, n - 1);
        let (had, had_seen) = font_comments_upto(v, n - 1);
        let (out, seen) = font_comments_upto(v, n);
        let f = v[n - 1];
        let k = font_key(v, n - 1);
        let before = comments_upto(had, had.len() as int);
        let names = comments_upto(out, out.len() as int);
        assert(subset_font(f));
        if !renamed(f) || had_seen.contains(k) {
            assert(out == had && seen == had_seen);
            if renamed(f) {
                let i = choose|i: int|
                    0 <= i < n - 1 && renamed(v[i]) && #[trigger] font_key(v, i) == k;
                assert(renamed(v[i]));
                assert(had.len() > 0);
                assert(font_key(v, i) == k);
                assert(!first_named(v, n - 1));
            }
            assert forall|q: Seq<char>| #![trigger seen.contains(q)] seen.contains(q) implies exists|
                i: int,
            | 0 <= i < n && renamed(v[i]) && #[trigger] font_key(v, i) == q by {
                let i = choose|i: int|
                    0 <= i < n - 1 && renamed(v[i]) && #[trigger] font_key(v, i) == q;
                assert(0 <= i < n && font_key(v, i) == q);
            }
        } else {
            let c = subset_comment(f.embedded_name, f.original_name);
            assert(out == had.push(c) && seen == had_seen.push(k));
            lemma_comment_parts(f.embedded_name, f.original_name);
            law_comment_read_back(before, f.embedded_name, f.original_name);
            assert(on_one_line(f.embedded_name)) by {
                assert forall|i: int| 0 <= i < f.embedded_name.len() implies #[trigger] f.embedded_name[i]
                    != '\n' by {
                    assert(!is_white(f.embedded_name[i]));
                }
            }
            lemma_comment_ok(f.embedded_name, f.original_name);
            let name = f.embedded_name;
            assert(!is_white(name[0]) && !is_white(name[name.len() - 1]));
            lemma_trim_is(name, 0, name.len() as int);
            lemma_comments_start(had, had.len() as int);
            lemma_comments_start(out, had.len() as int);
            lemma_comments_prefix(seq![], out, had, had.len() as int);
            assert(names == put(before, k, f.original_name));
            assert forall|q: Seq<char>| #![trigger seen.contains(q)] seen.contains(q) == (q == k
                || had_seen.contains(q)) by {
                assert(seen[seen.len() - 1] == k);
                if had_seen.contains(q) {
                    let i = choose|i: int| 0 <= i < had_seen.len() && had_seen[i] == q;
                    assert(seen[i] == q);
                }
                if seen.contains(q) && q != k {
                    let i = choose|i: int| 0 <= i < seen.len() && seen[i] == q;
                    assert(had_seen[i] == q);
                }
            }
            assert forall|i: int| 0 <= i < n && renamed(#[trigger] v[i]) implies seen.contains(
                font_key(v, i),
            ) by {
                if i < n - 1 {
                    assert(had_seen.contains(font_key(v, i)));
                }
            }
            assert forall|q: Seq<char>| #![trigger seen.contains(q)] seen.contains(q) implies lookup(
                names,
                q,
            ) is Some && exists|i: int|
                0 <= i < n && renamed(v[i]) && #[trigger] font_key(v, i) == q by {
                law_lookup_put(before, k, f.original_name, q);
                if q == k {
                    assert(font_key(v, n - 1) == q);
                } else {
                    assert(had_seen.contains(q));
                    let i = choose|i: int|
                        0 <= i < n - 1 && renamed(v[i]) && #[trigger] font_key(v, i) == q;
                    assert(0 <= i < n && font_key(v, i) == q);
                }
            }
            assert forall|i: int| 0 <= i < n && first_named(v, i) implies lookup(
                names,
                #[trigger] font_key(v, i),
            ) == Some(v[i].original_name) by {
                law_lookup_put(before, k, f.original_name, font_key(v, i));
                if i < n - 1 {
                    assert(renamed(v[i]));
                    assert(had_seen.contains(font_key(v, i)));
                }
            }
            assert forall|i: int| 0 <= i < out.len() implies on_one_line(#[trigger] out[i])
                && header_name(trim(out[i])) is None && (comment_names(trim(out[i])) matches Some((
                new,
                original,
            )) && seen.contains(lookup_name(new)) && trim(new).len() > 0 && trim(
                original,
            ).len() > 0) by {
                if i < had.len() {
                    assert(out[i] == had[i]);
                } else {
                    assert(out[i] == c);
                }
            }
        }
    }
}

/// Every new name is the name of a renamed font that is embedded.
pub open spec fn names_embedded(
    m: Seq<(Seq<char>, Seq<char>)>,
    fonts: Seq<EmbeddedFontView>,
) -> bool {
    forall|i: int|
        0 <= i < m.len() ==> exists|j: int|
            0 <= j < fonts.len() && renamed(fonts[j]) && (#[trigger] fonts[j]).embedded_name == (
            #[trigger] m[i]).1
}

/// The original names that the comments of a rewrite give.
pub open spec fn commented_names(
    m: Seq<(Seq<char>, Seq<char>)>,
    fonts: Seq<EmbeddedFontView>,
) -> Seq<(Seq<char>, Seq<char>)> {
    let v = subset_comments(fonts, m);
    comments_upto(v, v.len() as int)
}

/// A file that can be given the fonts and stripped of them again: the fonts can
/// be passed over, and the new names written and read; there is a script info for
/// the comments, if any; the names of the file are clear of the new ones; and the
/// fonts come before the events, or the file ends with a line break.
pub open spec fn undoable(
    s: Seq<char>,
    nl: Seq<char>,
    m: Seq<(Seq<char>, Seq<char>)>,
    fonts: Seq<EmbeddedFontView>,
) -> bool {
    let p = embed_plan(fonts, nl, m);
    let v = lines(s);
    let st = embed_upto(v, v.len() as int, p);
    &&& subset_fonts(fonts)
    &&& all_passable(embedded_blocks(fonts))
    &&& plain_names(m)
    &&& names_embedded(m, fonts)
    &&& st.commented || p.comments.len() == 0
    &&& lines_clear(v, v.len() as int, p, commented_names(m, fonts))
    &&& fonts_fit(st, p.fonts, s)
}

/// What the names of a file become when its renamed fonts get their own names
/// back.
pub open spec fn own_names(
    m: Seq<(Seq<char>, Seq<char>)>,
    fonts: Seq<EmbeddedFontView>,
) -> Seq<(Seq<char>, Seq<char>)> {
    replaced_twice(m, commented_names(m, fonts))
}

/// Subsetting is undone: a file is given subset fonts. The names read back from
/// it give every renamed font its original name, and stripping the file by them
/// gives the file with each name replaced by the original name of its font, and
/// with the drawings that are given put back.
pub proof fn law_subsets_undone(
    s: Seq<char>,
    nl: Seq<char>,
    m: Seq<(Seq<char>, Seq<char>)>,
    fonts: Seq<EmbeddedFontView>,
    g: Seq<(Seq<char>, DrawEntryView)>,
)
    requires
        is_newline(nl),
        undoable(s, nl, m, fonts),
    ensures
        ({
            let text = embedded_file(s, nl, m, fonts);
            let r = comments_of(text);
            &&& r == commented_names(m, fonts)
            &&& forall|i: int|
                0 <= i < fonts.len() && first_named(fonts, i) ==> lookup(
                    r,
                    #[trigger] font_key(fonts, i),
                ) == Some(fonts[i].original_name)
            &&& stripped_file(text, nl, restore_plan(r, g)) == put_back_file(
                s,
                nl,
                own_names(m, fonts),
                g,
            )
        }),
{
    let p = embed_plan(fonts, nl, m);
    let r = commented_names(m, fonts);
    let n = fonts.len() as int;
    lemma_font_comments(fonts, n);
    let (out, seen) = font_comments_upto(fonts, n);
    assert(p.comments == out) by {
        if out.len() == 0 && m.len() > 0 {
            let j = choose|j: int|
                0 <= j < fonts.len() && renamed(fonts[j]) && (#[trigger] fonts[j]).embedded_name
                    == m[0].1;
            assert(renamed(fonts[j]));
        }
        if out.len() == 0 {
            assert(p.comments =~= out);
        }
    }
    assert(gives_back(m, r)) by {
        assert forall|i: int| 0 <= i < m.len() implies lookup(
            r,
            lookup_name((#[trigger] m[i]).1),
        ) is Some by {
            let j = choose|j: int|
                0 <= j < fonts.len() && renamed(fonts[j]) && (#[trigger] fonts[j]).embedded_name
                    == m[i].1;
            assert(renamed(fonts[j]));
            assert(seen.contains(font_key(fonts, j)));
        }
    }
    assert forall|i: int| 0 <= i < p.comments.len() implies comment_taken(
        #[trigger] p.comments[i],
        r,
    ) by {
        assert(p.comments[i] == out[i]);
        let new = (comment_names(trim(out[i]))->0).0;
        assert(seen.contains(lookup_name(new)));
    }
    lemma_restored(s, nl, p, r, g, embedded_blocks(fonts));
    assert(comments_upto(p.comments, 0) =~= seq![]);
}

// ---------------------------------------------------------------------------
// Rewritten files are known again
// ---------------------------------------------------------------------------
proof fn lemma_contains_add(a: Seq<Seq<char>>, b: Seq<Seq<char>>, x: Seq<char>)
    requires
        a.contains(x) || b.contains(x),
    ensures
        (a + b).contains(x),
{
    if a.contains(x) {
        let i = choose|i: int| 0 <= i < a.len() && a[i] == x;
        assert((a + b)[i] == x);
    } else {
        let i = choose|i: int| 0 <= i < b.len() && b[i] == x;
        assert((a + b)[a.len() + i] == x);
    }
}

proof fn lemma_layout(v: Seq<Seq<char>>, n: int, p: EmbedPlan, b: Seq<FontBlock>)
    requires
        0 <= n <= v.len(),
        each_on_one_line(v),
        names_on_one_line(p.names),
        all_passable(b),
        each_on_one_line(p.comments),
    ensures
        ({
            let e = embed_upto(v, n, p);
            let sl = section_lines(b);
            let flat = flat_upto(v, n, p, sl);
            &&& flattened(e.out, e.inserted, flat, p.fonts, sl)
            &&& each_on_one_line(flat)
            &&& e.commented && p.comments.len() > 0 ==> flat.contains(p.comments[0])
        }),
    decreases n,
{
    let sl = section_lines(b);
    let flat = flat_upto(v, n, p, sl);
    if n > 0 {
        lemma_layout(v, n - 1, p, b);
        let e = embed_upto(v, n - 1, p);
        let had = flat_upto(v, n - 1, p, sl);
        let raw = v[n - 1];
        let line = cut_end(raw, Cut::CarriageReturn);
        let rows = added(e, raw, p, sl);
        let e1 = embed_line(e, raw, p);
        assert(on_one_line(raw));
        match header_name(trim(line)) {
            Some(_) => {
                lemma_header_layout(e, had, raw, p, b);
            },
            None => {
                lemma_trim_on_one_line(raw);
                lemma_style_line_ok(line, e.format, p.names);
                lemma_fn_tags_ok(line, p.names);
                if e1.out == e.out {
                    assert(rows =~= seq![]);
                } else {
                    assert(e1.out == e.out.push(e1.out.last()));
                    assert(rows =~= seq![e1.out.last()]);
                }
                assert(e1.out =~= e.out + rows);
                lemma_flattened_add(e.out, e.inserted, had, p.fonts, sl, rows);
            },
        }
        assert forall|i: int| 0 <= i < flat.len() implies on_one_line(#[trigger] flat[i]) by {
            if i < had.len() {
                assert(flat[i] == had[i]);
            } else {
                assert(flat[i] == rows[i - had.len()]);
            }
        }
        if e1.commented && p.comments.len() > 0 {
            lemma_contains_add(had, rows, p.comments[0]);
        }
    } else {
        assert(flat =~= seq![]);
    }
}

/// Names that were read stay.
proof fn lemma_names_stay(v: Seq<Seq<char>>, i: int, n: int)
    requires
        0 <= i < n <= v.len(),
        comment_names(trim(v[i])) matches Some((new, original)) && trim(new).len() > 0 && trim(
            original,
        ).len() > 0,
    ensures
        comments_upto(v, n).len() > 0,
    decreases n,
{
    let had = comments_upto(v, n - 1);
    if i < n - 1 {
        lemma_names_stay(v, i, n - 1);
    }
    match comment_names(trim(v[n - 1])) {
        Some((new, _)) => {
            lemma_place(had, lookup_name(trim(new)), 0);
        },
        None => {},
    }
}

/// A file that is given a renamed font is known again as one that has subset
/// fonts, where it carries a script info.
pub proof fn law_subset_recognised(
    s: Seq<char>,
    nl: Seq<char>,
    m: Seq<(Seq<char>, Seq<char>)>,
    fonts: Seq<EmbeddedFontView>,
)
    requires
        is_newline(nl),
        subset_fonts(fonts),
        exists|i: int| 0 <= i < fonts.len() && renamed(#[trigger] fonts[i]),
        all_passable(embedded_blocks(fonts)),
        names_on_one_line(m),
        embed_upto(lines(s), lines(s).len() as int, embed_plan(fonts, nl, m)).commented,
    ensures
        text_marked(embedded_file(s, nl, m, fonts)),
{
    let p = embed_plan(fonts, nl, m);
    let b = embedded_blocks(fonts);
    let v = lines(s);
    let n = v.len() as int;
    let sl = section_lines(b);
    let st = embed_upto(v, n, p);
    let flat = flat_upto(v, n, p, sl);
    let full = full_lines(st, flat, p, sl);
    let text = embedded_file(s, nl, m, fonts);
    let e: Seq<char> = seq![];
    lemma_font_comments(fonts, fonts.len() as int);
    let w = choose|w: int| 0 <= w < fonts.len() && renamed(#[trigger] fonts[w]);
    assert(renamed(fonts[w]));
    assert(each_on_one_line(p.comments));
    lemma_lines_on_one_line(s, 0);
    lemma_layout(v, n, p, b);
    if st.inserted {
        lemma_inserted(v, n, p);
    }
    lemma_full_text(st, flat, p, b, nl, s);
    lemma_section_on_one_line(b, b.len() as int);
    let c = p.comments[0];
    let i = choose|i: int| 0 <= i < flat.len() && flat[i] == c;
    assert(full[i] == c);
    lemma_nonempty(c);
    let ends = s.len() > 0 && s.last() == '\n';
    let rows = if ends {
        full.push(e)
    } else {
        full
    };
    lemma_rejoined(full, nl, s);
    assert forall|j: int| 0 <= j < rows.len() implies on_one_line(#[trigger] rows[j]) by {
        if j < flat.len() {
            assert(rows[j] == flat[j]);
        } else if j < full.len() {
            assert(rows[j] == sl[j - flat.len()]);
        }
    }
    law_lines_of_join(rows, nl);
    let got = lines(text);
    assert(seen_lines(rows)[i] == c);
    assert(trim(got[i]) == trim(c));
    lemma_names_stay(got, i, got.len() as int);
}

} // verus!
