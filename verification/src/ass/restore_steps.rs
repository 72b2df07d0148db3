//! How a line is written with subset fonts and read back without them.
use vstd::prelude::*;

use crate::ass::draw::{indent, DrawEntryView};
use crate::ass::font_laws::{
    all_passable, lemma_first_char, lemma_fn_tags_from, lemma_fn_tags_ok, lemma_position,
    lemma_style_line_ok, lemma_trimmed_ends, names_on_one_line, passable,
};
use crate::ass::fonts::{
    block_lines, comment_names, pieces, section_lines, section_lines_upto, FontBlock,
};
use crate::ass::name_laws::{
    field_names, gives_back, law_style_put_back, law_tags_put_back, lemma_field_name,
    lemma_fields_plain, lemma_indent_white, lemma_name_stops, lemma_tags_all, lemma_tags_first,
    replaced_twice, style_clear, tag_names, tags_clear,
};
use crate::ass::parse::{column_or, style_width};
use crate::ass::rewrite::{
    draw_runs, embed_line, embed_upto, fn_at, fn_tag, fn_tags, fn_tags_from, lemma_name_end,
    name_end, restored_comment, rewrite_header, rewrite_start, rewrite_style, strip_line,
    strip_upto, style_line, EmbedPlan, RewriteView, StripPlan,
};
use crate::ass::style::lookup_name;
use crate::ass::uu::{is_uu_char, lemma_uu_text_chars, uu_text};
use crate::line_laws::{
    lemma_trim_at, lemma_trim_cut_return, lemma_trim_is, lemma_trim_on_one_line, on_one_line,
};
use crate::split::{after_prefix, fields, header_name, join, join_upto, lemma_fields_len};
use crate::strmap::{lookup, lookup_from};
use crate::text::{
    cut_end, has_part, is_white, lemma_cut_back, lower, lowered, trim, trim_start, Cut,
};

verus! {

// ---------------------------------------------------------------------------
// Lines that are written
// ---------------------------------------------------------------------------
/// A line that is neither a header nor a comment on a font, and that does not
/// end with a carriage return.
pub open spec fn body_line(line: Seq<char>) -> bool {
    &&& header_name(trim(line)) is None
    &&& after_prefix(trim(line), "; Font Subset:"@) is None
    &&& line.len() > 0 ==> line.last() != '\r'
}

/// Names without a closing bracket.
pub open spec fn names_unbracketed(m: Seq<(Seq<char>, Seq<char>)>) -> bool {
    forall|i: int, j: int|
        0 <= i < m.len() && 0 <= j < m[i].1.len() ==> (#[trigger] m[i].1[j]) != ']'
}

proof fn lemma_unbracketed(m: Seq<(Seq<char>, Seq<char>)>, k: Seq<char>, i: int)
    requires
        0 <= i <= m.len(),
        names_unbracketed(m),
    ensures
        lookup_from(m, k, i) matches Some(new) ==> forall|j: int|
            0 <= j < new.len() ==> #[trigger] new[j] != ']',
    decreases m.len() - i,
{
    if i < m.len() {
        if m[i].0 == k {
            let new = m[i].1;
            assert forall|j: int| 0 <= j < new.len() implies #[trigger] new[j] != ']' by {
                assert(m[i].1[j] != ']');
            }
        } else {
            lemma_unbracketed(m, k, i + 1);
        }
    }
}

/// Up to the first backslash, what is written is what is read.
proof fn lemma_tags_head(s: Seq<char>, i: int, m: Seq<(Seq<char>, Seq<char>)>, k: int)
    requires
        0 <= i <= s.len(),
        0 <= k <= fn_tags_from(s, i, m).len(),
        forall|j: int| 0 <= j < k ==> fn_tags_from(s, i, m)[j] != '\\',
    ensures
        i + k <= s.len(),
        forall|j: int| 0 <= j < k ==> s[i + j] == #[trigger] fn_tags_from(s, i, m)[j],
    decreases s.len() - i,
{
    let x = fn_tags_from(s, i, m);
    lemma_tags_first(s, i, m);
    if k > 0 {
        assert(i < s.len());
        assert(!fn_at(s, i)) by {
            assert(x[0] == s[i]);
        }
        let y = fn_tags_from(s, i + 1, m);
        assert(x == seq![s[i]] + y);
        assert forall|j: int| 0 <= j < k - 1 implies y[j] != '\\' by {
            assert(y[j] == x[j + 1]);
        }
        lemma_tags_head(s, i + 1, m, k - 1);
        assert forall|j: int| 0 <= j < k implies s[i + j] == #[trigger] x[j] by {
            if j > 0 {
                assert(x[j] == y[j - 1]);
                assert(s[i + 1 + (j - 1)] == y[j - 1]);
            }
        }
    }
}

/// A line that ends with white space once its tags are renamed ended so before.
proof fn lemma_tags_last(s: Seq<char>, i: int, m: Seq<(Seq<char>, Seq<char>)>)
    requires
        0 <= i < s.len(),
        field_names(m),
    ensures
        fn_tags_from(s, i, m).len() > 0,
        is_white(fn_tags_from(s, i, m).last()) ==> fn_tags_from(s, i, m).last() == s.last(),
    decreases s.len() - i,
{
    let x = fn_tags_from(s, i, m);
    lemma_tags_first(s, i, m);
    if fn_at(s, i) {
        let e = name_end(s, i + 3);
        lemma_name_end(s, i + 3);
        let whole = s.subrange(i, e);
        let name = s.subrange(i + 3, e);
        let made = fn_tag(whole, name, m);
        if e < s.len() {
            lemma_tags_last(s, e, m);
            assert(x.last() == fn_tags_from(s, e, m).last());
        } else {
            assert(x =~= made);
            reveal_strlit("\\fn");
            lemma_field_name(m, lookup_name(name), 0);
            match lookup(m, lookup_name(name)) {
                Some(new) => {
                    if new.len() > 0 {
                        lemma_trimmed_ends(new);
                        assert(made.last() == new.last());
                    } else {
                        assert(made.last() == 'n');
                    }
                },
                None => {
                    assert(made.last() == s[e - 1]);
                },
            }
        }
    } else if i + 1 < s.len() {
        lemma_tags_last(s, i + 1, m);
        assert(x.last() == fn_tags_from(s, i + 1, m).last());
    } else {
        assert(x =~= seq![s[i]]);
    }
}

/// A line that ends with a bracket and white space once its tags are renamed
/// ended so before.
proof fn lemma_tags_bracket(s: Seq<char>, i: int, m: Seq<(Seq<char>, Seq<char>)>, k: int)
    requires
        0 <= i <= s.len(),
        names_unbracketed(m),
        names_on_one_line(m),
        on_one_line(s),
        0 <= k < fn_tags_from(s, i, m).len(),
        fn_tags_from(s, i, m)[k] == ']',
        forall|j: int| k < j < fn_tags_from(s, i, m).len() ==> is_white(fn_tags_from(s, i, m)[j]),
    ensures
        ({
            let n = fn_tags_from(s, i, m).len() - k;
            &&& i <= s.len() - n
            &&& s[s.len() - n] == ']'
            &&& forall|j: int| s.len() - n < j < s.len() ==> is_white(#[trigger] s[j])
        }),
    decreases s.len() - i,
{
    let x = fn_tags_from(s, i, m);
    if fn_at(s, i) {
        let e = name_end(s, i + 3);
        lemma_name_end(s, i + 3);
        lemma_name_stops(s, i + 3);
        let whole = s.subrange(i, e);
        let name = s.subrange(i + 3, e);
        let made = fn_tag(whole, name, m);
        let y = fn_tags_from(s, e, m);
        let n = made.len() as int;
        assert(x == made + y);
        if k >= n {
            assert(y[k - n] == x[k]);
            assert forall|j: int| k - n < j < y.len() implies is_white(y[j]) by {
                assert(y[j] == x[j + n]);
            }
            lemma_tags_bracket(s, e, m, k - n);
        } else {
            lemma_tags_first(s, e, m);
            if e < s.len() {
                assert(x[n] == y[0]);
                assert(is_white(x[n]));
                assert(false);
            }
            reveal_strlit("\\fn");
            lemma_unbracketed(m, lookup_name(name), 0);
            assert(made[k] == ']');
            match lookup(m, lookup_name(name)) {
                Some(new) => {
                    assert(k >= 3);
                    assert(new[k - 3] == ']');
                },
                None => {
                    assert(x =~= s.skip(i));
                    assert forall|j: int| i + k < j < s.len() implies is_white(
                        #[trigger] s[j],
                    ) by {
                        assert(s[j] == x[j - i]);
                    }
                },
            }
        }
    } else {
        let y = fn_tags_from(s, i + 1, m);
        assert(x == seq![s[i]] + y);
        if k > 0 {
            assert(y[k - 1] == x[k]);
            assert forall|j: int| k - 1 < j < y.len() implies is_white(y[j]) by {
                assert(y[j] == x[j + 1]);
            }
            lemma_tags_bracket(s, i + 1, m, k - 1);
        } else {
            lemma_fn_tags_from(s, i + 1, m);
            assert(!y.contains('\\')) by {
                if y.contains('\\') {
                    let j = choose|j: int| 0 <= j < y.len() && y[j] == '\\';
                    assert(x[j + 1] == y[j]);
                    assert(is_white(x[j + 1]));
                }
            }
            assert(x =~= s.skip(i));
            assert forall|j: int| i < j < s.len() implies is_white(#[trigger] s[j]) by {
                assert(s[j] == x[j - i]);
            }
        }
    }
}

/// The characters of the word that begins a comment are no white space at the
/// ends, and no backslashes.
pub proof fn lemma_comment_word()
    ensures
        "; Font Subset:"@.len() == 14,
        "; Font Subset:"@[0] == ';',
        "; Font Subset:"@[13] == ':',
        forall|j: int| 0 <= j < 14 ==> lower(#[trigger] "; Font Subset:"@[j]) != '\\',
{
    reveal_strlit("; Font Subset:");
}

/// A line of the body stays one when its tags are renamed.
proof fn lemma_tagged_body(line: Seq<char>, m: Seq<(Seq<char>, Seq<char>)>)
    requires
        body_line(line),
        on_one_line(line),
        field_names(m),
        names_on_one_line(m),
        names_unbracketed(m),
    ensures
        body_line(fn_tags(line, m)),
{
    lemma_tags_all(line, m);
    let x = fn_tags_from(line, 0, m);
    lemma_tags_first(line, 0, m);
    if line.len() > 0 {
        lemma_tags_last(line, 0, m);
    }
    let (a, b) = lemma_trim_at(x);
    let t = trim(x);
    let (c, d) = lemma_trim_at(line);
    let u = trim(line);
    if header_name(t) is Some {
        assert(t[0] == x[a]);
        assert(t.last() == x[b - 1]);
        assert forall|j: int| 0 <= j < a + 1 implies x[j] != '\\' by {
            if j < a {
                assert(is_white(x[j]));
            }
        }
        lemma_tags_head(line, 0, m, a + 1);
        assert(line[a] == x[a]);
        assert forall|j: int| b - 1 < j < x.len() implies is_white(x[j]) by {}
        lemma_tags_bracket(line, 0, m, b - 1);
        let z = line.len() - (x.len() - (b - 1));
        assert forall|j: int| 0 <= j < a implies is_white(#[trigger] line[j]) by {
            assert(line[0 + j] == x[j]);
        }
        assert(a <= z);
        lemma_trim_is(line, a, z + 1);
        assert(u == line.subrange(a, z + 1));
        assert(u[0] == '[' && u.last() == ']');
        assert(header_name(u) is Some);
    }
    if after_prefix(t, "; Font Subset:"@) is Some {
        let w = "; Font Subset:"@;
        lemma_comment_word();
        let head = t.take(14);
        assert forall|j: int| 0 <= j < 14 implies lower(#[trigger] x[a + j]) == lower(w[j]) by {
            assert(lowered(head)[j] == lowered(w)[j]);
            assert(head[j] == x[a + j]);
        }
        assert forall|j: int| 0 <= j < a + 14 implies x[j] != '\\' by {
            if j < a {
                assert(is_white(x[j]));
            } else {
                assert(lower(x[a + (j - a)]) == lower(w[j - a]));
            }
        }
        lemma_tags_head(line, 0, m, a + 14);
        assert forall|j: int| 0 <= j < a implies is_white(#[trigger] line[j]) by {
            assert(line[0 + j] == x[j]);
        }
        assert(line[0 + a] == x[a]);
        assert(line[0 + (a + 13)] == x[a + 13]);
        assert(lower(x[a + 0]) == lower(w[0]));
        assert(lower(x[a + 13]) == lower(w[13]));
        assert(!is_white(line[a]));
        assert(!is_white(line[a + 13]));
        assert(c == a) by {
            if c < a {
                assert(is_white(line[c]));
            }
        }
        assert(d >= a + 14);
        assert(lowered(u.take(14)) =~= lowered(w)) by {
            assert forall|j: int| 0 <= j < 14 implies lowered(u.take(14))[j] == lowered(w)[j] by {
                assert(u.take(14)[j] == line[0 + (a + j)]);
                assert(line[0 + (a + j)] == x[a + j]);
                assert(lower(x[a + j]) == lower(w[j]));
            }
        }
    }
}

/// A line of the styles that is written anew.
proof fn lemma_styled_body(
    line: Seq<char>,
    format: Seq<Seq<char>>,
    m: Seq<(Seq<char>, Seq<char>)>,
)
    requires
        body_line(line),
        field_names(m),
        after_prefix(trim(line), "Style:"@) is Some,
        after_prefix(trim(line), "Format:"@) is None,
    ensures
        body_line(style_line(line, format, m)),
        after_prefix(trim(style_line(line, format, m)), "Style:"@) is Some,
        after_prefix(trim(style_line(line, format, m)), "Format:"@) is None,
{
    let x = style_line(line, format, m);
    if x != line {
        let rest = after_prefix(trim_start(line), "Style:"@)->0;
        let n = style_width(format);
        let at = column_or(format, "fontname"@, 1);
        let row = fields(trim_start(rest), n);
        lemma_position(format, "fontname"@, 0);
        lemma_fields_len(trim_start(rest), 0, n);
        lemma_fields_plain(trim_start(rest), 0, n);
        lemma_field_name(m, lookup_name(row[at]), 0);
        let new = lookup(m, lookup_name(row[at]))->0;
        let made = row.update(at, new);
        let a = indent(line);
        lemma_indent_white(line);
        let body = join(made, seq![',']);
        reveal_strlit("Style: ");
        let b = "Style: "@ + body;
        assert(x =~= a + b);
        assert(b[0] == 'S');
        lemma_first_char(a, b);
        let k = a.len() as int;
        let last = made[n - 1];
        assert(trim(row[n - 1]) == row[n - 1]);
        assert(trim(last) == last);
        assert(body == join_upto(made, seq![','], n - 1) + seq![','] + last);
        assert(!is_white(body.last())) by {
            if last.len() > 0 {
                lemma_trimmed_ends(last);
                assert(body.last() == last.last());
            } else {
                assert(body.last() == ',');
            }
        }
        assert(x.last() == body.last());
        assert(x[k] == 'S');
        assert forall|j: int| 0 <= j < k implies is_white(#[trigger] x[j]) by {
            assert(x[j] == a[j]);
        }
        lemma_trim_is(x, k, x.len() as int);
        let t = trim(x);
        assert(t =~= b);
        reveal_strlit("Style:");
        reveal_strlit("Format:");
        assert(t.take(6) =~= "Style:"@);
        lemma_comment_word();
        if t.len() >= 14 {
            assert(lowered(t.take(14))[0] == 's');
            assert(lowered("; Font Subset:"@)[0] == ';');
        }
        assert(lowered(t.take(7))[0] == 's');
        assert(lowered("Format:"@)[0] == 'f');
    }
}

// ---------------------------------------------------------------------------
// Stripping a list of lines from a state
// ---------------------------------------------------------------------------
/// The state after the first `n` lines, from a given state on.
pub open spec fn strip_run(st: RewriteView, v: Seq<Seq<char>>, n: int, q: StripPlan) -> RewriteView
    decreases n,
{
    if n <= 0 {
        st
    } else {
        strip_line(strip_run(st, v, n - 1, q), v[n - 1], q)
    }
}

pub open spec fn strip_all(st: RewriteView, v: Seq<Seq<char>>, q: StripPlan) -> RewriteView {
    strip_run(st, v, v.len() as int, q)
}

pub proof fn lemma_upto_strip(v: Seq<Seq<char>>, n: int, q: StripPlan)
    ensures
        strip_upto(v, n, q) == strip_run(rewrite_start(), v, n, q),
    decreases n,
{
    if n > 0 {
        lemma_upto_strip(v, n - 1, q);
    }
}

pub proof fn lemma_strip_prefix(
    st: RewriteView,
    a: Seq<Seq<char>>,
    b: Seq<Seq<char>>,
    n: int,
    q: StripPlan,
)
    requires
        0 <= n <= a.len(),
        n <= b.len(),
        forall|i: int|
            0 <= i < n ==> cut_end(#[trigger] a[i], Cut::CarriageReturn) == cut_end(
                b[i],
                Cut::CarriageReturn,
            ),
    ensures
        strip_run(st, a, n, q) == strip_run(st, b, n, q),
    decreases n,
{
    if n > 0 {
        lemma_strip_prefix(st, a, b, n - 1, q);
        assert(cut_end(a[n - 1], Cut::CarriageReturn) == cut_end(b[n - 1], Cut::CarriageReturn));
    }
}

proof fn lemma_strip_add(
    st: RewriteView,
    a: Seq<Seq<char>>,
    b: Seq<Seq<char>>,
    n: int,
    q: StripPlan,
)
    requires
        0 <= n <= b.len(),
    ensures
        strip_run(st, a + b, a.len() + n, q) == strip_run(strip_all(st, a, q), b, n, q),
    decreases n,
{
    if n == 0 {
        lemma_strip_prefix(st, a + b, a, a.len() as int, q);
    } else {
        lemma_strip_add(st, a, b, n - 1, q);
        assert((a + b)[a.len() + n - 1] == b[n - 1]);
    }
}

pub proof fn lemma_strip_all_add(st: RewriteView, a: Seq<Seq<char>>, b: Seq<Seq<char>>, q: StripPlan)
    ensures
        strip_all(st, a + b, q) == strip_all(strip_all(st, a, q), b, q),
{
    lemma_strip_add(st, a, b, b.len() as int, q);
}

pub proof fn lemma_strip_one(st: RewriteView, line: Seq<char>, q: StripPlan)
    ensures
        strip_all(st, seq![line], q) == strip_line(st, line, q),
{
    assert(strip_run(st, seq![line], 0, q) == st);
}

/// Lines that are passed over inside a `[Fonts]` section.
proof fn lemma_passed_over(st: RewriteView, v: Seq<Seq<char>>, n: int, q: StripPlan)
    requires
        st.skipping,
        0 <= n <= v.len(),
        forall|i: int| 0 <= i < v.len() ==> header_name(trim(#[trigger] v[i])) is None,
    ensures
        strip_run(st, v, n, q) == st,
    decreases n,
{
    if n > 0 {
        lemma_passed_over(st, v, n - 1, q);
        lemma_trim_cut_return(v[n - 1]);
        assert(header_name(trim(v[n - 1])) is None);
    }
}

pub proof fn lemma_block_no_header(b: FontBlock, i: int)
    requires
        passable(b),
        0 <= i < block_lines(b).len(),
    ensures
        header_name(trim(block_lines(b)[i])) is None,
        after_prefix(trim(block_lines(b)[i]), "; Font Subset:"@) is None,
{
    let v = block_lines(b);
    let ps = pieces(uu_text(b.data));
    lemma_comment_word();
    if i == 0 {
        reveal_strlit("fontname: ");
        let none: Seq<char> = seq![];
        assert(none + v[0] =~= v[0]);
        assert(v[0][0] == 'f');
        lemma_first_char(none, v[0]);
        let (c, d) = lemma_trim_at(v[0]);
        assert(c == 0);
        assert(d > 0);
        let t = trim(v[0]);
        assert(t[0] == 'f');
        if t.len() >= 14 {
            assert(lowered(t.take(14))[0] == 'f');
            assert(lowered("; Font Subset:"@)[0] == ';');
        }
    } else if i < v.len() - 1 {
        let t = v[i];
        assert(t == ps[i - 1]);
        assert(header_name(ps[i - 1]) is None);
        lemma_uu_text_chars(b.data);
        lemma_piece_chars(uu_text(b.data), i - 1);
        assert(is_uu_char(t[0]) && is_uu_char(t[t.len() - 1]));
        lemma_trim_is(t, 0, t.len() as int);
        assert(t.subrange(0, t.len() as int) =~= t);
        if t.len() >= 14 {
            reveal_strlit("; Font Subset:");
            assert(lowered(t.take(14))[1] == lower(t[1]));
            assert(is_uu_char(t[1]));
            assert(lowered("; Font Subset:"@)[1] == ' ');
        }
    } else {
        let e: Seq<char> = seq![];
        assert(v[i] =~= e);
        lemma_trim_is(e, 0, 0);
        assert(e.subrange(0, 0) =~= e);
    }
}

proof fn lemma_piece_chars(s: Seq<char>, i: int)
    requires
        0 <= i < pieces(s).len(),
        forall|j: int| 0 <= j < s.len() ==> is_uu_char(#[trigger] s[j]),
    ensures
        pieces(s)[i].len() > 0,
        forall|j: int| 0 <= j < pieces(s)[i].len() ==> is_uu_char(#[trigger] pieces(s)[i][j]),
    decreases s.len(),
{
    if s.len() > 80 {
        let b = s.skip(80);
        if i > 0 {
            assert(pieces(s)[i] == pieces(b)[i - 1]);
            assert forall|j: int| 0 <= j < b.len() implies is_uu_char(#[trigger] b[j]) by {
                assert(b[j] == s[80 + j]);
            }
            lemma_piece_chars(b, i - 1);
        } else {
            let p = pieces(s)[0];
            assert(p == s.take(80));
            assert forall|j: int| 0 <= j < p.len() implies is_uu_char(#[trigger] p[j]) by {
                assert(p[j] == s[j]);
            }
        }
    }
}

/// A section that was written is passed over.
pub proof fn lemma_section_passed(st: RewriteView, v: Seq<FontBlock>, n: int, q: StripPlan)
    requires
        0 <= n <= v.len(),
        all_passable(v),
    ensures
        strip_all(st, section_lines_upto(v, n), q) == (RewriteView {
            skipping: true,
            section: "fonts"@,
            ..st
        }),
    decreases n,
{
    let want = RewriteView { skipping: true, section: "fonts"@, ..st };
    if n == 0 {
        reveal_strlit("[Fonts]");
        reveal_strlit("fonts");
        let t = "[Fonts]"@;
        lemma_trim_cut_return(t);
        lemma_trim_is(t, 0, 7);
        assert(t.subrange(0, 7) =~= t);
        assert(lowered(t.subrange(1, 6)) =~= "fonts"@);
        lemma_strip_one(st, t, q);
    } else {
        lemma_section_passed(st, v, n - 1, q);
        let b = v[n - 1];
        assert(passable(b));
        let w = block_lines(b);
        assert forall|i: int| 0 <= i < w.len() implies header_name(
            trim(#[trigger] w[i]),
        ) is None by {
            lemma_block_no_header(b, i);
        }
        lemma_strip_all_add(st, section_lines_upto(v, n - 1), w, q);
        lemma_passed_over(want, w, w.len() as int, q);
    }
}

/// A comment that is taken out again.
pub open spec fn comment_taken(c: Seq<char>, r: Seq<(Seq<char>, Seq<char>)>) -> bool {
    header_name(trim(c)) is None && restored_comment(trim(c), r)
}

proof fn lemma_comments_passed(st: RewriteView, v: Seq<Seq<char>>, n: int, q: StripPlan)
    requires
        !st.skipping,
        0 <= n <= v.len(),
        forall|i: int| 0 <= i < v.len() ==> comment_taken(#[trigger] v[i], q.names),
    ensures
        strip_run(st, v, n, q) == st,
    decreases n,
{
    if n > 0 {
        lemma_comments_passed(st, v, n - 1, q);
        lemma_trim_cut_return(v[n - 1]);
        assert(comment_taken(v[n - 1], q.names));
    }
}

// ---------------------------------------------------------------------------
// Embedding and stripping, side by side
// ---------------------------------------------------------------------------
/// The names and fonts of a line are clear: no comment on a font stands outside
/// the script info, and the second replacement touches only what the first one
/// wrote.
pub open spec fn line_clear(
    st: RewriteView,
    raw: Seq<char>,
    m: Seq<(Seq<char>, Seq<char>)>,
    r: Seq<(Seq<char>, Seq<char>)>,
) -> bool {
    let line = cut_end(raw, Cut::CarriageReturn);
    &&& st.section == "script info"@ || after_prefix(trim(line), "; Font Subset:"@) is None
    &&& has_part(st.section, "styles"@) ==> style_clear(line, st.format, m, r)
    &&& st.section == "events"@ ==> tags_clear(line, 0, m, r)
}

/// New names that are read back wherever they are written.
pub open spec fn plain_names(m: Seq<(Seq<char>, Seq<char>)>) -> bool {
    tag_names(m) && field_names(m) && names_on_one_line(m) && names_unbracketed(m)
}

/// The plan of a strip that keeps no fonts.
pub open spec fn restore_plan(
    r: Seq<(Seq<char>, Seq<char>)>,
    g: Seq<(Seq<char>, DrawEntryView)>,
) -> StripPlan {
    StripPlan { names: r, fonts: seq![], drawings: g }
}

/// One more line of a file whose embedded fonts and the comments on them are
/// taken out, whose names are replaced, and whose drawings are put back.
pub open spec fn put_back_line(
    st: RewriteView,
    raw: Seq<char>,
    u: Seq<(Seq<char>, Seq<char>)>,
    g: Seq<(Seq<char>, DrawEntryView)>,
) -> RewriteView {
    let line = cut_end(raw, Cut::CarriageReturn);
    let t = trim(line);
    match header_name(t) {
        Some(h) => rewrite_header(st, line, h, seq![], seq![]),
        None => if st.skipping {
            st
        } else if st.section == "script info"@ && after_prefix(t, "; Font Subset:"@) is Some {
            st
        } else if has_part(st.section, "styles"@) {
            rewrite_style(st, line, t, u)
        } else if st.section == "events"@ {
            RewriteView { out: st.out.push(draw_runs(fn_tags(line, u), g)), ..st }
        } else {
            RewriteView { out: st.out.push(line), ..st }
        },
    }
}

pub open spec fn put_back_upto(
    v: Seq<Seq<char>>,
    n: int,
    u: Seq<(Seq<char>, Seq<char>)>,
    g: Seq<(Seq<char>, DrawEntryView)>,
) -> RewriteView
    decreases n,
{
    if n <= 0 {
        rewrite_start()
    } else {
        put_back_line(put_back_upto(v, n - 1, u, g), v[n - 1], u, g)
    }
}

/// The lines that one more line adds to a file, the section line by line.
pub open spec fn added(
    st: RewriteView,
    raw: Seq<char>,
    p: EmbedPlan,
    sl: Seq<Seq<char>>,
) -> Seq<Seq<char>> {
    let line = cut_end(raw, Cut::CarriageReturn);
    match header_name(trim(line)) {
        Some(h) => if lowered(h) == "fonts"@ {
            seq![]
        } else {
            let before = if lowered(h) == "events"@ && !st.inserted && p.fonts.len() > 0 {
                sl
            } else {
                seq![]
            };
            let after = if lowered(h) == "script info"@ && !st.commented {
                p.comments
            } else {
                seq![]
            };
            before + seq![line] + after
        },
        None => embed_line(st, raw, p).out.skip(st.out.len() as int),
    }
}

pub open spec fn flat_upto(
    v: Seq<Seq<char>>,
    n: int,
    p: EmbedPlan,
    sl: Seq<Seq<char>>,
) -> Seq<Seq<char>>
    decreases n,
{
    if n <= 0 {
        seq![]
    } else {
        flat_upto(v, n - 1, p, sl) + added(embed_upto(v, n - 1, p), v[n - 1], p, sl)
    }
}

/// A file that was embedded, the same file with its names replaced and its
/// drawings put back at once, and the strip of the first are alike.
pub open spec fn alike(e: RewriteView, d: RewriteView, s: RewriteView) -> bool {
    &&& !s.skipping
    &&& d.skipping == e.skipping
    &&& d.section == e.section
    &&& d.format == e.format
    &&& s.out == d.out
    &&& s.format == d.format
    &&& d.skipping || s.section == d.section
}

/// One line of the body is written and read back.
pub proof fn lemma_body_step(
    e: RewriteView,
    d: RewriteView,
    s: RewriteView,
    raw: Seq<char>,
    p: EmbedPlan,
    r: Seq<(Seq<char>, Seq<char>)>,
    g: Seq<(Seq<char>, DrawEntryView)>,
)
    requires
        alike(e, d, s),
        plain_names(p.names),
        gives_back(p.names, r),
        line_clear(e, raw, p.names, r),
        on_one_line(raw),
        header_name(trim(cut_end(raw, Cut::CarriageReturn))) is None,
    ensures
        ({
            let e1 = embed_line(e, raw, p);
            let d1 = put_back_line(d, raw, replaced_twice(p.names, r), g);
            let rows = e1.out.skip(e.out.len() as int);
            let s1 = strip_all(s, rows, restore_plan(r, g));
            &&& e1.out == e.out + rows
            &&& e1.inserted == e.inserted
            &&& e1.commented == e.commented
            &&& alike(e1, d1, s1)
            &&& rows.len() <= 1
            &&& s1.out.len() == s.out.len() + rows.len()
            &&& rows.len() == 1 && rows[0].len() == 0 ==> s1.out.last().len() == 0
            &&& forall|i: int|
                0 <= i < rows.len() ==> body_line(#[trigger] rows[i]) && on_one_line(rows[i])
        }),
{
    let m = p.names;
    let u = replaced_twice(m, r);
    let q = restore_plan(r, g);
    let line = cut_end(raw, Cut::CarriageReturn);
    let t = trim(line);
    let e1 = embed_line(e, raw, p);
    let d1 = put_back_line(d, raw, u, g);
    let rows = e1.out.skip(e.out.len() as int);
    lemma_trim_on_one_line(raw);
    lemma_cut_back(raw, Cut::CarriageReturn, raw.len() as int);
    if e1.out == e.out {
        assert(rows =~= seq![]);
        assert(e1.out =~= e.out + rows);
    } else {
        assert(body_line(line));
        let row = e1.out.last();
        assert(e1.out == e.out.push(row));
        assert(rows =~= seq![row]);
        assert(e1.out =~= e.out + rows);
        if has_part(e.section, "styles"@) {
            match after_prefix(t, "Format:"@) {
                Some(_) => {},
                None => match after_prefix(t, "Style:"@) {
                    Some(_) => {
                        lemma_styled_body(line, e.format, m);
                        lemma_style_line_ok(line, e.format, m);
                        law_style_put_back(line, e.format, m, r);
                    },
                    None => {},
                },
            }
        } else if e.section == "events"@ {
            lemma_tagged_body(line, m);
            lemma_fn_tags_ok(line, m);
            law_tags_put_back(line, m, r);
        }
        assert(body_line(row));
        lemma_uncut(row);
        lemma_strip_one(s, row, q);
        assert(comment_names(trim(row)) is None);
        let s1 = strip_line(s, row, q);
        assert(s1.out == s.out.push(d1.out.last()));
        if row.len() == 0 {
            lemma_empty_row(s, row, q);
        }
    }
}

/// An empty line stays one.
pub proof fn lemma_empty_row(s: RewriteView, row: Seq<char>, q: StripPlan)
    requires
        !s.skipping,
        row.len() == 0,
    ensures
        strip_line(s, row, q).out == s.out.push(row),
{
    lemma_uncut(row);
    lemma_trim_is(row, 0, 0);
    assert(row.subrange(0, 0) =~= row);
    lemma_comment_word();
    reveal_strlit("Format:");
    reveal_strlit("Style:");
    lemma_tags_all(row, q.names);
    assert(fn_tags(row, q.names) =~= row);
    assert(draw_runs(row, q.drawings) =~= row);
}

/// A line that does not end with a carriage return is not cut.
pub proof fn lemma_uncut(line: Seq<char>)
    requires
        line.len() > 0 ==> line.last() != '\r',
    ensures
        cut_end(line, Cut::CarriageReturn) == line,
{
    assert(line.take(line.len() as int) =~= line);
}

/// A header or a comment is no empty line.
pub proof fn lemma_nonempty(line: Seq<char>)
    requires
        header_name(trim(line)) is Some || comment_names(trim(line)) is Some,
    ensures
        line.len() > 0,
{
    if line.len() == 0 {
        lemma_trim_is(line, 0, 0);
        assert(line.subrange(0, 0) =~= line);
        lemma_comment_word();
    }
}

/// A header is written and read back.
pub proof fn lemma_header_step(
    e: RewriteView,
    d: RewriteView,
    s: RewriteView,
    raw: Seq<char>,
    p: EmbedPlan,
    r: Seq<(Seq<char>, Seq<char>)>,
    g: Seq<(Seq<char>, DrawEntryView)>,
    b: Seq<FontBlock>,
)
    requires
        alike(e, d, s),
        all_passable(b),
        forall|i: int| 0 <= i < p.comments.len() ==> comment_taken(#[trigger] p.comments[i], r),
        header_name(trim(cut_end(raw, Cut::CarriageReturn))) is Some,
    ensures
        ({
            let e1 = embed_line(e, raw, p);
            let d1 = put_back_line(d, raw, replaced_twice(p.names, r), g);
            let rows = added(e, raw, p, section_lines(b));
            let s1 = strip_all(s, rows, restore_plan(r, g));
            &&& alike(e1, d1, s1)
            &&& s1.out.len() >= s.out.len()
            &&& rows.len() > 0 ==> s1.out.len() > 0 && rows.last().len() > 0
        }),
{
    let q = restore_plan(r, g);
    let line = cut_end(raw, Cut::CarriageReturn);
    let h = header_name(trim(line))->0;
    let sl = section_lines(b);
    let rows = added(e, raw, p, sl);
    let e1 = embed_line(e, raw, p);
    let d1 = put_back_line(d, raw, replaced_twice(p.names, r), g);
    if lowered(h) != "fonts"@ {
        let none: Seq<Seq<char>> = seq![];
        let before = if lowered(h) == "events"@ && !e.inserted && p.fonts.len() > 0 {
            sl
        } else {
            none
        };
        let after = if lowered(h) == "script info"@ && !e.commented {
            p.comments
        } else {
            none
        };
        assert(rows == before + seq![line] + after);
        let s1 = strip_all(s, before, q);
        lemma_section_passed(s, b, b.len() as int, q);
        assert(s1.out == s.out && s1.format == s.format);
        lemma_cut_back(raw, Cut::CarriageReturn, raw.len() as int);
        lemma_uncut(line);
        let s2 = strip_line(s1, line, q);
        lemma_strip_one(s1, line, q);
        lemma_strip_all_add(s, before, seq![line], q);
        lemma_strip_all_add(s, before + seq![line], after, q);
        assert(s2.out == s.out.push(line) + none);
        assert(s.out.push(line) + none =~= s.out.push(line));
        lemma_comments_passed(s2, after, after.len() as int, q);
        assert(strip_all(s, rows, q) == s2);
        assert(d1.out =~= d.out.push(line));
        if after.len() > 0 {
            let c = after.last();
            assert(c == p.comments[p.comments.len() - 1]);
            assert(comment_taken(c, r));
            lemma_nonempty(c);
        } else {
            lemma_nonempty(line);
        }
    } else {
        assert(strip_all(s, rows, q) == s);
    }
}

} // verus!
