//! What holds of font names that are replaced and put back.
use vstd::prelude::*;

use crate::ass::draw::indent;
use crate::ass::font_laws::{lemma_position, lemma_trimmed_ends};
use crate::ass::parse::{column_or, style_width};
use crate::ass::rewrite::{
    fn_at, fn_tag, fn_tags, fn_tags_from, lemma_name_end, name_end, style_line,
};
use crate::ass::style::lookup_name;
use crate::line_laws::{
    law_trim_idempotent, lemma_cut_front_is, lemma_join_cons, lemma_trim_at,
};
use crate::split::{after_prefix, fields, fields_from, join, lemma_fields_len};
use crate::strmap::{lookup, lookup_from};
use crate::text::{
    cut_front, find_from, is_white, lemma_cut_front, lemma_find_from, lemma_find_is, trim,
    trim_start, Cut,
};

verus! {

// ---------------------------------------------------------------------------
// Names
// ---------------------------------------------------------------------------
/// What replacing names by `m` and then by `r` makes of them.
pub open spec fn replaced_twice(
    m: Seq<(Seq<char>, Seq<char>)>,
    r: Seq<(Seq<char>, Seq<char>)>,
) -> Seq<(Seq<char>, Seq<char>)> {
    Seq::new(
        m.len(),
        |i: int|
            (
                m[i].0,
                match lookup(r, lookup_name(m[i].1)) {
                    Some(o) => o,
                    None => m[i].1,
                },
            ),
    )
}

/// A name that ends where it is written: it holds nothing that ends a tag.
pub open spec fn tag_name(n: Seq<char>) -> bool {
    forall|i: int| 0 <= i < n.len() ==> #[trigger] n[i] != '\\' && n[i] != '}'
}

pub open spec fn tag_names(m: Seq<(Seq<char>, Seq<char>)>) -> bool {
    forall|i: int| 0 <= i < m.len() ==> tag_name((#[trigger] m[i]).1)
}

/// Every new name of `m` is replaced by `r`.
pub open spec fn gives_back(
    m: Seq<(Seq<char>, Seq<char>)>,
    r: Seq<(Seq<char>, Seq<char>)>,
) -> bool {
    forall|i: int| 0 <= i < m.len() ==> lookup(r, lookup_name((#[trigger] m[i]).1)) is Some
}

/// A name that `r` replaces only where `m` has replaced it before.
pub open spec fn name_clear(
    name: Seq<char>,
    m: Seq<(Seq<char>, Seq<char>)>,
    r: Seq<(Seq<char>, Seq<char>)>,
) -> bool {
    lookup(m, lookup_name(name)) is Some || lookup(r, lookup_name(name)) is None
}

proof fn lemma_replaced_twice(
    m: Seq<(Seq<char>, Seq<char>)>,
    r: Seq<(Seq<char>, Seq<char>)>,
    k: Seq<char>,
    i: int,
)
    requires
        0 <= i <= m.len(),
        gives_back(m, r),
        tag_names(m),
    ensures
        match lookup_from(m, k, i) {
            Some(new) => {
                &&& tag_name(new)
                &&& lookup(r, lookup_name(new)) is Some
                &&& lookup_from(replaced_twice(m, r), k, i) == lookup(r, lookup_name(new))
            },
            None => lookup_from(replaced_twice(m, r), k, i) is None,
        },
    decreases m.len() - i,
{
    if i < m.len() {
        let u = replaced_twice(m, r);
        assert(u[i].0 == m[i].0);
        if m[i].0 != k {
            lemma_replaced_twice(m, r, k, i + 1);
        }
    }
}

// ---------------------------------------------------------------------------
// Tags
// ---------------------------------------------------------------------------
/// Every font that the tags from `i` on name is clear.
pub open spec fn tags_clear(
    s: Seq<char>,
    i: int,
    m: Seq<(Seq<char>, Seq<char>)>,
    r: Seq<(Seq<char>, Seq<char>)>,
) -> bool
    decreases s.len() - i,
{
    if !(0 <= i < s.len()) {
        true
    } else if fn_at(s, i) {
        let e = name_end(s, i + 3);
        proof {
            lemma_name_end(s, i + 3);
        }
        name_clear(s.subrange(i + 3, e), m, r) && tags_clear(s, e, m, r)
    } else {
        tags_clear(s, i + 1, m, r)
    }
}

pub proof fn lemma_name_end_is(s: Seq<char>, i: int, e: int)
    requires
        0 <= i <= e <= s.len(),
        forall|j: int| i <= j < e ==> s[j] != '\\' && s[j] != '}',
        e < s.len() ==> s[e] == '\\' || s[e] == '}',
    ensures
        name_end(s, i) == e,
    decreases e - i,
{
    if i < e {
        lemma_name_end_is(s, i + 1, e);
    }
}

pub proof fn lemma_name_stops(s: Seq<char>, i: int)
    requires
        0 <= i <= s.len(),
    ensures
        name_end(s, i) < s.len() ==> s[name_end(s, i)] == '\\' || s[name_end(s, i)] == '}',
    decreases s.len() - i,
{
    if i < s.len() && s[i] != '\\' && s[i] != '}' {
        lemma_name_stops(s, i + 1);
    }
}

/// Text in front does not matter.
pub proof fn lemma_tags_behind(a: Seq<char>, t: Seq<char>, i: int, m: Seq<(Seq<char>, Seq<char>)>)
    requires
        0 <= i <= t.len(),
    ensures
        fn_tags_from(a + t, a.len() + i, m) == fn_tags_from(t, i, m),
    decreases t.len() - i,
{
    let s = a + t;
    let n = a.len() as int;
    if i < t.len() {
        assert(s[n + i] == t[i]);
        assert(fn_at(s, n + i) == fn_at(t, i)) by {
            if i + 3 <= t.len() {
                assert(s[n + i + 1] == t[i + 1]);
                assert(s[n + i + 2] == t[i + 2]);
            }
        }
        if fn_at(t, i) {
            let e = name_end(t, i + 3);
            lemma_name_end(t, i + 3);
            lemma_name_stops(t, i + 3);
            assert forall|j: int| n + i + 3 <= j < n + e implies s[j] != '\\' && s[j] != '}' by {
                assert(s[j] == t[j - n]);
            }
            if e < t.len() {
                assert(s[n + e] == t[e]);
            }
            lemma_name_end_is(s, n + i + 3, n + e);
            assert(s.subrange(n + i, n + e) =~= t.subrange(i, e));
            assert(s.subrange(n + i + 3, n + e) =~= t.subrange(i + 3, e));
            lemma_tags_behind(a, t, e, m);
        } else {
            lemma_tags_behind(a, t, i + 1, m);
        }
    }
}

/// What is written begins as what is read.
pub proof fn lemma_tags_first(s: Seq<char>, i: int, m: Seq<(Seq<char>, Seq<char>)>)
    requires
        0 <= i <= s.len(),
    ensures
        i == s.len() ==> fn_tags_from(s, i, m).len() == 0,
        i < s.len() ==> fn_tags_from(s, i, m).len() > 0 && fn_tags_from(s, i, m)[0] == s[i],
{
    if i < s.len() && fn_at(s, i) {
        let e = name_end(s, i + 3);
        lemma_name_end(s, i + 3);
        reveal_strlit("\\fn");
        let made = fn_tag(s.subrange(i, e), s.subrange(i + 3, e), m);
        assert(made.len() > 0 && made[0] == '\\');
    }
}

proof fn lemma_tags_twice(
    s: Seq<char>,
    i: int,
    m: Seq<(Seq<char>, Seq<char>)>,
    r: Seq<(Seq<char>, Seq<char>)>,
)
    requires
        0 <= i <= s.len(),
        gives_back(m, r),
        tag_names(m),
        tags_clear(s, i, m, r),
    ensures
        fn_tags_from(fn_tags_from(s, i, m), 0, r) == fn_tags_from(s, i, replaced_twice(m, r)),
    decreases s.len() - i,
{
    let x = fn_tags_from(s, i, m);
    if i < s.len() {
        if fn_at(s, i) {
            let e = name_end(s, i + 3);
            lemma_name_end(s, i + 3);
            lemma_name_stops(s, i + 3);
            let whole = s.subrange(i, e);
            let name = s.subrange(i + 3, e);
            let made = fn_tag(whole, name, m);
            let y = fn_tags_from(s, e, m);
            lemma_tags_twice(s, e, m, r);
            lemma_tags_first(s, e, m);
            lemma_replaced_twice(m, r, lookup_name(name), 0);
            reveal_strlit("\\fn");
            let n = made.len() as int;
            let inner = made.skip(3);
            assert(whole[0] == s[i] && whole[1] == s[i + 1] && whole[2] == s[i + 2]);
            assert(made[0] == '\\' && made[1] == 'f' && made[2] == 'n');
            assert(tag_name(inner)) by {
                match lookup(m, lookup_name(name)) {
                    Some(new) => {
                        assert(inner =~= new);
                    },
                    None => {
                        assert(inner =~= name);
                        assert forall|j: int| 0 <= j < name.len() implies #[trigger] name[j]
                            != '\\' && name[j] != '}' by {
                            assert(name[j] == s[i + 3 + j]);
                        }
                    },
                }
            }
            assert(x == made + y);
            assert(x[0] == made[0] && x[1] == made[1] && x[2] == made[2]);
            assert forall|j: int| 3 <= j < n implies x[j] != '\\' && x[j] != '}' by {
                assert(x[j] == inner[j - 3]);
            }
            if n < x.len() {
                assert(x[n] == y[0]);
            }
            lemma_name_end_is(x, 3, n);
            assert(x.subrange(0, n) =~= made);
            assert(x.subrange(3, n) =~= inner);
            lemma_tags_behind(made, y, 0, r);
            match lookup(m, lookup_name(name)) {
                Some(new) => {
                    assert(inner =~= new);
                },
                None => {
                    assert(inner =~= name);
                },
            }
        } else {
            let y = fn_tags_from(s, i + 1, m);
            let a = seq![s[i]];
            assert(x == a + y);
            lemma_tags_first(s, i + 1, m);
            lemma_tags_twice(s, i + 1, m, r);
            assert(!fn_at(x, 0)) by {
                if fn_at(x, 0) {
                    assert(x[0] == s[i]);
                    assert(x[1] == y[0]);
                    assert(s[i + 1] == 'f');
                    assert(y == seq![s[i + 1]] + fn_tags_from(s, i + 2, m));
                    lemma_tags_first(s, i + 2, m);
                    assert(x[2] == fn_tags_from(s, i + 2, m)[0]);
                }
            }
            lemma_tags_behind(a, y, 0, r);
        }
    }
}

/// Without names nothing changes.
proof fn lemma_tags_kept(s: Seq<char>, i: int)
    requires
        0 <= i <= s.len(),
    ensures
        fn_tags_from(s, i, seq![]) == s.skip(i),
    decreases s.len() - i,
{
    let none: Seq<(Seq<char>, Seq<char>)> = seq![];
    if i < s.len() {
        if fn_at(s, i) {
            let e = name_end(s, i + 3);
            lemma_name_end(s, i + 3);
            lemma_tags_kept(s, e);
            assert(lookup(none, lookup_name(s.subrange(i + 3, e))) is None);
            assert(s.subrange(i, e) + s.skip(e) =~= s.skip(i));
        } else {
            lemma_tags_kept(s, i + 1);
            assert(seq![s[i]] + s.skip(i + 1) =~= s.skip(i));
        }
    } else {
        assert(fn_tags_from(s, i, none) =~= s.skip(i));
    }
}

pub proof fn lemma_tags_all(s: Seq<char>, m: Seq<(Seq<char>, Seq<char>)>)
    ensures
        fn_tags(s, m) == fn_tags_from(s, 0, m),
{
    if m.len() == 0 {
        assert(m =~= seq![]);
        lemma_tags_kept(s, 0);
        assert(s.skip(0) =~= s);
    }
}

/// Replacing the fonts of a line's tags, and then replacing the new names, is
/// replacing the old names by what the new ones stand for.
pub proof fn law_tags_put_back(
    s: Seq<char>,
    m: Seq<(Seq<char>, Seq<char>)>,
    r: Seq<(Seq<char>, Seq<char>)>,
)
    requires
        gives_back(m, r),
        tag_names(m),
        tags_clear(s, 0, m, r),
    ensures
        fn_tags(fn_tags(s, m), r) == fn_tags(s, replaced_twice(m, r)),
{
    lemma_tags_all(s, m);
    lemma_tags_all(fn_tags(s, m), r);
    lemma_tags_all(s, replaced_twice(m, r));
    lemma_tags_twice(s, 0, m, r);
}

// ---------------------------------------------------------------------------
// Styles
// ---------------------------------------------------------------------------
/// A name that fills a field: it holds no comma and no white space around it.
pub open spec fn field_name(n: Seq<char>) -> bool {
    trim(n) == n && forall|i: int| 0 <= i < n.len() ==> #[trigger] n[i] != ','
}

pub open spec fn field_names(m: Seq<(Seq<char>, Seq<char>)>) -> bool {
    forall|i: int| 0 <= i < m.len() ==> field_name((#[trigger] m[i]).1)
}

/// The font that a style line names, where it is one, is clear.
pub open spec fn style_clear(
    line: Seq<char>,
    format: Seq<Seq<char>>,
    m: Seq<(Seq<char>, Seq<char>)>,
    r: Seq<(Seq<char>, Seq<char>)>,
) -> bool {
    match after_prefix(trim_start(line), "Style:"@) {
        Some(rest) => name_clear(
            fields(trim_start(rest), style_width(format))[column_or(format, "fontname"@, 1)],
            m,
            r,
        ),
        None => true,
    }
}

/// Fields that stand as they are written: without white space around them, and
/// without a comma in all but the last.
pub open spec fn plain_fields(w: Seq<Seq<char>>) -> bool {
    &&& forall|i: int| 0 <= i < w.len() ==> trim(#[trigger] w[i]) == w[i]
    &&& forall|i: int, j: int| 0 <= i < w.len() - 1 && 0 <= j < w[i].len() ==> w[i][j] != ','
}

pub proof fn lemma_fields_plain(s: Seq<char>, i: int, n: int)
    requires
        0 <= i <= s.len(),
    ensures
        plain_fields(fields_from(s, i, n)),
    decreases n,
{
    let w = fields_from(s, i, n);
    if n == 1 {
        law_trim_idempotent(s.skip(i));
    } else if n > 1 {
        let k = find_from(s, ',', i);
        lemma_find_from(s, ',', i);
        let next = if k < s.len() { k + 1 } else { k };
        let raw = s.subrange(i, k);
        assert(k < s.len() || raw =~= s.skip(i));
        law_trim_idempotent(raw);
        lemma_fields_plain(s, next, n - 1);
        let (a, b) = lemma_trim_at(raw);
        let tail = fields_from(s, next, n - 1);
        assert(w == seq![trim(raw)] + tail);
        assert forall|x: int| 0 <= x < w.len() implies trim(#[trigger] w[x]) == w[x] by {
            if x > 0 {
                assert(w[x] == tail[x - 1]);
            }
        }
        assert forall|x: int, j: int|
            0 <= x < w.len() - 1 && 0 <= j < w[x].len() implies w[x][j] != ',' by {
            if x > 0 {
                assert(w[x] == tail[x - 1]);
                assert(tail[x - 1][j] != ',');
            } else {
                assert(w[0][j] == s[i + a + j]);
            }
        }
    }
}

/// Plain fields are read back.
pub proof fn lemma_fields_of_join(p: Seq<char>, w: Seq<Seq<char>>)
    requires
        w.len() > 0,
        plain_fields(w),
    ensures
        fields_from(p + join(w, seq![',']), p.len() as int, w.len() as int) == w,
    decreases w.len(),
{
    let s = p + join(w, seq![',']);
    let at = p.len() as int;
    let n = w.len() as int;
    assert(trim(w[0]) == w[0]);
    if n == 1 {
        assert(s.skip(at) =~= w[0]);
        assert(fields_from(s, at, n) =~= w);
    } else {
        let rest = w.skip(1);
        lemma_join_cons(w, seq![',']);
        let head = p + w[0] + seq![','];
        assert(s =~= head + join(rest, seq![',']));
        let k = at + w[0].len();
        assert forall|j: int| at <= j < k implies s[j] != ',' by {
            assert(s[j] == w[0][j - at]);
        }
        assert(s[k] == ',');
        lemma_find_is(s, ',', at, k);
        assert(s.subrange(at, k) =~= w[0]);
        assert forall|i: int| 0 <= i < rest.len() implies trim(#[trigger] rest[i]) == rest[i] by {
            assert(rest[i] == w[i + 1]);
        }
        assert forall|i: int, j: int|
            0 <= i < rest.len() - 1 && 0 <= j < rest[i].len() implies rest[i][j] != ',' by {
            assert(rest[i] == w[i + 1]);
            assert(w[i + 1][j] != ',');
        }
        lemma_fields_of_join(head, rest);
        assert(fields_from(s, at, n) =~= w);
    }
}

/// Joined fields begin with no white space.
pub proof fn lemma_join_begins(w: Seq<Seq<char>>)
    requires
        w.len() >= 2,
        plain_fields(w),
    ensures
        join(w, seq![',']).len() > 0,
        !is_white(join(w, seq![','])[0]),
{
    lemma_join_cons(w, seq![',']);
    let s = join(w, seq![',']);
    assert(trim(w[0]) == w[0]);
    if w[0].len() > 0 {
        lemma_trimmed_ends(w[0]);
        assert(s[0] == w[0][0]);
    } else {
        assert(s[0] == ',');
    }
}

/// White space in front, and the text behind it.
pub proof fn lemma_indent(a: Seq<char>, b: Seq<char>)
    requires
        forall|i: int| 0 <= i < a.len() ==> is_white(#[trigger] a[i]),
        b.len() > 0,
        !is_white(b[0]),
    ensures
        trim_start(a + b) == b,
        indent(a + b) == a,
{
    let s = a + b;
    assert forall|j: int| 0 <= j < a.len() implies Cut::White.has(#[trigger] s[j]) by {
        assert(s[j] == a[j]);
        assert(is_white(a[j]));
    }
    assert(s[a.len() as int] == b[0]);
    lemma_cut_front_is(s, Cut::White, 0, a.len() as int);
    assert(trim_start(s) =~= b);
    assert(indent(s) =~= a);
}

pub proof fn lemma_indent_white(line: Seq<char>)
    ensures
        forall|i: int| 0 <= i < indent(line).len() ==> is_white(#[trigger] indent(line)[i]),
{
    let k = cut_front(line, Cut::White, 0);
    lemma_cut_front(line, Cut::White, 0);
    let a = indent(line);
    assert(a =~= line.take(k));
    assert forall|i: int| 0 <= i < a.len() implies is_white(#[trigger] a[i]) by {
        assert(Cut::White.has(line[i]));
    }
}

/// The fields of a style line that was written.
pub proof fn lemma_style_fields(a: Seq<char>, w: Seq<Seq<char>>)
    requires
        forall|i: int| 0 <= i < a.len() ==> is_white(#[trigger] a[i]),
        w.len() >= 2,
        plain_fields(w),
    ensures
        ({
            let line = a + "Style: "@ + join(w, seq![',']);
            &&& indent(line) == a
            &&& after_prefix(trim_start(line), "Style:"@) matches Some(rest) && fields(
                trim_start(rest),
                w.len() as int,
            ) == w
        }),
{
    let body = join(w, seq![',']);
    let b = "Style: "@ + body;
    let line = a + "Style: "@ + body;
    reveal_strlit("Style: ");
    reveal_strlit("Style:");
    assert(line =~= a + b);
    assert(b[0] == 'S');
    lemma_indent(a, b);
    assert(b.take(6) =~= "Style:"@);
    let rest = b.skip(6);
    let gap = seq![' '];
    assert(rest =~= gap + body);
    lemma_join_begins(w);
    lemma_indent(gap, body);
    let none: Seq<char> = seq![];
    lemma_fields_of_join(none, w);
    assert(none + body =~= body);
}

/// Replacing the font of a style line, and then replacing the new name, is
/// replacing the old name by what the new one stands for.
pub proof fn law_style_put_back(
    line: Seq<char>,
    format: Seq<Seq<char>>,
    m: Seq<(Seq<char>, Seq<char>)>,
    r: Seq<(Seq<char>, Seq<char>)>,
)
    requires
        gives_back(m, r),
        tag_names(m),
        field_names(m),
        style_clear(line, format, m, r),
    ensures
        style_line(style_line(line, format, m), format, r) == style_line(
            line,
            format,
            replaced_twice(m, r),
        ),
{
    match after_prefix(trim_start(line), "Style:"@) {
        Some(rest) => {
            let n = style_width(format);
            let at = column_or(format, "fontname"@, 1);
            let t = trim_start(rest);
            let row = fields(t, n);
            lemma_position(format, "fontname"@, 0);
            lemma_fields_len(t, 0, n);
            lemma_fields_plain(t, 0, n);
            lemma_replaced_twice(m, r, lookup_name(row[at]), 0);
            match lookup(m, lookup_name(row[at])) {
                Some(new) => {
                    lemma_field_name(m, lookup_name(row[at]), 0);
                    let made = row.update(at, new);
                    assert forall|i: int| 0 <= i < made.len() implies trim(#[trigger] made[i])
                        == made[i] by {
                        assert(trim(row[i]) == row[i]);
                    }
                    assert forall|i: int, j: int|
                        0 <= i < made.len() - 1 && 0 <= j < made[i].len() implies made[i][j]
                        != ',' by {
                        if i != at {
                            assert(row[i][j] != ',');
                        }
                    }
                    lemma_indent_white(line);
                    lemma_style_fields(indent(line), made);
                    let o = lookup(r, lookup_name(new))->0;
                    assert(made.update(at, o) =~= row.update(at, o));
                },
                None => {},
            }
        },
        None => {},
    }
}

pub proof fn lemma_field_name(m: Seq<(Seq<char>, Seq<char>)>, k: Seq<char>, i: int)
    requires
        0 <= i <= m.len(),
        field_names(m),
    ensures
        lookup_from(m, k, i) matches Some(new) ==> field_name(new),
    decreases m.len() - i,
{
    if i < m.len() && m[i].0 != k {
        lemma_field_name(m, k, i + 1);
    }
}

} // verus!
