//! What holds of drawings that are replaced and put back.
use vstd::prelude::*;

use crate::ass::draw::{
    draw_char, draw_from, draw_mark, draw_upto, drawing_end, drawn, entry_at, file_drawn,
    lemma_drawing_end, lemma_entry, lemma_new_entry, opens_drawing, tag_level, with_entry,
    DrawEntryView, DrawView,
};
use crate::ass::rewrite::{draw_run_at, draw_runs, draw_runs_from};
use crate::line_laws::{lemma_add_on_one_line, lemma_part_on_one_line, on_one_line};
use crate::split::{after_prefix, fields, lines, position};
use crate::strmap::lookup;
use crate::text::{
    cut_end, find_from, has_part, lemma_find_from, lemma_find_is, stands_at, trim_start, Cut,
};

verus! {

/// The entries of a file that is being rewritten: the `j`th has the `j`th
/// character, and no drawing has two entries.
pub open spec fn entries_ok(v: Seq<DrawEntryView>) -> bool {
    &&& forall|j: int| 0 <= j < v.len() ==> (#[trigger] v[j]).ch == seq![draw_char(j)]
    &&& forall|j: int, k: int|
        0 <= j < k < v.len() ==> (#[trigger] v[j]).data != (#[trigger] v[k]).data
}

/// The entries up to which every drawing has a character of its own.
pub open spec fn entries_fit(v: Seq<DrawEntryView>) -> bool {
    v.len() <= 0x102000
}

/// A map that knows every entry by its character.
pub open spec fn knows(m: Seq<(Seq<char>, DrawEntryView)>, v: Seq<DrawEntryView>) -> bool {
    forall|j: int| 0 <= j < v.len() ==> lookup(m, (#[trigger] v[j]).ch) == Some(v[j])
}

/// Adding a drawing keeps the entries in order.
pub proof fn law_with_entry_ok(v: Seq<DrawEntryView>, data: Seq<char>, level: int)
    requires
        entries_ok(v),
    ensures
        entries_ok(with_entry(v, data, level)),
        v.len() <= with_entry(v, data, level).len() <= v.len() + 1,
        with_entry(v, data, level).take(v.len() as int) == v,
        entry_at(with_entry(v, data, level), data) < with_entry(v, data, level).len(),
        with_entry(v, data, level)[entry_at(with_entry(v, data, level), data)].data == data,
{
    lemma_entry(v, data, 0);
    let w = with_entry(v, data, level);
    if entry_at(v, data) < v.len() {
        assert(v.take(v.len() as int) =~= v);
    } else {
        lemma_new_entry(v, w.last(), 0);
        assert(w.take(v.len() as int) =~= v);
    }
}

/// Different drawings have different characters.
pub proof fn law_draw_chars_differ(j: int, k: int)
    requires
        0 <= j < k < 0x102000,
    ensures
        draw_char(j) != draw_char(k),
        draw_char(j) != '{',
{
    assert(draw_char(j) as int == 0xe000 + j);
    assert(draw_char(k) as int == 0xe000 + k);
}

/// With no drawings to put back a text stays as it is.
pub proof fn law_nothing_to_restore(s: Seq<char>, m: Seq<(Seq<char>, DrawEntryView)>, i: int)
    requires
        0 <= i <= s.len(),
        m.len() == 0,
    ensures
        draw_runs_from(s, i, m) == s.skip(i),
    decreases s.len() - i,
{
    if i < s.len() {
        if draw_run_at(s, i) {
            let q = find_from(s, '}', i + 1);
            law_nothing_to_restore(s, m, q + 2);
            assert(s.skip(i) =~= s.subrange(i, q + 2) + s.skip(q + 2));
        } else {
            law_nothing_to_restore(s, m, i + 1);
            assert(s.skip(i) =~= seq![s[i]] + s.skip(i + 1));
        }
    } else {
        assert(s.skip(i) =~= seq![]);
    }
}

/// A stretch in which no run starts stays as it is.
proof fn lemma_plain(s: Seq<char>, p: int, e: int, m: Seq<(Seq<char>, DrawEntryView)>)
    requires
        0 <= p <= e <= s.len(),
        forall|j: int| p <= j < e ==> !draw_run_at(s, j),
    ensures
        draw_runs_from(s, p, m) == s.subrange(p, e) + draw_runs_from(s, e, m),
    decreases e - p,
{
    if p < e {
        lemma_plain(s, p + 1, e, m);
        assert(!draw_run_at(s, p));
        assert(s.subrange(p, e) =~= seq![s[p]] + s.subrange(p + 1, e));
        assert(draw_runs_from(s, p, m) =~= s.subrange(p, e) + draw_runs_from(s, e, m));
    } else {
        assert(s.subrange(p, e) + draw_runs_from(s, e, m) =~= draw_runs_from(s, e, m));
    }
}

pub proof fn lemma_part_of_part(s: Seq<char>, x: int, y: int, p: Seq<char>)
    requires
        0 <= x <= y <= s.len(),
        has_part(s.subrange(x, y), p),
    ensures
        has_part(s, p),
{
    let t = s.subrange(x, y);
    let k = choose|k: int| stands_at(t, p, k);
    assert(s.subrange(x + k, x + k + p.len()) =~= t.subrange(k, k + p.len()));
    assert(stands_at(s, p, x + k));
}

/// The text of the mark: one closing brace, at its end, and the font's name.
proof fn lemma_mark()
    ensures
        draw_mark().len() == 21,
        draw_mark()[0] == '{',
        draw_mark()[20] == '}',
        forall|j: int| 0 <= j < 20 ==> draw_mark()[j] != '}',
        stands_at(draw_mark().subrange(1, 20), "\\fnASSDrawSubset"@, 0),
{
    reveal_strlit("{\\fnASSDrawSubset\\p0}");
    reveal_strlit("\\fnASSDrawSubset");
    let k = draw_mark();
    assert(k.subrange(1, 20).subrange(0, 16) =~= "\\fnASSDrawSubset"@);
}

/// The mark and a character behind it are a run.
proof fn lemma_mark_run(o: Seq<char>, p: int, ch: Seq<char>)
    requires
        0 <= p,
        p + 22 <= o.len(),
        ch.len() == 1,
        ch[0] != '{',
        o.subrange(p, p + 22) == draw_mark() + ch,
    ensures
        draw_run_at(o, p),
        find_from(o, '}', p + 1) == p + 20,
        o.subrange(p + 21, p + 22) == ch,
{
    lemma_mark();
    let k = draw_mark();
    let w = o.subrange(p, p + 22);
    assert forall|j: int| 0 <= j < 21 implies o[p + j] == k[j] by {
        assert(o[p + j] == w[j]);
    }
    assert forall|j: int| p + 1 <= j < p + 20 implies o[j] != '}' by {
        assert(o[p + (j - p)] == k[j - p]);
    }
    assert(o[p + 20] == k[20]);
    lemma_find_is(o, '}', p + 1, p + 20);
    assert(o[p + 21] == w[21]);
    assert(o[p + 0] == k[0]);
    assert(o.subrange(p + 1, p + 20) =~= k.subrange(1, 20)) by {
        assert forall|j: int| 0 <= j < 19 implies o.subrange(p + 1, p + 20)[j] == k.subrange(
            1,
            20,
        )[j] by {
            assert(o[p + (j + 1)] == k[j + 1]);
        }
    }
    assert(has_part(o.subrange(p + 1, p + 20), "\\fnASSDrawSubset"@));
    assert(o.subrange(p + 21, p + 22) =~= ch);
}

/// In a copied stretch with one pair of braces no run starts.
proof fn lemma_copied(s: Seq<char>, i: int, a: int, b: int, o: Seq<char>, p: int)
    requires
        0 <= i <= a < b < s.len(),
        a == find_from(s, '{', i),
        b == find_from(s, '}', a),
        !has_part(s, "\\fnASSDrawSubset"@),
        0 <= p,
        p + (b + 1 - i) <= o.len(),
        o.subrange(p, p + (b + 1 - i)) == s.subrange(i, b + 1),
    ensures
        forall|j: int| p <= j < p + (b + 1 - i) ==> !draw_run_at(o, j),
{
    lemma_find_from(s, '{', i);
    lemma_find_from(s, '}', a);
    let w = o.subrange(p, p + (b + 1 - i));
    assert forall|j: int| i <= j <= b implies o[p + (j - i)] == s[j] by {
        assert(o[p + (j - i)] == w[j - i]);
        assert(s.subrange(i, b + 1)[j - i] == s[j]);
    }
    assert forall|j: int| p <= j < p + (b + 1 - i) implies !draw_run_at(o, j) by {
        let x = i + (j - p);
        assert(o[j] == s[x]);
        if o[j] == '{' {
            assert(a <= x < b);
            let q = p + (b - i);
            assert forall|y: int| j + 1 <= y < q implies o[y] != '}' by {
                assert(o[p + ((i + (y - p)) - i)] == s[i + (y - p)]);
            }
            assert(o[p + (b - i)] == s[b]);
            lemma_find_is(o, '}', j + 1, q);
            if draw_run_at(o, j) {
                let t1 = o.subrange(j + 1, q);
                let t2 = s.subrange(x + 1, b);
                assert forall|y: int| 0 <= y < t1.len() implies t1[y] == t2[y] by {
                    assert(o[p + ((x + 1 + y) - i)] == s[x + 1 + y]);
                }
                assert(t1 =~= t2);
                lemma_part_of_part(s, x + 1, b, "\\fnASSDrawSubset"@);
            }
        }
    }
}

/// The rest of a text without a pair of braces stays as it is.
proof fn lemma_tail(s: Seq<char>, i: int, out: Seq<char>, m: Seq<(Seq<char>, DrawEntryView)>)
    requires
        0 <= i < s.len(),
        find_from(s, '}', find_from(s, '{', i)) == s.len(),
    ensures
        draw_runs_from(out + s.skip(i), out.len() as int, m) == s.skip(i),
{
    let o = out + s.skip(i);
    let p = out.len() as int;
    let a = find_from(s, '{', i);
    lemma_find_from(s, '{', i);
    lemma_find_from(s, '}', a);
    assert forall|j: int| p <= j < o.len() implies !draw_run_at(o, j) by {
        let x = i + (j - p);
        assert(o[j] == s[x]);
        if o[j] == '{' {
            assert(a <= x);
            assert forall|y: int| j + 1 <= y < o.len() implies o[y] != '}' by {
                assert(o[y] == s[i + (y - p)]);
            }
            lemma_find_is(o, '}', j + 1, o.len() as int);
        }
    }
    lemma_plain(o, p, o.len() as int, m);
    assert(o.subrange(p, o.len() as int) =~= s.skip(i));
    assert(draw_runs_from(o, p, m) =~= s.skip(i));
}

/// What stands in a text behind a known part of it.
proof fn lemma_behind(o: Seq<char>, head: Seq<char>, part: Seq<char>)
    requires
        (head + part).len() <= o.len(),
        o.take((head + part).len() as int) == head + part,
    ensures
        o.take(head.len() as int) == head,
        o.subrange(head.len() as int, (head + part).len() as int) == part,
{
    let w = head + part;
    let n = w.len() as int;
    assert forall|j: int| 0 <= j < n implies o[j] == w[j] by {
        assert(o[j] == o.take(n)[j]);
    }
    assert(o.take(head.len() as int) =~= head);
    assert(o.subrange(head.len() as int, n) =~= part);
}

/// A stretch that was copied stays as it is.
proof fn lemma_after_copy(
    s: Seq<char>,
    i: int,
    out: Seq<char>,
    o: Seq<char>,
    m: Seq<(Seq<char>, DrawEntryView)>,
)
    requires
        ({
            let a = find_from(s, '{', i);
            let b = find_from(s, '}', a);
            let next = out + s.subrange(i, b + 1);
            &&& 0 <= i <= a < b < s.len()
            &&& next.len() <= o.len()
            &&& o.take(next.len() as int) == next
            &&& draw_runs_from(o, next.len() as int, m) == s.skip(b + 1)
        }),
        !has_part(s, "\\fnASSDrawSubset"@),
    ensures
        o.take(out.len() as int) == out,
        draw_runs_from(o, out.len() as int, m) == s.skip(i),
{
    let a = find_from(s, '{', i);
    let b = find_from(s, '}', a);
    let p = out.len() as int;
    let k = p + (b + 1 - i);
    lemma_behind(o, out, s.subrange(i, b + 1));
    lemma_copied(s, i, a, b, o, p);
    lemma_plain(o, p, k, m);
    assert(s.skip(i) =~= s.subrange(i, b + 1) + s.skip(b + 1));
}

/// A drawing that was replaced is put back.
proof fn lemma_after_drawing(
    s: Seq<char>,
    i: int,
    e: int,
    out: Seq<char>,
    entry: DrawEntryView,
    o: Seq<char>,
    m: Seq<(Seq<char>, DrawEntryView)>,
)
    requires
        ({
            let a = find_from(s, '{', i);
            let next = out + s.subrange(i, a) + draw_mark() + entry.ch;
            &&& 0 <= i <= a <= e <= s.len()
            &&& next.len() <= o.len()
            &&& o.take(next.len() as int) == next
            &&& draw_runs_from(o, next.len() as int, m) == s.skip(e)
            &&& entry.data == s.subrange(a, e)
        }),
        entry.ch.len() == 1,
        entry.ch[0] != '{',
        lookup(m, entry.ch) == Some(entry),
    ensures
        o.take(out.len() as int) == out,
        draw_runs_from(o, out.len() as int, m) == s.skip(i),
{
    let a = find_from(s, '{', i);
    lemma_find_from(s, '{', i);
    lemma_mark();
    let p = out.len() as int;
    let k = p + (a - i);
    let head = out + s.subrange(i, a);
    let mark = draw_mark() + entry.ch;
    assert(out + s.subrange(i, a) + draw_mark() + entry.ch =~= head + mark);
    lemma_behind(o, head, mark);
    lemma_behind(o, out, s.subrange(i, a));
    assert forall|j: int| p <= j < k implies !draw_run_at(o, j) by {
        assert(o.subrange(p, k)[j - p] == s.subrange(i, a)[j - p]);
        assert(s[i + (j - p)] != '{');
    }
    lemma_plain(o, p, k, m);
    lemma_mark_run(o, k, entry.ch);
    assert(draw_runs_from(o, k, m) == s.subrange(a, e) + draw_runs_from(o, k + 22, m));
    assert(s.skip(i) =~= s.subrange(i, a) + (s.subrange(a, e) + s.skip(e)));
}

proof fn lemma_prefix_of_prefix(v: Seq<DrawEntryView>, w: Seq<DrawEntryView>, u: Seq<DrawEntryView>)
    requires
        v.len() <= w.len() <= u.len(),
        w.take(v.len() as int) == v,
        u.take(w.len() as int) == w,
    ensures
        u.take(v.len() as int) == v,
{
    assert forall|j: int| 0 <= j < v.len() implies u[j] == v[j] by {
        assert(u[j] == u.take(w.len() as int)[j]);
        assert(w[j] == w.take(v.len() as int)[j]);
    }
    assert(u.take(v.len() as int) =~= v);
}

proof fn lemma_restored(
    s: Seq<char>,
    i: int,
    st: DrawView,
    m: Seq<(Seq<char>, DrawEntryView)>,
)
    requires
        0 <= i <= s.len(),
        !has_part(s, "\\fnASSDrawSubset"@),
        entries_ok(st.entries),
        entries_fit(draw_from(s, i, st).entries),
        knows(m, draw_from(s, i, st).entries),
    ensures
        ({
            let d = draw_from(s, i, st);
            &&& entries_ok(d.entries)
            &&& st.out.len() <= d.out.len()
            &&& d.out.take(st.out.len() as int) == st.out
            &&& st.entries.len() <= d.entries.len()
            &&& d.entries.take(st.entries.len() as int) == st.entries
            &&& draw_runs_from(d.out, st.out.len() as int, m) == s.skip(i)
        }),
    decreases s.len() - i,
{
    let d = draw_from(s, i, st);
    assert(st.entries.take(st.entries.len() as int) =~= st.entries);
    if i == s.len() {
        assert(st.out.take(st.out.len() as int) =~= st.out);
        assert(s.skip(i) =~= seq![]);
    } else {
        let a = find_from(s, '{', i);
        lemma_find_from(s, '{', i);
        lemma_find_from(s, '}', a);
        let b = find_from(s, '}', a);
        if !(i <= a <= b < s.len()) {
            assert(d.out.take(st.out.len() as int) =~= st.out);
            lemma_tail(s, i, st.out, m);
        } else if opens_drawing(s, a, b) {
            lemma_drawing_end(s, b + 1);
            let e = drawing_end(s, b + 1);
            let data = s.subrange(a, e);
            let level = tag_level(s.subrange(a + 1, b))->0;
            let entries = with_entry(st.entries, data, level);
            law_with_entry_ok(st.entries, data, level);
            let at = entry_at(entries, data);
            lemma_entry(entries, data, 0);
            let ch = entries[at].ch;
            let next = DrawView { out: st.out + s.subrange(i, a) + draw_mark() + ch, entries };
            assert(d == draw_from(s, e, next));
            lemma_restored(s, e, next, m);
            lemma_prefix_of_prefix(st.entries, entries, d.entries);
            assert(d.entries[at] == d.entries.take(entries.len() as int)[at]);
            assert(ch == seq![draw_char(at)]);
            assert(draw_char(at) as int == 0xe000 + at);
            lemma_after_drawing(s, i, e, st.out, d.entries[at], d.out, m);
            assert(st.out.len() <= next.out.len());
        } else {
            let next = DrawView { out: st.out + s.subrange(i, b + 1), ..st };
            assert(d == draw_from(s, b + 1, next));
            lemma_restored(s, b + 1, next, m);
            assert(s[a] != s[b]);
            lemma_after_copy(s, i, st.out, d.out, m);
            assert(st.out.len() <= next.out.len());
        }
    }
}

/// Drawings that were replaced are put back: restoring a rewritten text with a
/// map that knows its entries gives the text. The text itself names the drawing
/// font nowhere, and there are no more drawings than characters for them.
pub proof fn law_drawings_restored(
    s: Seq<char>,
    entries: Seq<DrawEntryView>,
    m: Seq<(Seq<char>, DrawEntryView)>,
)
    requires
        !has_part(s, "\\fnASSDrawSubset"@),
        entries_ok(entries),
        entries_fit(drawn(s, entries).entries),
        knows(m, drawn(s, entries).entries),
    ensures
        draw_runs(drawn(s, entries).out, m) == s,
        entries_ok(drawn(s, entries).entries),
        drawn(s, entries).entries.take(entries.len() as int) == entries,
{
    let d = drawn(s, entries);
    lemma_restored(s, 0, DrawView { out: seq![], entries }, m);
    assert(s.skip(0) =~= s);
    if m.len() == 0 {
        law_nothing_to_restore(d.out, m, 0);
        assert(d.out.skip(0) =~= d.out);
    }
}

// ---------------------------------------------------------------------------
// Drawings inside a line
// ---------------------------------------------------------------------------
/// A text without braces.
pub open spec fn unbraced(s: Seq<char>) -> bool {
    forall|i: int| 0 <= i < s.len() ==> #[trigger] s[i] != '{' && s[i] != '}'
}

/// Where a character is found in a text that stands between others without it.
proof fn lemma_find_in(a: Seq<char>, t: Seq<char>, b: Seq<char>, c: char, i: int)
    requires
        0 <= i <= t.len(),
        c == '{' || c == '}',
        unbraced(b),
    ensures
        find_from(a + t + b, c, a.len() + i) == (if find_from(t, c, i) < t.len() {
            a.len() + find_from(t, c, i)
        } else {
            (a + t + b).len() as int
        }),
{
    let s = a + t + b;
    let n = a.len() as int;
    let k = find_from(t, c, i);
    lemma_find_from(t, c, i);
    let e = if k < t.len() {
        n + k
    } else {
        s.len() as int
    };
    assert forall|j: int| n + i <= j < e implies s[j] != c by {
        if j < n + t.len() {
            assert(s[j] == t[j - n]);
        } else {
            assert(s[j] == b[j - n - t.len()]);
        }
    }
    if k < t.len() {
        assert(s[e] == t[k]);
    }
    lemma_find_is(s, c, n + i, e);
}

proof fn lemma_drawing_end_in(a: Seq<char>, t: Seq<char>, b: Seq<char>, i: int)
    requires
        0 <= i <= t.len(),
        unbraced(b),
    ensures
        drawing_end(a + t + b, a.len() + i) == (if drawing_end(t, i) == -1 {
            -1
        } else {
            a.len() + drawing_end(t, i)
        }),
    decreases t.len() - i,
{
    let s = a + t + b;
    let n = a.len() as int;
    lemma_find_from(t, '{', i);
    let x = find_from(t, '{', i);
    lemma_find_in(a, t, b, '{', i);
    if x < t.len() {
        lemma_find_from(t, '}', x);
        lemma_find_in(a, t, b, '}', x);
        let y = find_from(t, '}', x);
        if y < t.len() {
            assert(s.subrange(n + x + 1, n + y) =~= t.subrange(x + 1, y));
            lemma_drawing_end(t, y + 1);
            lemma_drawing_end_in(a, t, b, y + 1);
        }
    } else {
        lemma_find_from(t, '}', x);
        lemma_find_from(s, '}', s.len() as int);
    }
}

/// Drawings in a text that stands between others without braces.
proof fn lemma_draw_in(a: Seq<char>, t: Seq<char>, b: Seq<char>, i: int, st: DrawView)
    requires
        0 <= i <= t.len(),
        unbraced(b),
    ensures
        draw_from(
            a + t + b,
            a.len() + i,
            DrawView { out: a + st.out, entries: st.entries },
        ) == (DrawView {
            out: a + draw_from(t, i, st).out + b,
            entries: draw_from(t, i, st).entries,
        }),
    decreases t.len() - i,
{
    let s = a + t + b;
    let n = a.len() as int;
    let at = DrawView { out: a + st.out, entries: st.entries };
    lemma_find_from(t, '{', i);
    let x = find_from(t, '{', i);
    lemma_find_in(a, t, b, '{', i);
    lemma_find_from(t, '}', x);
    let y = find_from(t, '}', x);
    if x < t.len() {
        lemma_find_in(a, t, b, '}', x);
    } else {
        lemma_find_from(s, '}', s.len() as int);
    }
    if x < t.len() && y < t.len() {
        assert(s.subrange(n + x + 1, n + y) =~= t.subrange(x + 1, y));
        lemma_drawing_end(t, y + 1);
        lemma_drawing_end_in(a, t, b, y + 1);
        if opens_drawing(t, x, y) {
            let e = drawing_end(t, y + 1);
            let data = t.subrange(x, e);
            assert(s.subrange(n + x, n + e) =~= data);
            let entries = with_entry(st.entries, data, tag_level(t.subrange(x + 1, y))->0);
            let ch = entries[entry_at(entries, data)].ch;
            let next = DrawView { out: st.out + t.subrange(i, x) + draw_mark() + ch, entries };
            lemma_draw_in(a, t, b, e, next);
            assert(s.subrange(n + i, n + x) =~= t.subrange(i, x));
            assert(a + st.out + s.subrange(n + i, n + x) + draw_mark() + ch =~= a + next.out);
        } else {
            let next = DrawView { out: st.out + t.subrange(i, y + 1), ..st };
            lemma_draw_in(a, t, b, y + 1, next);
            assert(s.subrange(n + i, n + y + 1) =~= t.subrange(i, y + 1));
            assert(a + st.out + s.subrange(n + i, n + y + 1) =~= a + next.out);
        }
    } else if n + i < s.len() {
        assert(draw_from(s, n + i, at).out == a + st.out + s.skip(n + i));
        if i < t.len() {
            assert(a + st.out + s.skip(n + i) =~= a + (st.out + t.skip(i)) + b);
        } else {
            assert(a + st.out + s.skip(n + i) =~= a + st.out + b);
        }
    } else {
        assert(i == t.len() && b.len() == 0);
        assert(a + st.out =~= a + st.out + b);
    }
}

/// Text without braces at the front is copied.
proof fn lemma_draw_front(s: Seq<char>, k: int, entries: Seq<DrawEntryView>)
    requires
        0 <= k <= s.len(),
        forall|j: int| 0 <= j < k ==> s[j] != '{',
    ensures
        drawn(s, entries) == draw_from(s, k, DrawView { out: s.take(k), entries }),
{
    let none: Seq<char> = seq![];
    let x = find_from(s, '{', k);
    lemma_find_from(s, '{', k);
    assert forall|j: int| 0 <= j < x implies s[j] != '{' by {
        if j >= k {
            assert(s[j] != '{');
        }
    }
    lemma_find_is(s, '{', 0, x);
    let y = find_from(s, '}', x);
    lemma_find_from(s, '}', x);
    if s.len() == 0 {
        assert(s.take(k) =~= none);
    } else if k == s.len() {
        assert(none + s.skip(0) =~= s.take(k));
    } else if x < s.len() && y < s.len() {
        assert(none + s.subrange(0, x) =~= s.take(k) + s.subrange(k, x));
        assert(none + s.subrange(0, y + 1) =~= s.take(k) + s.subrange(k, y + 1));
    } else {
        assert(none + s.skip(0) =~= s.take(k) + s.skip(k));
    }
}

/// Drawings in a text that stands between others without braces are replaced as
/// they are in the text alone.
pub proof fn lemma_drawn_in(
    a: Seq<char>,
    t: Seq<char>,
    b: Seq<char>,
    entries: Seq<DrawEntryView>,
)
    requires
        unbraced(a),
        unbraced(b),
    ensures
        drawn(a + t + b, entries) == (DrawView {
            out: a + drawn(t, entries).out + b,
            entries: drawn(t, entries).entries,
        }),
{
    let s = a + t + b;
    let none: Seq<char> = seq![];
    assert forall|j: int| 0 <= j < a.len() implies s[j] != '{' by {
        assert(s[j] == a[j]);
    }
    lemma_draw_front(s, a.len() as int, entries);
    assert(s.take(a.len() as int) =~= a + none);
    lemma_draw_in(a, t, b, 0, DrawView { out: none, entries });
}

/// Replacing drawings only adds entries, and keeps them in order.
pub proof fn lemma_entries_grow(s: Seq<char>, i: int, st: DrawView)
    requires
        0 <= i <= s.len(),
        entries_ok(st.entries),
    ensures
        ({
            let d = draw_from(s, i, st);
            &&& entries_ok(d.entries)
            &&& st.entries.len() <= d.entries.len()
            &&& d.entries.take(st.entries.len() as int) == st.entries
        }),
    decreases s.len() - i,
{
    assert(st.entries.take(st.entries.len() as int) =~= st.entries);
    if i < s.len() {
        let a = find_from(s, '{', i);
        lemma_find_from(s, '{', i);
        lemma_find_from(s, '}', a);
        let b = find_from(s, '}', a);
        if i <= a <= b < s.len() {
            if opens_drawing(s, a, b) {
                lemma_drawing_end(s, b + 1);
                let e = drawing_end(s, b + 1);
                let data = s.subrange(a, e);
                let level = tag_level(s.subrange(a + 1, b))->0;
                let entries = with_entry(st.entries, data, level);
                law_with_entry_ok(st.entries, data, level);
                let ch = entries[entry_at(entries, data)].ch;
                let next = DrawView { out: st.out + s.subrange(i, a) + draw_mark() + ch, entries };
                lemma_entries_grow(s, e, next);
                lemma_prefix_of_prefix(st.entries, entries, draw_from(s, e, next).entries);
            } else {
                lemma_entries_grow(
                    s,
                    b + 1,
                    DrawView { out: st.out + s.subrange(i, b + 1), ..st },
                );
            }
        }
    }
}

/// A text on one line stays on one, and does not come to end with a carriage
/// return.
pub proof fn lemma_drawn_line(s: Seq<char>, i: int, st: DrawView)
    requires
        0 <= i <= s.len(),
        on_one_line(s),
        on_one_line(st.out),
        s.len() > 0 ==> s.last() != '\r',
        st.out.len() > 0 && i == s.len() ==> st.out.last() != '\r',
        entries_ok(st.entries),
        entries_fit(draw_from(s, i, st).entries),
    ensures
        ({
            let d = draw_from(s, i, st);
            &&& on_one_line(d.out)
            &&& d.out.len() > 0 ==> d.out.last() != '\r'
        }),
    decreases s.len() - i,
{
    let d = draw_from(s, i, st);
    if i < s.len() {
        let a = find_from(s, '{', i);
        lemma_find_from(s, '{', i);
        lemma_find_from(s, '}', a);
        let b = find_from(s, '}', a);
        if !(i <= a <= b < s.len()) {
            lemma_part_on_one_line(s, i, s.len() as int);
            assert(s.subrange(i, s.len() as int) =~= s.skip(i));
            lemma_add_on_one_line(st.out, s.skip(i));
            assert(d.out.last() == s.last());
        } else if opens_drawing(s, a, b) {
            lemma_drawing_end(s, b + 1);
            let e = drawing_end(s, b + 1);
            let data = s.subrange(a, e);
            let level = tag_level(s.subrange(a + 1, b))->0;
            let entries = with_entry(st.entries, data, level);
            law_with_entry_ok(st.entries, data, level);
            let at = entry_at(entries, data);
            lemma_entry(entries, data, 0);
            let ch = entries[at].ch;
            let next = DrawView { out: st.out + s.subrange(i, a) + draw_mark() + ch, entries };
            lemma_entries_grow(s, e, next);
            assert(ch == seq![draw_char(at)]);
            assert(draw_char(at) as int == 0xe000 + at);
            assert(on_one_line(ch));
            reveal_strlit("{\\fnASSDrawSubset\\p0}");
            assert(on_one_line(draw_mark()));
            lemma_part_on_one_line(s, i, a);
            lemma_add_on_one_line(st.out, s.subrange(i, a));
            lemma_add_on_one_line(st.out + s.subrange(i, a), draw_mark());
            lemma_add_on_one_line(st.out + s.subrange(i, a) + draw_mark(), ch);
            assert(next.out.last() == ch[0]);
            lemma_drawn_line(s, e, next);
        } else {
            let next = DrawView { out: st.out + s.subrange(i, b + 1), ..st };
            lemma_part_on_one_line(s, i, b + 1);
            lemma_add_on_one_line(st.out, s.subrange(i, b + 1));
            assert(next.out.last() == s[b]);
            lemma_drawn_line(s, b + 1, next);
        }
    }
}

/// A text that does not name the drawing font holds no run of it.
pub proof fn lemma_no_runs(s: Seq<char>, m: Seq<(Seq<char>, DrawEntryView)>)
    requires
        !has_part(s, "\\fnASSDrawSubset"@),
    ensures
        draw_runs(s, m) == s,
{
    if m.len() > 0 {
        assert forall|j: int| 0 <= j < s.len() implies !draw_run_at(s, j) by {
            if draw_run_at(s, j) {
                let q = find_from(s, '}', j + 1);
                lemma_find_from(s, '}', j + 1);
                lemma_part_of_part(s, j + 1, q, "\\fnASSDrawSubset"@);
            }
        }
        lemma_plain(s, 0, s.len() as int, m);
        assert(s.subrange(0, s.len() as int) =~= s);
        assert(draw_runs_from(s, 0, m) =~= s);
    }
}

// ---------------------------------------------------------------------------
// What a drawing is
// ---------------------------------------------------------------------------
/// An entry that holds a drawing: tags that set a level from 1 to 15, what
/// follows up to the first tags that set it to zero, and those tags. The flags
/// give the level.
pub open spec fn holds_drawing(e: DrawEntryView) -> bool {
    let b = find_from(e.data, '}', 0);
    &&& 0 < b < e.data.len()
    &&& e.data[0] == '{'
    &&& tag_level(e.data.subrange(1, b)) matches Some(n) && 0 < n <= 15 && e.flags == n + 16
    &&& drawing_end(e.data, b + 1) == e.data.len()
}

pub open spec fn hold_drawings(v: Seq<DrawEntryView>) -> bool {
    forall|i: int| 0 <= i < v.len() ==> holds_drawing(#[trigger] v[i])
}

/// Where a drawing ends shows in its own text.
proof fn lemma_drawing_end_cut(s: Seq<char>, a: int, i: int)
    requires
        0 <= a <= i <= s.len(),
        drawing_end(s, i) >= 0,
    ensures
        drawing_end(s.subrange(a, drawing_end(s, i)), i - a) == drawing_end(s, i) - a,
    decreases s.len() - i,
{
    lemma_drawing_end(s, i);
    let e = drawing_end(s, i);
    let t = s.subrange(a, e);
    let x = find_from(s, '{', i);
    lemma_find_from(s, '{', i);
    lemma_find_from(s, '}', x);
    let y = find_from(s, '}', x);
    assert(x <= y < s.len());
    lemma_drawing_end(s, y + 1);
    assert(y < e);
    assert forall|j: int| i - a <= j < x - a implies t[j] != '{' by {
        assert(t[j] == s[a + j]);
    }
    assert(t[x - a] == s[x]);
    lemma_find_is(t, '{', i - a, x - a);
    assert forall|j: int| x - a <= j < y - a implies t[j] != '}' by {
        assert(t[j] == s[a + j]);
    }
    assert(t[y - a] == s[y]);
    lemma_find_is(t, '}', x - a, y - a);
    assert(t.subrange(x - a + 1, y - a) =~= s.subrange(x + 1, y));
    if tag_level(s.subrange(x + 1, y)) != Some(0int) {
        lemma_drawing_end_cut(s, a, y + 1);
    }
}

/// Every entry of a text holds a drawing.
pub proof fn law_entries_hold_drawings(s: Seq<char>, i: int, st: DrawView)
    requires
        0 <= i <= s.len(),
        hold_drawings(st.entries),
    ensures
        hold_drawings(draw_from(s, i, st).entries),
    decreases s.len() - i,
{
    if i < s.len() {
        let a = find_from(s, '{', i);
        lemma_find_from(s, '{', i);
        lemma_find_from(s, '}', a);
        let b = find_from(s, '}', a);
        if i <= a <= b < s.len() {
            assert(s[a] != s[b]);
            if opens_drawing(s, a, b) {
                lemma_drawing_end(s, b + 1);
                lemma_drawing_end_cut(s, a, b + 1);
                let e = drawing_end(s, b + 1);
                let data = s.subrange(a, e);
                let level = tag_level(s.subrange(a + 1, b))->0;
                let entries = with_entry(st.entries, data, level);
                assert forall|j: int| 0 <= j < b - a implies data[j] != '}' by {
                    assert(data[j] == s[a + j]);
                }
                assert(data[b - a] == s[b]);
                lemma_find_is(data, '}', 0, b - a);
                assert(data.subrange(1, b - a) =~= s.subrange(a + 1, b));
                assert(hold_drawings(entries));
                let ch = entries[entry_at(entries, data)].ch;
                law_entries_hold_drawings(
                    s,
                    e,
                    DrawView { out: st.out + s.subrange(i, a) + draw_mark() + ch, entries },
                );
            } else {
                law_entries_hold_drawings(
                    s,
                    b + 1,
                    DrawView { out: st.out + s.subrange(i, b + 1), ..st },
                );
            }
        }
    }
}

proof fn lemma_file_drawings(v: Seq<Seq<char>>, n: int)
    ensures
        hold_drawings(draw_upto(v, n).entries),
    decreases n,
{
    if n > 0 {
        lemma_file_drawings(v, n - 1);
        let st = draw_upto(v, n - 1);
        let line = cut_end(v[n - 1], Cut::CarriageReturn);
        match (after_prefix(trim_start(line), "Dialogue:"@), position(st.format, "text"@)) {
            (Some(rest), Some(at)) => {
                let row = fields(trim_start(rest), st.format.len() as int);
                law_entries_hold_drawings(
                    row[at],
                    0,
                    DrawView { out: seq![], entries: st.entries },
                );
            },
            _ => {},
        }
    }
}

/// Every entry of a file holds a drawing.
pub proof fn law_file_holds_drawings(s: Seq<char>)
    ensures
        hold_drawings(file_drawn(s).entries),
{
    lemma_file_drawings(lines(s), lines(s).len() as int);
}

} // verus!
