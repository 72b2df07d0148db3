//! What becomes of a drawing when it is replaced by a character.
use vstd::prelude::*;

use crate::ass::draw::{
    draw_char, draw_from, draw_mark, drawing_end, drawn, entry_at, lemma_drawing_end, lemma_entry,
    lemma_new_entry, level_from, opens_drawing, tag_level, with_entry, DrawEntryView, DrawView,
};
use crate::ass::parse::{dialogue_from, Run};
use crate::ass::style::StyleView;
use crate::ass::tag_laws::{law_drawing_tag, lemma_bare_arg, lemma_number_arg, next_tag};
use crate::ass::tags::TagState;
use crate::number::{decimal, lemma_decimal};
use crate::text::{find_from, is_digit, lemma_find_from, lemma_find_is};

verus! {

/// The tags that open a drawing of a level, or end one where the level is zero.
pub open spec fn level_tags(n: nat) -> Seq<char> {
    seq!['{', '\\', 'p'] + decimal(n) + seq!['}']
}

/// A text without an opening brace.
pub open spec fn unopened(s: Seq<char>) -> bool {
    forall|i: int| 0 <= i < s.len() ==> s[i] != '{'
}

/// The level is the number behind `\p`, whatever tags follow.
pub proof fn law_level_read(n: nat, rest: Seq<char>)
    requires
        n <= 0x7fff_ffff,
        next_tag(rest),
    ensures
        tag_level(seq!['\\', 'p'] + decimal(n) + rest) == Some(n as int),
{
    let head = seq!['\\', 'p'];
    let tag = head + decimal(n) + rest;
    lemma_number_arg(n);
    lemma_bare_arg(head, decimal(n), rest);
    assert(tag[0] == '\\' && tag[1] == 'p');
}

proof fn lemma_no_level(tag: Seq<char>, i: int)
    requires
        0 <= i <= tag.len(),
        forall|j: int| 0 <= j < tag.len() - 1 && #[trigger] tag[j] == '\\' ==> tag[j + 1] != 'p',
    ensures
        level_from(tag, i) is None,
    decreases tag.len() - i,
{
    if i < tag.len() {
        if tag[i] != '\\' {
            lemma_no_level(tag, i + 1);
        } else {
            lemma_find_from(tag, '\\', i + 1);
            lemma_no_level(tag, find_from(tag, '\\', i + 1));
        }
    }
}

/// Tags none of which starts with `p` set no level.
pub proof fn law_no_level_set(tag: Seq<char>)
    requires
        forall|j: int| 0 <= j < tag.len() - 1 && #[trigger] tag[j] == '\\' ==> tag[j + 1] != 'p',
    ensures
        tag_level(tag) is None,
{
    lemma_no_level(tag, 0);
}

/// A text without an opening brace has no drawings: it stays as it is, and so do
/// the entries.
pub proof fn law_text_kept(s: Seq<char>, v: Seq<DrawEntryView>)
    requires
        unopened(s),
    ensures
        drawn(s, v).out == s,
        drawn(s, v).entries == v,
{
    lemma_text_kept(s, 0, DrawView { out: seq![], entries: v });
    assert(s.skip(0) =~= s);
    assert(seq![] + s =~= s);
}

proof fn lemma_text_kept(s: Seq<char>, i: int, st: DrawView)
    requires
        0 <= i <= s.len(),
        forall|j: int| i <= j < s.len() ==> s[j] != '{',
    ensures
        draw_from(s, i, st).out == st.out + s.skip(i),
        draw_from(s, i, st).entries == st.entries,
{
    lemma_find_is(s, '{', i, s.len() as int);
    if i == s.len() {
        assert(st.out + s.skip(i) =~= st.out);
    }
}

/// Where the tags of a level stand in a text, and what they set.
pub proof fn lemma_level_tags(s: Seq<char>, a: int, n: nat)
    requires
        0 <= a,
        a + level_tags(n).len() <= s.len(),
        s.subrange(a, a + level_tags(n).len()) == level_tags(n),
        n <= 0x7fff_ffff,
    ensures
        ({
            let b = a + level_tags(n).len() - 1;
            &&& s[a] == '{'
            &&& find_from(s, '}', a) == b
            &&& s.subrange(a + 1, b) == seq!['\\', 'p'] + decimal(n)
            &&& tag_level(s.subrange(a + 1, b)) == Some(n as int)
        }),
{
    let t = level_tags(n);
    let b = a + t.len() - 1;
    lemma_decimal(n);
    assert forall|j: int| 0 <= j < t.len() implies s[a + j] == t[j] by {
        assert(s.subrange(a, a + t.len())[j] == s[a + j]);
    }
    assert forall|j: int| a <= j < b implies s[j] != '}' by {
        assert(s[a + (j - a)] == t[j - a]);
        if j - a >= 3 {
            assert(t[j - a] == decimal(n)[j - a - 3]);
            assert(is_digit(decimal(n)[j - a - 3]));
        }
    }
    assert(s[a + 0] == t[0]);
    assert(s[a + (b - a)] == t[b - a]);
    lemma_find_is(s, '}', a, b);
    let inner = seq!['\\', 'p'] + decimal(n) + seq![];
    assert(s.subrange(a + 1, b) =~= inner) by {
        assert(inner.len() == b - a - 1);
        assert forall|j: int| 0 <= j < inner.len() implies s.subrange(a + 1, b)[j] == inner[j] by {
            assert(s[a + (j + 1)] == t[j + 1]);
        }
    }
    law_level_read(n, seq![]);
    assert(inner =~= seq!['\\', 'p'] + decimal(n));
}

/// A drawing, from the tags that set a level of one to fifteen to those that set it
/// to zero, is replaced by one character behind the tags of the drawing font. The
/// text around it stays, and the drawing is kept whole with its character. The
/// first drawing has U+E000, and each new one the next character; a drawing that
/// was seen before has the character that it had.
pub proof fn law_drawing_replaced(
    a: Seq<char>,
    n: nat,
    d: Seq<char>,
    b: Seq<char>,
    v: Seq<DrawEntryView>,
)
    requires
        unopened(a),
        unopened(d),
        unopened(b),
        1 <= n <= 15,
        v.len() < 6400,
    ensures
        ({
            let drawing = level_tags(n) + d + level_tags(0);
            let r = drawn(a + drawing + b, v);
            &&& (forall|j: int| 0 <= j < v.len() ==> (#[trigger] v[j]).data != drawing) ==> {
                &&& r.entries.len() == v.len() + 1
                &&& r.entries.take(v.len() as int) == v
                &&& r.entries.last().data == drawing
                &&& r.entries.last().ch.len() == 1
                &&& r.entries.last().ch[0] as int == 0xe000 + v.len()
                &&& r.entries.last().flags == n + 16
                &&& r.out == a + "{\\fnASSDrawSubset\\p0}"@ + r.entries.last().ch + b
            }
            &&& forall|j: int|
                0 <= j < v.len() && (#[trigger] v[j]).data == drawing && (forall|k: int|
                    0 <= k < j ==> (#[trigger] v[k]).data != drawing) ==> {
                    &&& r.entries == v
                    &&& r.out == a + "{\\fnASSDrawSubset\\p0}"@ + v[j].ch + b
                }
        }),
{
    let open = level_tags(n);
    let close = level_tags(0);
    let drawing = open + d + close;
    let s = a + drawing + b;
    let p = a.len() as int;
    let q = p + open.len();
    let c = q + d.len();
    let e = c + close.len();
    assert(s.subrange(p, p + open.len()) =~= open);
    assert(s.subrange(c, c + close.len()) =~= close);
    assert(s.subrange(p, e) =~= drawing);
    assert(s.subrange(0, p) =~= a);
    assert(s.skip(e) =~= b);
    lemma_level_tags(s, p, n);
    lemma_level_tags(s, c, 0);
    assert forall|j: int| 0 <= j < p implies s[j] != '{' by {
        assert(s[j] == a[j]);
    }
    lemma_find_is(s, '{', 0, p);
    assert forall|j: int| q <= j < c implies s[j] != '{' by {
        assert(s[j] == d[j - q]);
    }
    lemma_find_is(s, '{', q, c);
    assert(drawing_end(s, q) == e);
    let st = DrawView { out: seq![], entries: v };
    let entries = with_entry(v, drawing, n as int);
    let ch = entries[entry_at(entries, drawing)].ch;
    let next = DrawView { out: st.out + s.subrange(0, p) + draw_mark() + ch, entries };
    assert(drawn(s, v) == draw_from(s, e, next));
    assert forall|j: int| e <= j < s.len() implies s[j] != '{' by {
        assert(s[j] == b[j - e]);
    }
    lemma_text_kept(s, e, next);
    assert(st.out + s.subrange(0, p) =~= a);
    lemma_entry(v, drawing, 0);
    if entry_at(v, drawing) == v.len() {
        lemma_new_entry(v, entries.last(), 0);
        assert(entries.take(v.len() as int) =~= v);
        assert(draw_char(v.len() as int) as int == 0xe000 + v.len());
    } else {
        assert forall|j: int|
            0 <= j < v.len() && (#[trigger] v[j]).data == drawing && (forall|k: int|
                0 <= k < j ==> (#[trigger] v[k]).data != drawing) implies entry_at(v, drawing)
            == j by {
            let x = entry_at(v, drawing);
            assert(v[x].data == drawing);
        }
    }
}

// ---------------------------------------------------------------------------
// One drawing behind another
// ---------------------------------------------------------------------------
proof fn lemma_find_behind(x: Seq<char>, b: Seq<char>, c: char, i: int)
    requires
        0 <= i <= b.len(),
    ensures
        find_from(x + b, c, x.len() + i) == x.len() + find_from(b, c, i),
        i <= find_from(b, c, i) <= b.len(),
        find_from(b, c, i) < b.len() ==> b[find_from(b, c, i)] == c,
{
    let s = x + b;
    let n = x.len() as int;
    let k = find_from(b, c, i);
    lemma_find_from(b, c, i);
    assert forall|j: int| n + i <= j < n + k implies s[j] != c by {
        assert(s[j] == b[j - n]);
    }
    if k < b.len() {
        assert(s[n + k] == b[k]);
    }
    lemma_find_is(s, c, n + i, n + k);
}

proof fn lemma_end_behind(x: Seq<char>, b: Seq<char>, i: int)
    requires
        0 <= i <= b.len(),
    ensures
        drawing_end(b, i) < 0 ==> drawing_end(x + b, x.len() + i) < 0,
        drawing_end(b, i) >= 0 ==> drawing_end(x + b, x.len() + i) == x.len() + drawing_end(b, i),
    decreases b.len() - i,
{
    if i < b.len() {
        let s = x + b;
        let n = x.len() as int;
        lemma_find_behind(x, b, '{', i);
        let p = find_from(b, '{', i);
        lemma_find_behind(x, b, '}', p);
        let q = find_from(b, '}', p);
        if p < b.len() && q < b.len() {
            assert(b[p] != b[q]);
            assert(s.subrange(n + p + 1, n + q) =~= b.subrange(p + 1, q));
            lemma_end_behind(x, b, q + 1);
        }
    }
}

/// What stands in front of a place does not change how the rest is rewritten.
proof fn lemma_drawn_behind(x: Seq<char>, b: Seq<char>, i: int, st: DrawView)
    requires
        0 <= i <= b.len(),
    ensures
        draw_from(x + b, x.len() + i, st) == draw_from(b, i, st),
    decreases b.len() - i,
{
    if i < b.len() {
        let s = x + b;
        let n = x.len() as int;
        lemma_find_behind(x, b, '{', i);
        let p = find_from(b, '{', i);
        lemma_find_behind(x, b, '}', p);
        let q = find_from(b, '}', p);
        if p < b.len() && q < b.len() {
            assert(b[p] != b[q]);
            let tag = b.subrange(p + 1, q);
            assert(s.subrange(n + p + 1, n + q) =~= tag);
            lemma_end_behind(x, b, q + 1);
            lemma_drawing_end(b, q + 1);
            assert(opens_drawing(s, n + p, n + q) == opens_drawing(b, p, q));
            if opens_drawing(b, p, q) {
                let e = drawing_end(b, q + 1);
                let data = b.subrange(p, e);
                assert(s.subrange(n + p, n + e) =~= data);
                assert(s.subrange(n + i, n + p) =~= b.subrange(i, p));
                let entries = with_entry(st.entries, data, tag_level(tag)->0);
                let ch = entries[entry_at(entries, data)].ch;
                let next = DrawView {
                    out: st.out + b.subrange(i, p) + draw_mark() + ch,
                    entries,
                };
                lemma_drawn_behind(x, b, e, next);
            } else {
                assert(s.subrange(n + i, n + q + 1) =~= b.subrange(i, q + 1));
                let next = DrawView { out: st.out + b.subrange(i, q + 1), ..st };
                lemma_drawn_behind(x, b, q + 1, next);
            }
        } else {
            assert(s.skip(n + i) =~= b.skip(i));
        }
    }
}

/// What was written before stands in front of what is written next.
proof fn lemma_drawn_onto(b: Seq<char>, i: int, st: DrawView)
    requires
        0 <= i <= b.len(),
    ensures
        draw_from(b, i, st).out == st.out + draw_from(
            b,
            i,
            DrawView { out: seq![], entries: st.entries },
        ).out,
        draw_from(b, i, st).entries == draw_from(
            b,
            i,
            DrawView { out: seq![], entries: st.entries },
        ).entries,
    decreases b.len() - i,
{
    let none = DrawView { out: seq![], entries: st.entries };
    if i < b.len() {
        lemma_find_from(b, '{', i);
        let p = find_from(b, '{', i);
        lemma_find_from(b, '}', p);
        let q = find_from(b, '}', p);
        if i <= p <= q < b.len() {
            lemma_drawing_end(b, q + 1);
            if opens_drawing(b, p, q) {
                let e = drawing_end(b, q + 1);
                let data = b.subrange(p, e);
                let entries = with_entry(
                    st.entries,
                    data,
                    tag_level(b.subrange(p + 1, q))->0,
                );
                let ch = entries[entry_at(entries, data)].ch;
                let part = b.subrange(i, p) + draw_mark() + ch;
                let next = DrawView {
                    out: st.out + b.subrange(i, p) + draw_mark() + ch,
                    entries,
                };
                let first = DrawView {
                    out: none.out + b.subrange(i, p) + draw_mark() + ch,
                    entries,
                };
                lemma_drawn_onto(b, e, next);
                lemma_drawn_onto(b, e, first);
                let rest = draw_from(b, e, DrawView { out: seq![], entries }).out;
                assert(next.out + rest =~= st.out + (first.out + rest));
            } else {
                let next = DrawView { out: st.out + b.subrange(i, q + 1), ..st };
                let first = DrawView { out: none.out + b.subrange(i, q + 1), ..none };
                lemma_drawn_onto(b, q + 1, next);
                lemma_drawn_onto(b, q + 1, first);
                let rest = draw_from(b, q + 1, none).out;
                assert(next.out + rest =~= st.out + (first.out + rest));
            }
        } else {
            assert(st.out + b.skip(i) =~= st.out + (none.out + b.skip(i)));
        }
    } else {
        assert(st.out + none.out =~= st.out);
    }
}

/// The text behind a drawing is rewritten like a text of its own, with the drawings
/// that were seen so far: every drawing of a text is replaced.
pub proof fn law_every_drawing_replaced(
    a: Seq<char>,
    n: nat,
    d: Seq<char>,
    b: Seq<char>,
    v: Seq<DrawEntryView>,
)
    requires
        unopened(a),
        unopened(d),
        1 <= n <= 15,
    ensures
        ({
            let front = a + (level_tags(n) + d + level_tags(0));
            let one = drawn(front, v);
            let all = drawn(front + b, v);
            &&& all.out == one.out + drawn(b, one.entries).out
            &&& all.entries == drawn(b, one.entries).entries
        }),
{
    let open = level_tags(n);
    let close = level_tags(0);
    let drawing = open + d + close;
    let front = a + drawing;
    let none = Seq::<char>::empty();
    let e = front.len() as int;
    let st = DrawView { out: none, entries: v };
    lemma_first_drawing(a, n, d, b, st);
    lemma_first_drawing(a, n, d, none, st);
    assert(front + none =~= front);
    let entries = with_entry(v, drawing, n as int);
    let ch = entries[entry_at(entries, drawing)].ch;
    let next = DrawView { out: a + draw_mark() + ch, entries };
    assert(draw_from(front, e, next) == next);
    lemma_drawn_behind(front, b, 0, next);
    lemma_drawn_onto(b, 0, next);
}

proof fn lemma_first_drawing(a: Seq<char>, n: nat, d: Seq<char>, b: Seq<char>, st: DrawView)
    requires
        unopened(a),
        unopened(d),
        1 <= n <= 15,
        st.out.len() == 0,
    ensures
        ({
            let drawing = level_tags(n) + d + level_tags(0);
            let entries = with_entry(st.entries, drawing, n as int);
            let ch = entries[entry_at(entries, drawing)].ch;
            draw_from(a + drawing + b, 0, st) == draw_from(
                a + drawing + b,
                (a + drawing).len() as int,
                DrawView { out: a + draw_mark() + ch, entries },
            )
        }),
{
    let open = level_tags(n);
    let close = level_tags(0);
    let drawing = open + d + close;
    let s = a + drawing + b;
    let p = a.len() as int;
    let q = p + open.len();
    let c = q + d.len();
    let e = c + close.len();
    assert(s.subrange(p, p + open.len()) =~= open);
    assert(s.subrange(c, c + close.len()) =~= close);
    assert(s.subrange(p, e) =~= drawing);
    assert(s.subrange(0, p) =~= a);
    lemma_level_tags(s, p, n);
    lemma_level_tags(s, c, 0);
    assert forall|j: int| 0 <= j < p implies s[j] != '{' by {
        assert(s[j] == a[j]);
    }
    lemma_find_is(s, '{', 0, p);
    assert forall|j: int| q <= j < c implies s[j] != '{' by {
        assert(s[j] == d[j - q]);
    }
    lemma_find_is(s, '{', q, c);
    assert(drawing_end(s, q) == e);
    assert(st.out + s.subrange(0, p) =~= a);
    let entries = with_entry(st.entries, drawing, n as int);
    let ch = entries[entry_at(entries, drawing)].ch;
    let next = DrawView { out: st.out + s.subrange(0, p) + draw_mark() + ch, entries };
    assert(opens_drawing(s, p, q - 1));
    assert(draw_from(s, 0, st) == draw_from(s, e, next));
    assert((a + drawing).len() == e);
}

/// Tags that open no drawing stay as they are, and the text behind them is rewritten
/// like a text of its own.
pub proof fn law_other_tags_stay(
    a: Seq<char>,
    tag: Seq<char>,
    b: Seq<char>,
    v: Seq<DrawEntryView>,
)
    requires
        unopened(a),
        forall|i: int| 0 <= i < tag.len() ==> tag[i] != '}',
        tag_level(tag) matches Some(n) ==> n <= 0 || n > 15,
    ensures
        ({
            let front = a + seq!['{'] + tag + seq!['}'];
            &&& drawn(front + b, v).out == front + drawn(b, v).out
            &&& drawn(front + b, v).entries == drawn(b, v).entries
        }),
{
    let front = a + seq!['{'] + tag + seq!['}'];
    let s = front + b;
    let p = a.len() as int;
    let q = p + 1 + tag.len();
    assert forall|j: int| 0 <= j < p implies s[j] != '{' by {
        assert(s[j] == a[j]);
    }
    assert(s[p] == '{');
    lemma_find_is(s, '{', 0, p);
    assert forall|j: int| p <= j < q implies s[j] != '}' by {
        if j > p {
            assert(s[j] == tag[j - p - 1]);
        }
    }
    assert(s[q] == '}');
    lemma_find_is(s, '}', p, q);
    assert(s.subrange(p + 1, q) =~= tag);
    assert(s.subrange(0, q + 1) =~= front);
    let st = DrawView { out: seq![], entries: v };
    let next = DrawView { out: st.out + s.subrange(0, q + 1), ..st };
    assert(next.out =~= front);
    lemma_drawn_behind(front, b, 0, next);
    lemma_drawn_onto(b, 0, next);
}

// ---------------------------------------------------------------------------
// Counting drawings
// ---------------------------------------------------------------------------
/// Tags that set a level start a drawing where none was open.
proof fn lemma_level_step(
    s: Seq<char>,
    i: int,
    n: nat,
    run: Run,
    base: StyleView,
    styles: Seq<(Seq<char>, StyleView)>,
)
    requires
        0 <= i,
        i + level_tags(n).len() <= s.len(),
        s.subrange(i, i + level_tags(n).len()) == level_tags(n),
        n <= 0x7fff_ffff,
    ensures
        dialogue_from(s, i, run, base, styles) == dialogue_from(
            s,
            i + level_tags(n).len(),
            Run {
                level: n as int,
                drawings: run.drawings + (if run.level <= 0 && n > 0 {
                    1int
                } else {
                    0int
                }),
                ..run
            },
            base,
            styles,
        ),
{
    lemma_level_tags(s, i, n);
    let b = i + level_tags(n).len() - 1;
    let tag = seq!['\\', 'p'] + decimal(n);
    let none = Seq::<char>::empty();
    let st = TagState { style: run.style, level: run.level };
    law_drawing_tag(n, none, st, base, styles);
    assert(tag + none =~= tag);
    assert(find_from(s, '}', i + 1) == b);
}

proof fn lemma_commands(
    s: Seq<char>,
    i: int,
    j: int,
    run: Run,
    base: StyleView,
    styles: Seq<(Seq<char>, StyleView)>,
)
    requires
        0 <= i <= j <= s.len(),
        run.level > 0,
        forall|x: int| i <= x < j ==> s[x] != '{',
    ensures
        dialogue_from(s, i, run, base, styles) == dialogue_from(s, j, run, base, styles),
    decreases j - i,
{
    if i < j {
        lemma_commands(s, i + 1, j, run, base, styles);
    }
}

/// A drawing counts once, from the tags that set its level to those that set it to
/// zero, though its level may change in between; nothing in it is drawn as text.
pub proof fn law_drawing_counted_once(
    n: nat,
    c: Seq<char>,
    m: nat,
    d: Seq<char>,
    run: Run,
    base: StyleView,
    styles: Seq<(Seq<char>, StyleView)>,
)
    requires
        1 <= n <= 0x7fff_ffff,
        1 <= m <= 0x7fff_ffff,
        unopened(c),
        unopened(d),
        run.level <= 0,
    ensures
        dialogue_from(
            level_tags(n) + c + level_tags(m) + d + level_tags(0),
            0,
            run,
            base,
            styles,
        ) == (Run { level: 0, drawings: run.drawings + 1, ..run }),
        dialogue_from(level_tags(n) + c + level_tags(0), 0, run, base, styles) == (Run {
            level: 0,
            drawings: run.drawings + 1,
            ..run
        }),
{
    let (x, y, z) = (level_tags(n), level_tags(m), level_tags(0));
    let s = x + c + y + d + z;
    let p1 = x.len() as int;
    let p2 = p1 + c.len();
    let p3 = p2 + y.len();
    let p4 = p3 + d.len();
    assert(s.subrange(0, p1) =~= x);
    assert(s.subrange(p2, p3) =~= y);
    assert(s.subrange(p4, p4 + z.len()) =~= z);
    let open = Run { level: n as int, drawings: run.drawings + 1, ..run };
    let turned = Run { level: m as int, ..open };
    let done = Run { level: 0, ..open };
    lemma_level_step(s, 0, n, run, base, styles);
    assert forall|k: int| p1 <= k < p2 implies s[k] != '{' by {
        assert(s[k] == c[k - p1]);
    }
    lemma_commands(s, p1, p2, open, base, styles);
    lemma_level_step(s, p2, m, open, base, styles);
    assert forall|k: int| p3 <= k < p4 implies s[k] != '{' by {
        assert(s[k] == d[k - p3]);
    }
    lemma_commands(s, p3, p4, turned, base, styles);
    lemma_level_step(s, p4, 0, turned, base, styles);
    assert(dialogue_from(s, s.len() as int, done, base, styles) == done);
    let t = x + c + z;
    assert(t.subrange(0, p1) =~= x);
    assert(t.subrange(p2, p2 + z.len()) =~= z);
    lemma_level_step(t, 0, n, run, base, styles);
    assert forall|k: int| p1 <= k < p2 implies t[k] != '{' by {
        assert(t[k] == c[k - p1]);
    }
    lemma_commands(t, p1, p2, open, base, styles);
    lemma_level_step(t, p2, 0, open, base, styles);
    assert(dialogue_from(t, t.len() as int, done, base, styles) == done);
}

} // verus!
