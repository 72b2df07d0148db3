//! What reading a subtitle is for: every character that is shown is in the usage
//! of the font that shows it, and nothing else is.
use vstd::prelude::*;

use crate::ass::parse::{dialogue, dialogue_from, Run};
use crate::ass::style::{font_name, StyleView};
use crate::ass::usage::{noted, UsageView};
use crate::models::FontSlot;
use crate::strmap::{law_lookup_put, lookup};
use crate::text::{find_from, lemma_find_from, lemma_find_is};

verus! {

/// Whether a font has to draw a code point upright or slanted, bold or not.
pub open spec fn draws(
    usages: Seq<(Seq<char>, UsageView)>,
    font: Seq<char>,
    bold: bool,
    italic: bool,
    cp: u32,
) -> bool {
    match lookup(usages, font) {
        Some(u) => match (bold, italic) {
            (false, false) => u.normal.contains(cp),
            (true, false) => u.bold.contains(cp),
            (false, true) => u.italic.contains(cp),
            (true, true) => u.bold_italic.contains(cp),
        },
        None => false,
    }
}

/// Whether a place lies between braces, the braces included.
pub open spec fn in_braces(s: Seq<char>, k: int) -> bool {
    exists|j: int, m: int|
        #![trigger s[j], s[m]]
        0 <= j <= k <= m < s.len() && j < m && s[j] == '{' && s[m] == '}' && (forall|x: int|
            j < x < k ==> s[x] != '}')
}

/// Whether a line break or a hard space is written at a place.
pub open spec fn is_break(s: Seq<char>, k: int) -> bool {
    0 <= k && k + 1 < s.len() && s[k] == '\\' && (s[k + 1] == 'N' || s[k + 1] == 'n' || s[k + 1]
        == 'h')
}

/// Whether a character is shown: it is no control character.
pub open spec fn is_shown(c: char) -> bool {
    !(c as u32 <= 31) && !(127 <= c as u32 <= 159)
}

/// Whether no brace that is open at a place is closed later.
spec fn clear_at(s: Seq<char>, i: int) -> bool {
    forall|j: int, m: int|
        #![trigger s[j], s[m]]
        0 <= j < i <= m < s.len() && s[j] == '{' && s[m] == '}' ==> exists|x: int|
            j < x < i && s[x] == '}'
}

/// What a font has to draw, it has to draw still once more has been read.
proof fn lemma_noted_keeps(
    usages: Seq<(Seq<char>, UsageView)>,
    at: Seq<char>,
    slot: FontSlot,
    new: u32,
    font: Seq<char>,
    bold: bool,
    italic: bool,
    cp: u32,
)
    ensures
        draws(usages, font, bold, italic, cp) ==> draws(
            noted(usages, at, slot, new),
            font,
            bold,
            italic,
            cp,
        ),
        draws(noted(usages, at, slot, new), font, bold, italic, cp) ==> draws(
            usages,
            font,
            bold,
            italic,
            cp,
        ) || (cp == new && font == at && slot.is_bold() == bold && slot.is_italic() == italic),
        draws(noted(usages, at, slot, new), at, slot.is_bold(), slot.is_italic(), new),
{
    let had = match lookup(usages, at) {
        Some(u) => u,
        None => UsageView::empty(),
    };
    law_lookup_put(usages, at, had.with(slot, new), font);
    law_lookup_put(usages, at, had.with(slot, new), at);
}

proof fn lemma_usages_kept(
    s: Seq<char>,
    i: int,
    run: Run,
    base: StyleView,
    styles: Seq<(Seq<char>, StyleView)>,
    font: Seq<char>,
    bold: bool,
    italic: bool,
    cp: u32,
)
    requires
        draws(run.usages, font, bold, italic, cp),
    ensures
        draws(dialogue_from(s, i, run, base, styles).usages, font, bold, italic, cp),
    decreases s.len() - i,
{
    if 0 <= i < s.len() {
        let close = find_from(s, '}', i + 1);
        lemma_find_from(s, '}', i + 1);
        if s[i] == '{' && i < close < s.len() {
            let st = crate::ass::tags::after_tags(
                s.subrange(i + 1, close),
                crate::ass::tags::TagState { style: run.style, level: run.level },
                base,
                styles,
            );
            let starts = if run.level <= 0 && st.level > 0 { 1int } else { 0 };
            let next = Run {
                style: st.style,
                level: st.level,
                drawings: run.drawings + starts,
                usages: run.usages,
            };
            lemma_usages_kept(s, close + 1, next, base, styles, font, bold, italic, cp);
        } else if run.level > 0 {
            lemma_usages_kept(s, i + 1, run, base, styles, font, bold, italic, cp);
        } else if is_break(s, i) {
            lemma_usages_kept(s, i + 2, run, base, styles, font, bold, italic, cp);
        } else if crate::text::is_control(s[i]) {
            lemma_usages_kept(s, i + 1, run, base, styles, font, bold, italic, cp);
        } else {
            let at = font_name(run.style.font);
            let slot = crate::ass::style::style_slot(run.style.bold, run.style.italic);
            lemma_noted_keeps(run.usages, at, slot, s[i] as u32, font, bold, italic, cp);
            let next = Run { usages: noted(run.usages, at, slot, s[i] as u32), ..run };
            lemma_usages_kept(s, i + 1, next, base, styles, font, bold, italic, cp);
        }
    }
}

/// A text is read part by part: what comes after a place that lies neither
/// between braces nor within a break does not change how the text before is read.
proof fn lemma_read_in_parts(
    s: Seq<char>,
    k: int,
    i: int,
    run: Run,
    base: StyleView,
    styles: Seq<(Seq<char>, StyleView)>,
)
    requires
        0 <= i <= k <= s.len(),
        !in_braces(s, k),
        !is_break(s, k - 1),
    ensures
        dialogue_from(s, i, run, base, styles) == dialogue_from(
            s,
            k,
            dialogue_from(s.take(k), i, run, base, styles),
            base,
            styles,
        ),
    decreases k - i,
{
    let p = s.take(k);
    if i < k {
        let close = find_from(s, '}', i + 1);
        lemma_find_from(s, '}', i + 1);
        lemma_find_from(p, '}', i + 1);
        assert(p[i] == s[i]);
        if s[i] == '{' && close < s.len() {
            if close >= k {
                assert(s[i] == '{' && s[close] == '}');
                assert(in_braces(s, k));
            }
            lemma_find_is(p, '}', i + 1, close);
            assert(p.subrange(i + 1, close) =~= s.subrange(i + 1, close));
            let st = crate::ass::tags::after_tags(
                s.subrange(i + 1, close),
                crate::ass::tags::TagState { style: run.style, level: run.level },
                base,
                styles,
            );
            let starts = if run.level <= 0 && st.level > 0 { 1int } else { 0 };
            let next = Run {
                style: st.style,
                level: st.level,
                drawings: run.drawings + starts,
                usages: run.usages,
            };
            lemma_read_in_parts(s, k, close + 1, next, base, styles);
        } else {
            let pclose = find_from(p, '}', i + 1);
            if s[i] == '{' && pclose < p.len() {
                assert(s[pclose] == p[pclose]);
            }
            if run.level > 0 {
                lemma_read_in_parts(s, k, i + 1, run, base, styles);
            } else if is_break(s, i) {
                assert(i + 1 < k);
                assert(p[i + 1] == s[i + 1]);
                lemma_read_in_parts(s, k, i + 2, run, base, styles);
            } else {
                assert(i + 1 < p.len() ==> p[i + 1] == s[i + 1]);
                if crate::text::is_control(s[i]) {
                    lemma_read_in_parts(s, k, i + 1, run, base, styles);
                } else {
                    let at = font_name(run.style.font);
                    let slot = crate::ass::style::style_slot(run.style.bold, run.style.italic);
                    let next = Run { usages: noted(run.usages, at, slot, s[i] as u32), ..run };
                    lemma_read_in_parts(s, k, i + 1, next, base, styles);
                }
            }
        }
    }
}

/// The text from a place on is read as a text of its own.
proof fn lemma_read_behind(
    a: Seq<char>,
    b: Seq<char>,
    i: int,
    run: Run,
    base: StyleView,
    styles: Seq<(Seq<char>, StyleView)>,
)
    requires
        0 <= i <= b.len(),
    ensures
        dialogue_from(a + b, a.len() + i, run, base, styles) == dialogue_from(
            b,
            i,
            run,
            base,
            styles,
        ),
    decreases b.len() - i,
{
    let s = a + b;
    let n = a.len() as int;
    if i < b.len() {
        let close = find_from(b, '}', i + 1);
        lemma_find_from(b, '}', i + 1);
        assert forall|x: int| n + i + 1 <= x < n + close implies s[x] != '}' by {
            assert(s[x] == b[x - n]);
        }
        assert(close < b.len() ==> s[n + close] == b[close]);
        lemma_find_is(s, '}', n + i + 1, n + close);
        assert(s[n + i] == b[i]);
        assert(i + 1 < b.len() ==> s[n + i + 1] == b[i + 1]);
        if b[i] == '{' && close < b.len() {
            assert(s.subrange(n + i + 1, n + close) =~= b.subrange(i + 1, close));
            let st = crate::ass::tags::after_tags(
                b.subrange(i + 1, close),
                crate::ass::tags::TagState { style: run.style, level: run.level },
                base,
                styles,
            );
            let starts = if run.level <= 0 && st.level > 0 { 1int } else { 0 };
            let next = Run {
                style: st.style,
                level: st.level,
                drawings: run.drawings + starts,
                usages: run.usages,
            };
            lemma_read_behind(a, b, close + 1, next, base, styles);
        } else if run.level > 0 {
            lemma_read_behind(a, b, i + 1, run, base, styles);
        } else if is_break(b, i) {
            lemma_read_behind(a, b, i + 2, run, base, styles);
        } else if crate::text::is_control(b[i]) {
            lemma_read_behind(a, b, i + 1, run, base, styles);
        } else {
            let at = font_name(run.style.font);
            let slot = crate::ass::style::style_slot(run.style.bold, run.style.italic);
            let next = Run { usages: noted(run.usages, at, slot, b[i] as u32), ..run };
            lemma_read_behind(a, b, i + 1, next, base, styles);
        }
    }
}

// ---------------------------------------------------------------------------
// Laws
// ---------------------------------------------------------------------------
/// A text is read from its start to its end, whatever it holds: its first part is
/// read as if it were alone, and the rest goes on with the style and the drawing
/// level that the first part left.
pub proof fn law_text_read_to_its_end(
    a: Seq<char>,
    b: Seq<char>,
    base: StyleView,
    styles: Seq<(Seq<char>, StyleView)>,
    usages: Seq<(Seq<char>, UsageView)>,
)
    requires
        !in_braces(a + b, a.len() as int),
        !is_break(a + b, a.len() - 1),
    ensures
        dialogue(a + b, base, styles, usages) == dialogue_from(
            b,
            0,
            dialogue(a, base, styles, usages),
            base,
            styles,
        ),
{
    let s = a + b;
    let run = Run { style: base, level: 0, drawings: 0, usages };
    assert(s.take(a.len() as int) =~= a);
    lemma_read_in_parts(s, a.len() as int, 0, run, base, styles);
    lemma_read_behind(a, b, 0, dialogue(a, base, styles, usages), base, styles);
}

/// Every character that stands outside braces while no drawing is open, and that
/// is no control character and no part of a break, is one that the font of that
/// place has to draw, with the weight and the slant of that place.
pub proof fn law_every_character_drawn(
    s: Seq<char>,
    k: int,
    base: StyleView,
    styles: Seq<(Seq<char>, StyleView)>,
    usages: Seq<(Seq<char>, UsageView)>,
)
    requires
        0 <= k < s.len(),
        !in_braces(s, k),
        !is_break(s, k),
        !is_break(s, k - 1),
        is_shown(s[k]),
        dialogue(s.take(k), base, styles, usages).level <= 0,
    ensures
        ({
            let here = dialogue(s.take(k), base, styles, usages).style;
            draws(
                dialogue(s, base, styles, usages).usages,
                font_name(here.font),
                here.bold,
                here.italic,
                s[k] as u32,
            )
        }),
{
    let start = Run { style: base, level: 0, drawings: 0, usages };
    lemma_read_in_parts(s, k, 0, start, base, styles);
    let run = dialogue(s.take(k), base, styles, usages);
    lemma_find_from(s, '}', k + 1);
    let close = find_from(s, '}', k + 1);
    if s[k] == '{' && close < s.len() {
        assert(s[k] == '{' && s[close] == '}');
        assert(in_braces(s, k));
    }
    let at = font_name(run.style.font);
    let slot = crate::ass::style::style_slot(run.style.bold, run.style.italic);
    lemma_noted_keeps(run.usages, at, slot, s[k] as u32, at, slot.is_bold(), slot.is_italic(), 0);
    let next = Run { usages: noted(run.usages, at, slot, s[k] as u32), ..run };
    lemma_usages_kept(
        s,
        k + 1,
        next,
        base,
        styles,
        at,
        run.style.bold,
        run.style.italic,
        s[k] as u32,
    );
}

/// Nothing that a font had to draw is forgotten.
pub proof fn law_usages_only_grow(
    s: Seq<char>,
    base: StyleView,
    styles: Seq<(Seq<char>, StyleView)>,
    usages: Seq<(Seq<char>, UsageView)>,
    font: Seq<char>,
    bold: bool,
    italic: bool,
    cp: u32,
)
    requires
        draws(usages, font, bold, italic, cp),
    ensures
        draws(dialogue(s, base, styles, usages).usages, font, bold, italic, cp),
{
    let run = Run { style: base, level: 0, drawings: 0, usages };
    lemma_usages_kept(s, 0, run, base, styles, font, bold, italic, cp);
}

proof fn lemma_only_text(
    s: Seq<char>,
    i: int,
    run: Run,
    base: StyleView,
    styles: Seq<(Seq<char>, StyleView)>,
    font: Seq<char>,
    bold: bool,
    italic: bool,
    cp: u32,
)
    requires
        0 <= i <= s.len(),
        clear_at(s, i),
        !draws(run.usages, font, bold, italic, cp),
        draws(dialogue_from(s, i, run, base, styles).usages, font, bold, italic, cp),
    ensures
        exists|k: int|
            #![trigger s[k]]
            0 <= k < s.len() && s[k] as u32 == cp && is_shown(s[k]) && !in_braces(s, k)
                && !is_break(s, k),
    decreases s.len() - i,
{
    assert(i < s.len());
    let close = find_from(s, '}', i + 1);
    lemma_find_from(s, '}', i + 1);
    if s[i] == '{' && close < s.len() {
        let st = crate::ass::tags::after_tags(
            s.subrange(i + 1, close),
            crate::ass::tags::TagState { style: run.style, level: run.level },
            base,
            styles,
        );
        let starts = if run.level <= 0 && st.level > 0 { 1int } else { 0 };
        let next = Run {
            style: st.style,
            level: st.level,
            drawings: run.drawings + starts,
            usages: run.usages,
        };
        assert(clear_at(s, close + 1)) by {
            assert(s[close] == '}');
        }
        lemma_only_text(s, close + 1, next, base, styles, font, bold, italic, cp);
    } else {
        assert forall|m: int| i < m < s.len() && s[i] == '{' implies s[m] != '}' by {}
        assert(clear_at(s, i + 1)) by {
            lemma_clear_step(s, i);
        }
        if run.level > 0 {
            lemma_only_text(s, i + 1, run, base, styles, font, bold, italic, cp);
        } else if is_break(s, i) {
            lemma_clear_step(s, i + 1);
            lemma_only_text(s, i + 2, run, base, styles, font, bold, italic, cp);
        } else if crate::text::is_control(s[i]) {
            lemma_only_text(s, i + 1, run, base, styles, font, bold, italic, cp);
        } else {
            let at = font_name(run.style.font);
            let slot = crate::ass::style::style_slot(run.style.bold, run.style.italic);
            lemma_noted_keeps(run.usages, at, slot, s[i] as u32, font, bold, italic, cp);
            let next = Run { usages: noted(run.usages, at, slot, s[i] as u32), ..run };
            if draws(next.usages, font, bold, italic, cp) {
                assert(!in_braces(s, i)) by {
                    if in_braces(s, i) {
                        let (j, m) = choose|j: int, m: int|
                            #![trigger s[j], s[m]]
                            0 <= j <= i <= m < s.len() && j < m && s[j] == '{' && s[m] == '}' && (
                            forall|x: int| j < x < i ==> s[x] != '}');
                        assert(j < i);
                    }
                }
                assert(s[i] as u32 == cp);
            } else {
                lemma_only_text(s, i + 1, next, base, styles, font, bold, italic, cp);
            }
        }
    }
}

proof fn lemma_clear_step(s: Seq<char>, i: int)
    requires
        0 <= i < s.len(),
        clear_at(s, i),
        s[i] == '{' ==> forall|m: int| i < m < s.len() ==> s[m] != '}',
    ensures
        clear_at(s, i + 1),
{
    assert forall|j: int, m: int|
        #![trigger s[j], s[m]]
        0 <= j < i + 1 <= m < s.len() && s[j] == '{' && s[m] == '}' implies exists|x: int|
        j < x < i + 1 && s[x] == '}' by {
        if j < i {
            let x = choose|x: int| j < x < i && s[x] == '}';
            assert(j < x < i + 1 && s[x] == '}');
        }
    }
}

/// What a text adds to the fonts stands in it outside braces: no tag, no drawing
/// command between braces, no control character and no break is ever drawn.
pub proof fn law_only_text_drawn(
    s: Seq<char>,
    base: StyleView,
    styles: Seq<(Seq<char>, StyleView)>,
    usages: Seq<(Seq<char>, UsageView)>,
    font: Seq<char>,
    bold: bool,
    italic: bool,
    cp: u32,
)
    requires
        draws(dialogue(s, base, styles, usages).usages, font, bold, italic, cp),
        !draws(usages, font, bold, italic, cp),
    ensures
        exists|k: int|
            #![trigger s[k]]
            0 <= k < s.len() && s[k] as u32 == cp && is_shown(s[k]) && !in_braces(s, k)
                && !is_break(s, k),
{
    let run = Run { style: base, level: 0, drawings: 0, usages };
    lemma_only_text(s, 0, run, base, styles, font, bold, italic, cp);
}

/// A text without braces is drawn in the style of its line from its first
/// character to its last, breaks left out, and opens no drawing.
pub proof fn law_plain_text_drawn(
    s: Seq<char>,
    k: int,
    base: StyleView,
    styles: Seq<(Seq<char>, StyleView)>,
    usages: Seq<(Seq<char>, UsageView)>,
)
    requires
        forall|x: int| 0 <= x < s.len() ==> s[x] != '{',
        0 <= k < s.len(),
        !is_break(s, k),
        !is_break(s, k - 1),
        is_shown(s[k]),
    ensures
        draws(
            dialogue(s, base, styles, usages).usages,
            font_name(base.font),
            base.bold,
            base.italic,
            s[k] as u32,
        ),
        dialogue(s, base, styles, usages).drawings == 0,
{
    let run = Run { style: base, level: 0, drawings: 0, usages };
    lemma_plain_state(s, 0, run, base, styles);
    lemma_plain_state(s.take(k), 0, run, base, styles);
    law_every_character_drawn(s, k, base, styles, usages);
}

proof fn lemma_plain_state(
    s: Seq<char>,
    i: int,
    run: Run,
    base: StyleView,
    styles: Seq<(Seq<char>, StyleView)>,
)
    requires
        forall|x: int| 0 <= x < s.len() ==> s[x] != '{',
    ensures
        dialogue_from(s, i, run, base, styles).style == run.style,
        dialogue_from(s, i, run, base, styles).level == run.level,
        dialogue_from(s, i, run, base, styles).drawings == run.drawings,
        run.level > 0 ==> dialogue_from(s, i, run, base, styles).usages == run.usages,
    decreases s.len() - i,
{
    if 0 <= i < s.len() {
        if run.level > 0 {
            lemma_plain_state(s, i + 1, run, base, styles);
        } else if is_break(s, i) {
            lemma_plain_state(s, i + 2, run, base, styles);
        } else if crate::text::is_control(s[i]) {
            lemma_plain_state(s, i + 1, run, base, styles);
        } else {
            let at = font_name(run.style.font);
            let slot = crate::ass::style::style_slot(run.style.bold, run.style.italic);
            let next = Run { usages: noted(run.usages, at, slot, s[i] as u32), ..run };
            lemma_plain_state(s, i + 1, next, base, styles);
        }
    }
}

/// Both rows of a text with a line break in it are drawn in the style of the
/// line, and so are the texts on both sides of a hard space.
pub proof fn law_both_rows_drawn(
    a: Seq<char>,
    c: char,
    b: Seq<char>,
    base: StyleView,
    styles: Seq<(Seq<char>, StyleView)>,
    usages: Seq<(Seq<char>, UsageView)>,
)
    requires
        c == 'N' || c == 'n' || c == 'h',
        forall|x: int| 0 <= x < a.len() ==> a[x] != '{' && a[x] != '\\',
        forall|x: int| 0 <= x < b.len() ==> b[x] != '{' && b[x] != '\\',
    ensures
        forall|k: int|
            0 <= k < a.len() && is_shown(#[trigger] a[k]) ==> draws(
                dialogue(a + seq!['\\', c] + b, base, styles, usages).usages,
                font_name(base.font),
                base.bold,
                base.italic,
                a[k] as u32,
            ),
        forall|k: int|
            0 <= k < b.len() && is_shown(#[trigger] b[k]) ==> draws(
                dialogue(a + seq!['\\', c] + b, base, styles, usages).usages,
                font_name(base.font),
                base.bold,
                base.italic,
                b[k] as u32,
            ),
{
    let s = a + seq!['\\', c] + b;
    let n = a.len() as int;
    assert forall|x: int| 0 <= x < s.len() implies s[x] != '{' by {
        if x < n {
            assert(s[x] == a[x]);
        } else if x >= n + 2 {
            assert(s[x] == b[x - n - 2]);
        }
    }
    assert forall|k: int| 0 <= k < a.len() && is_shown(#[trigger] a[k]) implies draws(
        dialogue(s, base, styles, usages).usages,
        font_name(base.font),
        base.bold,
        base.italic,
        a[k] as u32,
    ) by {
        assert(s[k] == a[k]);
        assert(k > 0 ==> s[k - 1] == a[k - 1]);
        law_plain_text_drawn(s, k, base, styles, usages);
    }
    assert forall|k: int| 0 <= k < b.len() && is_shown(#[trigger] b[k]) implies draws(
        dialogue(s, base, styles, usages).usages,
        font_name(base.font),
        base.bold,
        base.italic,
        b[k] as u32,
    ) by {
        assert(s[n + 2 + k] == b[k]);
        assert(s[n + 1] == c);
        assert(k > 0 ==> s[n + 1 + k] == b[k - 1]);
        law_plain_text_drawn(s, n + 2 + k, base, styles, usages);
    }
}

/// While a drawing is open, nothing outside braces is drawn as text, up to the
/// next braces.
pub proof fn law_drawing_commands_not_drawn(
    a: Seq<char>,
    d: Seq<char>,
    base: StyleView,
    styles: Seq<(Seq<char>, StyleView)>,
    usages: Seq<(Seq<char>, UsageView)>,
)
    requires
        dialogue(a, base, styles, usages).level > 0,
        forall|x: int| 0 <= x < d.len() ==> d[x] != '{' && d[x] != '}',
        !is_break(a + d, a.len() - 1),
    ensures
        dialogue(a + d, base, styles, usages) == dialogue(a, base, styles, usages),
{
    let s = a + d;
    assert(!in_braces(s, a.len() as int)) by {
        assert forall|m: int| a.len() <= m < s.len() implies s[m] != '}' by {
            assert(s[m] == d[m - a.len()]);
        }
    }
    law_text_read_to_its_end(a, d, base, styles, usages);
    lemma_plain_state(d, 0, dialogue(a, base, styles, usages), base, styles);
}

} // verus!
