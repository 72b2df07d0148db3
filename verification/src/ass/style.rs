//! Font names and the style that a run of text has.
use vstd::prelude::*;

use crate::models::FontSlot;
use crate::number::{decimal, law_decimal_read_back, lemma_decimal, parse_signed, signed};
use crate::line_laws::{lemma_cut_front_is, lemma_trim_around, lemma_trim_is};
use crate::text::{
    cut_back, cut_both, cut_front, cut_start, cut_start_chars, is_digit, is_text, is_white, lemma_cut_back,
    lemma_cut_front, lower, lower_chars, lowered, to_chars, to_text, trim, trim_chars, Cut,
};

verus! {

/// The font and the slant and weight of a style, or of a point in a text.
#[derive(Clone, Debug)]
pub struct StyleInfo {
    pub font: String,
    pub bold: bool,
    pub italic: bool,
}

#[verifier::ext_equal]
pub struct StyleView {
    pub font: Seq<char>,
    pub bold: bool,
    pub italic: bool,
}

impl View for StyleInfo {
    type V = StyleView;

    open spec fn view(&self) -> StyleView {
        StyleView { font: self.font@, bold: self.bold, italic: self.italic }
    }
}

impl Default for StyleInfo {
    fn default() -> (r: Self)
        ensures
            r@ == (StyleView { font: seq![], bold: false, italic: false }),
    {
        let r = StyleInfo { font: String::new(), bold: false, italic: false };
        assert(r.font@ =~= seq![]);
        r
    }
}

pub fn copy_style(s: &StyleInfo) -> (r: StyleInfo)
    ensures
        r@ == s@,
{
    StyleInfo { font: s.font.clone(), bold: s.bold, italic: s.italic }
}

/// A font name without white space around it and without the mark of vertical
/// text in front.
pub open spec fn font_name(s: Seq<char>) -> Seq<char> {
    trim(cut_start(trim(s), Cut::At))
}

/// The form of a font name under which it is looked up.
pub open spec fn lookup_name(s: Seq<char>) -> Seq<char> {
    lowered(font_name(s))
}

pub fn norm_font_chars<'a>(s: &'a [char]) -> (r: &'a [char])
    ensures
        r@ == font_name(s@),
{
    trim_chars(cut_start_chars(trim_chars(s), Cut::At))
}

pub fn norm_font(name: &str) -> (r: String)
    ensures
        r@ == font_name(name@),
{
    let v = to_chars(name);
    to_text(norm_font_chars(v.as_slice()))
}

pub fn lookup_name_chars(s: &[char]) -> (r: Vec<char>)
    ensures
        r@ == lookup_name(s@),
{
    lower_chars(norm_font_chars(s))
}

pub fn normalize_lookup_name(name: &str) -> (r: String)
    ensures
        r@ == lookup_name(name@),
{
    let v = to_chars(name);
    let l = lookup_name_chars(v.as_slice());
    to_text(l.as_slice())
}

/// The lookup names of the fonts that every system has.
pub open spec fn system_font(s: Seq<char>) -> bool {
    ||| s == "arial"@
    ||| s == "arial unicode ms"@
    ||| s == "times new roman"@
    ||| s == "courier new"@
    ||| s == "verdana"@
    ||| s == "tahoma"@
    ||| s == "microsoft yahei"@
    ||| s == "microsoft yahei ui"@
    ||| s == "simhei"@
    ||| s == "simsun"@
    ||| s == "ms gothic"@
    ||| s == "meiryo"@
    ||| s == "malgun gothic"@
}

pub fn is_system_font(name: &str) -> (r: bool)
    ensures
        r == system_font(lookup_name(name@)),
{
    let v = to_chars(name);
    let l = lookup_name_chars(v.as_slice());
    let s = l.as_slice();
    is_text(s, "arial") || is_text(s, "arial unicode ms") || is_text(s, "times new roman")
        || is_text(s, "courier new") || is_text(s, "verdana") || is_text(s, "tahoma") || is_text(
        s,
        "microsoft yahei",
    ) || is_text(s, "microsoft yahei ui") || is_text(s, "simhei") || is_text(s, "simsun")
        || is_text(s, "ms gothic") || is_text(s, "meiryo") || is_text(s, "malgun gothic")
}

/// The slot of a style.
pub open spec fn style_slot(bold: bool, italic: bool) -> FontSlot {
    if bold && italic {
        FontSlot::BoldItalic
    } else if bold {
        FontSlot::Bold
    } else if italic {
        FontSlot::Italic
    } else {
        FontSlot::Normal
    }
}

pub fn slot_for_state(state: &StyleInfo) -> (r: FontSlot)
    ensures
        r == style_slot(state.bold, state.italic),
{
    if state.bold && state.italic {
        FontSlot::BoldItalic
    } else if state.bold {
        FontSlot::Bold
    } else if state.italic {
        FontSlot::Italic
    } else {
        FontSlot::Normal
    }
}

/// Whether a style field says yes: a number other than zero, or a word for it.
pub open spec fn boolish(s: Seq<char>) -> bool {
    let t = trim(s);
    match signed(t) {
        Some(n) => n != 0,
        None => lowered(t) == "true"@ || lowered(t) == "yes"@ || lowered(t) == "on"@,
    }
}

pub fn boolish_chars(s: &[char]) -> (r: bool)
    ensures
        r == boolish(s@),
{
    let t = trim_chars(s);
    match parse_signed(t) {
        Some(n) => n != 0,
        None => {
            let l = lower_chars(t);
            let w = l.as_slice();
            is_text(w, "true") || is_text(w, "yes") || is_text(w, "on")
        },
    }
}

pub fn parse_boolish_style(v: &str) -> (r: bool)
    ensures
        r == boolish(v@),
{
    let c = to_chars(v);
    boolish_chars(c.as_slice())
}

// ---------------------------------------------------------------------------
// Laws
// ---------------------------------------------------------------------------
/// The slot of a style is bold or italic exactly where the style is.
pub proof fn law_slot_follows_style(bold: bool, italic: bool)
    ensures
        style_slot(bold, italic).is_bold() == bold,
        style_slot(bold, italic).is_italic() == italic,
{
}

/// No class that is trimmed tells letters apart.
proof fn lemma_same_class(c: char, d: char, k: Cut)
    requires
        lower(c) == lower(d),
    ensures
        k.has(c) == k.has(d),
{
}

proof fn lemma_same_front(a: Seq<char>, b: Seq<char>, k: Cut, i: int)
    requires
        lowered(a) == lowered(b),
        0 <= i <= a.len(),
    ensures
        cut_front(a, k, i) == cut_front(b, k, i),
    decreases a.len() - i,
{
    assert(a.len() == lowered(a).len() == lowered(b).len() == b.len());
    if i < a.len() {
        assert(lowered(a)[i] == lower(a[i]) && lowered(b)[i] == lower(b[i]));
        lemma_same_class(a[i], b[i], k);
        lemma_same_front(a, b, k, i + 1);
    }
}

proof fn lemma_same_back(a: Seq<char>, b: Seq<char>, k: Cut, j: int)
    requires
        lowered(a) == lowered(b),
        0 <= j <= a.len(),
    ensures
        cut_back(a, k, j) == cut_back(b, k, j),
    decreases j,
{
    assert(a.len() == lowered(a).len() == lowered(b).len() == b.len());
    if j > 0 {
        assert(lowered(a)[j - 1] == lower(a[j - 1]) && lowered(b)[j - 1] == lower(b[j - 1]));
        lemma_same_class(a[j - 1], b[j - 1], k);
        lemma_same_back(a, b, k, j - 1);
    }
}

proof fn lemma_same_cut(a: Seq<char>, b: Seq<char>, k: Cut)
    requires
        lowered(a) == lowered(b),
    ensures
        lowered(cut_start(a, k)) == lowered(cut_start(b, k)),
        lowered(cut_both(a, k)) == lowered(cut_both(b, k)),
{
    assert(a.len() == lowered(a).len() == lowered(b).len() == b.len());
    lemma_same_front(a, b, k, 0);
    lemma_cut_front(a, k, 0);
    let n = cut_front(a, k, 0);
    let (c, d) = (a.skip(n), b.skip(n));
    assert forall|i: int| 0 <= i < c.len() implies lower(#[trigger] c[i]) == lower(d[i]) by {
        assert(lowered(a)[n + i] == lower(a[n + i]) && lowered(b)[n + i] == lower(b[n + i]));
    }
    assert(lowered(c) =~= lowered(d));
    lemma_same_back(c, d, k, c.len() as int);
    lemma_cut_back(c, k, c.len() as int);
    let m = cut_back(c, k, c.len() as int);
    assert forall|i: int| 0 <= i < m implies lower(#[trigger] c.take(m)[i]) == lower(
        d.take(m)[i],
    ) by {
        assert(lowered(c)[i] == lower(c[i]) && lowered(d)[i] == lower(d[i]));
    }
    assert(lowered(c.take(m)) =~= lowered(d.take(m)));
}

/// Fonts are looked up without regard to the case of ASCII letters.
pub proof fn law_lookup_ignores_case(a: Seq<char>, b: Seq<char>)
    requires
        lowered(a) == lowered(b),
    ensures
        lookup_name(a) == lookup_name(b),
{
    lemma_same_cut(a, b, Cut::White);
    lemma_same_cut(trim(a), trim(b), Cut::At);
    lemma_same_cut(cut_start(trim(a), Cut::At), cut_start(trim(b), Cut::At), Cut::White);
}

/// A name without white space at its ends and without the mark of vertical text
/// is taken as it stands.
pub proof fn law_plain_name(s: Seq<char>)
    requires
        s.len() > 0 ==> !is_white(s[0]) && !is_white(s.last()) && s[0] != '@',
    ensures
        font_name(s) == s,
        lookup_name(s) == lowered(s),
{
    lemma_trim_is(s, 0, s.len() as int);
    assert(s.subrange(0, s.len() as int) =~= s);
    lemma_cut_nothing_front(s);
}

/// The mark of vertical text in front of a name is no part of it.
pub proof fn law_vertical_mark_dropped(s: Seq<char>)
    requires
        s.len() > 0 ==> !is_white(s[0]) && !is_white(s.last()) && s[0] != '@',
    ensures
        font_name(seq!['@'] + s) == s,
        lookup_name(seq!['@'] + s) == lowered(s),
{
    let v = seq!['@'] + s;
    assert(v[0] == '@');
    if s.len() > 0 {
        assert(v[v.len() - 1] == s[s.len() - 1]);
        assert(v[1] == s[0]);
    }
    lemma_trim_is(v, 0, v.len() as int);
    assert(v.subrange(0, v.len() as int) =~= v);
    lemma_cut_front_is(v, Cut::At, 0, 1);
    assert(cut_start(v, Cut::At) =~= s);
    law_plain_name(s);
    lemma_cut_nothing_front(s);
}

proof fn lemma_cut_nothing_front(s: Seq<char>)
    requires
        s.len() > 0 ==> s[0] != '@',
    ensures
        cut_start(s, Cut::At) == s,
{
    lemma_cut_front_is(s, Cut::At, 0, 0);
    assert(cut_start(s, Cut::At) =~= s);
}

/// A number in a style field says yes where it is not zero, with a sign or
/// without.
pub proof fn law_number_says(n: nat)
    requires
        n <= 0x7fff_ffff,
    ensures
        boolish(decimal(n)) == (n != 0),
        boolish(seq!['-'] + decimal(n)) == (n != 0),
{
    lemma_decimal(n);
    law_decimal_read_back(n, 0x7fff_ffff);
    let d = decimal(n);
    let m = seq!['-'] + d;
    assert(is_digit(d[0]));
    assert(is_digit(d[d.len() - 1]));
    lemma_trim_is(d, 0, d.len() as int);
    assert(d.subrange(0, d.len() as int) =~= d);
    assert(m[0] == '-');
    assert(m[m.len() - 1] == d[d.len() - 1]);
    lemma_trim_is(m, 0, m.len() as int);
    assert(m.subrange(0, m.len() as int) =~= m);
    assert(m.skip(1) =~= d);
}

/// White space around a name does not change how it is looked up.
pub proof fn law_lookup_ignores_space(a: Seq<char>, s: Seq<char>, b: Seq<char>)
    requires
        forall|x: int| 0 <= x < a.len() ==> is_white(#[trigger] a[x]),
        forall|x: int| 0 <= x < b.len() ==> is_white(#[trigger] b[x]),
    ensures
        font_name(a + s + b) == font_name(s),
        lookup_name(a + s + b) == lookup_name(s),
{
    lemma_trim_around(a, s, b);
}

/// A word in a style field says yes where it is `true`, `yes` or `on`, in letters of
/// either case, and no otherwise.
pub proof fn law_word_says(s: Seq<char>)
    requires
        s.len() > 0,
        !is_white(s[0]),
        !is_white(s.last()),
        crate::number::signed(s) is None,
    ensures
        boolish(s) <==> lowered(s) == "true"@ || lowered(s) == "yes"@ || lowered(s) == "on"@,
{
    lemma_trim_is(s, 0, s.len() as int);
    assert(s.subrange(0, s.len() as int) =~= s);
}

/// The fonts that every system is taken to have, by their lookup names.
pub proof fn law_system_fonts(s: Seq<char>)
    ensures
        system_font("arial"@),
        system_font("arial unicode ms"@),
        system_font("times new roman"@),
        system_font("courier new"@),
        system_font("verdana"@),
        system_font("tahoma"@),
        system_font("microsoft yahei"@),
        system_font("microsoft yahei ui"@),
        system_font("simhei"@),
        system_font("simsun"@),
        system_font("ms gothic"@),
        system_font("meiryo"@),
        system_font("malgun gothic"@),
        system_font(s) ==> s == "arial"@ || s == "arial unicode ms"@ || s == "times new roman"@ || s == "courier new"@ || s == "verdana"@ || s == "tahoma"@ || s == "microsoft yahei"@ || s == "microsoft yahei ui"@ || s == "simhei"@ || s == "simsun"@ || s == "ms gothic"@ || s == "meiryo"@ || s == "malgun gothic"@,
{
}

} // verus!
