//! The override tags in a line of dialogue: what stands between braces.
use vstd::prelude::*;
use vstd::slice::{slice_subrange, slice_to_vec};

use crate::ass::style::{
    boolish, boolish_chars, copy_style, font_name, norm_font_chars, StyleInfo, StyleView,
};
use crate::number::{parse_signed, signed};
use crate::strmap::{lookup, StrMap};
use crate::text::{
    find_char_from, find_from, is_text, lemma_find_from, to_chars, to_text, trim, trim_chars,
};

verus! {

/// The argument of a tag that starts at `start`, and where the next tag may
/// start: the text in round brackets, or all up to the next backslash.
pub open spec fn tag_arg(tag: Seq<char>, start: int) -> (Seq<char>, int) {
    let close = find_from(tag, ')', start + 1);
    if start < tag.len() && tag[start] == '(' && close < tag.len() {
        (tag.subrange(start + 1, close), close + 1)
    } else {
        let end = find_from(tag, '\\', start);
        (trim(tag.subrange(start, end)), end)
    }
}

pub proof fn lemma_tag_arg(tag: Seq<char>, start: int)
    requires
        0 <= start <= tag.len(),
    ensures
        start <= tag_arg(tag, start).1 <= tag.len(),
{
    lemma_find_from(tag, '\\', start);
    if start < tag.len() {
        lemma_find_from(tag, ')', start + 1);
    }
}

pub fn tag_arg_chars(tag: &[char], start: usize) -> (r: (Vec<char>, usize))
    requires
        start <= tag@.len(),
    ensures
        r.0@ == tag_arg(tag@, start as int).0,
        r.1 == tag_arg(tag@, start as int).1,
        start <= r.1 <= tag@.len(),
{
    if start < tag.len() && tag[start] == '(' {
        let close = find_char_from(tag, ')', start + 1);
        if close < tag.len() {
            return (slice_to_vec(slice_subrange(tag, start + 1, close)), close + 1);
        }
    }
    let end = find_char_from(tag, '\\', start);
    (slice_to_vec(trim_chars(slice_subrange(tag, start, end))), end)
}

/// Reads the argument of the tag that starts at the given character.
pub fn read_tag_arg(s: &str, start: usize) -> (r: (String, usize))
    requires
        start <= s@.len(),
    ensures
        r.0@ == tag_arg(s@, start as int).0,
        r.1 == tag_arg(s@, start as int).1,
{
    let v = to_chars(s);
    let (arg, next) = tag_arg_chars(v.as_slice(), start);
    (to_text(arg.as_slice()), next)
}

/// The style and the drawing level at a point in a text.
#[verifier::ext_equal]
pub struct TagState {
    pub style: StyleView,
    pub level: int,
}

/// The style after `\fn`: a name, but not an empty one or `0`, changes the font.
pub open spec fn after_fn(style: StyleView, arg: Seq<char>) -> StyleView {
    let font = font_name(arg);
    if font.len() > 0 && font != "0"@ {
        StyleView { font, ..style }
    } else {
        style
    }
}

/// The style after `\r`: the style of the line, or the named style if there is one.
pub open spec fn after_reset(
    style: StyleView,
    arg: Seq<char>,
    base: StyleView,
    styles: Seq<(Seq<char>, StyleView)>,
) -> StyleView {
    let name = trim(arg);
    if name.len() == 0 {
        base
    } else {
        match lookup(styles, name) {
            Some(s) => s,
            None => style,
        }
    }
}

/// Whether the text is bold after `\b`: a switch or a weight.
pub open spec fn after_bold(bold: bool, arg: Seq<char>) -> bool {
    let v = trim(arg);
    if v.len() == 0 {
        true
    } else {
        match signed(v) {
            Some(n) => n >= 600 || n == 1 || n == -1,
            None => bold,
        }
    }
}

/// The drawing level after `\p`.
pub open spec fn after_level(arg: Seq<char>) -> int {
    match signed(trim(arg)) {
        Some(n) => n,
        None => 0,
    }
}

/// The state after the tags from `i` on.
pub open spec fn tags_from(
    tag: Seq<char>,
    i: int,
    st: TagState,
    base: StyleView,
    styles: Seq<(Seq<char>, StyleView)>,
) -> TagState
    decreases tag.len() - i,
{
    if !(0 <= i < tag.len()) {
        st
    } else if tag[i] != '\\' {
        tags_from(tag, i + 1, st, base, styles)
    } else {
        let j = i + 1;
        proof {
            lemma_find_from(tag, '\\', j);
            if j < tag.len() {
                lemma_tag_arg(tag, j + 1);
                if j + 1 < tag.len() {
                    lemma_tag_arg(tag, j + 2);
                }
            }
        }
        if j + 1 < tag.len() && tag[j] == 'f' && tag[j + 1] == 'n' {
            let (arg, next) = tag_arg(tag, j + 2);
            tags_from(tag, next, TagState { style: after_fn(st.style, arg), ..st }, base, styles)
        } else if j < tag.len() && tag[j] == 'r' {
            let (arg, next) = tag_arg(tag, j + 1);
            tags_from(
                tag,
                next,
                TagState { style: after_reset(st.style, arg, base, styles), ..st },
                base,
                styles,
            )
        } else if j < tag.len() && tag[j] == 'b' {
            let (arg, next) = tag_arg(tag, j + 1);
            let style = StyleView { bold: after_bold(st.style.bold, arg), ..st.style };
            tags_from(tag, next, TagState { style, ..st }, base, styles)
        } else if j < tag.len() && tag[j] == 'i' {
            let (arg, next) = tag_arg(tag, j + 1);
            let style = StyleView { italic: boolish(trim(arg)), ..st.style };
            tags_from(tag, next, TagState { style, ..st }, base, styles)
        } else if j < tag.len() && tag[j] == 'p' {
            let (arg, next) = tag_arg(tag, j + 1);
            tags_from(tag, next, TagState { level: after_level(arg), ..st }, base, styles)
        } else {
            tags_from(tag, find_from(tag, '\\', j), st, base, styles)
        }
    }
}

/// The state after all the tags between two braces.
pub open spec fn after_tags(
    tag: Seq<char>,
    st: TagState,
    base: StyleView,
    styles: Seq<(Seq<char>, StyleView)>,
) -> TagState {
    tags_from(tag, 0, st, base, styles)
}

/// Applies the tags between two braces to the style and the drawing level.
pub fn apply_override_tags(
    tag: &[char],
    state: &mut StyleInfo,
    base_style: &StyleInfo,
    styles: &StrMap<StyleInfo>,
    drawing_level: &mut i32,
)
    ensures
        (TagState { style: final(state)@, level: *final(drawing_level) as int }) == after_tags(
            tag@,
            TagState { style: old(state)@, level: *old(drawing_level) as int },
            base_style@,
            styles@,
        ),
{
    let n = tag.len();
    let mut i: usize = 0;
    let ghost want = after_tags(
        tag@,
        TagState { style: state@, level: *drawing_level as int },
        base_style@,
        styles@,
    );
    while i < n
        invariant
            i <= n == tag@.len(),
            tags_from(
                tag@,
                i as int,
                TagState { style: state@, level: *drawing_level as int },
                base_style@,
                styles@,
            ) == want,
        decreases n - i,
    {
        if tag[i] != '\\' {
            i = i + 1;
        } else {
            let j: usize = i + 1;
            if j < n && n - j > 1 && tag[j] == 'f' && tag[j + 1] == 'n' {
                let (arg, next) = tag_arg_chars(tag, j + 2);
                let font = norm_font_chars(arg.as_slice());
                if font.len() > 0 && !is_text(font, "0") {
                    state.font = to_text(font);
                }
                i = next;
            } else if j < n && tag[j] == 'r' {
                let (arg, next) = tag_arg_chars(tag, j + 1);
                let name = trim_chars(arg.as_slice());
                if name.len() == 0 {
                    *state = copy_style(base_style);
                } else {
                    let key = to_text(name);
                    match styles.get(key.as_str()) {
                        Some(s) => {
                            *state = copy_style(s);
                        },
                        None => {},
                    }
                }
                i = next;
            } else if j < n && tag[j] == 'b' {
                let (arg, next) = tag_arg_chars(tag, j + 1);
                let v = trim_chars(arg.as_slice());
                if v.len() == 0 {
                    state.bold = true;
                } else {
                    match parse_signed(v) {
                        Some(k) => {
                            state.bold = k >= 600 || k == 1 || k == -1;
                        },
                        None => {},
                    }
                }
                i = next;
            } else if j < n && tag[j] == 'i' {
                let (arg, next) = tag_arg_chars(tag, j + 1);
                state.italic = boolish_chars(trim_chars(arg.as_slice()));
                i = next;
            } else if j < n && tag[j] == 'p' {
                let (arg, next) = tag_arg_chars(tag, j + 1);
                match parse_signed(trim_chars(arg.as_slice())) {
                    Some(k) => {
                        *drawing_level = k;
                    },
                    None => {
                        *drawing_level = 0;
                    },
                }
                i = next;
            } else {
                i = find_char_from(tag, '\\', j);
            }
        }
    }
}

} // verus!
