//! What the override tags do to the style and the drawing level of the text that
//! follows them.
use vstd::prelude::*;

use crate::ass::style::StyleView;
use crate::ass::tags::{after_tags, lemma_tag_arg, tag_arg, tags_from, TagState};
use crate::line_laws::lemma_trim_is;
use crate::number::{decimal, law_decimal_read_back, lemma_decimal, signed};
use crate::strmap::lookup;
use crate::text::{
    find_from, is_digit, is_white, lemma_find_from, lemma_find_is, lowered, trim,
};

verus! {

/// What may follow a tag: nothing, or another tag.
pub open spec fn next_tag(rest: Seq<char>) -> bool {
    rest.len() == 0 || rest[0] == '\\'
}

/// An argument that stands in no brackets and ends where the next tag starts.
pub open spec fn bare(arg: Seq<char>) -> bool {
    &&& arg.len() > 0 ==> arg[0] != '('
    &&& forall|x: int| 0 <= x < arg.len() ==> arg[x] != '\\'
}

/// A text with no white space at its ends.
pub open spec fn unspaced(s: Seq<char>) -> bool {
    s.len() > 0 ==> !is_white(s[0]) && !is_white(s.last())
}

pub proof fn lemma_bare_arg(head: Seq<char>, arg: Seq<char>, rest: Seq<char>)
    requires
        bare(arg),
        next_tag(rest),
    ensures
        tag_arg(head + arg + rest, head.len() as int) == (trim(arg), (head.len() + arg.len()) as int),
{
    let tag = head + arg + rest;
    let n = head.len() as int;
    let e = n + arg.len();
    assert forall|x: int| n <= x < e implies tag[x] != '\\' by {
        assert(tag[x] == arg[x - n]);
    }
    if rest.len() > 0 {
        assert(tag[e] == rest[0]);
    }
    if arg.len() > 0 {
        assert(tag[n] == arg[0]);
    }
    lemma_find_is(tag, '\\', n, e);
    assert(tag.subrange(n, e) =~= arg);
}

proof fn lemma_arg_behind(a: Seq<char>, b: Seq<char>, i: int)
    requires
        0 <= i <= b.len(),
    ensures
        tag_arg(a + b, a.len() + i) == (tag_arg(b, i).0, a.len() + tag_arg(b, i).1),
{
    let s = a + b;
    let n = a.len() as int;
    lemma_find_from(b, '\\', i);
    let end = find_from(b, '\\', i);
    assert forall|x: int| n + i <= x < n + end implies s[x] != '\\' by {
        assert(s[x] == b[x - n]);
    }
    lemma_find_is(s, '\\', n + i, n + end);
    assert(s.subrange(n + i, n + end) =~= b.subrange(i, end));
    if i < b.len() {
        assert(s[n + i] == b[i]);
        lemma_find_from(b, ')', i + 1);
        let close = find_from(b, ')', i + 1);
        assert forall|x: int| n + i + 1 <= x < n + close implies s[x] != ')' by {
            assert(s[x] == b[x - n]);
        }
        lemma_find_is(s, ')', n + i + 1, n + close);
        if close < b.len() {
            assert(s.subrange(n + i + 1, n + close) =~= b.subrange(i + 1, close));
        }
    }
}

/// The tags from a place on are read as tags of their own.
proof fn lemma_tags_behind(
    a: Seq<char>,
    b: Seq<char>,
    i: int,
    st: TagState,
    base: StyleView,
    styles: Seq<(Seq<char>, StyleView)>,
)
    requires
        0 <= i <= b.len(),
    ensures
        tags_from(a + b, a.len() + i, st, base, styles) == tags_from(b, i, st, base, styles),
    decreases b.len() - i,
{
    let s = a + b;
    let n = a.len() as int;
    if i < b.len() {
        assert(s[n + i] == b[i]);
        if b[i] != '\\' {
            lemma_tags_behind(a, b, i + 1, st, base, styles);
        } else {
            let j = i + 1;
            assert(j < b.len() ==> s[n + j] == b[j]);
            assert(j + 1 < b.len() ==> s[n + j + 1] == b[j + 1]);
            lemma_find_from(b, '\\', j);
            let next = find_from(b, '\\', j);
            assert forall|x: int| n + j <= x < n + next implies s[x] != '\\' by {
                assert(s[x] == b[x - n]);
            }
            lemma_find_is(s, '\\', n + j, n + next);
            if j + 1 < b.len() && b[j] == 'f' && b[j + 1] == 'n' {
                lemma_arg_behind(a, b, j + 2);
                lemma_tag_arg(b, j + 2);
                let (arg, k) = tag_arg(b, j + 2);
                let to = TagState { style: crate::ass::tags::after_fn(st.style, arg), ..st };
                lemma_tags_behind(a, b, k, to, base, styles);
            } else if j < b.len() && b[j] == 'r' {
                lemma_arg_behind(a, b, j + 1);
                lemma_tag_arg(b, j + 1);
                let (arg, k) = tag_arg(b, j + 1);
                let to = TagState {
                    style: crate::ass::tags::after_reset(st.style, arg, base, styles),
                    ..st
                };
                lemma_tags_behind(a, b, k, to, base, styles);
            } else if j < b.len() && b[j] == 'b' {
                lemma_arg_behind(a, b, j + 1);
                lemma_tag_arg(b, j + 1);
                let (arg, k) = tag_arg(b, j + 1);
                let style = StyleView {
                    bold: crate::ass::tags::after_bold(st.style.bold, arg),
                    ..st.style
                };
                lemma_tags_behind(a, b, k, TagState { style, ..st }, base, styles);
            } else if j < b.len() && b[j] == 'i' {
                lemma_arg_behind(a, b, j + 1);
                lemma_tag_arg(b, j + 1);
                let (arg, k) = tag_arg(b, j + 1);
                let style = StyleView {
                    italic: crate::ass::style::boolish(trim(arg)),
                    ..st.style
                };
                lemma_tags_behind(a, b, k, TagState { style, ..st }, base, styles);
            } else if j < b.len() && b[j] == 'p' {
                lemma_arg_behind(a, b, j + 1);
                lemma_tag_arg(b, j + 1);
                let (arg, k) = tag_arg(b, j + 1);
                let to = TagState { level: crate::ass::tags::after_level(arg), ..st };
                lemma_tags_behind(a, b, k, to, base, styles);
            } else {
                lemma_tags_behind(a, b, next, st, base, styles);
            }
        }
    }
}

/// One tag with a bare argument, and what follows it.
proof fn lemma_one_tag(
    head: Seq<char>,
    arg: Seq<char>,
    rest: Seq<char>,
    to: TagState,
    base: StyleView,
    styles: Seq<(Seq<char>, StyleView)>,
)
    requires
        bare(arg),
        next_tag(rest),
    ensures
        tag_arg(head + arg + rest, head.len() as int) == (trim(arg), (head.len() + arg.len()) as int),
        tags_from(head + arg + rest, (head.len() + arg.len()) as int, to, base, styles)
            == after_tags(rest, to, base, styles),
{
    lemma_bare_arg(head, arg, rest);
    lemma_tags_behind(head + arg, rest, 0, to, base, styles);
}

proof fn lemma_unspaced(s: Seq<char>)
    requires
        unspaced(s),
    ensures
        trim(s) == s,
{
    lemma_trim_is(s, 0, s.len() as int);
    assert(s.subrange(0, s.len() as int) =~= s);
}

/// A number in decimal stands bare and is read back.
pub proof fn lemma_number_arg(n: nat)
    requires
        n <= 0x7fff_ffff,
    ensures
        bare(decimal(n)),
        trim(decimal(n)) == decimal(n),
        decimal(n).len() > 0,
        signed(decimal(n)) == Some(n as int),
{
    lemma_decimal(n);
    law_decimal_read_back(n, 0x7fff_ffff);
    let d = decimal(n);
    assert(is_digit(d[0]));
    assert(is_digit(d[d.len() - 1]));
    assert forall|x: int| 0 <= x < d.len() implies d[x] != '\\' by {
        assert(is_digit(d[x]));
    }
    lemma_unspaced(d);
}

// ---------------------------------------------------------------------------
// Laws
// ---------------------------------------------------------------------------
/// `\fn` and a name sets the font of the text that follows and nothing else.
pub proof fn law_font_tag(
    name: Seq<char>,
    rest: Seq<char>,
    st: TagState,
    base: StyleView,
    styles: Seq<(Seq<char>, StyleView)>,
)
    requires
        name.len() > 0,
        unspaced(name),
        bare(name),
        name[0] != '@',
        name != seq!['0'],
        next_tag(rest),
    ensures
        after_tags(seq!['\\', 'f', 'n'] + name + rest, st, base, styles) == after_tags(
            rest,
            TagState { style: StyleView { font: name, ..st.style }, level: st.level },
            base,
            styles,
        ),
{
    reveal_strlit("0");
    assert("0"@ =~= seq!['0']);
    let head = seq!['\\', 'f', 'n'];
    let tag = head + name + rest;
    let to = TagState { style: StyleView { font: name, ..st.style }, level: st.level };
    lemma_one_tag(head, name, rest, to, base, styles);
    assert(tag[0] == '\\' && tag[1] == 'f' && tag[2] == 'n');
    crate::ass::style::law_plain_name(name);
    lemma_unspaced(name);
}

/// `\b` and a number makes the text that follows bold where the number is 1 or a
/// weight of 600 or more, and not bold otherwise.
pub proof fn law_bold_tag(
    n: nat,
    rest: Seq<char>,
    st: TagState,
    base: StyleView,
    styles: Seq<(Seq<char>, StyleView)>,
)
    requires
        n <= 0x7fff_ffff,
        next_tag(rest),
    ensures
        after_tags(seq!['\\', 'b'] + decimal(n) + rest, st, base, styles) == after_tags(
            rest,
            TagState { style: StyleView { bold: n == 1 || n >= 600, ..st.style }, level: st.level },
            base,
            styles,
        ),
        after_tags(seq!['\\', 'b'] + rest, st, base, styles) == after_tags(
            rest,
            TagState { style: StyleView { bold: true, ..st.style }, level: st.level },
            base,
            styles,
        ),
{
    let head = seq!['\\', 'b'];
    let to = TagState { style: StyleView { bold: n == 1 || n >= 600, ..st.style }, level: st.level };
    lemma_number_arg(n);
    lemma_one_tag(head, decimal(n), rest, to, base, styles);
    let tag = head + decimal(n) + rest;
    assert(tag[0] == '\\' && tag[1] == 'b');
    let on = TagState { style: StyleView { bold: true, ..st.style }, level: st.level };
    let none = Seq::<char>::empty();
    lemma_one_tag(head, none, rest, on, base, styles);
    assert(head + none + rest =~= head + rest);
    let bare_tag = head + rest;
    assert(bare_tag[0] == '\\' && bare_tag[1] == 'b');
    lemma_unspaced(none);
}

/// `\i` and a number makes the text that follows italic where the number is not
/// zero, and upright where it is.
pub proof fn law_italic_tag(
    n: nat,
    rest: Seq<char>,
    st: TagState,
    base: StyleView,
    styles: Seq<(Seq<char>, StyleView)>,
)
    requires
        n <= 0x7fff_ffff,
        next_tag(rest),
    ensures
        after_tags(seq!['\\', 'i'] + decimal(n) + rest, st, base, styles) == after_tags(
            rest,
            TagState { style: StyleView { italic: n != 0, ..st.style }, level: st.level },
            base,
            styles,
        ),
{
    let head = seq!['\\', 'i'];
    let to = TagState { style: StyleView { italic: n != 0, ..st.style }, level: st.level };
    lemma_number_arg(n);
    lemma_one_tag(head, decimal(n), rest, to, base, styles);
    let tag = head + decimal(n) + rest;
    assert(tag[0] == '\\' && tag[1] == 'i');
}

/// `\p` and a number opens a drawing where the number is not zero, and closes it
/// where it is.
pub proof fn law_drawing_tag(
    n: nat,
    rest: Seq<char>,
    st: TagState,
    base: StyleView,
    styles: Seq<(Seq<char>, StyleView)>,
)
    requires
        n <= 0x7fff_ffff,
        next_tag(rest),
    ensures
        after_tags(seq!['\\', 'p'] + decimal(n) + rest, st, base, styles) == after_tags(
            rest,
            TagState { style: st.style, level: n as int },
            base,
            styles,
        ),
{
    let head = seq!['\\', 'p'];
    let to = TagState { style: st.style, level: n as int };
    lemma_number_arg(n);
    lemma_one_tag(head, decimal(n), rest, to, base, styles);
    let tag = head + decimal(n) + rest;
    assert(tag[0] == '\\' && tag[1] == 'p');
}

/// `\r` goes back to the style of the line, and with the name of a style to that
/// style; a name that no style has changes nothing.
pub proof fn law_reset_tag(
    name: Seq<char>,
    rest: Seq<char>,
    st: TagState,
    base: StyleView,
    styles: Seq<(Seq<char>, StyleView)>,
)
    requires
        unspaced(name),
        bare(name),
        next_tag(rest),
    ensures
        after_tags(seq!['\\', 'r'] + name + rest, st, base, styles) == after_tags(
            rest,
            TagState {
                style: if name.len() == 0 {
                    base
                } else if lookup(styles, name) is Some {
                    lookup(styles, name)->0
                } else {
                    st.style
                },
                level: st.level,
            },
            base,
            styles,
        ),
{
    let head = seq!['\\', 'r'];
    let style = if name.len() == 0 {
        base
    } else if lookup(styles, name) is Some {
        lookup(styles, name)->0
    } else {
        st.style
    };
    let to = TagState { style, level: st.level };
    lemma_one_tag(head, name, rest, to, base, styles);
    lemma_unspaced(name);
    let tag = head + name + rest;
    assert(tag[0] == '\\' && tag[1] == 'r');
}

/// A tag that starts with none of these letters changes neither the style nor the
/// drawing level, and the tags that follow it are read.
pub proof fn law_other_tag(
    word: Seq<char>,
    rest: Seq<char>,
    st: TagState,
    base: StyleView,
    styles: Seq<(Seq<char>, StyleView)>,
)
    requires
        forall|x: int| 0 <= x < word.len() ==> word[x] != '\\',
        word.len() > 0 ==> word[0] != 'r' && word[0] != 'b' && word[0] != 'i' && word[0] != 'p',
        word.len() > 1 ==> !(word[0] == 'f' && word[1] == 'n'),
        next_tag(rest),
    ensures
        after_tags(seq!['\\'] + word + rest, st, base, styles) == after_tags(
            rest,
            st,
            base,
            styles,
        ),
{
    let head = seq!['\\'];
    let tag = head + word + rest;
    let e = 1 + word.len();
    assert(tag[0] == '\\');
    assert forall|x: int| 1 <= x < e implies tag[x] != '\\' by {
        assert(tag[x] == word[x - 1]);
    }
    if rest.len() > 0 {
        assert(tag[e as int] == rest[0]);
    }
    assert(word.len() > 0 ==> tag[1] == word[0]);
    assert(word.len() > 1 ==> tag[2] == word[1]);
    lemma_find_is(tag, '\\', 1, e as int);
    lemma_tags_behind(head + word, rest, 0, st, base, styles);
}

/// What stands between braces before the first tag is a remark: it changes
/// nothing.
pub proof fn law_remark_ignored(
    text: Seq<char>,
    rest: Seq<char>,
    st: TagState,
    base: StyleView,
    styles: Seq<(Seq<char>, StyleView)>,
)
    requires
        forall|x: int| 0 <= x < text.len() ==> text[x] != '\\',
    ensures
        after_tags(text + rest, st, base, styles) == after_tags(rest, st, base, styles),
{
    lemma_remark(text + rest, 0, text.len() as int, st, base, styles);
    lemma_tags_behind(text, rest, 0, st, base, styles);
}

proof fn lemma_remark(
    tag: Seq<char>,
    i: int,
    n: int,
    st: TagState,
    base: StyleView,
    styles: Seq<(Seq<char>, StyleView)>,
)
    requires
        0 <= i <= n <= tag.len(),
        forall|x: int| 0 <= x < n ==> tag[x] != '\\',
    ensures
        tags_from(tag, i, st, base, styles) == tags_from(tag, n, st, base, styles),
    decreases n - i,
{
    if i < n {
        lemma_remark(tag, i + 1, n, st, base, styles);
    }
}

/// `\fn` without a name, or with `0`, keeps the font.
pub proof fn law_font_kept(
    rest: Seq<char>,
    st: TagState,
    base: StyleView,
    styles: Seq<(Seq<char>, StyleView)>,
)
    requires
        next_tag(rest),
    ensures
        after_tags(seq!['\\', 'f', 'n'] + rest, st, base, styles) == after_tags(
            rest,
            st,
            base,
            styles,
        ),
        after_tags(seq!['\\', 'f', 'n', '0'] + rest, st, base, styles) == after_tags(
            rest,
            st,
            base,
            styles,
        ),
{
    reveal_strlit("0");
    let zero = seq!['0'];
    assert("0"@ =~= zero);
    let head = seq!['\\', 'f', 'n'];
    let none = Seq::<char>::empty();
    lemma_one_tag(head, none, rest, st, base, styles);
    assert(head + none + rest =~= head + rest);
    let tag = head + rest;
    assert(tag[0] == '\\' && tag[1] == 'f' && tag[2] == 'n');
    crate::ass::style::law_plain_name(none);
    lemma_unspaced(none);
    lemma_one_tag(head, zero, rest, st, base, styles);
    let other = head + zero + rest;
    assert(other =~= seq!['\\', 'f', 'n', '0'] + rest);
    assert(other[0] == '\\' && other[1] == 'f' && other[2] == 'n');
    crate::ass::style::law_plain_name(zero);
    lemma_unspaced(zero);
}

/// A word that is no number leaves the weight as it is, makes the text upright
/// unless it is a word for yes, and closes a drawing.
pub proof fn law_word_in_tag(
    word: Seq<char>,
    rest: Seq<char>,
    st: TagState,
    base: StyleView,
    styles: Seq<(Seq<char>, StyleView)>,
)
    requires
        word.len() > 0,
        unspaced(word),
        bare(word),
        signed(word) is None,
        next_tag(rest),
    ensures
        after_tags(seq!['\\', 'b'] + word + rest, st, base, styles) == after_tags(
            rest,
            st,
            base,
            styles,
        ),
        after_tags(seq!['\\', 'i'] + word + rest, st, base, styles) == after_tags(
            rest,
            TagState {
                style: StyleView {
                    italic: lowered(word) == "true"@ || lowered(word) == "yes"@ || lowered(word)
                        == "on"@,
                    ..st.style
                },
                level: st.level,
            },
            base,
            styles,
        ),
        after_tags(seq!['\\', 'p'] + word + rest, st, base, styles) == after_tags(
            rest,
            TagState { style: st.style, level: 0 },
            base,
            styles,
        ),
{
    lemma_unspaced(word);
    let (b, i, p) = (seq!['\\', 'b'], seq!['\\', 'i'], seq!['\\', 'p']);
    let italic = lowered(word) == "true"@ || lowered(word) == "yes"@ || lowered(word) == "on"@;
    let to = TagState { style: StyleView { italic, ..st.style }, level: st.level };
    let off = TagState { style: st.style, level: 0 };
    lemma_one_tag(b, word, rest, st, base, styles);
    lemma_one_tag(i, word, rest, to, base, styles);
    lemma_one_tag(p, word, rest, off, base, styles);
    let (x, y, z) = (b + word + rest, i + word + rest, p + word + rest);
    assert(x[0] == '\\' && x[1] == 'b');
    assert(y[0] == '\\' && y[1] == 'i');
    assert(z[0] == '\\' && z[1] == 'p');
}

/// The argument of a tag may stand in round brackets, and is what stands between
/// them; what follows the closing bracket is read as tags again.
pub proof fn law_argument_in_brackets(
    n: nat,
    rest: Seq<char>,
    st: TagState,
    base: StyleView,
    styles: Seq<(Seq<char>, StyleView)>,
)
    requires
        n <= 0x7fff_ffff,
    ensures
        after_tags(seq!['\\', 'p', '('] + decimal(n) + seq![')'] + rest, st, base, styles)
            == after_tags(rest, TagState { style: st.style, level: n as int }, base, styles),
{
    let d = decimal(n);
    let head = seq!['\\', 'p', '('];
    let front = head + d + seq![')'];
    let tag = front + rest;
    lemma_number_arg(n);
    lemma_decimal(n);
    let e = (3 + d.len()) as int;
    assert forall|x: int| 3 <= x < e implies tag[x] != ')' by {
        assert(tag[x] == d[x - 3]);
        assert(is_digit(d[x - 3]));
    }
    assert(tag[e] == ')');
    lemma_find_is(tag, ')', 3, e);
    assert(tag[0] == '\\' && tag[1] == 'p' && tag[2] == '(');
    assert(tag.subrange(3, e) =~= d);
    let to = TagState { style: st.style, level: n as int };
    lemma_tags_behind(front, rest, 0, to, base, styles);
}

} // verus!
