//! Names of files in uploads and downloads.
use vstd::prelude::*;
use vstd::slice::slice_subrange;

use vstd::utf8::{encode_utf8, is_ascii_chars, is_ascii_chars_encode_utf8};

use crate::config::{sanitize_chars, sanitized};
use crate::digest::{hex_char, hex_text, hex_upper};
use crate::path::{file_name, file_name_of, is_name, joined, law_file_in_directory};
use crate::scanner::filter::{is_subtitle_path, subtitle_path};
use crate::text::{
    alnum, cut_both, cut_both_chars, is_alnum, push_all, push_text, to_chars, to_text, trim,
    trim_chars, Cut,
};

verus! {

// ---------------------------------------------------------------------------
// Uploads
// ---------------------------------------------------------------------------
/// Where the last part of a path starts, whichever slash parts it.
pub open spec fn last_part_at(s: Seq<char>, n: int) -> int
    decreases n,
{
    if n <= 0 {
        0
    } else if s[n - 1] == '/' || s[n - 1] == '\\' {
        n
    } else {
        last_part_at(s, n - 1)
    }
}

/// What an uploaded file is called: the last part of its name, or a name for
/// one that is blank.
pub open spec fn display_name(original: Seq<char>) -> Seq<char> {
    let last = original.skip(last_part_at(original, original.len() as int));
    if trim(last).len() == 0 {
        "subtitle.ass"@
    } else {
        last
    }
}

/// The name under which an upload is kept; nothing where it is no subtitle.
pub fn upload_name(original: Option<&str>) -> (r: Option<String>)
    ensures
        ({
            let name = match original {
                Some(t) => t@,
                None => "subtitle.ass"@,
            };
            match r {
                Some(n) => subtitle_path(name) && n@ == sanitized(display_name(name)),
                None => !subtitle_path(name),
            }
        }),
{
    let name = match original {
        Some(t) => t,
        None => "subtitle.ass",
    };
    if !is_subtitle_path(name) {
        return None;
    }
    let c = to_chars(name);
    let len = c.len();
    let mut n: usize = len;
    while n > 0 && c[n - 1] != '/' && c[n - 1] != '\\'
        invariant
            n <= len == c@.len(),
            last_part_at(c@, len as int) == last_part_at(c@, n as int),
        decreases n,
    {
        n = n - 1;
    }
    let last = slice_subrange(c.as_slice(), n, len);
    assert(last@ =~= name@.skip(last_part_at(name@, name@.len() as int)));
    let safe = if trim_chars(last).len() == 0 {
        let fallback = to_chars("subtitle.ass");
        sanitize_chars(fallback.as_slice())
    } else {
        sanitize_chars(last)
    };
    Some(to_text(safe.as_slice()))
}

// ---------------------------------------------------------------------------
// Downloads
// ---------------------------------------------------------------------------
/// What a downloaded file is called.
pub open spec fn download_name(relative: Seq<char>) -> Seq<char> {
    sanitized(
        match file_name(relative) {
            Some(n) => n,
            None => "subtitle.ass"@,
        },
    )
}

pub fn download_filename(relative_path: &str) -> (r: String)
    ensures
        r@ == download_name(relative_path@),
{
    let name = match file_name_of(relative_path) {
        Some(n) => n,
        None => to_chars("subtitle.ass"),
    };
    to_text(sanitize_chars(name.as_slice()).as_slice())
}

/// Characters that stand for themselves in a header.
pub open spec fn is_plain(c: char) -> bool {
    is_alnum(c) || c == '-' || c == '_' || c == '.'
}

fn plain(c: char) -> (r: bool)
    ensures
        r == is_plain(c),
{
    alnum(c) || c == '-' || c == '_' || c == '.'
}

/// A text with underscores for all other characters.
pub open spec fn plain_text(s: Seq<char>) -> Seq<char> {
    Seq::new(
        s.len(),
        |i: int|
            if is_plain(s[i]) {
                s[i]
            } else {
                '_'
            },
    )
}

/// A byte in a header: itself, or a percent sign and two hexadecimal digits.
pub open spec fn percent(b: u8) -> Seq<char> {
    if is_plain(b as char) {
        seq![b as char]
    } else {
        seq!['%'] + hex_text(seq![b], true)
    }
}

pub open spec fn percent_upto(b: Seq<u8>, n: int) -> Seq<char>
    decreases n,
{
    if n <= 0 {
        seq![]
    } else {
        percent_upto(b, n - 1) + percent(b[n - 1])
    }
}

/// The UTF-8 form of a text, with percent signs.
pub open spec fn percent_encoded(s: Seq<char>) -> Seq<char> {
    percent_upto(encode_utf8(s), encode_utf8(s).len() as int)
}

pub fn percent_encode_utf8(value: &str) -> (r: String)
    ensures
        r@ == percent_encoded(value@),
{
    let b = value.as_bytes();
    let ghost bv = encode_utf8(value@);
    let mut out: Vec<char> = Vec::new();
    let mut i: usize = 0;
    assert(out@ =~= seq![]);
    while i < b.len()
        invariant
            i <= b@.len(),
            b@ == bv,
            out@ == percent_upto(bv, i as int),
        decreases b@.len() - i,
    {
        let c = b[i] as char;
        if plain(c) {
            out.push(c);
            assert(out@ =~= percent_upto(bv, i + 1));
        } else {
            let one = slice_subrange(b, i, i + 1);
            assert(one@ =~= seq![bv[i as int]]);
            let h = hex_upper(one);
            out.push('%');
            push_text(&mut out, h.as_str());
            assert(out@ =~= percent_upto(bv, i + 1));
        }
        i = i + 1;
    }
    to_text(out.as_slice())
}

/// A name for clients that read ASCII only.
pub open spec fn ascii_name(s: Seq<char>) -> Seq<char> {
    let t = cut_both(plain_text(s), Cut::Underscore);
    if t.len() == 0 {
        "subtitle.ass"@
    } else {
        t
    }
}

/// The header that gives a download its name.
pub open spec fn disposition(s: Seq<char>) -> Seq<char> {
    "attachment; filename=\""@ + ascii_name(s) + "\"; filename*=UTF-8''"@ + percent_encoded(s)
}

pub fn content_disposition_filename(filename: &str) -> (r: String)
    ensures
        r@ == disposition(filename@),
{
    let c = to_chars(filename);
    let mut shown: Vec<char> = Vec::new();
    let mut i: usize = 0;
    while i < c.len()
        invariant
            i <= c@.len(),
            shown@.len() == i,
            forall|j: int| 0 <= j < i ==> shown@[j] == plain_text(c@)[j],
        decreases c@.len() - i,
    {
        if plain(c[i]) {
            shown.push(c[i]);
        } else {
            shown.push('_');
        }
        i = i + 1;
    }
    assert(shown@ =~= plain_text(c@));
    let t = cut_both_chars(shown.as_slice(), Cut::Underscore);
    let mut out = to_chars("attachment; filename=\"");
    if t.len() == 0 {
        push_text(&mut out, "subtitle.ass");
    } else {
        push_all(&mut out, t);
    }
    push_text(&mut out, "\"; filename*=UTF-8''");
    let enc = percent_encode_utf8(filename);
    push_text(&mut out, enc.as_str());
    assert(out@ =~= disposition(filename@));
    to_text(out.as_slice())
}

// ---------------------------------------------------------------------------
// Laws
// ---------------------------------------------------------------------------
/// What a header may hold of a name: plain characters and percent signs.
pub proof fn law_percent_encoded_safe(s: Seq<char>)
    ensures
        forall|i: int|
            0 <= i < percent_encoded(s).len() ==> is_plain(#[trigger] percent_encoded(s)[i])
                || percent_encoded(s)[i] == '%',
{
    lemma_percent_safe(encode_utf8(s), encode_utf8(s).len() as int);
}

proof fn lemma_percent_safe(b: Seq<u8>, n: int)
    requires
        0 <= n <= b.len(),
    ensures
        forall|i: int|
            0 <= i < percent_upto(b, n).len() ==> is_plain(#[trigger] percent_upto(b, n)[i])
                || percent_upto(b, n)[i] == '%',
    decreases n,
{
    if n > 0 {
        lemma_percent_safe(b, n - 1);
        let one = percent(b[n - 1]);
        let x = b[n - 1] as int;
        assert forall|i: int| 0 <= i < one.len() implies is_plain(#[trigger] one[i]) || one[i]
            == '%' by {
            if !is_plain(b[n - 1] as char) {
                let h = hex_text(seq![b[n - 1]], true);
                assert(h.len() == 2);
                assert(h[0] == hex_char(x / 16, true));
                assert(h[1] == hex_char(x % 16, true));
                assert(is_alnum(h[0]) && is_alnum(h[1]));
            }
        }
        let before = percent_upto(b, n - 1);
        let all = percent_upto(b, n);
        assert forall|i: int| 0 <= i < all.len() implies is_plain(#[trigger] all[i]) || all[i]
            == '%' by {
            if i < before.len() {
                assert(all[i] == before[i]);
            } else {
                assert(all[i] == one[i - before.len()]);
            }
        }
    }
}

/// An upload is called by the last part of its name, whichever slash comes before
/// it.
pub proof fn law_last_part_shown(a: Seq<char>, slash: char, b: Seq<char>)
    requires
        slash == '/' || slash == '\\',
        forall|i: int| 0 <= i < b.len() ==> (#[trigger] b[i]) != '/' && b[i] != '\\',
        trim(b).len() > 0,
    ensures
        display_name(a + seq![slash] + b) == b,
        display_name(b) == b,
{
    let s = a + seq![slash] + b;
    let k = a.len() + 1;
    assert(s[k - 1] == slash);
    assert forall|i: int| k <= i < s.len() implies s[i] != '/' && s[i] != '\\' by {
        assert(s[i] == b[i - k]);
    }
    lemma_last_part(s, s.len() as int, k as int);
    assert(s.skip(k as int) =~= b);
    lemma_last_part(b, b.len() as int, 0);
    assert(b.skip(0) =~= b);
}

proof fn lemma_last_part(s: Seq<char>, n: int, k: int)
    requires
        0 <= k <= n <= s.len(),
        k > 0 ==> s[k - 1] == '/' || s[k - 1] == '\\',
        forall|i: int| k <= i < n ==> s[i] != '/' && s[i] != '\\',
    ensures
        last_part_at(s, n) == k,
    decreases n,
{
    if k < n {
        lemma_last_part(s, n - 1, k);
    }
}

/// A name of letters, digits and the three plain marks stands for itself in a
/// header, and the name for clients that read ASCII only is made of such characters.
pub proof fn law_plain_names_stand(s: Seq<char>, t: Seq<char>)
    requires
        forall|i: int|
            0 <= i < s.len() ==> 'a' <= (#[trigger] s[i]) <= 'z' || 'A' <= s[i] <= 'Z' || '0'
                <= s[i] <= '9' || s[i] == '-' || s[i] == '_' || s[i] == '.',
    ensures
        percent_encoded(s) == s,
        ascii_name(t).len() > 0,
        forall|i: int| 0 <= i < ascii_name(t).len() ==> is_plain(#[trigger] ascii_name(t)[i]),
{
    assert(is_ascii_chars(s));
    is_ascii_chars_encode_utf8(s);
    lemma_plain_percent(s, encode_utf8(s), s.len() as int);
    assert(s.take(s.len() as int) =~= s);
    reveal_strlit("subtitle.ass");
    let p = plain_text(t);
    let c = cut_both(p, Cut::Underscore);
    crate::text::lemma_cut_both(p, Cut::Underscore);
    if c.len() > 0 {
        let a = crate::text::cut_front(p, Cut::Underscore, 0);
        assert forall|i: int| 0 <= i < c.len() implies is_plain(#[trigger] c[i]) by {
            assert(c[i] == p.subrange(a, a + c.len())[i]);
            assert(c[i] == p[a + i]);
        }
    }
}

proof fn lemma_plain_percent(s: Seq<char>, b: Seq<u8>, n: int)
    requires
        0 <= n <= s.len() == b.len(),
        forall|i: int| 0 <= i < s.len() ==> is_plain(#[trigger] s[i]) && s[i] as u8 == b[i],
    ensures
        percent_upto(b, n) == s.take(n),
    decreases n,
{
    if n > 0 {
        lemma_plain_percent(s, b, n - 1);
        assert(is_plain(s[n - 1]) && s[n - 1] as u8 == b[n - 1]);
        assert(b[n - 1] as char == s[n - 1]);
        assert(percent_upto(b, n) =~= s.take(n));
    } else {
        assert(percent_upto(b, n) =~= s.take(n));
    }
}

/// Every other byte is a percent sign and its two hexadecimal digits in capitals,
/// the higher one first.
pub proof fn law_other_bytes_escaped(b: u8)
    requires
        !is_plain(b as char),
    ensures
        percent(b) == seq!['%', hex_char(b as int / 16, true), hex_char(b as int % 16, true)],
{
    let h = hex_text(seq![b], true);
    assert(h[0] == hex_char(b as int / 16, true));
    assert(h[1] == hex_char(b as int % 16, true));
    assert(percent(b) =~= seq![
        '%',
        hex_char(b as int / 16, true),
        hex_char(b as int % 16, true),
    ]);
}

/// A download is called by the name of its file.
pub proof fn law_download_named(dir: Seq<char>, name: Seq<char>)
    requires
        is_name(name),
        dir.len() > 0,
        dir.last() != '/',
    ensures
        download_name(joined(dir, name)) == sanitized(name),
{
    law_file_in_directory(dir, name);
}

/// A name that is not plain has an underscore for every other character, and one of
/// no plain character has the usual name; a name of white space is shown as the
/// usual name, too.
pub proof fn law_other_characters_replaced(a: char, c: char, b: char, blank: Seq<char>)
    requires
        is_plain(a) && a != '_',
        is_plain(b) && b != '_',
        !is_plain(c),
        forall|i: int| 0 <= i < blank.len() ==> crate::text::is_white(#[trigger] blank[i]),
    ensures
        ascii_name(seq![a, c, b]) == seq![a, '_', b],
        ascii_name(seq![a, b]) == seq![a, b],
        ascii_name(seq![c]) == "subtitle.ass"@,
        display_name(blank) == "subtitle.ass"@,
{
    let r = plain_text(seq![a, c, b]);
    assert(r =~= seq![a, '_', b]);
    crate::text::lemma_cut_nothing(r, Cut::Underscore);
    let t = plain_text(seq![a, b]);
    assert(t =~= seq![a, b]);
    crate::text::lemma_cut_nothing(t, Cut::Underscore);
    let u = plain_text(seq![c]);
    assert(u =~= seq!['_']);
    crate::line_laws::lemma_cut_front_is(u, Cut::Underscore, 0, 1);
    assert(crate::text::cut_start(u, Cut::Underscore).len() == 0);
    lemma_no_slashes(blank, blank.len() as int);
    assert(blank.skip(0) =~= blank);
    crate::line_laws::lemma_trim_is(blank, 0, 0);
}

proof fn lemma_no_slashes(s: Seq<char>, n: int)
    requires
        0 <= n <= s.len(),
        forall|i: int| 0 <= i < s.len() ==> crate::text::is_white(#[trigger] s[i]),
    ensures
        last_part_at(s, n) == 0,
    decreases n,
{
    if n > 0 {
        assert(crate::text::is_white(s[n - 1]));
        lemma_no_slashes(s, n - 1);
    }
}

/// A download is offered under its name in ASCII and under its whole name.
pub proof fn law_both_names_offered(s: Seq<char>)
    ensures
        disposition(s) == "attachment; filename=\""@ + ascii_name(s) + "\"; filename*=UTF-8''"@
            + percent_encoded(s),
{
}

/// Every byte is escaped or kept by itself: what one part of a name becomes, the parts
/// become one behind the other.
pub proof fn law_escaped_in_turn(a: Seq<u8>, b: Seq<u8>)
    ensures
        percent_upto(a + b, (a + b).len() as int) == percent_upto(a, a.len() as int) + percent_upto(
            b,
            b.len() as int,
        ),
        b.len() == 1 ==> percent_upto(b, 1) == percent(b[0]),
    decreases b.len(),
{
    let s = a + b;
    if b.len() == 0 {
        assert(s =~= a);
        assert(percent_upto(a, a.len() as int) + percent_upto(b, 0) =~= percent_upto(
            a,
            a.len() as int,
        ));
    } else {
        let c = b.drop_last();
        law_escaped_in_turn(a, c);
        let n = s.len() as int;
        assert(s.drop_last() =~= a + c);
        lemma_percent_front(s, a + c, n - 1);
        lemma_percent_front(b, c, b.len() - 1);
        let last = percent(b.last());
        assert(s[n - 1] == b.last());
        assert(percent_upto(s, n) =~= percent_upto(a, a.len() as int) + (percent_upto(
            c,
            c.len() as int,
        ) + last));
        if b.len() == 1 {
            assert(percent_upto(b, 1) =~= percent(b[0]));
        }
    }
}

proof fn lemma_percent_front(a: Seq<u8>, b: Seq<u8>, n: int)
    requires
        0 <= n <= a.len(),
        n <= b.len(),
        forall|i: int| 0 <= i < n ==> a[i] == b[i],
    ensures
        percent_upto(a, n) == percent_upto(b, n),
    decreases n,
{
    if n > 0 {
        lemma_percent_front(a, b, n - 1);
    }
}

} // verus!
