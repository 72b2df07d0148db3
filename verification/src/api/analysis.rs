//! What a subtitle uses, and whether an earlier answer still holds.
use vstd::prelude::*;

use crate::ass::encoding::{decode_subtitle, decoded};
use crate::ass::fonts::{fonts_of, parse_embedded_fonts, FontBlock};
use crate::ass::parse::{parse_subtitle, parsed};
use crate::ass::style::{is_system_font, lookup_name, system_font};
use crate::ass::usage::{lists, UsageView};
use crate::sort::{sort_texts, texts_sorted};
use crate::text::texts;

verus! {

/// Whether a text is JSON.
pub uninterp spec fn json_valid(s: Seq<char>) -> bool;

/// `serde_json::from_str` into a `serde_json::Value`: whether the text is JSON
/// that such a value can hold, which depends on the text alone.
#[verifier::external_body]
fn is_json(s: &str) -> (r: bool)
    ensures
        r == json_valid(s@),
{
    serde_json::from_str::<serde_json::Value>(s).is_ok()
}

/// The remembered answer of a file, where it was made for the file as it is:
/// `valid` tells whether it can be read.
pub open spec fn cached_text(
    cached: Option<Seq<char>>,
    valid: bool,
    cached_size: Option<i64>,
    cached_mtime: Option<i64>,
    size: i64,
    mtime: i64,
) -> Option<Seq<char>> {
    if cached_size == Some(size) && cached_mtime == Some(mtime) && valid {
        cached
    } else {
        None
    }
}

/// Whether a remembered answer was made for the file as it is.
pub fn fingerprint_matches(
    cached_size: Option<i64>,
    cached_mtime: Option<i64>,
    size: i64,
    mtime: i64,
) -> (r: bool)
    ensures
        r == (cached_size == Some(size) && cached_mtime == Some(mtime)),
{
    match (cached_size, cached_mtime) {
        (Some(s), Some(m)) => s == size && m == mtime,
        _ => false,
    }
}

/// The remembered answer of a file, if it still holds: JSON text.
pub fn cached_analysis<'a>(
    cached: Option<&'a str>,
    cached_size: Option<i64>,
    cached_mtime: Option<i64>,
    size: i64,
    mtime: i64,
) -> (r: Option<&'a str>)
    ensures
        match (cached, r) {
            (Some(c), Some(t)) => t@ == c@ && cached_text(
                Some(c@),
                json_valid(c@),
                cached_size,
                cached_mtime,
                size,
                mtime,
            ) == Some(t@),
            (Some(c), None) => cached_text(
                Some(c@),
                json_valid(c@),
                cached_size,
                cached_mtime,
                size,
                mtime,
            ) is None,
            (None, _) => r is None,
        },
{
    if !fingerprint_matches(cached_size, cached_mtime, size, mtime) {
        return None;
    }
    match cached {
        Some(c) => if is_json(c) {
            Some(c)
        } else {
            None
        },
        None => None,
    }
}

/// What a subtitle uses.
#[derive(Debug)]
pub struct SubtitleAnalysis {
    pub drawing_count: usize,
    pub third_party_fonts: Vec<String>,
    pub system_fonts: Vec<String>,
    pub embedded_fonts: Vec<String>,
    pub char_count: u128,
}

/// The names among the first `n` fonts that are, or are not, fonts of a system.
pub open spec fn names_upto(v: Seq<(Seq<char>, UsageView)>, system: bool, n: int) -> Seq<Seq<char>>
    decreases n,
{
    if n <= 0 {
        seq![]
    } else if system_font(lookup_name(v[n - 1].0)) == system {
        names_upto(v, system, n - 1).push(v[n - 1].0)
    } else {
        names_upto(v, system, n - 1)
    }
}

/// How many characters the first `n` fonts draw, each counted once for a font.
pub open spec fn chars_upto(v: Seq<(Seq<char>, UsageView)>, n: int) -> int
    decreases n,
{
    if n <= 0 {
        0
    } else {
        chars_upto(v, n - 1) + v[n - 1].1.all().len()
    }
}

pub open spec fn block_names(v: Seq<FontBlock>) -> Seq<Seq<char>> {
    Seq::new(v.len(), |i: int| v[i].fontname)
}

/// Whether a list holds the texts of another in increasing order.
pub open spec fn sorts(sorted: Seq<Seq<char>>, v: Seq<Seq<char>>) -> bool {
    sorted.to_multiset() == v.to_multiset() && texts_sorted(sorted)
}

/// Whether this is what the text uses.
pub open spec fn analysis_of(a: SubtitleAnalysis, s: Seq<char>) -> bool {
    let p = parsed(s);
    let n = p.usages.len() as int;
    &&& a.drawing_count == p.drawings
    &&& sorts(texts(a.third_party_fonts@), names_upto(p.usages, false, n))
    &&& sorts(texts(a.system_fonts@), names_upto(p.usages, true, n))
    &&& sorts(texts(a.embedded_fonts@), block_names(fonts_of(s)))
    &&& a.char_count == chars_upto(p.usages, n)
}

proof fn lemma_listed_len(v: Seq<u32>, s: Set<u32>)
    requires
        lists(v, s),
    ensures
        s.len() == v.len(),
{
    assert(v.no_duplicates());
    v.unique_seq_to_set();
    assert(v.to_set() =~= s) by {
        assert forall|x: u32| v.to_set().contains(x) <==> s.contains(x) by {
            assert(v.to_set().contains(x) <==> v.contains(x));
        }
    }
}

/// Finds out what a text uses.
pub fn analyze_text(text: &str) -> (r: SubtitleAnalysis)
    ensures
        analysis_of(r, text@),
{
    let p = parse_subtitle(text);
    let embedded = parse_embedded_fonts(text);
    let ghost v = p.usages@;
    let mut system: Vec<String> = Vec::new();
    let mut third: Vec<String> = Vec::new();
    let mut count: u128 = 0;
    let mut i: usize = 0;
    assert(texts(system@) =~= seq![] && texts(third@) =~= seq![]);
    while i < p.usages.len()
        invariant
            i <= v.len(),
            v == p.usages@,
            texts(system@) == names_upto(v, true, i as int),
            texts(third@) == names_upto(v, false, i as int),
            count == chars_upto(v, i as int),
            count <= i * 0x1_0000_0000_0000_0000,
        decreases v.len() - i,
    {
        let name = p.usages.key(i).clone();
        let points = p.usages.value(i).all_codepoints();
        proof {
            lemma_listed_len(points@, v[i as int].1.all());
        }
        let n = points.len();
        assert(i < 0x1_0000_0000_0000_0000);
        count = count + n as u128;
        let ghost had_system = texts(system@);
        let ghost had_third = texts(third@);
        let ghost nv = name@;
        if is_system_font(name.as_str()) {
            system.push(name);
            assert(texts(system@) =~= had_system.push(nv));
        } else {
            third.push(name);
            assert(texts(third@) =~= had_third.push(nv));
        }
        i = i + 1;
    }
    let mut fonts: Vec<String> = Vec::new();
    let ghost b = fonts_of(text@);
    let mut k: usize = 0;
    while k < embedded.len()
        invariant
            k <= embedded@.len(),
            b == crate::ass::fonts::blocks(embedded@),
            fonts@.len() == k,
            forall|j: int| 0 <= j < k ==> (#[trigger] fonts@[j])@ == b[j].fontname,
        decreases embedded@.len() - k,
    {
        fonts.push(embedded[k].fontname.clone());
        k = k + 1;
    }
    assert(texts(fonts@) =~= block_names(b));
    sort_texts(&mut system);
    sort_texts(&mut third);
    sort_texts(&mut fonts);
    SubtitleAnalysis {
        drawing_count: p.drawing_count,
        third_party_fonts: third,
        system_fonts: system,
        embedded_fonts: fonts,
        char_count: count,
    }
}

/// Finds out what a file uses; nothing where it cannot be read.
pub fn analyze_subtitle(bytes: &[u8]) -> (r: Option<SubtitleAnalysis>)
    ensures
        match decoded(bytes@) {
            Ok(s) => r is Some && analysis_of(r->0, s),
            Err(_) => r is None,
        },
{
    match decode_subtitle(bytes) {
        Ok(d) => Some(analyze_text(d.text.as_str())),
        Err(_) => None,
    }
}

// ---------------------------------------------------------------------------
// Laws
// ---------------------------------------------------------------------------
/// A remembered answer is given only for the size and the time that it was made
/// for.
pub proof fn law_cache_needs_fingerprint(
    cached: Option<Seq<char>>,
    valid: bool,
    cached_size: Option<i64>,
    cached_mtime: Option<i64>,
    size: i64,
    mtime: i64,
)
    ensures
        cached_text(cached, valid, cached_size, cached_mtime, size, mtime) is Some ==> cached_size
            == Some(size) && cached_mtime == Some(mtime) && valid,
{
}

/// A remembered answer that can be read is given as long as the file has the size
/// and the time that it was made for.
pub proof fn law_cache_given(cached: Seq<char>, size: i64, mtime: i64)
    ensures
        cached_text(Some(cached), true, Some(size), Some(mtime), size, mtime) == Some(cached),
        cached_text(Some(cached), false, Some(size), Some(mtime), size, mtime) is None,
        cached_text(Some(cached), true, None, Some(mtime), size, mtime) is None,
        cached_text(Some(cached), true, Some(size), None, size, mtime) is None,
{
}

/// Every font that a text uses is told, among the fonts of a system or among the
/// others, and none among the wrong ones.
pub proof fn law_every_font_told(v: Seq<(Seq<char>, UsageView)>, system: bool, n: int, i: int)
    requires
        0 <= i < n <= v.len(),
    ensures
        system_font(lookup_name(v[i].0)) == system ==> names_upto(v, system, n).contains(v[i].0),
        forall|k: int|
            0 <= k < names_upto(v, system, n).len() ==> system_font(
                lookup_name(#[trigger] names_upto(v, system, n)[k]),
            ) == system,
    decreases n,
{
    let b = names_upto(v, system, n - 1);
    let all = names_upto(v, system, n);
    if n > 1 {
        law_every_font_told(v, system, n - 1, if i < n - 1 { i } else { 0 });
    }
    if system_font(lookup_name(v[i].0)) == system {
        if i == n - 1 {
            assert(all[all.len() - 1] == v[i].0);
        } else {
            let k = choose|k: int| 0 <= k < b.len() && b[k] == v[i].0;
            assert(all[k] == b[k]);
        }
    }
    assert forall|k: int| 0 <= k < all.len() implies system_font(lookup_name(#[trigger] all[k]))
        == system by {
        if k < b.len() {
            assert(all[k] == b[k]);
        }
    }
}

/// The characters of each font are counted once for that font.
pub proof fn law_characters_counted(v: Seq<(Seq<char>, UsageView)>, n: int)
    requires
        0 < n <= v.len(),
    ensures
        chars_upto(v, n) - chars_upto(v, n - 1) == v[n - 1].1.normal.union(v[n - 1].1.bold).union(
            v[n - 1].1.italic,
        ).union(v[n - 1].1.bold_italic).len(),
        chars_upto(v, 0) == 0,
{
}

} // verus!
