//! Choosing the face for a slot.
use vstd::prelude::*;

use crate::models::{FontCandidate, FontSlot};
use crate::text::{ends_with, is_white, lower_chars, lowered, to_chars, to_text, trim, trim_chars};

verus! {

/// How far a face is from what the slot asks for: the wrong slant weighs more
/// than any weight of a real font.
pub open spec fn distance(c: FontCandidate, slot: FontSlot) -> int {
    let d = c.weight - slot.target_weight();
    (if c.italic == slot.is_italic() {
        0int
    } else {
        10000
    }) + (if d < 0 {
        -d
    } else {
        d
    })
}

/// The first of the nearest faces among the first `n`.
pub open spec fn nearest_upto(v: Seq<FontCandidate>, slot: FontSlot, n: int) -> int
    decreases n,
{
    if n <= 1 {
        0
    } else {
        let had = nearest_upto(v, slot, n - 1);
        if distance(v[n - 1], slot) < distance(v[had], slot) {
            n - 1
        } else {
            had
        }
    }
}

/// The face for the slot: the first of the nearest.
pub open spec fn nearest(v: Seq<FontCandidate>, slot: FontSlot) -> int {
    nearest_upto(v, slot, v.len() as int)
}

fn distance_of(c: &FontCandidate, slot: FontSlot) -> (r: i64)
    ensures
        r == distance(*c, slot),
{
    let (weight, italic) = slot.target();
    let d: i64 = c.weight as i64 - weight as i64;
    let w: i64 = if d < 0 { 0 - d } else { d };
    if c.italic == italic {
        w
    } else {
        10000 + w
    }
}

/// The place of the face for the slot.
pub fn best_candidate(candidates: &[FontCandidate], slot: FontSlot) -> (r: Option<usize>)
    ensures
        match r {
            Some(i) => candidates@.len() > 0 && i == nearest(candidates@, slot) && i
                < candidates@.len(),
            None => candidates@.len() == 0,
        },
{
    if candidates.len() == 0 {
        return None;
    }
    let mut best: usize = 0;
    let mut i: usize = 1;
    while i < candidates.len()
        invariant
            1 <= i <= candidates@.len(),
            best < i,
            best == nearest_upto(candidates@, slot, i as int),
        decreases candidates@.len() - i,
    {
        if distance_of(&candidates[i], slot) < distance_of(&candidates[best], slot) {
            best = i;
        }
        i = i + 1;
    }
    Some(best)
}

/// The face for the slot.
pub fn select_best_candidate<'a>(candidates: &'a [FontCandidate], slot: FontSlot) -> (r: Option<
    &'a FontCandidate,
>)
    ensures
        match r {
            Some(c) => candidates@.len() > 0 && *c == candidates@[nearest(candidates@, slot)],
            None => candidates@.len() == 0,
        },
{
    match best_candidate(candidates, slot) {
        Some(i) => Some(&candidates[i]),
        None => None,
    }
}

/// Where the digest of a font file comes from.
#[derive(Clone, Copy, Debug, PartialEq, Eq, Structural)]
pub enum HashSource {
    /// The candidate has it.
    Candidate,
    /// The index has it by now.
    Stored,
    /// It has to be reckoned and stored.
    Compute,
}

/// The first of the known digests that is not blank.
pub open spec fn hash_source_of(known: Seq<char>, stored: Option<Seq<char>>) -> HashSource {
    if trim(known).len() > 0 {
        HashSource::Candidate
    } else if stored is Some && trim(stored->0).len() > 0 {
        HashSource::Stored
    } else {
        HashSource::Compute
    }
}

pub fn hash_source(known: &str, stored: Option<&str>) -> (r: HashSource)
    ensures
        r == hash_source_of(
            known@,
            match stored {
                Some(s) => Some(s@),
                None => None,
            },
        ),
{
    let k = to_chars(known);
    if trim_chars(k.as_slice()).len() > 0 {
        return HashSource::Candidate;
    }
    if let Some(s) = stored {
        let c = to_chars(s);
        if trim_chars(c.as_slice()).len() > 0 {
            return HashSource::Stored;
        }
    }
    HashSource::Compute
}

// ---------------------------------------------------------------------------
// Names of embedded fonts
// ---------------------------------------------------------------------------
/// Whether a text ends with another, up to the case of ASCII letters.
pub open spec fn ends_ignoring_case(s: Seq<char>, end: Seq<char>) -> bool {
    ends_with(lowered(s), lowered(end))
}

/// The name without the ending.
pub open spec fn without_end(s: Seq<char>, end: Seq<char>) -> Seq<char> {
    s.take(s.len() - end.len())
}

/// The family of an embedded font: its name without the first ending that fits.
pub open spec fn family_of(fontname: Seq<char>) -> Seq<char> {
    let s = trim(fontname);
    if ends_ignoring_case(s, "_BI0.ttf"@) {
        without_end(s, "_BI0.ttf"@)
    } else if ends_ignoring_case(s, "_B0.ttf"@) {
        without_end(s, "_B0.ttf"@)
    } else if ends_ignoring_case(s, "_I0.ttf"@) {
        without_end(s, "_I0.ttf"@)
    } else if ends_ignoring_case(s, "_0.ttf"@) {
        without_end(s, "_0.ttf"@)
    } else if ends_ignoring_case(s, ".ttf"@) {
        without_end(s, ".ttf"@)
    } else if ends_ignoring_case(s, ".otf"@) {
        without_end(s, ".otf"@)
    } else {
        s
    }
}

fn strip_end_ci(s: &[char], low: &[char], end: &str) -> (r: Option<Vec<char>>)
    requires
        low@ == lowered(s@),
    ensures
        match r {
            Some(t) => ends_ignoring_case(s@, end@) && t@ == without_end(s@, end@),
            None => !ends_ignoring_case(s@, end@),
        },
{
    let e = to_chars(end);
    let le = lower_chars(e.as_slice());
    if low.len() < le.len() {
        return None;
    }
    if crate::text::part_at(low, le.as_slice(), low.len() - le.len()) {
        let t = vstd::slice::slice_to_vec(
            vstd::slice::slice_subrange(s, 0, s.len() - e.len()),
        );
        assert(t@ =~= without_end(s@, end@));
        Some(t)
    } else {
        None
    }
}

pub fn embedded_family_chars(fontname: &str) -> (r: Vec<char>)
    ensures
        r@ == family_of(fontname@),
{
    let c = to_chars(fontname);
    let s = trim_chars(c.as_slice());
    let lowv = lower_chars(s);
    let low = lowv.as_slice();
    if let Some(t) = strip_end_ci(s, low, "_BI0.ttf") {
        return t;
    }
    if let Some(t) = strip_end_ci(s, low, "_B0.ttf") {
        return t;
    }
    if let Some(t) = strip_end_ci(s, low, "_I0.ttf") {
        return t;
    }
    if let Some(t) = strip_end_ci(s, low, "_0.ttf") {
        return t;
    }
    if let Some(t) = strip_end_ci(s, low, ".ttf") {
        return t;
    }
    if let Some(t) = strip_end_ci(s, low, ".otf") {
        return t;
    }
    vstd::slice::slice_to_vec(s)
}

/// The family of an embedded font.
pub fn embedded_family_name(fontname: &str) -> (r: String)
    ensures
        r@ == family_of(fontname@),
{
    let v = embedded_family_chars(fontname);
    to_text(v.as_slice())
}

// ---------------------------------------------------------------------------
// Laws
// ---------------------------------------------------------------------------
/// No face is nearer than the one that is chosen, and none before it is as near.
pub proof fn law_nearest_is_best(v: Seq<FontCandidate>, slot: FontSlot, n: int)
    requires
        0 < n <= v.len(),
    ensures
        0 <= nearest_upto(v, slot, n) < n,
        forall|i: int|
            0 <= i < n ==> distance(v[nearest_upto(v, slot, n)], slot) <= distance(
                #[trigger] v[i],
                slot,
            ),
        forall|i: int|
            0 <= i < nearest_upto(v, slot, n) ==> distance(v[nearest_upto(v, slot, n)], slot)
                < distance(#[trigger] v[i], slot),
    decreases n,
{
    if n > 1 {
        law_nearest_is_best(v, slot, n - 1);
    }
}

/// A face with the right slant is preferred to one without, whatever the
/// weights of the two between nothing and a thousand.
pub proof fn law_slant_first(a: FontCandidate, b: FontCandidate, slot: FontSlot)
    requires
        a.italic == slot.is_italic(),
        b.italic != slot.is_italic(),
        0 <= a.weight <= 1000,
        0 <= b.weight <= 1000,
    ensures
        distance(a, slot) < distance(b, slot),
{
}

/// Of the faces with the slant of the one that is chosen, none has a weight
/// nearer to 400, or for a bold slot to 700, and none of the earlier ones has one
/// as near.
pub proof fn law_nearest_weight_taken(v: Seq<FontCandidate>, slot: FontSlot, i: int)
    requires
        0 <= i < v.len(),
        v[i].italic == v[nearest(v, slot)].italic,
    ensures
        0 <= nearest(v, slot) < v.len(),
        match slot {
            FontSlot::Normal | FontSlot::Italic => {
                let (best, other) = (v[nearest(v, slot)].weight - 400, v[i].weight - 400);
                &&& -other <= best <= other || other <= best <= -other
                &&& i < nearest(v, slot) ==> best != other && best != -other
            },
            FontSlot::Bold | FontSlot::BoldItalic => {
                let (best, other) = (v[nearest(v, slot)].weight - 700, v[i].weight - 700);
                &&& -other <= best <= other || other <= best <= -other
                &&& i < nearest(v, slot) ==> best != other && best != -other
            },
        },
{
    law_nearest_is_best(v, slot, v.len() as int);
    assert(distance(v[nearest(v, slot)], slot) <= distance(v[i], slot));
}

/// A slot gets the face that it is named after wherever there is one: upright
/// or slanted, with the weight 400, or 700 for a bold slot.
pub proof fn law_exact_face_taken(v: Seq<FontCandidate>, slot: FontSlot, i: int)
    requires
        0 <= i < v.len(),
        match slot {
            FontSlot::Normal => !v[i].italic && v[i].weight == 400,
            FontSlot::Bold => !v[i].italic && v[i].weight == 700,
            FontSlot::Italic => v[i].italic && v[i].weight == 400,
            FontSlot::BoldItalic => v[i].italic && v[i].weight == 700,
        },
    ensures
        0 <= nearest(v, slot) <= i,
        v[nearest(v, slot)].italic == v[i].italic,
        v[nearest(v, slot)].weight == v[i].weight,
{
    law_nearest_is_best(v, slot, v.len() as int);
    assert(distance(v[nearest(v, slot)], slot) <= distance(v[i], slot));
    if i < nearest(v, slot) {
        assert(distance(v[nearest(v, slot)], slot) < distance(v[i], slot));
    }
}

/// Where one of the faces has the slant of the slot, so has the face that is
/// chosen, whatever the weights between nothing and a thousand.
pub proof fn law_slant_kept(v: Seq<FontCandidate>, slot: FontSlot, i: int)
    requires
        0 <= i < v.len(),
        v[i].italic == (slot is Italic || slot is BoldItalic),
        forall|j: int| 0 <= j < v.len() ==> 0 <= (#[trigger] v[j]).weight <= 1000,
    ensures
        0 <= nearest(v, slot) < v.len(),
        v[nearest(v, slot)].italic == (slot is Italic || slot is BoldItalic),
{
    law_nearest_is_best(v, slot, v.len() as int);
    assert(distance(v[nearest(v, slot)], slot) <= distance(v[i], slot));
}

/// A face is chosen by its slant and its weight alone, and a face that comes
/// after others takes the place of none that is as near: more faces of the same
/// kinds change nothing.
pub proof fn law_first_found_stays(v: Seq<FontCandidate>, slot: FontSlot, c: FontCandidate)
    requires
        v.len() > 0,
        exists|i: int|
            0 <= i < v.len() && (#[trigger] v[i]).italic == c.italic && v[i].weight == c.weight,
    ensures
        nearest(v.push(c), slot) == nearest(v, slot),
{
    let w = v.push(c);
    law_nearest_is_best(v, slot, v.len() as int);
    law_nearest_is_best(w, slot, w.len() as int);
    let i = choose|i: int|
        0 <= i < v.len() && (#[trigger] v[i]).italic == c.italic && v[i].weight == c.weight;
    let (a, b) = (nearest(v, slot), nearest(w, slot));
    assert(w[a] == v[a] && w[i] == v[i]);
    assert(distance(w[b], slot) <= distance(w[i], slot));
    assert(distance(w[b], slot) <= distance(w[a], slot));
    if b < v.len() {
        assert(w[b] == v[b]);
    } else {
        assert(distance(w[i], slot) == distance(c, slot));
    }
    if a < b {
        assert(distance(w[b], slot) < distance(w[a], slot));
    }
}

/// The family of a font that was embedded under a name is that name, where the
/// name has no white space at its ends.
pub proof fn law_family_of_embedded(name: Seq<char>, slot: FontSlot)
    requires
        name.len() > 0,
        !is_white(name[0]),
    ensures
        family_of(name + slot.suffix_text()) == name,
{
    reveal_strlit("_BI0.ttf");
    reveal_strlit("_B0.ttf");
    reveal_strlit("_I0.ttf");
    reveal_strlit("_0.ttf");
    let end = slot.suffix_text();
    let s = name + end;
    assert(end.len() >= 6 && end[end.len() - 1] == 'f');
    assert(s[0] == name[0]);
    assert(s[s.len() - 1] == 'f');
    crate::line_laws::lemma_trim_is(s, 0, s.len() as int);
    assert(s.subrange(0, s.len() as int) =~= s);
    let n = s.len() as int;
    let low = lowered(s);
    assert forall|i: int| 0 <= i < end.len() implies low[n - end.len() + i] == crate::text::lower(
        #[trigger] end[i],
    ) by {
        assert(s[n - end.len() + i] == end[i]);
    }
    assert(ends_ignoring_case(s, end)) by {
        let w = low.subrange(n - end.len(), n);
        assert(w =~= lowered(end)) by {
            assert forall|i: int| 0 <= i < end.len() implies w[i] == lowered(end)[i] by {
                assert(low[n - end.len() + i] == crate::text::lower(end[i]));
            }
        }
    }
    assert(without_end(s, end) =~= name);
    assert(s.subrange(n - end.len(), n) =~= end);
    match slot {
        FontSlot::BoldItalic => {},
        FontSlot::Bold => {
            lemma_other_end(s, end, "_BI0.ttf"@, 6);
        },
        FontSlot::Italic => {
            lemma_other_end(s, end, "_BI0.ttf"@, 7);
            lemma_other_end(s, end, "_B0.ttf"@, 6);
        },
        FontSlot::Normal => {
            lemma_other_end(s, end, "_BI0.ttf"@, 6);
            lemma_other_end(s, end, "_B0.ttf"@, 6);
            lemma_other_end(s, end, "_I0.ttf"@, 6);
        },
    }
}

/// Two endings that differ at the `k`th character from the end.
proof fn lemma_other_end(s: Seq<char>, end: Seq<char>, other: Seq<char>, k: int)
    requires
        0 < k <= end.len(),
        k <= other.len(),
        end.len() <= s.len(),
        s.subrange(s.len() - end.len(), s.len() as int) == end,
        crate::text::lower(end[end.len() - k]) != crate::text::lower(other[other.len() - k]),
    ensures
        !ends_ignoring_case(s, other),
{
    let low = lowered(s);
    let n = s.len() as int;
    if ends_ignoring_case(s, other) {
        let w = low.subrange(n - other.len(), n);
        assert(w[other.len() - k] == lowered(other)[other.len() - k]);
        assert(s[n - k] == s.subrange(n - end.len(), n)[end.len() - k]);
    }
}

/// A digest is reckoned only where none is known: the one that the candidate has
/// comes first, and the one that is stored comes next.
pub proof fn law_known_digest_used(known: Seq<char>, stored: Seq<char>)
    ensures
        trim(known).len() > 0 ==> hash_source_of(known, Some(stored)) is Candidate
            && hash_source_of(known, None) is Candidate,
        trim(known).len() == 0 && trim(stored).len() > 0 ==> hash_source_of(known, Some(stored)) is
            Stored,
        trim(known).len() == 0 && trim(stored).len() == 0 ==> hash_source_of(known, Some(stored)) is
            Compute,
        trim(known).len() == 0 ==> hash_source_of(known, None) is Compute,
{
}

proof fn lemma_not_ended(s: Seq<char>, end: Seq<char>)
    requires
        s.len() >= 4,
        s[s.len() - 4] == '.' && s[s.len() - 3] == 'o' && s[s.len() - 2] == 't' && s[s.len() - 1]
            == 'f',
        end.len() >= 4,
        end[end.len() - 3] == 't',
    ensures
        !ends_ignoring_case(s, end),
{
    if ends_ignoring_case(s, end) {
        let (low, e) = (lowered(s), lowered(end));
        let w = low.subrange(low.len() - e.len(), low.len() as int);
        assert(w == e);
        assert(w[e.len() - 3] == low[low.len() - 3]);
        assert(low[low.len() - 3] == crate::text::lower(s[s.len() - 3]));
        assert(e[e.len() - 3] == crate::text::lower(end[end.len() - 3]));
    }
}

/// The family of a font that was not embedded as a subset is its name without the
/// ending of the file.
pub proof fn law_family_of_font_file(name: Seq<char>)
    requires
        name.len() > 0,
        !is_white(name[0]),
    ensures
        family_of(name + ".otf"@) == name,
{
    reveal_strlit("_BI0.ttf");
    reveal_strlit("_B0.ttf");
    reveal_strlit("_I0.ttf");
    reveal_strlit("_0.ttf");
    reveal_strlit(".ttf");
    reveal_strlit(".otf");
    let end = ".otf"@;
    let s = name + end;
    let n = s.len() as int;
    assert(s[0] == name[0]);
    assert(s[n - 1] == end[3] && s[n - 2] == end[2] && s[n - 3] == end[1] && s[n - 4] == end[0]);
    crate::line_laws::lemma_trim_is(s, 0, n);
    assert(s.subrange(0, n) =~= s);
    lemma_not_ended(s, "_BI0.ttf"@);
    lemma_not_ended(s, "_B0.ttf"@);
    lemma_not_ended(s, "_I0.ttf"@);
    lemma_not_ended(s, "_0.ttf"@);
    lemma_not_ended(s, ".ttf"@);
    let low = lowered(s);
    assert(ends_ignoring_case(s, end)) by {
        let w = low.subrange(n - 4, n);
        assert forall|i: int| 0 <= i < 4 implies w[i] == lowered(end)[i] by {
            assert(w[i] == crate::text::lower(s[n - 4 + i]));
            assert(s[n - 4 + i] == end[i]);
        }
        assert(w =~= lowered(end));
    }
    assert(without_end(s, end) =~= name);
}

/// A wrong slant counts as much as a difference in weight of ten thousand.
pub proof fn law_slant_weighs(a: FontCandidate, b: FontCandidate, slot: FontSlot)
    requires
        a.weight == b.weight,
        a.italic == (slot is Italic || slot is BoldItalic),
        b.italic != a.italic,
    ensures
        distance(b, slot) == distance(a, slot) + 10_000,
{
}

proof fn lemma_end_differs(s: Seq<char>, end: Seq<char>)
    requires
        s.len() >= 5,
        end.len() >= 5,
        end[end.len() - 5] == '0',
        s[s.len() - 5] != '0',
    ensures
        !ends_ignoring_case(s, end),
{
    if ends_ignoring_case(s, end) {
        let (low, e) = (lowered(s), lowered(end));
        let w = low.subrange(low.len() - e.len(), low.len() as int);
        assert(w == e);
        assert(w[e.len() - 5] == low[low.len() - 5]);
        assert(low[low.len() - 5] == crate::text::lower(s[s.len() - 5]));
        assert(e[e.len() - 5] == crate::text::lower(end[end.len() - 5]));
    }
}

/// The ending of a font file is dropped where no slot stands in front of it, too.
pub proof fn law_family_of_plain_file(name: Seq<char>)
    requires
        name.len() > 0,
        !is_white(name[0]),
        name.last() != '0',
    ensures
        family_of(name + ".ttf"@) == name,
{
    reveal_strlit("_BI0.ttf");
    reveal_strlit("_B0.ttf");
    reveal_strlit("_I0.ttf");
    reveal_strlit("_0.ttf");
    reveal_strlit(".ttf");
    let end = ".ttf"@;
    let s = name + end;
    let n = s.len() as int;
    assert(s[0] == name[0]);
    assert(s[n - 1] == end[3]);
    assert(s[n - 5] == name.last());
    crate::line_laws::lemma_trim_is(s, 0, n);
    assert(s.subrange(0, n) =~= s);
    lemma_end_differs(s, "_BI0.ttf"@);
    lemma_end_differs(s, "_B0.ttf"@);
    lemma_end_differs(s, "_I0.ttf"@);
    lemma_end_differs(s, "_0.ttf"@);
    let low = lowered(s);
    assert(ends_ignoring_case(s, end)) by {
        let w = low.subrange(n - 4, n);
        assert forall|i: int| 0 <= i < 4 implies w[i] == lowered(end)[i] by {
            assert(w[i] == crate::text::lower(s[n - 4 + i]));
            assert(s[n - 4 + i] == end[i]);
        }
        assert(w =~= lowered(end));
    }
    assert(without_end(s, end) =~= name);
}

} // verus!
