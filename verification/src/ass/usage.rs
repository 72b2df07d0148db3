//! The code points that a subtitle needs of a font.
use std::collections::HashSet;

use vstd::prelude::*;

use crate::models::FontSlot;
use crate::sort::{is_sorted, lemma_sorted_members, sort_numbers};
use crate::strmap::{lookup, put, StrMap};

verus! {

broadcast use vstd::std_specs::hash::group_hash_axioms;

/// The code points that each slot of a font has to draw.
#[derive(Debug)]
pub struct FontUsage {
    pub normal: HashSet<u32>,
    pub bold: HashSet<u32>,
    pub italic: HashSet<u32>,
    pub bold_italic: HashSet<u32>,
}

#[verifier::ext_equal]
pub struct UsageView {
    pub normal: Set<u32>,
    pub bold: Set<u32>,
    pub italic: Set<u32>,
    pub bold_italic: Set<u32>,
}

impl UsageView {
    pub open spec fn empty() -> UsageView {
        UsageView {
            normal: Set::empty(),
            bold: Set::empty(),
            italic: Set::empty(),
            bold_italic: Set::empty(),
        }
    }

    pub open spec fn slot(self, slot: FontSlot) -> Set<u32> {
        match slot {
            FontSlot::Normal => self.normal,
            FontSlot::Bold => self.bold,
            FontSlot::Italic => self.italic,
            FontSlot::BoldItalic => self.bold_italic,
        }
    }

    /// The usage with one more code point in one slot.
    pub open spec fn with(self, slot: FontSlot, cp: u32) -> UsageView {
        match slot {
            FontSlot::Normal => UsageView { normal: self.normal.insert(cp), ..self },
            FontSlot::Bold => UsageView { bold: self.bold.insert(cp), ..self },
            FontSlot::Italic => UsageView { italic: self.italic.insert(cp), ..self },
            FontSlot::BoldItalic => UsageView { bold_italic: self.bold_italic.insert(cp), ..self },
        }
    }

    pub open spec fn all(self) -> Set<u32> {
        self.normal.union(self.bold).union(self.italic).union(self.bold_italic)
    }
}

impl View for FontUsage {
    type V = UsageView;

    open spec fn view(&self) -> UsageView {
        UsageView {
            normal: self.normal@,
            bold: self.bold@,
            italic: self.italic@,
            bold_italic: self.bold_italic@,
        }
    }
}

/// The members of a set in increasing order, each once.
pub open spec fn lists(v: Seq<u32>, s: Set<u32>) -> bool {
    &&& forall|i: int, j: int| 0 <= i < j < v.len() ==> v[i] < v[j]
    &&& forall|x: u32| v.contains(x) <==> s.contains(x)
}

fn push_members(out: &mut Vec<u32>, s: &HashSet<u32>)
    ensures
        forall|x: u32| #[trigger]
            final(out)@.contains(x) <==> (old(out)@.contains(x) || s@.contains(x)),
{
    let ghost before = out@;
    for x in it: s.iter()
        invariant
            walked(s@, before, out@, it.seq().unref(), it.index() as int),
            exists|q: Seq<u32>|
                q.len() == it.seq().len() && #[trigger] walked(
                    s@,
                    before,
                    out@,
                    q,
                    it.index() as int,
                ),
    {
        out.push(*x);
        assert(it.seq().unref().take(it.index() + 1) =~= it.seq().unref().take(
            it.index() as int,
        ).push(*x));
        assert(walked(s@, before, out@, it.seq().unref(), it.index() + 1));
    }
    proof {
        let q = choose|q: Seq<u32>| #[trigger] walked(s@, before, out@, q, q.len() as int);
        assert(q.take(q.len() as int) =~= q);
        assert forall|x: u32| out@.contains(x) <==> before.contains(x) || s@.contains(x) by {
            if before.contains(x) {
                let i = choose|i: int| 0 <= i < before.len() && before[i] == x;
                assert(out@[i] == x);
            }
            if s@.contains(x) {
                assert(q.contains(x));
                let i = choose|i: int| 0 <= i < q.len() && q[i] == x;
                assert(out@[before.len() + i] == x);
            }
            if out@.contains(x) {
                let i = choose|i: int| 0 <= i < out@.len() && out@[i] == x;
                if i >= before.len() {
                    assert(q[i - before.len()] == x);
                }
            }
        }
    }
}

/// The first `n` members of a walk over the set have been appended.
spec fn walked(s: Set<u32>, before: Seq<u32>, out: Seq<u32>, q: Seq<u32>, n: int) -> bool {
    q.to_set() == s && out == before + q.take(n)
}

/// The numbers in increasing order, each once.
fn sorted_once(v: Vec<u32>) -> (r: Vec<u32>)
    ensures
        forall|i: int, j: int| 0 <= i < j < r@.len() ==> r@[i] < r@[j],
        forall|x: u32| r@.contains(x) <==> v@.contains(x),
{
    let mut w: Vec<u128> = Vec::new();
    let mut k: usize = 0;
    while k < v.len()
        invariant
            k <= v@.len(),
            w@.len() == k,
            forall|a: int| 0 <= a < k ==> (#[trigger] w@[a]) == v@[a],
        decreases v@.len() - k,
    {
        w.push(v[k] as u128);
        k = k + 1;
    }
    let ghost made = w@;
    sort_numbers(&mut w);
    proof {
        lemma_sorted_members(w@, made);
    }
    assert forall|a: int| 0 <= a < w@.len() implies (#[trigger] w@[a]) <= u32::MAX && v@.contains(
        w@[a] as u32,
    ) by {
        assert(w@.contains(w@[a]));
        assert(made.contains(w@[a]));
        let b = choose|b: int| 0 <= b < made.len() && made[b] == w@[a];
        assert(v@[b] == w@[a]);
    }
    assert forall|x: u32| v@.contains(x) implies w@.contains(x as u128) by {
        let b = choose|b: int| 0 <= b < v@.len() && v@[b] == x;
        assert(made[b] == x as u128);
        assert(made.contains(x as u128));
    }
    let mut out: Vec<u32> = Vec::new();
    let mut i: usize = 0;
    while i < w.len()
        invariant
            i <= w@.len(),
            is_sorted(w@),
            forall|a: int| 0 <= a < w@.len() ==> (#[trigger] w@[a]) <= u32::MAX,
            forall|a: int, b: int| 0 <= a < b < out@.len() ==> out@[a] < out@[b],
            forall|a: int| 0 <= a < i ==> out@.contains(#[trigger] w@[a] as u32),
            forall|a: int| 0 <= a < out@.len() ==> w@.contains(#[trigger] out@[a] as u128),
            out@.len() == 0 <==> i == 0,
            i > 0 ==> out@.len() > 0 && out@.last() == w@[i - 1],
        decreases w@.len() - i,
    {
        let ghost before = out@;
        let x: u32 = w[i] as u32;
        if out.len() == 0 || out[out.len() - 1] != x {
            out.push(x);
            assert(out@.last() == w@[i as int]);
            assert forall|a: int, b: int| 0 <= a < b < out@.len() implies out@[a] < out@[b] by {
                if b == before.len() {
                    assert(w@[i - 1] <= w@[i as int]);
                    assert(before[a] <= before.last());
                }
            }
            assert forall|a: int| 0 <= a <= i implies out@.contains(#[trigger] w@[a] as u32) by {
                if a < i {
                    let k = choose|k: int| 0 <= k < before.len() && before[k] == w@[a] as u32;
                    assert(out@[k] == w@[a] as u32);
                } else {
                    assert(out@[before.len() as int] == w@[a]);
                }
            }
            assert(w@.contains(w@[i as int]));
        } else {
            assert(out@[out@.len() - 1] == w@[i as int]);
        }
        i = i + 1;
    }
    assert forall|x: u32| out@.contains(x) <==> v@.contains(x) by {
        if v@.contains(x) {
            assert(w@.contains(x as u128));
            let k = choose|k: int| 0 <= k < w@.len() && w@[k] == x as u128;
            assert(out@.contains(w@[k] as u32));
        }
        if out@.contains(x) {
            let k = choose|k: int| 0 <= k < out@.len() && out@[k] == x;
            assert(w@.contains(out@[k] as u128));
            let a = choose|a: int| 0 <= a < w@.len() && w@[a] == x as u128;
            assert(v@.contains(w@[a] as u32));
        }
    }
    out
}

impl Default for FontUsage {
    fn default() -> (r: Self)
        ensures
            r@ == UsageView::empty(),
    {
        FontUsage {
            normal: HashSet::new(),
            bold: HashSet::new(),
            italic: HashSet::new(),
            bold_italic: HashSet::new(),
        }
    }
}

impl FontUsage {
    /// Notes that a slot has to draw a code point.
    pub fn add(&mut self, slot: FontSlot, cp: u32)
        ensures
            final(self)@ == old(self)@.with(slot, cp),
    {
        match slot {
            FontSlot::Normal => {
                self.normal.insert(cp);
            },
            FontSlot::Bold => {
                self.bold.insert(cp);
            },
            FontSlot::Italic => {
                self.italic.insert(cp);
            },
            FontSlot::BoldItalic => {
                self.bold_italic.insert(cp);
            },
        }
    }

    /// The code points of every slot, in increasing order.
    pub fn all_codepoints(&self) -> (r: Vec<u32>)
        ensures
            lists(r@, self@.all()),
    {
        let mut v: Vec<u32> = Vec::new();
        push_members(&mut v, &self.normal);
        push_members(&mut v, &self.bold);
        push_members(&mut v, &self.italic);
        push_members(&mut v, &self.bold_italic);
        let r = sorted_once(v);
        assert forall|x: u32| r@.contains(x) <==> self@.all().contains(x) by {
            assert(r@.contains(x) <==> v@.contains(x));
        }
        r
    }

    /// The code points of one slot, in increasing order.
    pub fn slot_codepoints(&self, slot: FontSlot) -> (r: Vec<u32>)
        ensures
            lists(r@, self@.slot(slot)),
    {
        let mut v: Vec<u32> = Vec::new();
        match slot {
            FontSlot::Normal => push_members(&mut v, &self.normal),
            FontSlot::Bold => push_members(&mut v, &self.bold),
            FontSlot::Italic => push_members(&mut v, &self.italic),
            FontSlot::BoldItalic => push_members(&mut v, &self.bold_italic),
        }
        sorted_once(v)
    }
}

// ---------------------------------------------------------------------------
// The usage of every font
// ---------------------------------------------------------------------------
/// The usages once a font has to draw one more code point.
pub open spec fn noted(
    m: Seq<(Seq<char>, UsageView)>,
    font: Seq<char>,
    slot: FontSlot,
    cp: u32,
) -> Seq<(Seq<char>, UsageView)> {
    let had = match lookup(m, font) {
        Some(u) => u,
        None => UsageView::empty(),
    };
    put(m, font, had.with(slot, cp))
}

pub fn note(m: &mut StrMap<FontUsage>, font: String, slot: FontSlot, cp: u32)
    ensures
        final(m)@ == noted(old(m)@, font@, slot, cp),
{
    let i = m.find(font.as_str());
    if i < m.len() {
        let u = m.value_mut(i);
        u.add(slot, cp);
    } else {
        let mut u = FontUsage::default();
        u.add(slot, cp);
        m.insert(font, u);
    }
}

// ---------------------------------------------------------------------------
// Laws
// ---------------------------------------------------------------------------
/// Noting a code point adds it to its slot and changes no other.
pub proof fn law_add_one_slot(u: UsageView, slot: FontSlot, cp: u32, other: FontSlot)
    ensures
        u.with(slot, cp).slot(other) == if other == slot {
            u.slot(other).insert(cp)
        } else {
            u.slot(other)
        },
        u.with(slot, cp).all() == u.all().insert(cp),
{
    assert(u.with(slot, cp).all() =~= u.all().insert(cp));
}

/// A set has only one list.
pub proof fn law_lists_once(a: Seq<u32>, b: Seq<u32>, s: Set<u32>)
    requires
        lists(a, s),
        lists(b, s),
    ensures
        a == b,
    decreases a.len(),
{
    if a.len() == 0 {
        if b.len() > 0 {
            assert(b.contains(b[0]));
            assert(a.contains(b[0]));
        }
        assert(a =~= b);
    } else {
        let x = a.last();
        assert(a.contains(x));
        assert(b.contains(x));
        let k = choose|k: int| 0 <= k < b.len() && b[k] == x;
        if k != b.len() - 1 {
            assert(b.contains(b.last()));
            assert(a.contains(b.last()));
            let m = choose|m: int| 0 <= m < a.len() && a[m] == b.last();
            assert(b[k] < b[b.len() - 1]);
        }
        let s1 = s.remove(x);
        lemma_lists_drop(a, s);
        lemma_lists_drop(b, s);
        law_lists_once(a.drop_last(), b.drop_last(), s1);
        assert(a =~= a.drop_last().push(x));
        assert(b =~= b.drop_last().push(x));
    }
}

proof fn lemma_lists_drop(a: Seq<u32>, s: Set<u32>)
    requires
        lists(a, s),
        a.len() > 0,
    ensures
        lists(a.drop_last(), s.remove(a.last())),
{
    let d = a.drop_last();
    let t = s.remove(a.last());
    assert forall|x: u32| d.contains(x) <==> t.contains(x) by {
        if d.contains(x) {
            let k = choose|k: int| 0 <= k < d.len() && d[k] == x;
            assert(a[k] == x);
            assert(a.contains(x));
            assert(a[k] < a[a.len() - 1]);
        }
        if t.contains(x) {
            assert(a.contains(x));
            let k = choose|k: int| 0 <= k < a.len() && a[k] == x;
            assert(d[k] == x);
        }
    }
}

} // verus!
