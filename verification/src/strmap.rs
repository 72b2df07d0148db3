//! A map from strings to values that keeps its entries in the order in which
//! their keys were first put in.
use vstd::prelude::*;

use crate::text::same_text;

verus! {

/// The value of a key in a list of entries.
pub open spec fn lookup_from<T>(m: Seq<(Seq<char>, T)>, k: Seq<char>, i: int) -> Option<T>
    decreases m.len() - i,
{
    if 0 <= i < m.len() {
        if m[i].0 == k {
            Some(m[i].1)
        } else {
            lookup_from(m, k, i + 1)
        }
    } else {
        None
    }
}

pub open spec fn lookup<T>(m: Seq<(Seq<char>, T)>, k: Seq<char>) -> Option<T> {
    lookup_from(m, k, 0)
}

/// Where the key stands, or the number of entries.
pub open spec fn place_from<T>(m: Seq<(Seq<char>, T)>, k: Seq<char>, i: int) -> int
    decreases m.len() - i,
{
    if 0 <= i < m.len() && m[i].0 != k {
        place_from(m, k, i + 1)
    } else {
        i
    }
}

pub open spec fn place<T>(m: Seq<(Seq<char>, T)>, k: Seq<char>) -> int {
    place_from(m, k, 0)
}

/// The entries once the key has the value.
pub open spec fn put<T>(m: Seq<(Seq<char>, T)>, k: Seq<char>, v: T) -> Seq<(Seq<char>, T)> {
    let i = place(m, k);
    if i < m.len() {
        m.update(i, (k, v))
    } else {
        m.push((k, v))
    }
}

/// The entries without the key.
pub open spec fn without<T>(m: Seq<(Seq<char>, T)>, k: Seq<char>) -> Seq<(Seq<char>, T)> {
    let i = place(m, k);
    if i < m.len() {
        m.remove(i)
    } else {
        m
    }
}

/// No key occurs twice.
pub open spec fn distinct_keys<T>(m: Seq<(Seq<char>, T)>) -> bool {
    forall|i: int, j: int| 0 <= i < j < m.len() ==> #[trigger] m[i].0 != #[trigger] m[j].0
}

#[derive(Debug)]
pub struct StrMap<V> {
    entries: Vec<(String, V)>,
}

impl<V: View> View for StrMap<V> {
    type V = Seq<(Seq<char>, V::V)>;

    closed spec fn view(&self) -> Seq<(Seq<char>, V::V)> {
        Seq::new(self.entries@.len(), |i: int| (self.entries@[i].0@, self.entries@[i].1@))
    }
}

pub open spec fn seen<V: View>(r: Option<&V>) -> Option<V::V> {
    match r {
        Some(v) => Some(v@),
        None => None,
    }
}

impl<V: View> StrMap<V> {
    pub fn new() -> (r: Self)
        ensures
            r@ == Seq::<(Seq<char>, V::V)>::empty(),
            distinct_keys(r@),
    {
        let r = StrMap { entries: Vec::new() };
        assert(r@ =~= seq![]);
        r
    }

    pub fn len(&self) -> (r: usize)
        ensures
            r == self@.len(),
    {
        self.entries.len()
    }

    pub fn is_empty(&self) -> (r: bool)
        ensures
            r == (self@.len() == 0),
    {
        self.entries.len() == 0
    }

    pub fn key(&self, i: usize) -> (r: &String)
        requires
            i < self@.len(),
        ensures
            r@ == self@[i as int].0,
    {
        &self.entries[i].0
    }

    pub fn value(&self, i: usize) -> (r: &V)
        requires
            i < self@.len(),
        ensures
            r@ == self@[i as int].1,
    {
        &self.entries[i].1
    }

    /// The place of the key, or the number of entries.
    pub fn find(&self, k: &str) -> (r: usize)
        ensures
            r == place(self@, k@),
            r <= self@.len(),
            r < self@.len() ==> self@[r as int].0 == k@ && lookup(self@, k@) == Some(
                self@[r as int].1,
            ),
            r == self@.len() ==> lookup(self@, k@) is None,
    {
        let mut i: usize = 0;
        while i < self.entries.len()
            invariant
                i <= self@.len() == self.entries@.len(),
                place(self@, k@) == place_from(self@, k@, i as int),
                lookup(self@, k@) == lookup_from(self@, k@, i as int),
            decreases self.entries@.len() - i,
        {
            if same_text(self.entries[i].0.as_str(), k) {
                assert(self@[i as int].0 == k@);
                return i;
            }
            assert(self@[i as int].0 != k@);
            i = i + 1;
        }
        i
    }

    pub fn get(&self, k: &str) -> (r: Option<&V>)
        ensures
            seen(r) == lookup(self@, k@),
    {
        let i = self.find(k);
        if i < self.entries.len() {
            Some(&self.entries[i].1)
        } else {
            None
        }
    }

    pub fn contains_key(&self, k: &str) -> (r: bool)
        ensures
            r == (lookup(self@, k@) is Some),
    {
        self.find(k) < self.entries.len()
    }

    /// Gives the key the value, in its old place or in a new last place.
    pub fn insert(&mut self, k: String, v: V)
        ensures
            final(self)@ == put(old(self)@, k@, v@),
            distinct_keys(old(self)@) ==> distinct_keys(final(self)@),
    {
        let i = self.find(k.as_str());
        let ghost before = self@;
        let ghost kv = k@;
        let ghost vv = v@;
        if i < self.entries.len() {
            self.entries.set(i, (k, v));
            assert(self@ =~= before.update(i as int, (kv, vv)));
        } else {
            self.entries.push((k, v));
            assert(self@ =~= before.push((kv, vv)));
        }
        proof {
            if distinct_keys(before) {
                law_put_keeps_distinct(before, kv, vv);
            }
        }
    }

    /// Takes the entry in a place out.
    pub fn remove_at(&mut self, i: usize)
        requires
            i < old(self)@.len(),
        ensures
            final(self)@ == old(self)@.remove(i as int),
    {
        let ghost before = self@;
        let _gone = self.entries.remove(i);
        assert(self@ =~= before.remove(i as int));
    }

    /// Takes the key out, if it is there.
    pub fn remove(&mut self, k: &str)
        ensures
            final(self)@ == without(old(self)@, k@),
    {
        let i = self.find(k);
        if i < self.entries.len() {
            self.remove_at(i);
        }
    }

    /// The value in a place, for change.
    pub fn value_mut(&mut self, i: usize) -> (r: &mut V)
        requires
            i < old(self)@.len(),
        ensures
            r@ == old(self)@[i as int].1,
            final(self)@ == old(self)@.update(
                i as int,
                (old(self)@[i as int].0, (*final(r))@),
            ),
    {
        &mut self.entries[i].1
    }
}

// ---------------------------------------------------------------------------
// Laws
// ---------------------------------------------------------------------------
pub proof fn lemma_place<T>(m: Seq<(Seq<char>, T)>, k: Seq<char>, i: int)
    requires
        0 <= i <= m.len(),
    ensures
        i <= place_from(m, k, i) <= m.len(),
        forall|j: int| i <= j < place_from(m, k, i) ==> (#[trigger] m[j]).0 != k,
        place_from(m, k, i) < m.len() ==> m[place_from(m, k, i)].0 == k && lookup_from(m, k, i)
            == Some(m[place_from(m, k, i)].1),
        place_from(m, k, i) == m.len() ==> lookup_from(m, k, i) is None,
    decreases m.len() - i,
{
    if i < m.len() && m[i].0 != k {
        lemma_place(m, k, i + 1);
    }
}

/// A key that no entry before `n` has is looked up from `n` on.
pub proof fn lemma_lookup_skip<T>(m: Seq<(Seq<char>, T)>, k: Seq<char>, i: int, n: int)
    requires
        0 <= i <= n <= m.len(),
        forall|j: int| i <= j < n ==> (#[trigger] m[j]).0 != k,
    ensures
        lookup_from(m, k, i) == lookup_from(m, k, n),
    decreases n - i,
{
    if i < n {
        lemma_lookup_skip(m, k, i + 1, n);
    }
}

/// Putting a key in changes what that key has, and no other.
pub proof fn law_lookup_put<T>(m: Seq<(Seq<char>, T)>, k: Seq<char>, v: T, q: Seq<char>)
    ensures
        lookup(put(m, k, v), q) == if q == k {
            Some(v)
        } else {
            lookup(m, q)
        },
{
    lemma_place(m, k, 0);
    let i = place(m, k);
    let n = put(m, k, v);
    if q == k {
        lemma_lookup_skip(n, q, 0, i);
    } else {
        lemma_same_lookup(m, n, k, q, 0);
    }
}

proof fn lemma_same_lookup<T>(
    m: Seq<(Seq<char>, T)>,
    n: Seq<(Seq<char>, T)>,
    k: Seq<char>,
    q: Seq<char>,
    i: int,
)
    requires
        q != k,
        0 <= i <= m.len() <= n.len(),
        forall|j: int|
            0 <= j < m.len() ==> (#[trigger] n[j] == m[j]) || (n[j].0 == k && m[j].0 == k),
        forall|j: int| m.len() <= j < n.len() ==> (#[trigger] n[j]).0 == k,
    ensures
        lookup_from(n, q, i) == lookup_from(m, q, i),
    decreases m.len() - i,
{
    if i < m.len() {
        assert(n[i].0 == m[i].0);
        lemma_same_lookup(m, n, k, q, i + 1);
    } else {
        lemma_lookup_skip(n, q, i, n.len() as int);
    }
}

/// Putting a key in keeps the keys distinct.
pub proof fn law_put_keeps_distinct<T>(m: Seq<(Seq<char>, T)>, k: Seq<char>, v: T)
    requires
        distinct_keys(m),
    ensures
        distinct_keys(put(m, k, v)),
{
    lemma_place(m, k, 0);
    let i = place(m, k);
    let n = put(m, k, v);
    assert forall|a: int, b: int| 0 <= a < b < n.len() implies #[trigger] n[a].0
        != #[trigger] n[b].0 by {
        if i < m.len() {
            assert(n[a].0 == m[a].0);
            assert(n[b].0 == m[b].0);
        } else {
            assert(n[a] == m[a]);
        }
    }
}

/// A key that was taken out is not there.
pub proof fn law_lookup_without<T>(m: Seq<(Seq<char>, T)>, k: Seq<char>)
    requires
        distinct_keys(m),
    ensures
        lookup(without(m, k), k) is None,
        distinct_keys(without(m, k)),
{
    lemma_place(m, k, 0);
    let i = place(m, k);
    let n = without(m, k);
    assert forall|j: int| 0 <= j < n.len() implies (#[trigger] n[j]).0 != k by {
        if i < m.len() {
            if j < i {
                assert(n[j] == m[j]);
            } else {
                assert(n[j] == m[j + 1]);
                assert(m[i].0 != m[j + 1].0);
            }
        } else {
            assert(n[j] == m[j]);
        }
    }
    assert forall|a: int, b: int| 0 <= a < b < n.len() implies #[trigger] n[a].0
        != #[trigger] n[b].0 by {
        let x = if i < m.len() && a >= i { a + 1 } else { a };
        let y = if i < m.len() && b >= i { b + 1 } else { b };
        assert(n[a] == m[x] && n[b] == m[y]);
        assert(m[x].0 != m[y].0);
    }
    lemma_lookup_skip(n, k, 0, n.len() as int);
}

} // verus!
