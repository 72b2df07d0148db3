//! Sorting numbers and texts.
use vstd::prelude::*;

use crate::text::texts;

verus! {

/// Numbers in increasing order.
pub open spec fn is_sorted(v: Seq<u128>) -> bool {
    forall|i: int, j: int| 0 <= i < j < v.len() ==> v[i] <= v[j]
}

/// `slice::sort_unstable` on numbers: the same numbers in increasing order.
#[verifier::external_body]
pub(crate) fn sort_numbers(v: &mut Vec<u128>)
    ensures
        final(v)@.to_multiset() == old(v)@.to_multiset(),
        is_sorted(final(v)@),
{
    v.sort_unstable();
}

/// Sorting keeps the members and their number.
pub proof fn lemma_sorted_members(a: Seq<u128>, b: Seq<u128>)
    requires
        a.to_multiset() == b.to_multiset(),
    ensures
        a.len() == b.len(),
        forall|x: u128| #[trigger] a.contains(x) <==> b.contains(x),
{
    a.to_multiset_ensures();
    b.to_multiset_ensures();
    assert forall|x: u128| #[trigger] a.contains(x) <==> b.contains(x) by {
        assert(a.contains(x) <==> a.to_multiset().count(x) > 0);
        assert(b.contains(x) <==> b.to_multiset().count(x) > 0);
    }
}

/// Whether a text comes before another or is the same: by the first character in
/// which they differ, or else the shorter one.
pub open spec fn text_le(a: Seq<char>, b: Seq<char>, i: int) -> bool
    decreases a.len() - i,
{
    if !(0 <= i < a.len()) {
        true
    } else if i >= b.len() {
        false
    } else if a[i] == b[i] {
        text_le(a, b, i + 1)
    } else {
        (a[i] as int) < (b[i] as int)
    }
}

/// Texts in increasing order.
pub open spec fn texts_sorted(v: Seq<Seq<char>>) -> bool {
    forall|i: int, j: int| 0 <= i < j < v.len() ==> text_le(#[trigger] v[i], #[trigger] v[j], 0)
}

/// `slice::sort` on strings: the same texts in the order of their code points.
#[verifier::external_body]
pub(crate) fn sort_texts(v: &mut Vec<String>)
    ensures
        texts(final(v)@).to_multiset() == texts(old(v)@).to_multiset(),
        texts_sorted(texts(final(v)@)),
{
    v.sort();
}

/// The order of a list of numbers: the places of the list, those with lower
/// numbers first and the earlier place first among equals.
pub open spec fn is_order(keys: Seq<u64>, order: Seq<usize>) -> bool {
    &&& order.len() == keys.len()
    &&& forall|i: int| 0 <= i < order.len() ==> (#[trigger] order[i]) < keys.len()
    &&& forall|i: int, j: int|
        0 <= i < j < order.len() ==> {
            let (a, b) = (#[trigger] order[i], #[trigger] order[j]);
            keys[a as int] < keys[b as int] || (keys[a as int] == keys[b as int] && a < b)
        }
}

/// A number and a place in one number that is ordered by both.
pub open spec fn keyed(key: u64, at: int) -> int {
    key * 0x1_0000_0000_0000_0000 + at
}

/// The places of the list in the order of their numbers.
pub fn order_of(keys: &Vec<u64>) -> (r: Vec<usize>)
    ensures
        is_order(keys@, r@),
{
    let n = keys.len();
    let mut all: Vec<u128> = Vec::new();
    let mut i: usize = 0;
    while i < n
        invariant
            i <= n == keys@.len(),
            all@.len() == i,
            forall|j: int| 0 <= j < i ==> (#[trigger] all@[j]) as int == keyed(keys@[j], j),
        decreases n - i,
    {
        all.push(keys[i] as u128 * 0x1_0000_0000_0000_0000u128 + i as u128);
        i = i + 1;
    }
    let ghost made = all@;
    sort_numbers(&mut all);
    proof {
        lemma_sorted_members(all@, made);
        lemma_keyed_once(keys@, made, all@);
    }
    let mut out: Vec<usize> = Vec::new();
    let mut k: usize = 0;
    while k < n
        invariant
            k <= n == keys@.len() == all@.len() == made.len(),
            n <= usize::MAX,
            forall|j: int| 0 <= j < n ==> (#[trigger] made[j]) as int == keyed(keys@[j], j),
            forall|x: u128| #[trigger] all@.contains(x) <==> made.contains(x),
            out@.len() == k,
            forall|j: int|
                0 <= j < k ==> (#[trigger] out@[j]) < n && all@[j] as int == keyed(
                    keys@[out@[j] as int],
                    out@[j] as int,
                ),
        decreases n - k,
    {
        let x: u128 = all[k];
        let at: u128 = x % 0x1_0000_0000_0000_0000u128;
        proof {
            assert(all@.contains(x));
            assert(made.contains(x));
            let j = choose|j: int| 0 <= j < made.len() && made[j] == x;
            assert(x as int == keyed(keys@[j], j));
            assert(at == j) by {
                vstd::arithmetic::div_mod::lemma_fundamental_div_mod_converse(
                    x as int,
                    0x1_0000_0000_0000_0000,
                    keys@[j] as int,
                    j,
                );
            }
        }
        out.push(at as usize);
        k = k + 1;
    }
    proof {
        assert forall|i: int, j: int| 0 <= i < j < out@.len() implies {
            let (a, b) = (#[trigger] out@[i], #[trigger] out@[j]);
            keys@[a as int] < keys@[b as int] || (keys@[a as int] == keys@[b as int] && a < b)
        } by {
            let (a, b) = (out@[i], out@[j]);
            assert(all@[i] < all@[j]);
            assert(all@[i] as int == keyed(keys@[a as int], a as int));
            assert(all@[j] as int == keyed(keys@[b as int], b as int));
            if keys@[a as int] > keys@[b as int] {
                assert(keys@[a as int] * 0x1_0000_0000_0000_0000 >= keys@[b as int]
                    * 0x1_0000_0000_0000_0000 + 0x1_0000_0000_0000_0000);
            }
        }
    }
    out
}

/// Sorted numbers that were different stay different.
proof fn lemma_keyed_once(keys: Seq<u64>, made: Seq<u128>, all: Seq<u128>)
    requires
        made.len() == keys.len(),
        keys.len() <= usize::MAX,
        forall|j: int| 0 <= j < made.len() ==> (#[trigger] made[j]) as int == keyed(keys[j], j),
        all.to_multiset() == made.to_multiset(),
        is_sorted(all),
    ensures
        forall|i: int, j: int| 0 <= i < j < all.len() ==> all[i] < all[j],
{
    made.to_multiset_ensures();
    all.to_multiset_ensures();
    assert(made.no_duplicates()) by {
        assert forall|i: int, j: int|
            0 <= i < made.len() && 0 <= j < made.len() && i != j implies made[i] != made[j] by {
            if keys[i] < keys[j] {
                assert(keys[i] * 0x1_0000_0000_0000_0000 + 0x1_0000_0000_0000_0000 <= keys[j]
                    * 0x1_0000_0000_0000_0000);
            } else if keys[j] < keys[i] {
                assert(keys[j] * 0x1_0000_0000_0000_0000 + 0x1_0000_0000_0000_0000 <= keys[i]
                    * 0x1_0000_0000_0000_0000);
            }
        }
    }
    made.lemma_multiset_has_no_duplicates();
    assert(all.no_duplicates()) by {
        all.lemma_multiset_has_no_duplicates_conv();
    }
    assert forall|i: int, j: int| 0 <= i < j < all.len() implies all[i] < all[j] by {
        assert(all[i] <= all[j]);
        assert(all[i] != all[j]);
    }
}

} // verus!
