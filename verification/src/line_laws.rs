//! What holds of trimming, of lines and of joined text.
use vstd::prelude::*;

use crate::split::{drop_return, fields_from, join, join_upto, lines, lines_from};
use crate::text::{
    cut_back, cut_end, cut_front, find_from, is_white, lemma_cut_back, lemma_cut_front,
    lemma_find_from, lemma_find_is, trim, trim_start, Cut,
};

verus! {

// ---------------------------------------------------------------------------
// Trimming
// ---------------------------------------------------------------------------
pub proof fn lemma_cut_front_is(s: Seq<char>, k: Cut, i: int, n: int)
    requires
        0 <= i <= n <= s.len(),
        forall|j: int| i <= j < n ==> k.has(#[trigger] s[j]),
        n < s.len() ==> !k.has(s[n]),
    ensures
        cut_front(s, k, i) == n,
    decreases n - i,
{
    if i < n {
        assert(k.has(s[i]));
        lemma_cut_front_is(s, k, i + 1, n);
    }
}

proof fn lemma_cut_back_is(s: Seq<char>, k: Cut, j: int, n: int)
    requires
        0 <= n <= j <= s.len(),
        forall|i: int| n <= i < j ==> k.has(#[trigger] s[i]),
        n > 0 ==> !k.has(s[n - 1]),
    ensures
        cut_back(s, k, j) == n,
    decreases j - n,
{
    if n < j {
        assert(k.has(s[j - 1]));
        lemma_cut_back_is(s, k, j - 1, n);
    }
}

/// A trimmed text is the part between white space at the two ends.
pub proof fn lemma_trim_is(s: Seq<char>, i: int, j: int)
    requires
        0 <= i <= j <= s.len(),
        forall|x: int| 0 <= x < i ==> is_white(#[trigger] s[x]),
        forall|x: int| j <= x < s.len() ==> is_white(#[trigger] s[x]),
        i < j ==> !is_white(s[i]) && !is_white(s[j - 1]),
    ensures
        trim(s) == s.subrange(i, j),
{
    let k = Cut::White;
    if i < j {
        lemma_cut_front_is(s, k, 0, i);
        let t = s.skip(i);
        assert forall|x: int| j - i <= x < t.len() implies k.has(#[trigger] t[x]) by {
            assert(is_white(s[i + x]));
        }
        assert(t[j - i - 1] == s[j - 1]);
        lemma_cut_back_is(t, k, t.len() as int, j - i);
        assert(trim(s) =~= s.subrange(i, j));
    } else {
        assert forall|x: int| 0 <= x < s.len() implies k.has(#[trigger] s[x]) by {
            if x < i {
                assert(is_white(s[x]));
            } else {
                assert(is_white(s[x]));
            }
        }
        lemma_cut_front_is(s, k, 0, s.len() as int);
        assert(trim(s) =~= s.subrange(i, j));
    }
}

/// Where the trimmed text stands.
pub proof fn lemma_trim_at(s: Seq<char>) -> (r: (int, int))
    ensures
        0 <= r.0 <= r.1 <= s.len(),
        forall|x: int| 0 <= x < r.0 ==> is_white(#[trigger] s[x]),
        forall|x: int| r.1 <= x < s.len() ==> is_white(#[trigger] s[x]),
        r.0 < r.1 ==> !is_white(s[r.0]) && !is_white(s[r.1 - 1]),
        trim(s) == s.subrange(r.0, r.1),
{
    let k = Cut::White;
    let i = cut_front(s, k, 0);
    lemma_cut_front(s, k, 0);
    assert forall|x: int| 0 <= x < i implies is_white(#[trigger] s[x]) by {
        assert(k.has(s[x]));
    }
    let t = s.skip(i);
    let n = cut_back(t, k, t.len() as int);
    lemma_cut_back(t, k, t.len() as int);
    assert forall|x: int| i + n <= x < s.len() implies is_white(#[trigger] s[x]) by {
        assert(k.has(t[x - i]));
    }
    if n > 0 {
        assert(!k.has(t[n - 1]));
        if i < s.len() {
            assert(!k.has(s[i]));
        }
    }
    assert(trim(s) =~= s.subrange(i, i + n));
    (i, i + n)
}

/// White space around a text does not change what is left of it.
pub proof fn lemma_trim_around(a: Seq<char>, s: Seq<char>, b: Seq<char>)
    requires
        forall|x: int| 0 <= x < a.len() ==> is_white(#[trigger] a[x]),
        forall|x: int| 0 <= x < b.len() ==> is_white(#[trigger] b[x]),
    ensures
        trim(a + s + b) == trim(s),
{
    let (i, j) = lemma_trim_at(s);
    let t = a + s + b;
    let n = a.len();
    if i < j {
        assert(t[n + i] == s[i]);
        assert(t[n + j - 1] == s[j - 1]);
        assert forall|x: int| 0 <= x < n + i implies is_white(#[trigger] t[x]) by {
            if x < n {
                assert(is_white(a[x]));
            } else {
                assert(is_white(s[x - n]));
            }
        }
        assert forall|x: int| n + j <= x < t.len() implies is_white(#[trigger] t[x]) by {
            if x < n + s.len() {
                assert(is_white(s[x - n]));
            } else {
                assert(is_white(b[x - n - s.len()]));
            }
        }
        lemma_trim_is(t, n + i, n + j);
        assert(t.subrange(n + i, n + j) =~= s.subrange(i, j));
    } else {
        assert forall|x: int| 0 <= x < t.len() implies is_white(#[trigger] t[x]) by {
            if x < n {
                assert(is_white(a[x]));
            } else if x < n + s.len() {
                if x - n < i {
                    assert(is_white(s[x - n]));
                } else {
                    assert(is_white(s[x - n]));
                }
            } else {
                assert(is_white(b[x - n - s.len()]));
            }
        }
        lemma_trim_is(t, 0, 0);
        assert(t.subrange(0, 0) =~= s.subrange(i, j));
    }
}

/// Trimming twice is trimming once.
pub proof fn law_trim_idempotent(s: Seq<char>)
    ensures
        trim(trim(s)) == trim(s),
{
    let (i, j) = lemma_trim_at(s);
    let t = trim(s);
    if i < j {
        assert(t[0] == s[i]);
        assert(t[t.len() - 1] == s[j - 1]);
    }
    lemma_trim_is(t, 0, t.len() as int);
    assert(t.subrange(0, t.len() as int) =~= t);
}

/// The carriage returns at the end of a line are white space.
pub proof fn lemma_trim_cut_return(s: Seq<char>)
    ensures
        trim(cut_end(s, Cut::CarriageReturn)) == trim(s),
{
    let k = Cut::CarriageReturn;
    let n = cut_back(s, k, s.len() as int);
    lemma_cut_back(s, k, s.len() as int);
    let b = s.skip(n);
    assert forall|x: int| 0 <= x < b.len() implies is_white(#[trigger] b[x]) by {
        assert(k.has(s[n + x]));
    }
    lemma_trim_around(seq![], s.take(n), b);
    assert(seq![] + s.take(n) + b =~= s);
}

/// Cutting one carriage return first changes nothing.
proof fn lemma_cut_drop_return(s: Seq<char>)
    ensures
        cut_end(drop_return(s), Cut::CarriageReturn) == cut_end(s, Cut::CarriageReturn),
{
    if s.len() > 0 && s.last() == '\r' {
        let k = Cut::CarriageReturn;
        let t = s.drop_last();
        let n = cut_back(t, k, t.len() as int);
        lemma_cut_back(t, k, t.len() as int);
        assert forall|i: int| n <= i < s.len() implies k.has(#[trigger] s[i]) by {
            if i < t.len() {
                assert(k.has(t[i]));
            }
        }
        lemma_cut_back_is(s, k, s.len() as int, n);
        assert(t.take(n) =~= s.take(n));
    }
}

// ---------------------------------------------------------------------------
// Joining
// ---------------------------------------------------------------------------
pub proof fn lemma_join_prefix(a: Seq<Seq<char>>, b: Seq<Seq<char>>, sep: Seq<char>, n: int)
    requires
        0 <= n <= a.len(),
        n <= b.len(),
        forall|i: int| 0 <= i < n ==> a[i] == b[i],
    ensures
        join_upto(a, sep, n) == join_upto(b, sep, n),
    decreases n,
{
    if n > 1 {
        lemma_join_prefix(a, b, sep, n - 1);
    }
}

proof fn lemma_join_first(v: Seq<Seq<char>>, sep: Seq<char>, n: int)
    requires
        2 <= n <= v.len(),
    ensures
        join_upto(v, sep, n) == v[0] + sep + join_upto(v.skip(1), sep, n - 1),
    decreases n,
{
    let w = v.skip(1);
    if n == 2 {
        assert(join_upto(v, sep, 1) == v[0]);
        assert(join_upto(w, sep, 1) == v[1]);
    } else {
        lemma_join_first(v, sep, n - 1);
        assert(join_upto(v, sep, n) =~= v[0] + sep + (join_upto(w, sep, n - 2) + sep + w[n - 2]));
    }
}

/// A joined list is its first part, the separator, and the rest joined.
pub proof fn lemma_join_cons(v: Seq<Seq<char>>, sep: Seq<char>)
    requires
        v.len() >= 2,
    ensures
        join(v, sep) == v[0] + sep + join(v.skip(1), sep),
{
    lemma_join_first(v, sep, v.len() as int);
}

/// Two lists joined.
pub proof fn lemma_join_add(a: Seq<Seq<char>>, b: Seq<Seq<char>>, sep: Seq<char>)
    requires
        a.len() > 0,
        b.len() > 0,
    ensures
        join(a + b, sep) == join(a, sep) + sep + join(b, sep),
    decreases b.len(),
{
    let v = a + b;
    let n = v.len() as int;
    lemma_join_prefix(v, a, sep, a.len() as int);
    if b.len() == 1 {
        assert(v[n - 1] == b[0]);
    } else {
        let c = b.drop_last();
        lemma_join_add(a, c, sep);
        lemma_join_prefix(v, a + c, sep, n - 1);
        lemma_join_prefix(b, c, sep, b.len() - 1);
        assert(v[n - 1] == b.last());
        assert(join(v, sep) =~= join(a, sep) + sep + join(b, sep));
    }
}

/// A list may be joined in parts: a part that is a joined list itself can be
/// taken apart.
pub proof fn lemma_join_flat(
    a: Seq<Seq<char>>,
    mid: Seq<Seq<char>>,
    b: Seq<Seq<char>>,
    sep: Seq<char>,
)
    requires
        mid.len() > 0,
    ensures
        join(a.push(join(mid, sep)) + b, sep) == join(a + mid + b, sep),
{
    let one = seq![join(mid, sep)];
    assert(join(one, sep) == join(mid, sep));
    let left = a.push(join(mid, sep));
    assert(left =~= a + one);
    if a.len() > 0 {
        lemma_join_add(a, one, sep);
        lemma_join_add(a, mid, sep);
    } else {
        assert(a + one =~= one);
        assert(a + mid =~= mid);
    }
    assert(join(left, sep) == join(a + mid, sep));
    if b.len() > 0 {
        lemma_join_add(left, b, sep);
        lemma_join_add(a + mid, b, sep);
    } else {
        assert(left + b =~= left);
        assert(a + mid + b =~= a + mid);
    }
}

// ---------------------------------------------------------------------------
// Lines
// ---------------------------------------------------------------------------
/// One of the two line breaks.
pub open spec fn is_newline(nl: Seq<char>) -> bool {
    nl == seq!['\n'] || nl == seq!['\r', '\n']
}

/// A text on one line.
pub open spec fn on_one_line(s: Seq<char>) -> bool {
    forall|i: int| 0 <= i < s.len() ==> #[trigger] s[i] != '\n'
}

/// Lists of the same texts, up to the white space around them.
pub open spec fn same_trimmed(a: Seq<Seq<char>>, b: Seq<Seq<char>>) -> bool {
    a.len() == b.len() && forall|i: int| 0 <= i < a.len() ==> trim(#[trigger] a[i]) == trim(b[i])
}

/// Lists of the same texts, up to carriage returns at their ends.
pub open spec fn same_cut(a: Seq<Seq<char>>, b: Seq<Seq<char>>) -> bool {
    a.len() == b.len() && forall|i: int|
        0 <= i < a.len() ==> cut_end(#[trigger] a[i], Cut::CarriageReturn) == cut_end(
            b[i],
            Cut::CarriageReturn,
        )
}

/// The parts that are lines: a last empty part is none.
pub open spec fn seen_lines(v: Seq<Seq<char>>) -> Seq<Seq<char>> {
    if v.len() > 0 && v.last().len() == 0 {
        v.drop_last()
    } else {
        v
    }
}

proof fn lemma_lines_after(p: Seq<char>, v: Seq<Seq<char>>, nl: Seq<char>)
    requires
        v.len() > 0,
        is_newline(nl),
        forall|i: int| 0 <= i < v.len() ==> on_one_line(#[trigger] v[i]),
    ensures
        same_cut(lines_from(p + join(v, nl), p.len() as int), seen_lines(v)),
    decreases v.len(),
{
    let s = p + join(v, nl);
    let at = p.len() as int;
    let first = v[0];
    assert(on_one_line(first));
    if v.len() == 1 {
        assert(join(v, nl) == first);
        assert forall|j: int| at <= j < s.len() implies s[j] != '\n' by {
            assert(s[j] == first[j - at]);
        }
        lemma_find_is(s, '\n', at, s.len() as int);
        if first.len() > 0 {
            assert(s.skip(at) =~= first);
            assert(lines_from(s, at) =~= seq![first]);
        }
    } else {
        let rest = v.skip(1);
        lemma_join_cons(v, nl);
        let head = p + first + nl;
        assert(s =~= head + join(rest, nl));
        let k = at + first.len() + nl.len() - 1;
        assert forall|j: int| at <= j < k implies s[j] != '\n' by {
            if j < at + first.len() {
                assert(s[j] == first[j - at]);
            } else {
                assert(s[j] == nl[j - at - first.len()]);
            }
        }
        assert(s[k] == nl[nl.len() - 1]);
        lemma_find_is(s, '\n', at, k);
        assert forall|i: int| 0 <= i < rest.len() implies on_one_line(#[trigger] rest[i]) by {
            assert(rest[i] == v[i + 1]);
        }
        lemma_lines_after(head, rest, nl);
        let got = lines_from(s, at);
        let tail = lines_from(s, k + 1);
        let line = drop_return(s.subrange(at, k));
        assert(got == seq![line] + tail);
        let raw = s.subrange(at, k);
        lemma_cut_drop_return(raw);
        if nl.len() == 1 {
            assert(raw =~= first);
        } else {
            assert(raw =~= first.push('\r'));
            assert(line =~= first);
        }
        assert(seen_lines(v) =~= seq![first] + seen_lines(rest));
        assert forall|i: int| 0 <= i < got.len() implies cut_end(
            #[trigger] got[i],
            Cut::CarriageReturn,
        ) == cut_end(seen_lines(v)[i], Cut::CarriageReturn) by {
            if i > 0 {
                assert(got[i] == tail[i - 1]);
                assert(seen_lines(v)[i] == seen_lines(rest)[i - 1]);
            }
        }
    }
}

/// The lines of joined texts are the texts, up to carriage returns at their
/// ends, and so up to white space around them.
pub proof fn law_lines_of_join(v: Seq<Seq<char>>, nl: Seq<char>)
    requires
        v.len() > 0,
        is_newline(nl),
        forall|i: int| 0 <= i < v.len() ==> on_one_line(#[trigger] v[i]),
    ensures
        same_cut(lines(join(v, nl)), seen_lines(v)),
        same_trimmed(lines(join(v, nl)), seen_lines(v)),
{
    lemma_lines_after(seq![], v, nl);
    assert(seq![] + join(v, nl) =~= join(v, nl));
    let a = lines(join(v, nl));
    let b = seen_lines(v);
    assert forall|i: int| 0 <= i < a.len() implies trim(#[trigger] a[i]) == trim(b[i]) by {
        lemma_trim_cut_return(a[i]);
        lemma_trim_cut_return(b[i]);
    }
}

/// Every line of a text is on one line.
pub proof fn lemma_lines_on_one_line(s: Seq<char>, i: int)
    requires
        0 <= i <= s.len(),
    ensures
        forall|k: int|
            0 <= k < lines_from(s, i).len() ==> on_one_line(#[trigger] lines_from(s, i)[k]),
    decreases s.len() - i,
{
    lemma_find_from(s, '\n', i);
    let e = find_from(s, '\n', i);
    let v = lines_from(s, i);
    if i < s.len() {
        if e < s.len() {
            lemma_lines_on_one_line(s, e + 1);
            let raw = s.subrange(i, e);
            assert(on_one_line(drop_return(raw))) by {
                assert forall|j: int| 0 <= j < drop_return(raw).len() implies #[trigger] drop_return(
                    raw,
                )[j] != '\n' by {
                    assert(drop_return(raw)[j] == s[i + j]);
                }
            }
            let rest = lines_from(s, e + 1);
            assert forall|k: int| 0 <= k < v.len() implies on_one_line(#[trigger] v[k]) by {
                if k > 0 {
                    assert(v[k] == rest[k - 1]);
                }
            }
        } else {
            assert(on_one_line(s.skip(i))) by {
                assert forall|j: int| 0 <= j < s.skip(i).len() implies #[trigger] s.skip(i)[j]
                    != '\n' by {
                    assert(s.skip(i)[j] == s[i + j]);
                }
            }
        }
    }
}

/// A part of a text on one line is on one line.
pub proof fn lemma_part_on_one_line(s: Seq<char>, i: int, j: int)
    requires
        0 <= i <= j <= s.len(),
        on_one_line(s),
    ensures
        on_one_line(s.subrange(i, j)),
{
    let t = s.subrange(i, j);
    assert forall|k: int| 0 <= k < t.len() implies #[trigger] t[k] != '\n' by {
        assert(t[k] == s[i + k]);
    }
}

pub proof fn lemma_trim_on_one_line(s: Seq<char>)
    requires
        on_one_line(s),
    ensures
        on_one_line(trim(s)),
        on_one_line(trim_start(s)),
        on_one_line(cut_end(s, Cut::CarriageReturn)),
{
    let (i, j) = lemma_trim_at(s);
    lemma_part_on_one_line(s, i, j);
    lemma_cut_front(s, Cut::White, 0);
    let a = cut_front(s, Cut::White, 0);
    lemma_part_on_one_line(s, a, s.len() as int);
    assert(s.subrange(a, s.len() as int) =~= s.skip(a));
    lemma_cut_back(s, Cut::CarriageReturn, s.len() as int);
    let b = cut_back(s, Cut::CarriageReturn, s.len() as int);
    lemma_part_on_one_line(s, 0, b);
    assert(s.subrange(0, b) =~= s.take(b));
}

pub proof fn lemma_add_on_one_line(a: Seq<char>, b: Seq<char>)
    requires
        on_one_line(a),
        on_one_line(b),
    ensures
        on_one_line(a + b),
{
    let t = a + b;
    assert forall|k: int| 0 <= k < t.len() implies #[trigger] t[k] != '\n' by {
        if k < a.len() {
            assert(t[k] == a[k]);
        } else {
            assert(t[k] == b[k - a.len()]);
        }
    }
}

pub proof fn lemma_join_on_one_line(v: Seq<Seq<char>>, sep: Seq<char>, n: int)
    requires
        0 <= n <= v.len(),
        on_one_line(sep),
        forall|i: int| 0 <= i < v.len() ==> on_one_line(#[trigger] v[i]),
    ensures
        on_one_line(join_upto(v, sep, n)),
    decreases n,
{
    if n > 1 {
        lemma_join_on_one_line(v, sep, n - 1);
        lemma_add_on_one_line(join_upto(v, sep, n - 1), sep);
        lemma_add_on_one_line(join_upto(v, sep, n - 1) + sep, v[n - 1]);
    }
}

pub proof fn lemma_fields_on_one_line(s: Seq<char>, i: int, n: int)
    requires
        0 <= i <= s.len(),
        0 <= n,
        on_one_line(s),
    ensures
        forall|k: int|
            0 <= k < fields_from(s, i, n).len() ==> on_one_line(#[trigger] fields_from(s, i, n)[k]),
    decreases n,
{
    if n > 0 {
        let e = find_from(s, ',', i);
        lemma_find_from(s, ',', i);
        lemma_part_on_one_line(s, i, s.len() as int);
        assert(s.subrange(i, s.len() as int) =~= s.skip(i));
        lemma_trim_on_one_line(s.skip(i));
        if n > 1 {
            let v = fields_from(s, i, n);
            if e < s.len() {
                lemma_part_on_one_line(s, i, e);
                lemma_trim_on_one_line(s.subrange(i, e));
                lemma_fields_on_one_line(s, e + 1, n - 1);
                let rest = fields_from(s, e + 1, n - 1);
                assert forall|k: int| 0 <= k < v.len() implies on_one_line(#[trigger] v[k]) by {
                    if k > 0 {
                        assert(v[k] == rest[k - 1]);
                    }
                }
            } else {
                lemma_fields_on_one_line(s, s.len() as int, n - 1);
                let rest = fields_from(s, s.len() as int, n - 1);
                assert forall|k: int| 0 <= k < v.len() implies on_one_line(#[trigger] v[k]) by {
                    if k > 0 {
                        assert(v[k] == rest[k - 1]);
                    }
                }
            }
        }
    }
}

} // verus!
