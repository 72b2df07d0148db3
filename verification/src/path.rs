//! Unix paths as text.
use vstd::prelude::*;
use vstd::slice::{slice_subrange, slice_to_vec};

use crate::line_laws::lemma_join_cons;
use crate::split::{join, join_chars, split, split_chars, split_from};
use crate::text::{
    find_from, is_text, lemma_find_from, lemma_find_is, push_all, rows, same_chars, to_chars, to_text,
};

verus! {

/// Whether the path starts at the root.
pub open spec fn is_rooted(s: Seq<char>) -> bool {
    s.len() > 0 && s[0] == '/'
}

/// Whether the `i`th piece between slashes is a component: empty pieces are
/// not, and `.` is one only at the start of a relative path.
pub open spec fn is_component(s: Seq<char>, i: int) -> bool {
    let p = split(s, '/')[i];
    p.len() > 0 && (p != "."@ || (i == 0 && !is_rooted(s)))
}

/// The components among the first `n` pieces, behind one for the root.
pub open spec fn components_upto(s: Seq<char>, n: int) -> Seq<Seq<char>>
    decreases n,
{
    if n <= 0 {
        if is_rooted(s) {
            seq!["/"@]
        } else {
            seq![]
        }
    } else if is_component(s, n - 1) {
        components_upto(s, n - 1).push(split(s, '/')[n - 1])
    } else {
        components_upto(s, n - 1)
    }
}

/// The components of a path.
pub open spec fn components(s: Seq<char>) -> Seq<Seq<char>> {
    components_upto(s, split(s, '/').len() as int)
}

/// Whether two texts are the same path.
pub open spec fn same_path(a: Seq<char>, b: Seq<char>) -> bool {
    components(a) == components(b)
}

/// Whether the path lies at or under another.
pub open spec fn lies_under(s: Seq<char>, root: Seq<char>) -> bool {
    components(root).len() <= components(s).len() && components(s).take(
        components(root).len() as int,
    ) == components(root)
}

/// The last component, if it is a name.
pub open spec fn file_name(s: Seq<char>) -> Option<Seq<char>> {
    let c = components(s);
    if c.len() == 0 || c.last() == "/"@ || c.last() == "."@ || c.last() == ".."@ {
        None
    } else {
        Some(c.last())
    }
}

/// The index of the last dot before `n`, or -1.
pub open spec fn last_dot(s: Seq<char>, n: int) -> int
    decreases n,
{
    if n <= 0 {
        -1
    } else if s[n - 1] == '.' {
        n - 1
    } else {
        last_dot(s, n - 1)
    }
}

/// What follows the last dot of the file name; a dot at its start is none.
pub open spec fn extension(s: Seq<char>) -> Option<Seq<char>> {
    match file_name(s) {
        Some(n) => if last_dot(n, n.len() as int) > 0 {
            Some(n.skip(last_dot(n, n.len() as int) + 1))
        } else {
            None
        },
        None => None,
    }
}

/// What precedes the last dot of the file name.
pub open spec fn stem(s: Seq<char>) -> Option<Seq<char>> {
    match file_name(s) {
        Some(n) => if last_dot(n, n.len() as int) > 0 {
            Some(n.take(last_dot(n, n.len() as int)))
        } else {
            Some(n)
        },
        None => None,
    }
}

/// A path with another behind it; a path from the root stands alone.
pub open spec fn joined(a: Seq<char>, b: Seq<char>) -> Seq<char> {
    if is_rooted(b) {
        b
    } else if a.len() == 0 || a.last() == '/' {
        a + b
    } else {
        a + seq!['/'] + b
    }
}

pub fn components_of(s: &[char]) -> (r: Vec<Vec<char>>)
    ensures
        rows(r@) == components(s@),
{
    let pieces = split_chars(s, '/');
    let rooted = s.len() > 0 && s[0] == '/';
    let mut out: Vec<Vec<char>> = Vec::new();
    if rooted {
        out.push(to_chars("/"));
        assert(rows(out@) =~= seq!["/"@]);
    } else {
        assert(rows(out@) =~= seq![]);
    }
    let mut i: usize = 0;
    while i < pieces.len()
        invariant
            i <= pieces@.len(),
            rows(pieces@) == split(s@, '/'),
            rooted == is_rooted(s@),
            rows(out@) == components_upto(s@, i as int),
        decreases pieces@.len() - i,
    {
        let p = &pieces[i];
        assert(split(s@, '/')[i as int] == p@);
        if p.len() > 0 && (!is_text(p.as_slice(), ".") || (i == 0 && !rooted)) {
            let ghost had = rows(out@);
            out.push(slice_to_vec(p.as_slice()));
            assert(rows(out@) =~= had.push(p@));
        }
        i = i + 1;
    }
    out
}

fn starts_with_rows(a: &Vec<Vec<char>>, b: &Vec<Vec<char>>) -> (r: bool)
    ensures
        r == (b@.len() <= a@.len() && rows(a@).take(b@.len() as int) == rows(b@)),
{
    if a.len() < b.len() {
        return false;
    }
    let mut i: usize = 0;
    while i < b.len()
        invariant
            i <= b@.len() <= a@.len(),
            forall|j: int| 0 <= j < i ==> rows(a@)[j] == rows(b@)[j],
        decreases b@.len() - i,
    {
        if !same_chars(a[i].as_slice(), b[i].as_slice()) {
            assert(rows(a@).take(b@.len() as int)[i as int] != rows(b@)[i as int]);
            return false;
        }
        assert(rows(a@)[i as int] == rows(b@)[i as int]);
        i = i + 1;
    }
    assert(rows(a@).take(b@.len() as int) =~= rows(b@));
    true
}

/// Whether two texts are the same path.
pub fn paths_equal(a: &str, b: &str) -> (r: bool)
    ensures
        r == same_path(a@, b@),
{
    let ca = to_chars(a);
    let cb = to_chars(b);
    let x = components_of(ca.as_slice());
    let y = components_of(cb.as_slice());
    assert(rows(x@).len() == x@.len() && rows(y@).len() == y@.len());
    assert(rows(x@).take(x@.len() as int) =~= rows(x@));
    x.len() == y.len() && starts_with_rows(&x, &y)
}

/// Whether the path lies at or under the root.
pub fn is_under(s: &str, root: &str) -> (r: bool)
    ensures
        r == lies_under(s@, root@),
{
    let ca = to_chars(s);
    let cb = to_chars(root);
    let x = components_of(ca.as_slice());
    let y = components_of(cb.as_slice());
    starts_with_rows(&x, &y)
}

pub fn file_name_of(s: &str) -> (r: Option<Vec<char>>)
    ensures
        match r {
            Some(n) => file_name(s@) == Some(n@),
            None => file_name(s@) is None,
        },
{
    let c = to_chars(s);
    let mut parts = components_of(c.as_slice());
    let ghost all = rows(parts@);
    if parts.len() == 0 {
        return None;
    }
    let last = parts.len() - 1;
    assert(all.last() == parts@[last as int]@);
    let p = slice_to_vec(parts[last].as_slice());
    if is_text(p.as_slice(), "/") || is_text(p.as_slice(), ".") || is_text(p.as_slice(), "..") {
        None
    } else {
        Some(p)
    }
}

fn last_dot_of(s: &[char]) -> (r: Option<usize>)
    ensures
        match r {
            Some(i) => last_dot(s@, s@.len() as int) == i && i < s@.len(),
            None => last_dot(s@, s@.len() as int) == -1,
        },
{
    let mut n: usize = s.len();
    while n > 0
        invariant
            n <= s@.len(),
            last_dot(s@, s@.len() as int) == last_dot(s@, n as int),
        decreases n,
    {
        if s[n - 1] == '.' {
            return Some(n - 1);
        }
        n = n - 1;
    }
    None
}

pub fn extension_of(s: &str) -> (r: Option<Vec<char>>)
    ensures
        match r {
            Some(e) => extension(s@) == Some(e@),
            None => extension(s@) is None,
        },
{
    match file_name_of(s) {
        Some(n) => match last_dot_of(n.as_slice()) {
            Some(i) => if i > 0 {
                let len = n.len();
                let e = slice_to_vec(slice_subrange(n.as_slice(), i + 1, len));
                assert(e@ =~= n@.skip(i + 1));
                Some(e)
            } else {
                None
            },
            None => None,
        },
        None => None,
    }
}

pub fn stem_of(s: &str) -> (r: Option<Vec<char>>)
    ensures
        match r {
            Some(e) => stem(s@) == Some(e@),
            None => stem(s@) is None,
        },
{
    match file_name_of(s) {
        Some(n) => match last_dot_of(n.as_slice()) {
            Some(i) => if i > 0 {
                let e = slice_to_vec(slice_subrange(n.as_slice(), 0, i));
                assert(e@ =~= n@.take(i as int));
                Some(e)
            } else {
                Some(n)
            },
            None => Some(n),
        },
        None => None,
    }
}

pub fn join_path(a: &str, b: &str) -> (r: String)
    ensures
        r@ == joined(a@, b@),
{
    let x = to_chars(a);
    let y = to_chars(b);
    if y.len() > 0 && y[0] == '/' {
        return b.to_string();
    }
    let mut out = x;
    if out.len() > 0 && out[out.len() - 1] != '/' {
        out.push('/');
        assert(out@ =~= a@ + seq!['/']);
    }
    push_all(&mut out, y.as_slice());
    to_text(out.as_slice())
}

// ---------------------------------------------------------------------------
// The path below a root
// ---------------------------------------------------------------------------
/// The first piece from `n` on with which the path has more than `k`
/// components.
pub open spec fn piece_past(s: Seq<char>, k: int, n: int) -> int
    decreases split(s, '/').len() - n,
{
    if !(0 <= n < split(s, '/').len()) || components_upto(s, n + 1).len() > k {
        n
    } else {
        piece_past(s, k, n + 1)
    }
}

/// The end of the last component among the first `n` pieces.
pub open spec fn pieces_end(s: Seq<char>, n: int) -> int
    decreases n,
{
    if n <= 0 {
        0
    } else if is_component(s, n - 1) {
        n
    } else {
        pieces_end(s, n - 1)
    }
}

/// The text of the path below the root, if it lies under it: from the first
/// component that the root does not have to the last one.
pub open spec fn below(s: Seq<char>, root: Seq<char>) -> Option<Seq<char>> {
    if !lies_under(s, root) {
        None
    } else {
        let k = components(root).len() as int;
        let pieces = split(s, '/');
        let from = if k == 0 {
            0
        } else {
            piece_past(s, k, 0)
        };
        let to = pieces_end(s, pieces.len() as int);
        if from < to {
            Some(join(pieces.subrange(from, to), "/"@))
        } else if k == 0 && is_rooted(s) {
            Some("/"@)
        } else {
            Some(seq![])
        }
    }
}

/// The path below the root, if it lies under it.
pub fn path_below(s: &str, root: &str) -> (r: Option<Vec<char>>)
    ensures
        match r {
            Some(t) => below(s@, root@) == Some(t@),
            None => below(s@, root@) is None,
        },
{
    if !is_under(s, root) {
        return None;
    }
    let c = to_chars(s);
    let rc = to_chars(root);
    let base = components_of(rc.as_slice());
    let k = base.len();
    assert(k == components(root@).len());
    let pieces = split_chars(c.as_slice(), '/');
    let rooted = c.len() > 0 && c[0] == '/';
    let mut count: u128 = 0;
    if rooted {
        count = 1;
    }
    let mut from: usize = 0;
    let mut found = k == 0;
    let mut to: usize = 0;
    let mut i: usize = 0;
    while i < pieces.len()
        invariant
            i <= pieces@.len(),
            count <= i + 1,
            rows(pieces@) == split(s@, '/'),
            rooted == is_rooted(s@),
            count == components_upto(s@, i as int).len(),
            to == pieces_end(s@, i as int),
            to <= i,
            from <= i,
            k == 0 ==> found && from == 0,
            k > 0 && found ==> from == piece_past(s@, k as int, 0),
            k > 0 && !found ==> from == i && piece_past(s@, k as int, 0) == piece_past(
                s@,
                k as int,
                i as int,
            ),
        decreases pieces@.len() - i,
    {
        let p = &pieces[i];
        assert(split(s@, '/')[i as int] == p@);
        if p.len() > 0 && (!is_text(p.as_slice(), ".") || (i == 0 && !rooted)) {
            count = count + 1;
            to = i + 1;
        }
        i = i + 1;
        if !found {
            if count > k as u128 {
                found = true;
            } else {
                from = i;
            }
        }
    }
    let mut out: Vec<char> = Vec::new();
    if from < to {
        out = join_range(&pieces, from, to);
    } else if k == 0 && rooted {
        out = to_chars("/");
    }
    Some(out)
}

/// The text of the path without its last component; nothing where no component
/// but the root is there.
pub open spec fn parent(s: Seq<char>) -> Option<Seq<char>> {
    let pieces = split(s, '/');
    let end = pieces_end(s, pieces.len() as int);
    if end == 0 {
        None
    } else {
        let to = pieces_end(s, end - 1);
        if to > 0 {
            Some(join(pieces.subrange(0, to), "/"@))
        } else if is_rooted(s) {
            Some("/"@)
        } else {
            Some(seq![])
        }
    }
}

fn is_piece(p: &[char], first: bool, rooted: bool) -> (r: bool)
    ensures
        r == (p@.len() > 0 && (p@ != "."@ || (first && !rooted))),
{
    p.len() > 0 && (!is_text(p, ".") || (first && !rooted))
}

fn end_of_pieces(s: Ghost<Seq<char>>, pieces: &Vec<Vec<char>>, rooted: bool, n: usize) -> (r: usize)
    requires
        rows(pieces@) == split(s@, '/'),
        rooted == is_rooted(s@),
        n <= pieces@.len(),
    ensures
        r == pieces_end(s@, n as int),
        r <= n,
{
    let mut k: usize = n;
    while k > 0
        invariant
            k <= n <= pieces@.len(),
            rows(pieces@) == split(s@, '/'),
            rooted == is_rooted(s@),
            pieces_end(s@, n as int) == pieces_end(s@, k as int),
        decreases k,
    {
        assert(split(s@, '/')[k - 1] == pieces@[k - 1]@);
        if is_piece(pieces[k - 1].as_slice(), k == 1, rooted) {
            return k;
        }
        k = k - 1;
    }
    0
}

fn join_range(pieces: &Vec<Vec<char>>, from: usize, to: usize) -> (r: Vec<char>)
    requires
        from <= to <= pieces@.len(),
    ensures
        r@ == join(rows(pieces@).subrange(from as int, to as int), "/"@),
{
    let mut part: Vec<Vec<char>> = Vec::new();
    let mut j: usize = from;
    assert(rows(part@) =~= rows(pieces@).subrange(from as int, from as int));
    while j < to
        invariant
            from <= j <= to <= pieces@.len(),
            rows(part@) == rows(pieces@).subrange(from as int, j as int),
        decreases to - j,
    {
        let ghost had = rows(part@);
        part.push(slice_to_vec(pieces[j].as_slice()));
        assert(rows(part@) =~= had.push(pieces@[j as int]@));
        assert(rows(part@) =~= rows(pieces@).subrange(from as int, j + 1));
        j = j + 1;
    }
    let sep = to_chars("/");
    join_chars(&part, sep.as_slice())
}

/// The path without its last component.
pub fn parent_of(s: &str) -> (r: Option<Vec<char>>)
    ensures
        match r {
            Some(t) => parent(s@) == Some(t@),
            None => parent(s@) is None,
        },
{
    let c = to_chars(s);
    let pieces = split_chars(c.as_slice(), '/');
    let rooted = c.len() > 0 && c[0] == '/';
    let ghost sv = s@;
    assert(rows(pieces@).len() == pieces@.len());
    let end = end_of_pieces(Ghost(sv), &pieces, rooted, pieces.len());
    if end == 0 {
        return None;
    }
    let to = end_of_pieces(Ghost(sv), &pieces, rooted, end - 1);
    if to > 0 {
        Some(join_range(&pieces, 0, to))
    } else if rooted {
        Some(to_chars("/"))
    } else {
        Some(Vec::new())
    }
}

// ---------------------------------------------------------------------------
// Laws
// ---------------------------------------------------------------------------
/// A path lies under itself.
pub proof fn law_under_itself(s: Seq<char>)
    ensures
        lies_under(s, s),
{
    assert(components(s).take(components(s).len() as int) =~= components(s));
}

/// What lies under a path that lies under a root lies under the root.
pub proof fn law_under_transitive(a: Seq<char>, b: Seq<char>, c: Seq<char>)
    requires
        lies_under(a, b),
        lies_under(b, c),
    ensures
        lies_under(a, c),
{
    let (x, y, z) = (components(a), components(b), components(c));
    assert forall|i: int| 0 <= i < z.len() implies x[i] == z[i] by {
        assert(x[i] == x.take(y.len() as int)[i]);
        assert(y[i] == y.take(z.len() as int)[i]);
    }
    assert(x.take(z.len() as int) =~= z);
}

/// A name that can be a component: not empty, without slashes, and neither of the
/// names for this directory and the one above it.
pub open spec fn is_name(n: Seq<char>) -> bool {
    &&& n.len() > 0
    &&& forall|i: int| 0 <= i < n.len() ==> (#[trigger] n[i]) != '/'
    &&& n != "."@
    &&& n != ".."@
}

/// A path that ends neither with a slash nor with a component for the directory
/// itself.
pub open spec fn is_plain_dir(a: Seq<char>) -> bool {
    a.len() > 0 && a.last() != '/' && split(a, '/').last() != "."@
}

proof fn lemma_split_name(a: Seq<char>, n: Seq<char>, i: int)
    requires
        0 <= i <= a.len(),
        forall|x: int| 0 <= x < n.len() ==> (#[trigger] n[x]) != '/',
    ensures
        split_from(a + seq!['/'] + n, '/', i) == split_from(a, '/', i).push(n),
    decreases a.len() - i,
{
    let s = a + seq!['/'] + n;
    let k = find_from(a, '/', i);
    lemma_find_from(a, '/', i);
    assert forall|x: int| i <= x < k implies s[x] != '/' by {
        assert(s[x] == a[x]);
    }
    if k < a.len() {
        assert(s[k] == '/');
        lemma_find_is(s, '/', i, k);
        lemma_split_name(a, n, k + 1);
        assert(s.subrange(i, k) =~= a.subrange(i, k));
        assert(split_from(s, '/', i) =~= split_from(a, '/', i).push(n));
    } else {
        let e = a.len() as int;
        assert(s[e] == '/');
        lemma_find_is(s, '/', i, e);
        assert forall|x: int| e + 1 <= x < s.len() implies s[x] != '/' by {
            assert(s[x] == n[x - e - 1]);
        }
        lemma_find_is(s, '/', e + 1, s.len() as int);
        assert(s.subrange(i, e) =~= a.skip(i));
        assert(s.skip(e + 1) =~= n);
        assert(split_from(s, '/', e + 1) =~= seq![n]);
        assert(split_from(s, '/', i) =~= split_from(a, '/', i).push(n));
    }
}

proof fn lemma_split_one(n: Seq<char>)
    requires
        forall|x: int| 0 <= x < n.len() ==> (#[trigger] n[x]) != '/',
    ensures
        split(n, '/') == seq![n],
{
    lemma_find_is(n, '/', 0, n.len() as int);
    assert(n.skip(0) =~= n);
    assert(split(n, '/') =~= seq![n]);
}

proof fn lemma_same_components(a: Seq<char>, s: Seq<char>, n: int)
    requires
        0 <= n <= split(a, '/').len() <= split(s, '/').len(),
        is_rooted(a) == is_rooted(s),
        forall|i: int| 0 <= i < n ==> split(a, '/')[i] == split(s, '/')[i],
    ensures
        components_upto(a, n) == components_upto(s, n),
        pieces_end(a, n) == pieces_end(s, n),
    decreases n,
{
    if n > 0 {
        lemma_same_components(a, s, n - 1);
        assert(split(a, '/')[n - 1] == split(s, '/')[n - 1]);
    }
}

proof fn lemma_name_behind(a: Seq<char>, n: Seq<char>)
    requires
        a.len() > 0,
        is_name(n),
    ensures
        ({
            let s = a + seq!['/'] + n;
            let k = split(a, '/').len() as int;
            &&& split(s, '/') == split(a, '/').push(n)
            &&& components(s) == components(a).push(n)
            &&& components_upto(s, k) == components(a)
            &&& pieces_end(s, k) == pieces_end(a, k)
            &&& pieces_end(s, k + 1) == k + 1
        }),
{
    let s = a + seq!['/'] + n;
    let k = split(a, '/').len() as int;
    lemma_split_name(a, n, 0);
    assert(split(s, '/') == split(a, '/').push(n));
    assert(s[0] == a[0]);
    lemma_same_components(a, s, k);
    assert(split(s, '/')[k] == n);
    assert(is_component(s, k));
}

/// A file under a directory is known by its name, lies under the directory, and is
/// called by its name below it.
pub proof fn law_file_in_directory(a: Seq<char>, n: Seq<char>)
    requires
        is_name(n),
        a.len() > 0,
        a.last() != '/',
    ensures
        file_name(joined(a, n)) == Some(n),
        lies_under(joined(a, n), a),
        !lies_under(a, joined(a, n)),
        components(a).len() > 0 ==> below(joined(a, n), a) == Some(n),
        is_plain_dir(a) ==> parent(joined(a, n)) == Some(a),
{
    reveal_strlit("/");
    reveal_strlit(".");
    reveal_strlit("..");
    let s = a + seq!['/'] + n;
    assert(n[0] != '/');
    assert(joined(a, n) == s);
    lemma_name_behind(a, n);
    let k = split(a, '/').len() as int;
    let c = components(a);
    assert(components(s).last() == n);
    assert(n != "/"@) by {
        if n == "/"@ {
            assert(n[0] == '/');
        }
    }
    assert(components(s).take(c.len() as int) =~= c);
    if c.len() > 0 {
        lemma_piece_past(s, c.len() as int, 0, k);
        let pieces = split(s, '/');
        assert(pieces.subrange(k, k + 1) =~= seq![n]);
        assert(join(seq![n], "/"@) == n);
    }
    if is_plain_dir(a) {
        lemma_last_piece(a);
        assert(is_component(a, k - 1));
        assert(pieces_end(a, k) == k);
        let pieces = split(s, '/');
        assert(pieces.subrange(0, k) =~= split(a, '/'));
        lemma_rejoined(a, 0);
        assert("/"@ =~= seq!['/']);
        assert(a.skip(0) =~= a);
    }
}

/// A path that does not end with a slash ends with a piece.
proof fn lemma_last_piece(a: Seq<char>)
    requires
        a.len() > 0,
        a.last() != '/',
    ensures
        split(a, '/').len() > 0,
        split(a, '/').last().len() > 0,
{
    lemma_last_from(a, 0);
}

proof fn lemma_last_from(a: Seq<char>, i: int)
    requires
        0 <= i < a.len(),
        a.last() != '/',
    ensures
        split_from(a, '/', i).len() > 0,
        split_from(a, '/', i).last().len() > 0,
    decreases a.len() - i,
{
    let k = find_from(a, '/', i);
    lemma_find_from(a, '/', i);
    if k < a.len() {
        assert(k != a.len() - 1);
        lemma_last_from(a, k + 1);
        let rest = split_from(a, '/', k + 1);
        assert(split_from(a, '/', i).last() == rest.last());
    }
}

/// The pieces between slashes, joined by slashes, are the text.
proof fn lemma_rejoined(a: Seq<char>, i: int)
    requires
        0 <= i <= a.len(),
    ensures
        join(split_from(a, '/', i), seq!['/']) == a.skip(i),
    decreases a.len() - i,
{
    let k = find_from(a, '/', i);
    lemma_find_from(a, '/', i);
    if k < a.len() {
        lemma_rejoined(a, k + 1);
        let rest = split_from(a, '/', k + 1);
        let all = split_from(a, '/', i);
        lemma_split_some(a, k + 1);
        lemma_join_cons(all, seq!['/']);
        assert(all.skip(1) =~= rest);
        assert(a.subrange(i, k) + seq!['/'] + a.skip(k + 1) =~= a.skip(i));
    } else {
        assert(split_from(a, '/', i) =~= seq![a.skip(i)]);
    }
}

proof fn lemma_split_some(a: Seq<char>, i: int)
    requires
        0 <= i <= a.len(),
    ensures
        split_from(a, '/', i).len() > 0,
{
}

/// Pieces that bring no more components than there may be are passed over.
proof fn lemma_piece_past(s: Seq<char>, c: int, i: int, k: int)
    requires
        0 <= i <= k < split(s, '/').len(),
        components_upto(s, k).len() == c,
        components_upto(s, k + 1).len() == c + 1,
    ensures
        piece_past(s, c, i) == k,
    decreases k - i,
{
    if i < k {
        lemma_components_grow(s, i + 1, k);
        lemma_piece_past(s, c, i + 1, k);
    }
}

proof fn lemma_components_grow(s: Seq<char>, i: int, k: int)
    requires
        0 <= i <= k,
    ensures
        components_upto(s, i).len() <= components_upto(s, k).len(),
    decreases k - i,
{
    if i < k {
        lemma_components_grow(s, i, k - 1);
    }
}

/// The extension of a file is what follows the last dot in its name, and the stem
/// what comes before it.
pub proof fn law_extension_after_dot(a: Seq<char>, base: Seq<char>, ext: Seq<char>)
    requires
        base.len() > 0,
        a.len() > 0,
        a.last() != '/',
        is_name(base + seq!['.'] + ext),
        forall|i: int| 0 <= i < ext.len() ==> (#[trigger] ext[i]) != '.',
    ensures
        extension(joined(a, base + seq!['.'] + ext)) == Some(ext),
        stem(joined(a, base + seq!['.'] + ext)) == Some(base),
{
    let n = base + seq!['.'] + ext;
    law_file_in_directory(a, n);
    let k = base.len() as int;
    assert forall|i: int| k < i < n.len() implies n[i] != '.' by {
        assert(n[i] == ext[i - k - 1]);
    }
    assert(n[k] == '.');
    lemma_last_dot(n, n.len() as int, k);
    assert(n.skip(k + 1) =~= ext);
    assert(n.take(k) =~= base);
}

proof fn lemma_last_dot(s: Seq<char>, n: int, k: int)
    requires
        0 <= k < n <= s.len(),
        s[k] == '.',
        forall|i: int| k < i < n ==> s[i] != '.',
    ensures
        last_dot(s, n) == k,
    decreases n,
{
    if k < n - 1 {
        lemma_last_dot(s, n - 1, k);
    }
}

/// A path from the root stands alone, whatever it is put behind.
pub proof fn law_rooted_stands_alone(a: Seq<char>, b: Seq<char>)
    requires
        b.len() > 0,
        b[0] == '/',
    ensures
        joined(a, b) == b,
{
}

/// A path behind nothing is that path, and behind one that ends with a slash it
/// follows at once; a name lies below the empty path as it stands.
pub proof fn law_joined_without_slash(a: Seq<char>, b: Seq<char>)
    requires
        is_name(b),
    ensures
        joined(seq![], b) == b,
        a.len() > 0 && a.last() == '/' ==> joined(a, b) == a + b,
        a.len() > 0 && a.last() != '/' ==> joined(a, b) == a + seq!['/'] + b,
        below(b, seq![]) == Some(b),
{
    assert(b[0] != '/');
    assert(seq![] + b =~= b);
    let none = Seq::<char>::empty();
    lemma_split_one(none);
    assert(components_upto(none, 0) =~= seq![]);
    assert(components(none) =~= seq![]);
    lemma_split_one(b);
    assert(components(b).take(0) =~= seq![]);
    assert(is_component(b, 0));
    assert(pieces_end(b, 1) == 1);
    assert(split(b, '/').subrange(0, 1) =~= seq![b]);
}

/// The root has no name, and is not taken for a directory of any name.
pub proof fn law_root_unnamed(n: Seq<char>)
    requires
        is_name(n),
    ensures
        file_name(seq!['/']) is None,
        components(seq!['/']).len() == 1,
        components(seq!['/'])[0] == seq!['/'],
        components(n) == seq![n],
        !same_path(seq!['/'] + n, n),
{
    reveal_strlit("/");
    reveal_strlit(".");
    reveal_strlit("..");
    let root = seq!['/'];
    let none = Seq::<char>::empty();
    assert("/"@ =~= root);
    lemma_find_is(root, '/', 0, 0);
    lemma_find_is(root, '/', 1, 1);
    assert(root.subrange(0, 0) =~= none);
    assert(root.skip(1) =~= none);
    reveal_with_fuel(crate::split::split_from, 2);
    assert(split(root, '/') =~= seq![none, none]);
    reveal_with_fuel(components_upto, 3);
    assert(components(root) =~= seq![root]);
    lemma_split_one(n);
    assert(n[0] != '/');
    assert(components(n) =~= seq![n]);
    let s = root + n;
    assert(s[0] == '/');
    lemma_components_rooted(s, split(s, '/').len() as int);
    if same_path(s, n) {
        assert(components(s)[0] == root);
        assert(n == root);
        assert(n[0] == '/');
    }
}

proof fn lemma_components_rooted(s: Seq<char>, n: int)
    requires
        is_rooted(s),
    ensures
        components_upto(s, n).len() > 0,
        components_upto(s, n)[0] == "/"@,
    decreases n,
{
    if n > 0 {
        lemma_components_rooted(s, n - 1);
    }
}

/// Nothing lies above the empty path, and a single name lies in it.
pub proof fn law_nothing_above(n: Seq<char>)
    requires
        is_name(n),
    ensures
        parent(seq![]) is None,
        parent(n) == Some(Seq::<char>::empty()),
{
    reveal_strlit(".");
    let none = Seq::<char>::empty();
    lemma_split_one(none);
    reveal_with_fuel(pieces_end, 2);
    assert(!is_component(none, 0));
    lemma_split_one(n);
    assert(n[0] != '/');
    assert(is_component(n, 0));
}

} // verus!
