//! Lists in pages.
use vstd::prelude::*;

use crate::config::clamped;
use crate::text::{push_text, to_chars, to_text};

verus! {

/// A value that a query is given.
#[derive(Debug)]
pub enum Bound {
    Text(String),
    Number(i64),
}

pub enum BoundView {
    Text(Seq<char>),
    Number(i64),
}

impl View for Bound {
    type V = BoundView;

    open spec fn view(&self) -> BoundView {
        match *self {
            Bound::Text(t) => BoundView::Text(t@),
            Bound::Number(n) => BoundView::Number(n),
        }
    }
}

pub open spec fn bound_views(v: Seq<Bound>) -> Seq<BoundView> {
    Seq::new(v.len(), |i: int| v[i]@)
}

/// A query, and the values of its question marks in their order.
#[derive(Debug)]
pub struct ListQuery {
    pub sql: String,
    pub values: Vec<Bound>,
    pub limit: usize,
}

/// The conditions of a query: each with its value.
pub open spec fn where_upto(v: Seq<(Seq<char>, BoundView)>, n: int) -> Seq<char>
    decreases n,
{
    if n <= 0 {
        seq![]
    } else if n == 1 {
        " WHERE "@ + v[0].0 + "?"@
    } else {
        where_upto(v, n - 1) + " AND "@ + v[n - 1].0 + "?"@
    }
}

/// The filters of a list: those that are set, and where the page starts.
pub open spec fn conditions(
    first: Option<(Seq<char>, Seq<char>)>,
    second: Option<(Seq<char>, Seq<char>)>,
    cursor: Option<i64>,
) -> Seq<(Seq<char>, BoundView)> {
    let a: Seq<(Seq<char>, BoundView)> = match first {
        Some((c, t)) => if t.len() > 0 {
            seq![(c, BoundView::Text(t))]
        } else {
            seq![]
        },
        None => seq![],
    };
    let b = match second {
        Some((c, t)) => if t.len() > 0 {
            a.push((c, BoundView::Text(t)))
        } else {
            a
        },
        None => a,
    };
    match cursor {
        Some(n) => b.push(("id < "@, BoundView::Number(n))),
        None => b,
    }
}

/// The text of a query for a page: one entry more than the page holds is asked
/// for.
pub open spec fn query_text(select: Seq<char>, v: Seq<(Seq<char>, BoundView)>) -> Seq<char> {
    select + where_upto(v, v.len() as int) + " ORDER BY id DESC LIMIT ?"@
}

pub open spec fn query_values(v: Seq<(Seq<char>, BoundView)>, limit: int) -> Seq<BoundView> {
    Seq::new(v.len(), |i: int| v[i].1).push(BoundView::Number((limit + 1) as i64))
}

/// How many entries a page holds.
pub open spec fn page_size(limit: Option<usize>, other: int, max: int) -> int {
    clamped(
        match limit {
            Some(n) => n as int,
            None => other,
        },
        1,
        max,
    )
}

pub open spec fn filter_text(c: &str, t: Option<&str>) -> Option<(Seq<char>, Seq<char>)> {
    match t {
        Some(x) => Some((c@, x@)),
        None => None,
    }
}

/// Starts the next condition of a query.
fn push_where(sql: &mut Vec<char>, condition: &str, values: &Vec<Bound>)
    ensures
        final(sql)@ == old(sql)@ + (if values@.len() == 0 {
            " WHERE "@
        } else {
            " AND "@
        }) + condition@ + "?"@,
{
    if values.len() == 0 {
        push_text(sql, " WHERE ");
    } else {
        push_text(sql, " AND ");
    }
    push_text(sql, condition);
    push_text(sql, "?");
}

proof fn lemma_where_prefix(
    a: Seq<(Seq<char>, BoundView)>,
    b: Seq<(Seq<char>, BoundView)>,
    n: int,
)
    requires
        0 <= n <= a.len(),
        n <= b.len(),
        forall|i: int| 0 <= i < n ==> a[i] == b[i],
    ensures
        where_upto(a, n) == where_upto(b, n),
    decreases n,
{
    if n > 1 {
        lemma_where_prefix(a, b, n - 1);
    }
}

fn push_filter(
    sql: &mut Vec<char>,
    values: &mut Vec<Bound>,
    Ghost(select): Ghost<Seq<char>>,
    Ghost(v): Ghost<Seq<(Seq<char>, BoundView)>>,
    condition: &str,
    value: Bound,
)
    requires
        old(sql)@ == select + where_upto(v, v.len() as int),
        bound_views(old(values)@) == Seq::new(v.len(), |i: int| v[i].1),
    ensures
        ({
            let w = v.push((condition@, value@));
            &&& final(sql)@ == select + where_upto(w, w.len() as int)
            &&& bound_views(final(values)@) == Seq::new(w.len(), |i: int| w[i].1)
        }),
{
    let ghost w = v.push((condition@, value@));
    let ghost had = bound_views(values@);
    let ghost bv = value@;
    assert(values@.len() == had.len());
    push_where(sql, condition, values);
    values.push(value);
    proof {
        lemma_where_prefix(v, w, v.len() as int);
        assert(sql@ =~= select + where_upto(w, w.len() as int));
        assert(bound_views(values@) =~= had.push(bv));
        assert(bound_views(values@) =~= Seq::new(w.len(), |i: int| w[i].1));
    }
}

/// The query for a page of a list, with up to two filters by a text.
fn list_query(
    select: &str,
    first: (&str, Option<&str>),
    second: (&str, Option<&str>),
    cursor: Option<i64>,
    limit: usize,
) -> (r: ListQuery)
    requires
        limit <= 500,
    ensures
        ({
            let v = conditions(
                filter_text(first.0, first.1),
                filter_text(second.0, second.1),
                cursor,
            );
            &&& r.sql@ == query_text(select@, v)
            &&& bound_views(r.values@) == query_values(v, limit as int)
            &&& r.limit == limit
        }),
{
    let mut sql = to_chars(select);
    let mut values: Vec<Bound> = Vec::new();
    let ghost sel = select@;
    let ghost mut v: Seq<(Seq<char>, BoundView)> = seq![];
    assert(sql@ =~= sel + where_upto(v, 0));
    assert(bound_views(values@) =~= Seq::new(v.len(), |i: int| v[i].1));
    if let Some(t) = first.1 {
        if !t.is_empty() {
            push_filter(
                &mut sql,
                &mut values,
                Ghost(sel),
                Ghost(v),
                first.0,
                Bound::Text(t.to_string()),
            );
            proof {
                v = v.push((first.0@, BoundView::Text(t@)));
                assert(v =~= seq![(first.0@, BoundView::Text(t@))]);
            }
        }
    }
    if let Some(t) = second.1 {
        if !t.is_empty() {
            push_filter(
                &mut sql,
                &mut values,
                Ghost(sel),
                Ghost(v),
                second.0,
                Bound::Text(t.to_string()),
            );
            proof {
                v = v.push((second.0@, BoundView::Text(t@)));
            }
        }
    }
    if let Some(n) = cursor {
        push_filter(&mut sql, &mut values, Ghost(sel), Ghost(v), "id < ", Bound::Number(n));
        proof {
            v = v.push(("id < "@, BoundView::Number(n)));
        }
    }
    assert(v =~= conditions(
        filter_text(first.0, first.1),
        filter_text(second.0, second.1),
        cursor,
    ));
    push_text(&mut sql, " ORDER BY id DESC LIMIT ?");
    let ghost had = bound_views(values@);
    values.push(Bound::Number((limit + 1) as i64));
    assert(bound_views(values@) =~= query_values(v, limit as int));
    ListQuery { sql: to_text(sql.as_slice()), values, limit }
}

fn within(limit: Option<usize>, other: usize, max: usize) -> (r: usize)
    requires
        1 <= max,
    ensures
        r == page_size(limit, other as int, max as int),
{
    let n: usize = match limit {
        Some(n) => n,
        None => other,
    };
    if n < 1 {
        1
    } else if n > max {
        max
    } else {
        n
    }
}

pub const JOBS_SELECT: &'static str = "SELECT id, subtitle_id, path, mode, status, queued_at, started_at, finished_at, message, missing_fonts, stats FROM jobs";

pub const FILES_SELECT: &'static str = "SELECT id, path, root_label, relative_path, size, mtime, last_status, last_processed_at, missing_fonts, error FROM subtitle_files";

pub const BACKUPS_SELECT: &'static str = "SELECT id, subtitle_id, source_path, backup_path, source_sha256, created_at FROM backups";

/// The query for a page of jobs.
pub fn jobs_query(
    status: Option<&str>,
    mode: Option<&str>,
    cursor: Option<i64>,
    limit: Option<usize>,
) -> (r: ListQuery)
    ensures
        ({
            let v = conditions(
                filter_text("status = ", status),
                filter_text("mode = ", mode),
                cursor,
            );
            &&& r.limit == page_size(limit, 100, 500)
            &&& r.sql@ == query_text(JOBS_SELECT@, v)
            &&& bound_views(r.values@) == query_values(v, r.limit as int)
        }),
{
    list_query(
        JOBS_SELECT,
        ("status = ", status),
        ("mode = ", mode),
        cursor,
        within(limit, 100, 500),
    )
}

/// The query for a page of files.
pub fn files_query(status: Option<&str>, cursor: Option<i64>, limit: Option<usize>) -> (r:
    ListQuery)
    ensures
        ({
            let v = conditions(filter_text("last_status = ", status), None, cursor);
            &&& r.limit == page_size(limit, 50, 200)
            &&& r.sql@ == query_text(FILES_SELECT@, v)
            &&& bound_views(r.values@) == query_values(v, r.limit as int)
        }),
{
    list_query(
        FILES_SELECT,
        ("last_status = ", status),
        ("", None),
        cursor,
        within(limit, 50, 200),
    )
}

/// The query for a page of backups.
pub fn backups_query(cursor: Option<i64>, limit: Option<usize>) -> (r: ListQuery)
    ensures
        ({
            let v = conditions(None, None, cursor);
            &&& r.limit == page_size(limit, 100, 500)
            &&& r.sql@ == query_text(BACKUPS_SELECT@, v)
            &&& bound_views(r.values@) == query_values(v, r.limit as int)
        }),
{
    list_query(BACKUPS_SELECT, ("", None), ("", None), cursor, within(limit, 100, 500))
}

/// How many of the entries that a query gave are shown, and where the next page
/// starts, if there is one.
pub open spec fn page_of(ids: Seq<i64>, limit: int) -> (int, Option<i64>) {
    if ids.len() > limit {
        (limit, Some(ids[limit - 1]))
    } else {
        (ids.len() as int, None)
    }
}

pub fn page(ids: &Vec<i64>, limit: usize) -> (r: (usize, Option<i64>))
    requires
        limit > 0,
    ensures
        r.0 == page_of(ids@, limit as int).0,
        r.1 == page_of(ids@, limit as int).1,
{
    if ids.len() > limit {
        (limit, Some(ids[limit - 1]))
    } else {
        (ids.len(), None)
    }
}

// ---------------------------------------------------------------------------
// Laws
// ---------------------------------------------------------------------------
/// Ids in decreasing order.
pub open spec fn decreasing(ids: Seq<i64>) -> bool {
    forall|i: int, j: int| 0 <= i < j < ids.len() ==> ids[i] > ids[j]
}

/// The entries from a cursor on.
pub open spec fn below_cursor(ids: Seq<i64>, cursor: Option<i64>) -> Seq<i64> {
    match cursor {
        Some(c) => ids.filter(|id: i64| id < c),
        None => ids,
    }
}

/// What a query for a page gives: one entry more than the page holds, at most.
pub open spec fn fetched(ids: Seq<i64>, limit: int) -> Seq<i64> {
    if ids.len() > limit + 1 {
        ids.take(limit + 1)
    } else {
        ids
    }
}

proof fn lemma_filter_below(ids: Seq<i64>, c: i64)
    requires
        decreasing(ids),
    ensures
        forall|k: int|
            0 <= k < ids.len() && #[trigger] ids[k] == c ==> ids.filter(|id: i64| id < c)
                == ids.skip(k + 1),
    decreases ids.len(),
{
    let f = |id: i64| id < c;
    if ids.len() > 0 {
        let head = ids.drop_last();
        lemma_filter_below(head, c);
        reveal(Seq::filter);
        let last = ids.last();
        assert forall|k: int| 0 <= k < ids.len() && #[trigger] ids[k] == c implies ids.filter(f)
            == ids.skip(k + 1) by {
            if k < head.len() {
                assert(head[k] == c);
                assert(last < c);
                assert(head.filter(f) == head.skip(k + 1));
                assert(ids.filter(f) =~= head.filter(f).push(last));
                assert(head.skip(k + 1).push(last) =~= ids.skip(k + 1));
            } else {
                lemma_filter_none(head, c);
                assert(ids.filter(f) =~= head.filter(f));
                assert(ids.skip(k + 1) =~= Seq::<i64>::empty());
            }
        }
    }
}

proof fn lemma_filter_none(ids: Seq<i64>, c: i64)
    requires
        forall|i: int| 0 <= i < ids.len() ==> ids[i] > c,
    ensures
        ids.filter(|id: i64| id < c) == Seq::<i64>::empty(),
    decreases ids.len(),
{
    reveal(Seq::filter);
    if ids.len() > 0 {
        lemma_filter_none(ids.drop_last(), c);
        assert(ids.last() > c);
    }
}

/// The pages of a list follow each other: what a page shows, and what lies below
/// the cursor that it gives, are together the whole list. Where it gives no
/// cursor, it shows all that is left.
pub proof fn law_pages_cover(ids: Seq<i64>, limit: int)
    requires
        decreasing(ids),
        limit > 0,
    ensures
        ({
            let (shown, next) = page_of(fetched(ids, limit), limit);
            &&& 0 <= shown <= ids.len()
            &&& match next {
                Some(c) => ids.take(shown) + below_cursor(ids, next) == ids,
                None => shown == ids.len(),
            }
        }),
{
    let got = fetched(ids, limit);
    let (shown, next) = page_of(got, limit);
    if next is Some {
        let c = next->0;
        assert(got[limit - 1] == ids[limit - 1]);
        lemma_filter_below(ids, c);
        assert(ids[limit - 1] == c);
        assert(ids.take(limit) + ids.skip(limit) =~= ids);
    }
}

/// A page holds as many entries as are asked for, at least one and at most so
/// many as a page can hold.
pub proof fn law_page_as_asked(n: usize, other: int, max: int)
    requires
        1 <= other <= max,
    ensures
        1 <= n <= max ==> page_size(Some(n), other, max) == n,
        n == 0 ==> page_size(Some(n), other, max) == 1,
        n > max ==> page_size(Some(n), other, max) == max,
        page_size(None, other, max) == other,
{
}

/// How many places for a value a text has.
pub open spec fn marks(s: Seq<char>) -> nat
    decreases s.len(),
{
    if s.len() == 0 {
        0
    } else {
        marks(s.drop_last()) + (if s.last() == '?' {
            1nat
        } else {
            0nat
        })
    }
}

proof fn lemma_marks(a: Seq<char>, b: Seq<char>)
    ensures
        marks(a + b) == marks(a) + marks(b),
    decreases b.len(),
{
    if b.len() == 0 {
        assert(a + b =~= a);
    } else {
        assert((a + b).drop_last() =~= a + b.drop_last());
        lemma_marks(a, b.drop_last());
    }
}

proof fn lemma_no_marks(s: Seq<char>)
    requires
        forall|i: int| 0 <= i < s.len() ==> s[i] != '?',
    ensures
        marks(s) == 0,
    decreases s.len(),
{
    if s.len() > 0 {
        lemma_no_marks(s.drop_last());
    }
}

proof fn lemma_where_marks(v: Seq<(Seq<char>, BoundView)>, n: int)
    requires
        0 <= n <= v.len(),
        forall|i: int| 0 <= i < v.len() ==> marks(#[trigger] v[i].0) == 0,
    ensures
        marks(where_upto(v, n)) == n,
    decreases n,
{
    if n > 0 {
        reveal_strlit(" WHERE ");
        reveal_strlit(" AND ");
        reveal_strlit("?");
        lemma_no_marks(" WHERE "@);
        lemma_no_marks(" AND "@);
        assert("?"@.drop_last() =~= seq![]);
        assert(marks("?"@.drop_last()) == 0);
        assert(marks("?"@) == 1);
        assert(marks(v[n - 1].0) == 0);
        if n == 1 {
            lemma_marks(" WHERE "@, v[0].0);
            lemma_marks(" WHERE "@ + v[0].0, "?"@);
        } else {
            lemma_where_marks(v, n - 1);
            let w = where_upto(v, n - 1);
            lemma_marks(w, " AND "@);
            lemma_marks(w + " AND "@, v[n - 1].0);
            lemma_marks(w + " AND "@ + v[n - 1].0, "?"@);
        }
    }
}

/// A query has a value for each of its places: the filters' in their order, and at
/// last the number of entries to fetch, one more than the page shows.
pub proof fn law_value_for_each_place(
    select: Seq<char>,
    v: Seq<(Seq<char>, BoundView)>,
    limit: int,
)
    requires
        marks(select) == 0,
        forall|i: int| 0 <= i < v.len() ==> marks(#[trigger] v[i].0) == 0,
        0 < limit <= 500,
    ensures
        marks(query_text(select, v)) == query_values(v, limit).len(),
        forall|i: int| 0 <= i < v.len() ==> #[trigger] query_values(v, limit)[i] == v[i].1,
        query_values(v, limit).last() == BoundView::Number((limit + 1) as i64),
{
    lemma_where_marks(v, v.len() as int);
    reveal_strlit(" ORDER BY id DESC LIMIT ?");
    let tail = " ORDER BY id DESC LIMIT ?"@;
    lemma_no_marks(tail.drop_last());
    lemma_marks(select, where_upto(v, v.len() as int));
    lemma_marks(select + where_upto(v, v.len() as int), tail);
}

/// A list is narrowed by each filter that is set, by none that is empty or left
/// out, and by the cursor where there is one.
pub proof fn law_filters_narrow(
    c: Seq<char>,
    t: Seq<char>,
    d: Seq<char>,
    u: Seq<char>,
    cursor: i64,
)
    requires
        t.len() > 0,
        u.len() > 0,
    ensures
        conditions(Some((c, t)), Some((d, u)), Some(cursor)) == seq![
            (c, BoundView::Text(t)),
            (d, BoundView::Text(u)),
            ("id < "@, BoundView::Number(cursor)),
        ],
        conditions(Some((c, t)), None, None) == seq![(c, BoundView::Text(t))],
        conditions(None, Some((d, u)), None) == seq![(d, BoundView::Text(u))],
        conditions(Some((c, seq![])), Some((d, u)), None) == conditions(None, Some((d, u)), None),
        conditions(Some((c, t)), Some((d, seq![])), None) == conditions(Some((c, t)), None, None),
        conditions(None, None, None).len() == 0,
{
    assert(conditions(Some((c, t)), Some((d, u)), Some(cursor)) =~= seq![
        (c, BoundView::Text(t)),
        (d, BoundView::Text(u)),
        ("id < "@, BoundView::Number(cursor)),
    ]);
}

/// There is a next page exactly where more was fetched than the page shows.
pub proof fn law_next_page(ids: Seq<i64>, limit: int)
    requires
        0 < limit,
    ensures
        page_of(ids, limit).1 is Some <==> ids.len() > limit,
        ids.len() <= limit ==> page_of(ids, limit).0 == ids.len(),
        ids.len() > limit ==> page_of(ids, limit) == (limit, Some(ids[limit - 1])),
{
}

} // verus!
