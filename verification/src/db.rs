//! Bringing the database up to date.
use vstd::prelude::*;

use crate::line_laws::law_trim_idempotent;
use crate::split::{split, split_chars};
use crate::text::{push_text, rows, same_text, texts, to_chars, to_text, trim, trim_chars};

verus! {

/// The statements among the first `n` parts of a script.
pub open spec fn statements_upto(parts: Seq<Seq<char>>, n: int) -> Seq<Seq<char>>
    decreases n,
{
    if n <= 0 {
        seq![]
    } else if trim(parts[n - 1]).len() > 0 {
        statements_upto(parts, n - 1).push(trim(parts[n - 1]))
    } else {
        statements_upto(parts, n - 1)
    }
}

/// The statements of a script: what stands between semicolons, without blank
/// ones and without the space around them.
pub open spec fn statements_of(script: Seq<char>) -> Seq<Seq<char>> {
    statements_upto(split(script, ';'), split(script, ';').len() as int)
}

pub fn script_statements(script: &str) -> (r: Vec<String>)
    ensures
        texts(r@) == statements_of(script@),
{
    let c = to_chars(script);
    let parts = split_chars(c.as_slice(), ';');
    let ghost v = rows(parts@);
    let mut out: Vec<String> = Vec::new();
    let mut i: usize = 0;
    assert(texts(out@) =~= seq![]);
    while i < parts.len()
        invariant
            i <= parts@.len(),
            v == rows(parts@),
            texts(out@) == statements_upto(v, i as int),
        decreases parts@.len() - i,
    {
        let t = trim_chars(parts[i].as_slice());
        assert(t@ == trim(v[i as int]));
        if t.len() > 0 {
            let ghost had = texts(out@);
            out.push(to_text(t));
            assert(texts(out@) =~= had.push(t@));
        }
        i = i + 1;
    }
    out
}

/// The statement that lists the columns of a table.
pub fn table_info_sql(table: &str) -> (r: String)
    ensures
        r@ == "PRAGMA table_info("@ + table@ + ")"@,
{
    let mut out = to_chars("PRAGMA table_info(");
    push_text(&mut out, table);
    push_text(&mut out, ")");
    to_text(out.as_slice())
}

pub open spec fn add_column_text(table: Seq<char>, column: Seq<char>, definition: Seq<char>) -> Seq<
    char,
> {
    "ALTER TABLE "@ + table + " ADD COLUMN "@ + column + " "@ + definition
}

/// The statement that adds a column to a table, unless the table has it.
pub fn add_column_if_missing(
    columns: &Vec<String>,
    table: &str,
    column: &str,
    definition: &str,
) -> (r: Option<String>)
    ensures
        match r {
            Some(sql) => !texts(columns@).contains(column@) && sql@ == add_column_text(
                table@,
                column@,
                definition@,
            ),
            None => texts(columns@).contains(column@),
        },
{
    let ghost v = texts(columns@);
    let mut i: usize = 0;
    while i < columns.len()
        invariant
            i <= columns@.len(),
            v == texts(columns@),
            forall|j: int| 0 <= j < i ==> v[j] != column@,
        decreases columns@.len() - i,
    {
        assert(v[i as int] == columns@[i as int]@);
        if same_text(columns[i].as_str(), column) {
            return None;
        }
        i = i + 1;
    }
    let mut out = to_chars("ALTER TABLE ");
    push_text(&mut out, table);
    push_text(&mut out, " ADD COLUMN ");
    push_text(&mut out, column);
    push_text(&mut out, " ");
    push_text(&mut out, definition);
    assert(out@ =~= add_column_text(table@, column@, definition@));
    Some(to_text(out.as_slice()))
}

/// A column that later versions of the schema have.
#[derive(Clone, Copy, Debug)]
pub struct AddedColumn {
    pub table: &'static str,
    pub column: &'static str,
    pub definition: &'static str,
}

/// The `i`th column that later versions of the schema have.
pub open spec fn added_column(i: int) -> Option<(Seq<char>, Seq<char>, Seq<char>)> {
    if i == 0 {
        Some(("subtitle_files"@, "analysis"@, "TEXT"@))
    } else if i == 1 {
        Some(("subtitle_files"@, "analysis_size"@, "INTEGER"@))
    } else if i == 2 {
        Some(("subtitle_files"@, "analysis_mtime"@, "INTEGER"@))
    } else if i == 3 {
        Some(("subtitle_files"@, "last_font_index_revision"@, "INTEGER"@))
    } else if i == 4 {
        Some(("jobs"@, "mode"@, "TEXT NOT NULL DEFAULT 'subset'"@))
    } else {
        None
    }
}

pub fn later_column(i: usize) -> (r: Option<AddedColumn>)
    ensures
        match r {
            Some(c) => added_column(i as int) == Some((c.table@, c.column@, c.definition@)),
            None => added_column(i as int) is None,
        },
{
    if i == 0 {
        Some(AddedColumn { table: "subtitle_files", column: "analysis", definition: "TEXT" })
    } else if i == 1 {
        Some(
            AddedColumn { table: "subtitle_files", column: "analysis_size", definition: "INTEGER" },
        )
    } else if i == 2 {
        Some(
            AddedColumn {
                table: "subtitle_files",
                column: "analysis_mtime",
                definition: "INTEGER",
            },
        )
    } else if i == 3 {
        Some(
            AddedColumn {
                table: "subtitle_files",
                column: "last_font_index_revision",
                definition: "INTEGER",
            },
        )
    } else if i == 4 {
        Some(
            AddedColumn {
                table: "jobs",
                column: "mode",
                definition: "TEXT NOT NULL DEFAULT 'subset'",
            },
        )
    } else {
        None
    }
}

/// The description of a version of the schema.
pub open spec fn version_text(version: int) -> Option<Seq<char>> {
    if version == 1 {
        Some("baseline schema"@)
    } else if version == 2 {
        Some("analysis cache and active-job indexes"@)
    } else if version == 3 {
        Some("backup retention index"@)
    } else if version == 4 {
        Some("deduplicate font faces and enforce face identity"@)
    } else {
        None
    }
}

pub fn version_description(version: i64) -> (r: Option<&'static str>)
    ensures
        match r {
            Some(t) => version_text(version as int) == Some(t@),
            None => version_text(version as int) is None,
        },
{
    if version == 1 {
        Some("baseline schema")
    } else if version == 2 {
        Some("analysis cache and active-job indexes")
    } else if version == 3 {
        Some("backup retention index")
    } else if version == 4 {
        Some("deduplicate font faces and enforce face identity")
    } else {
        None
    }
}

/// The address of the database.
pub fn database_url(path: &str) -> (r: String)
    ensures
        r@ == "sqlite://"@ + path@,
{
    let mut out = to_chars("sqlite://");
    push_text(&mut out, path);
    to_text(out.as_slice())
}

// ---------------------------------------------------------------------------
// Laws
// ---------------------------------------------------------------------------
proof fn lemma_statements(parts: Seq<Seq<char>>, n: int)
    requires
        0 <= n <= parts.len(),
    ensures
        forall|i: int|
            #![trigger statements_upto(parts, n)[i]]
            0 <= i < statements_upto(parts, n).len() ==> statements_upto(parts, n)[i].len() > 0
                && trim(statements_upto(parts, n)[i]) == statements_upto(parts, n)[i],
    decreases n,
{
    if n > 0 {
        lemma_statements(parts, n - 1);
        law_trim_idempotent(parts[n - 1]);
        let b = statements_upto(parts, n - 1);
        let v = statements_upto(parts, n);
        assert forall|i: int| 0 <= i < v.len() implies #[trigger] v[i].len() > 0 && trim(v[i])
            == v[i] by {
            if i < b.len() {
                assert(v[i] == b[i]);
            }
        }
    }
}

/// No statement of a script is blank or has space around it.
pub proof fn law_statements_not_blank(script: Seq<char>)
    ensures
        forall|i: int|
            #![trigger statements_of(script)[i]]
            0 <= i < statements_of(script).len() ==> statements_of(script)[i].len() > 0 && trim(
                statements_of(script)[i],
            ) == statements_of(script)[i],
{
    lemma_statements(split(script, ';'), split(script, ';').len() as int);
}

/// Every part of a script that is not blank is one of its statements.
pub proof fn law_every_statement_kept(parts: Seq<Seq<char>>, n: int, i: int)
    requires
        0 <= i < n <= parts.len(),
        trim(parts[i]).len() > 0,
    ensures
        statements_upto(parts, n).contains(trim(parts[i])),
    decreases n,
{
    let b = statements_upto(parts, n - 1);
    let v = statements_upto(parts, n);
    if i == n - 1 {
        assert(v[v.len() - 1] == trim(parts[i]));
    } else {
        law_every_statement_kept(parts, n - 1, i);
        let k = choose|k: int| 0 <= k < b.len() && b[k] == trim(parts[i]);
        assert(v[k] == b[k]);
    }
}

/// The columns that later versions of the schema add, and how they are added.
pub proof fn law_later_columns(table: Seq<char>, column: Seq<char>, definition: Seq<char>)
    ensures
        added_column(0) == Some(("subtitle_files"@, "analysis"@, "TEXT"@)),
        added_column(1) == Some(("subtitle_files"@, "analysis_size"@, "INTEGER"@)),
        added_column(2) == Some(("subtitle_files"@, "analysis_mtime"@, "INTEGER"@)),
        added_column(3) == Some(("subtitle_files"@, "last_font_index_revision"@, "INTEGER"@)),
        added_column(4) == Some(("jobs"@, "mode"@, "TEXT NOT NULL DEFAULT 'subset'"@)),
        added_column(5) is None,
        add_column_text(table, column, definition) == "ALTER TABLE "@ + table + " ADD COLUMN "@
            + column + " "@ + definition,
{
}

/// The four versions of the schema, and no other, have a description.
pub proof fn law_versions_described(version: int)
    ensures
        version_text(version) is Some <==> 1 <= version <= 4,
        version_text(1) == Some("baseline schema"@),
        version_text(2) == Some("analysis cache and active-job indexes"@),
        version_text(3) == Some("backup retention index"@),
        version_text(4) == Some("deduplicate font faces and enforce face identity"@),
{
}

} // verus!
