//! The log of jobs that failed.
use vstd::prelude::*;

use crate::path::{file_name, file_name_of, is_name, join_path, joined, law_file_in_directory};
use crate::text::{push_text, to_chars, to_text};

verus! {

/// Where a log was written, and how many jobs are in it.
#[derive(Debug)]
pub struct FailedJobLogExport {
    pub path: String,
    pub count: usize,
}

/// A line of the log.
#[derive(Debug)]
pub struct FailedJobLogEntry {
    pub ts: String,
    pub job_id: i64,
    pub subtitle_id: Option<i64>,
    pub mode: String,
    pub file_name: String,
    pub path: String,
    pub error: String,
}

#[verifier::ext_equal]
pub struct LogEntryView {
    pub ts: Seq<char>,
    pub job_id: i64,
    pub subtitle_id: Option<i64>,
    pub mode: Seq<char>,
    pub file_name: Seq<char>,
    pub path: Seq<char>,
    pub error: Seq<char>,
}

impl View for FailedJobLogEntry {
    type V = LogEntryView;

    open spec fn view(&self) -> LogEntryView {
        LogEntryView {
            ts: self.ts@,
            job_id: self.job_id,
            subtitle_id: self.subtitle_id,
            mode: self.mode@,
            file_name: self.file_name@,
            path: self.path@,
            error: self.error@,
        }
    }
}

/// The name of the file at a path, or the whole path where it has none.
pub open spec fn shown_name(path: Seq<char>) -> Seq<char> {
    match file_name(path) {
        Some(n) => n,
        None => path,
    }
}

pub fn file_name_from_path(path: &str) -> (r: String)
    ensures
        r@ == shown_name(path@),
{
    match file_name_of(path) {
        Some(n) => to_text(n.as_slice()),
        None => path.to_string(),
    }
}

/// The line for a job, with a word for an error that nobody described.
pub fn log_entry(
    ts: &str,
    job_id: i64,
    subtitle_id: Option<i64>,
    mode: &str,
    path: &str,
    error: Option<&str>,
) -> (r: FailedJobLogEntry)
    ensures
        r@ == (LogEntryView {
            ts: ts@,
            job_id,
            subtitle_id,
            mode: mode@,
            file_name: shown_name(path@),
            path: path@,
            error: match error {
                Some(e) => e@,
                None => "unknown error"@,
            },
        }),
{
    let error = match error {
        Some(e) => e.to_string(),
        None => "unknown error".to_string(),
    };
    FailedJobLogEntry {
        ts: ts.to_string(),
        job_id,
        subtitle_id,
        mode: mode.to_string(),
        file_name: file_name_from_path(path),
        path: path.to_string(),
        error,
    }
}

/// Where the logs are.
pub fn log_dir(data_dir: &str) -> (r: String)
    ensures
        r@ == joined(data_dir@, "error-logs"@),
{
    join_path(data_dir, "error-logs")
}

pub open spec fn log_name(start: Seq<char>, time: Seq<char>) -> Seq<char> {
    start + time + ".jsonl"@
}

fn named(start: &str, time: &str) -> (r: String)
    ensures
        r@ == log_name(start@, time@),
{
    let mut out = to_chars(start);
    push_text(&mut out, time);
    push_text(&mut out, ".jsonl");
    to_text(out.as_slice())
}

/// The log to which the jobs that fail on a day are added.
pub fn daily_log(data_dir: &str, day: &str) -> (r: String)
    ensures
        r@ == joined(joined(data_dir@, "error-logs"@), log_name("failed-jobs-"@, day@)),
{
    let dir = log_dir(data_dir);
    let name = named("failed-jobs-", day);
    join_path(dir.as_str(), name.as_str())
}

/// The log to which all failed jobs are written at a point in time.
pub fn export_log(data_dir: &str, time: &str) -> (r: String)
    ensures
        r@ == joined(joined(data_dir@, "error-logs"@), log_name("failed-jobs-export-"@, time@)),
{
    let dir = log_dir(data_dir);
    let name = named("failed-jobs-export-", time);
    join_path(dir.as_str(), name.as_str())
}

// ---------------------------------------------------------------------------
// Laws
// ---------------------------------------------------------------------------
/// A failed job is shown under the name of its file.
pub proof fn law_file_shown(dir: Seq<char>, name: Seq<char>)
    requires
        is_name(name),
        dir.len() > 0,
        dir.last() != '/',
    ensures
        shown_name(joined(dir, name)) == name,
{
    law_file_in_directory(dir, name);
}

/// Each time has a log of its own, of lines of JSON.
pub proof fn law_logs_differ(start: Seq<char>, a: Seq<char>, b: Seq<char>)
    requires
        log_name(start, a) == log_name(start, b),
    ensures
        a == b,
        log_name(start, a) == start + a + ".jsonl"@,
{
    let (x, y) = (log_name(start, a), log_name(start, b));
    assert(x.len() == start.len() + a.len() + ".jsonl"@.len());
    assert(y.len() == start.len() + b.len() + ".jsonl"@.len());
    assert forall|i: int| 0 <= i < a.len() implies a[i] == b[i] by {
        assert(x[start.len() + i] == a[i]);
        assert(y[start.len() + i] == b[i]);
    }
    assert(a =~= b);
}

} // verus!
