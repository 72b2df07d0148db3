//! How the service is doing.
use vstd::prelude::*;

use crate::auth::{auth_result, require_auth, str_option, token_of, Sessions};
use crate::config::{Config, ProcessingOptions};
use crate::metrics::RuntimeMetricsSnapshot;
use crate::scanner::watch::WatchDirEntry;
use crate::state::ControlStatus;

verus! {

/// How many fonts, subtitles, backups and jobs there are.
#[derive(Clone, Copy, Debug, PartialEq, Eq, Structural)]
pub struct StatusCounts {
    pub font_files: i64,
    pub font_faces: i64,
    pub font_errors: i64,
    pub subtitle_files: i64,
    pub backups: i64,
    pub jobs_queued: i64,
    pub jobs_running: i64,
    pub jobs_success: i64,
    pub jobs_partial: i64,
    pub jobs_failed: i64,
    pub jobs_cancelled: i64,
}

/// How many jobs are in a state.
#[derive(Clone, Copy, Debug)]
pub struct JobCount {
    pub status: &'static str,
    pub count: i64,
}

pub open spec fn job_count_views(v: Seq<JobCount>) -> Seq<(Seq<char>, i64)> {
    Seq::new(v.len(), |i: int| (v[i].status@, v[i].count))
}

/// The jobs by their states.
pub fn job_counts(c: &StatusCounts) -> (r: Vec<JobCount>)
    ensures
        job_count_views(r@) == seq![
            ("queued"@, c.jobs_queued),
            ("running"@, c.jobs_running),
            ("success"@, c.jobs_success),
            ("partial"@, c.jobs_partial),
            ("failed"@, c.jobs_failed),
            ("cancelled"@, c.jobs_cancelled),
        ],
{
    let mut v: Vec<JobCount> = Vec::new();
    v.push(JobCount { status: "queued", count: c.jobs_queued });
    v.push(JobCount { status: "running", count: c.jobs_running });
    v.push(JobCount { status: "success", count: c.jobs_success });
    v.push(JobCount { status: "partial", count: c.jobs_partial });
    v.push(JobCount { status: "failed", count: c.jobs_failed });
    v.push(JobCount { status: "cancelled", count: c.jobs_cancelled });
    assert(job_count_views(v@) =~= seq![
        ("queued"@, c.jobs_queued),
        ("running"@, c.jobs_running),
        ("success"@, c.jobs_success),
        ("partial"@, c.jobs_partial),
        ("failed"@, c.jobs_failed),
        ("cancelled"@, c.jobs_cancelled),
    ]);
    v
}

/// Whether the one who asks is told more than that a password is needed.
pub fn status_visible(
    sessions: &Sessions,
    allow_no_auth: bool,
    cookies: Option<&str>,
    now: u64,
) -> (r: bool)
    ensures
        r == (auth_result(
            sessions@,
            allow_no_auth,
            token_of(str_option(cookies)),
            None,
            false,
            now,
        ) is Ok),
{
    require_auth(sessions, allow_no_auth, cookies, None, false, now).is_ok()
}

/// Everything that is told of a running service.
#[derive(Debug)]
pub struct StatusReport {
    pub auth_required: bool,
    pub counts: StatusCounts,
    pub jobs: Vec<JobCount>,
    pub watch_dirs: Vec<WatchDirEntry>,
    pub scan_interval_seconds: u64,
    pub options: ProcessingOptions,
    pub controls: ControlStatus,
    pub metrics: RuntimeMetricsSnapshot,
}

/// The answer to a request for the status: nothing is told of the service to one
/// who has not logged in.
pub fn status(
    visible: bool,
    config: &Config,
    counts: StatusCounts,
    watch_dirs: Vec<WatchDirEntry>,
    scan_interval_seconds: u64,
    options: ProcessingOptions,
    controls: ControlStatus,
    metrics: RuntimeMetricsSnapshot,
) -> (r: Option<StatusReport>)
    ensures
        match r {
            None => !visible,
            Some(s) => {
                &&& visible
                &&& s.auth_required == !config.allow_no_auth
                &&& s.counts == counts
                &&& job_count_views(s.jobs@) == seq![
                    ("queued"@, counts.jobs_queued),
                    ("running"@, counts.jobs_running),
                    ("success"@, counts.jobs_success),
                    ("partial"@, counts.jobs_partial),
                    ("failed"@, counts.jobs_failed),
                    ("cancelled"@, counts.jobs_cancelled),
                ]
                &&& s.watch_dirs == watch_dirs
                &&& s.scan_interval_seconds == scan_interval_seconds
                &&& s.options == options
                &&& s.controls == controls
                &&& s.metrics == metrics
            },
        },
{
    if !visible {
        return None;
    }
    Some(
        StatusReport {
            auth_required: !config.allow_no_auth,
            counts,
            jobs: job_counts(&counts),
            watch_dirs,
            scan_interval_seconds,
            options,
            controls,
            metrics,
        },
    )
}

} // verus!
