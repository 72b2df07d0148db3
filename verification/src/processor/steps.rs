//! The order in which a conversion does its work: the queue of jobs, and the way
//! of a font through the cache.
use vstd::prelude::*;

use crate::ids::{is_id, temp_beside, temp_path_beside};
use crate::config::ProcessingOptions;
use crate::text::same_text;

verus! {

/// The temporary file that a subtitle is written to before it takes the place of
/// the old one.
pub fn replacement_path(path: &str) -> (r: String)
    ensures
        exists|id: Seq<char>| is_id(id) && r@ == temp_beside(path@, "subtitle.ass"@, id),
{
    temp_path_beside(path, "subtitle.ass")
}

// ---------------------------------------------------------------------------
// A font through the cache
// ---------------------------------------------------------------------------
/// What is done next for a font that is to be embedded.
#[derive(Clone, Copy, Debug, PartialEq, Eq, Structural)]
pub enum CacheStep {
    /// Look whether the cache has it.
    Lookup,
    /// Have it made.
    Generate,
    /// Have the whole font made in its place.
    GenerateFull,
    /// Look whether the file was made.
    CheckTemp,
    /// Move the file to its place.
    Publish,
    /// Read it.
    Read,
    /// Give up.
    Fail,
}

/// Whether the whole font may take the place of a subset that fails.
pub open spec fn falls_back(o: ProcessingOptions) -> bool {
    !o.full_font_embed && o.fallback_full_font_embed
}

pub fn may_fall_back(options: &ProcessingOptions) -> (r: bool)
    ensures
        r == falls_back(*options),
{
    !options.full_font_embed && options.fallback_full_font_embed
}

/// What follows a step that succeeded or not.
pub open spec fn step_after(step: CacheStep, ok: bool, fallback: bool) -> CacheStep {
    match step {
        CacheStep::Lookup => if ok {
            CacheStep::Read
        } else {
            CacheStep::Generate
        },
        CacheStep::Generate => if ok {
            CacheStep::CheckTemp
        } else if fallback {
            CacheStep::GenerateFull
        } else {
            CacheStep::Fail
        },
        CacheStep::GenerateFull => if ok {
            CacheStep::CheckTemp
        } else {
            CacheStep::Fail
        },
        CacheStep::CheckTemp => if ok {
            CacheStep::Publish
        } else {
            CacheStep::Fail
        },
        CacheStep::Publish => if ok {
            CacheStep::Read
        } else {
            CacheStep::Fail
        },
        CacheStep::Read => CacheStep::Read,
        CacheStep::Fail => CacheStep::Fail,
    }
}

impl CacheStep {
    pub fn after(self, ok: bool, fallback: bool) -> (r: CacheStep)
        ensures
            r == step_after(self, ok, fallback),
    {
        match self {
            CacheStep::Lookup => if ok {
                CacheStep::Read
            } else {
                CacheStep::Generate
            },
            CacheStep::Generate => if ok {
                CacheStep::CheckTemp
            } else if fallback {
                CacheStep::GenerateFull
            } else {
                CacheStep::Fail
            },
            CacheStep::GenerateFull => if ok {
                CacheStep::CheckTemp
            } else {
                CacheStep::Fail
            },
            CacheStep::CheckTemp => if ok {
                CacheStep::Publish
            } else {
                CacheStep::Fail
            },
            CacheStep::Publish => if ok {
                CacheStep::Read
            } else {
                CacheStep::Fail
            },
            CacheStep::Read => CacheStep::Read,
            CacheStep::Fail => CacheStep::Fail,
        }
    }
}

// ---------------------------------------------------------------------------
// The end of a job
// ---------------------------------------------------------------------------
/// What is done next with the text that a job has made.
#[derive(Clone, Copy, Debug, PartialEq, Eq, Structural)]
pub enum WriteStep {
    /// Keep a copy of the file as it was.
    Backup,
    /// Put the new text in the place of the file.
    Replace,
    /// Mark the file as processed just now.
    Touch,
    /// Record the outcome.
    Record,
    Done,
    /// Give up.
    Fail,
}

/// The first step: a file that stays as it is is neither copied nor replaced.
pub open spec fn first_write(changed: bool) -> WriteStep {
    if changed {
        WriteStep::Backup
    } else {
        WriteStep::Touch
    }
}

/// What follows a step that succeeded or not.
pub open spec fn write_after(step: WriteStep, ok: bool) -> WriteStep {
    match step {
        WriteStep::Done => WriteStep::Done,
        WriteStep::Fail => WriteStep::Fail,
        _ => if !ok {
            WriteStep::Fail
        } else {
            match step {
                WriteStep::Backup => WriteStep::Replace,
                WriteStep::Replace => WriteStep::Touch,
                WriteStep::Touch => WriteStep::Record,
                _ => WriteStep::Done,
            }
        },
    }
}

impl WriteStep {
    pub fn first(changed: bool) -> (r: WriteStep)
        ensures
            r == first_write(changed),
    {
        if changed {
            WriteStep::Backup
        } else {
            WriteStep::Touch
        }
    }

    pub fn after(self, ok: bool) -> (r: WriteStep)
        ensures
            r == write_after(self, ok),
    {
        match self {
            WriteStep::Done => WriteStep::Done,
            WriteStep::Fail => WriteStep::Fail,
            WriteStep::Backup => if ok {
                WriteStep::Replace
            } else {
                WriteStep::Fail
            },
            WriteStep::Replace => if ok {
                WriteStep::Touch
            } else {
                WriteStep::Fail
            },
            WriteStep::Touch => if ok {
                WriteStep::Record
            } else {
                WriteStep::Fail
            },
            WriteStep::Record => if ok {
                WriteStep::Done
            } else {
                WriteStep::Fail
            },
        }
    }
}

// ---------------------------------------------------------------------------
// The queue of jobs
// ---------------------------------------------------------------------------
/// Jobs that wait, in the order in which they came.
pub struct JobQueue {
    pending: Vec<i64>,
}

/// What is done with the queue next.
pub enum QueueStep {
    /// These jobs are cancelled; the request to cancel is over where nothing
    /// runs any more.
    Cancel(Vec<i64>, bool),
    /// Nothing.
    Wait,
    /// The job is started, if it still waits.
    Start(i64),
}

impl View for JobQueue {
    type V = Seq<i64>;

    closed spec fn view(&self) -> Seq<i64> {
        self.pending@
    }
}

impl JobQueue {
    pub fn new() -> (r: JobQueue)
        ensures
            r@ == Seq::<i64>::empty(),
    {
        JobQueue { pending: Vec::new() }
    }

    pub fn push(&mut self, job: i64)
        ensures
            final(self)@ == old(self)@.push(job),
    {
        self.pending.push(job);
    }

    /// Whether the work is over: no more jobs come, none waits and none runs.
    pub fn is_over(&self, closed: bool, active: usize) -> (r: bool)
        ensures
            r == (closed && self@.len() == 0 && active == 0),
    {
        closed && self.pending.len() == 0 && active == 0
    }

    /// What is done next: everything is cancelled where that is asked for,
    /// nothing is done while paused, and the first job is started where fewer
    /// run than may.
    pub fn poll(&mut self, cancel: bool, paused: bool, active: usize, limit: usize) -> (r: QueueStep)
        ensures
            match r {
                QueueStep::Cancel(jobs, clear) => {
                    &&& cancel
                    &&& jobs@ == old(self)@
                    &&& clear == (active == 0)
                    &&& final(self)@ == Seq::<i64>::empty()
                },
                QueueStep::Start(job) => {
                    &&& !cancel && !paused && active < limit
                    &&& old(self)@.len() > 0
                    &&& job == old(self)@[0]
                    &&& final(self)@ == old(self)@.skip(1)
                },
                QueueStep::Wait => {
                    &&& !cancel && (paused || active >= limit || old(self)@.len() == 0)
                    &&& final(self)@ == old(self)@
                },
            },
    {
        if cancel {
            let mut jobs: Vec<i64> = Vec::new();
            std::mem::swap(&mut jobs, &mut self.pending);
            return QueueStep::Cancel(jobs, active == 0);
        }
        if paused || active >= limit || self.pending.len() == 0 {
            return QueueStep::Wait;
        }
        let ghost before = self.pending@;
        let job = self.pending.remove(0);
        assert(self.pending@ =~= before.skip(1));
        QueueStep::Start(job)
    }
}

/// Whether a job may be started: it still waits.
pub fn job_is_runnable(status: Option<&str>) -> (r: bool)
    ensures
        r == (status is Some && status->0@ == "queued"@),
{
    match status {
        Some(s) => same_text(s, "queued"),
        None => false,
    }
}

/// What becomes of a job that ended with an error.
#[derive(Clone, Copy, Debug, PartialEq, Eq, Structural)]
pub enum JobEnd {
    Cancelled,
    Failed,
}

/// An error while everything is being cancelled is no failure.
pub fn end_of_job(cancel_requested: bool) -> (r: JobEnd)
    ensures
        r == if cancel_requested {
            JobEnd::Cancelled
        } else {
            JobEnd::Failed
        },
{
    if cancel_requested {
        JobEnd::Cancelled
    } else {
        JobEnd::Failed
    }
}

// ---------------------------------------------------------------------------
// Waiting time
// ---------------------------------------------------------------------------
/// The seconds and nanoseconds since 1970 of a point in time written as RFC 3339
/// asks for.
pub uninterp spec fn rfc3339_time(s: Seq<char>) -> Option<(i64, u32)>;

/// `chrono::DateTime::parse_from_rfc3339` with `timestamp` and
/// `timestamp_subsec_nanos` of what it gives: the point in time that the text
/// names, or nothing where the text is none.
#[verifier::external_body]
fn parse_rfc3339(s: &str) -> (r: Option<(i64, u32)>)
    ensures
        r == rfc3339_time(s@),
{
    chrono::DateTime::parse_from_rfc3339(s).ok().map(|t| (t.timestamp(), t.timestamp_subsec_nanos()))
}

/// The second of the day at a point in time.
pub open spec fn second_of_day(seconds: int) -> int {
    seconds % 86400
}

/// A fraction that stands for a leap second: it has a second of its own.
pub open spec fn in_leap_second(t: (i64, u32)) -> bool {
    t.1 >= 1000000000
}

/// The time between two points in nanoseconds. A leap second at the earlier time
/// of day counts as a second of its own.
pub open spec fn nanos_between(from: (i64, u32), to: (i64, u32)) -> int {
    let (a, b) = (second_of_day(from.0 as int), second_of_day(to.0 as int));
    let leap: int = if b > a && in_leap_second(from) {
        1
    } else if b < a && in_leap_second(to) {
        -1
    } else {
        0
    };
    (to.0 - from.0 + leap) * 1000000000 + (to.1 - from.1)
}

/// The time between two points in milliseconds, rounded down; zero where the
/// second comes first.
pub open spec fn millis_between(from: (i64, u32), to: (i64, u32)) -> int {
    let nanos = nanos_between(from, to);
    if nanos < 0 {
        0
    } else {
        nanos / 1000000
    }
}

fn day_second(seconds: i64) -> (r: u32)
    ensures
        r == second_of_day(seconds as int),
{
    // As many whole days as make every point in time positive.
    let shifted: u128 = (seconds as i128 + 9223372036854806400i128) as u128;
    proof {
        vstd::arithmetic::div_mod::lemma_mod_multiples_vanish(
            106751991167301,
            seconds as int,
            86400,
        );
    }
    (shifted % 86400) as u32
}

pub fn elapsed_millis(from: (i64, u32), to: (i64, u32)) -> (r: u128)
    ensures
        r == millis_between(from, to),
{
    let a = day_second(from.0);
    let b = day_second(to.0);
    let leap: i128 = if b > a && from.1 >= 1000000000 {
        1
    } else if b < a && to.1 >= 1000000000 {
        -1
    } else {
        0
    };
    let seconds: i128 = to.0 as i128 - from.0 as i128 + leap;
    let nanos: i128 = seconds * 1000000000 + (to.1 as i128 - from.1 as i128);
    if nanos < 0 {
        0
    } else {
        let n: u128 = nanos as u128;
        n / 1000000
    }
}

/// How long a job has waited: nothing where its time cannot be read.
pub open spec fn waited(queued: Option<(i64, u32)>, now: (i64, u32)) -> int {
    match queued {
        Some(t) => millis_between(t, now),
        None => 0,
    }
}

pub fn waiting_millis(queued: Option<(i64, u32)>, now: (i64, u32)) -> (r: u128)
    ensures
        r == waited(queued, now),
{
    match queued {
        Some(t) => elapsed_millis(t, now),
        None => 0,
    }
}

/// How long a job that was queued at a written time has waited.
pub fn queue_latency(queued_at: &str, now: (i64, u32)) -> (r: u128)
    ensures
        r == waited(rfc3339_time(queued_at@), now),
{
    waiting_millis(parse_rfc3339(queued_at), now)
}

// ---------------------------------------------------------------------------
// Laws
// ---------------------------------------------------------------------------
/// The whole font is made only after a subset failed, and only where that is
/// allowed; after it nothing more is made.
pub proof fn law_one_fallback(step: CacheStep, ok: bool, fallback: bool)
    ensures
        step_after(step, ok, fallback) == CacheStep::GenerateFull ==> step == CacheStep::Generate
            && !ok && fallback,
        step_after(CacheStep::GenerateFull, ok, fallback) != CacheStep::Generate,
        step_after(CacheStep::GenerateFull, ok, fallback) != CacheStep::GenerateFull,
{
}

/// A file comes into the cache only after it was seen to be made.
pub proof fn law_published_only_when_made(step: CacheStep, ok: bool, fallback: bool)
    ensures
        step_after(step, ok, fallback) == CacheStep::Publish ==> step == CacheStep::CheckTemp && ok,
{
}

/// A font in the cache is read without being made again.
pub proof fn law_hit_is_read(fallback: bool)
    ensures
        step_after(CacheStep::Lookup, true, fallback) == CacheStep::Read,
{
}

/// Where a job stands once its steps have gone as told.
pub open spec fn write_run(changed: bool, oks: Seq<bool>) -> WriteStep
    decreases oks.len(),
{
    if oks.len() == 0 {
        first_write(changed)
    } else {
        write_after(write_run(changed, oks.drop_last()), oks.last())
    }
}

/// A file is replaced only after its backup was made, and only where its text
/// changed.
pub proof fn law_backup_before_replace(changed: bool, oks: Seq<bool>)
    requires
        write_run(changed, oks) == WriteStep::Replace,
    ensures
        changed,
        oks.len() > 0,
        oks.last(),
        write_run(changed, oks.drop_last()) == WriteStep::Backup,
{
    law_unchanged_file_stays(oks);
}

/// A file whose text stays as it is is neither copied nor replaced, however the
/// steps go.
pub proof fn law_unchanged_file_stays(oks: Seq<bool>)
    ensures
        write_run(false, oks) != WriteStep::Backup,
        write_run(false, oks) != WriteStep::Replace,
    decreases oks.len(),
{
    if oks.len() > 0 {
        law_unchanged_file_stays(oks.drop_last());
    }
}

/// An outcome is recorded only once the file has its new text, or never needed
/// one.
pub proof fn law_recorded_once_written(changed: bool, oks: Seq<bool>)
    requires
        write_run(changed, oks) == WriteStep::Record,
    ensures
        oks.len() > 0 && oks.last(),
        write_run(changed, oks.drop_last()) == WriteStep::Touch,
        changed ==> {
            let before = oks.drop_last();
            &&& before.len() > 0 && before.last()
            &&& write_run(changed, before.drop_last()) == WriteStep::Replace
        },
{
    reveal_with_fuel(write_run, 3);
}

/// A font that the cache lacks is made, seen to be made, moved to its place and
/// read, as long as all goes well. A failure ends the work, except that a subset
/// that fails may give way to the whole font.
pub proof fn law_font_made_and_read(fallback: bool)
    ensures
        step_after(CacheStep::Lookup, false, fallback) == CacheStep::Generate,
        step_after(CacheStep::Generate, true, fallback) == CacheStep::CheckTemp,
        step_after(CacheStep::GenerateFull, true, fallback) == CacheStep::CheckTemp,
        step_after(CacheStep::CheckTemp, true, fallback) == CacheStep::Publish,
        step_after(CacheStep::Publish, true, fallback) == CacheStep::Read,
        step_after(CacheStep::Generate, false, true) == CacheStep::GenerateFull,
        step_after(CacheStep::Generate, false, false) == CacheStep::Fail,
        step_after(CacheStep::GenerateFull, false, fallback) == CacheStep::Fail,
        step_after(CacheStep::CheckTemp, false, fallback) == CacheStep::Fail,
        step_after(CacheStep::Publish, false, fallback) == CacheStep::Fail,
{
}

/// The whole font stands in for a subset where the options allow it and did not ask
/// for the whole font to begin with.
pub proof fn law_fallback_optional(o: ProcessingOptions)
    ensures
        falls_back(o) ==> o.fallback_full_font_embed,
        o.full_font_embed ==> !falls_back(o),
        o.fallback_full_font_embed && !o.full_font_embed ==> falls_back(o),
{
}

/// Where every step succeeds, a changed file is copied, replaced, marked and
/// recorded, and an unchanged one is marked and recorded; one step that fails ends
/// the job for good.
pub proof fn law_write_completes(step: WriteStep)
    ensures
        write_run(true, seq![true, true, true, true]) == WriteStep::Done,
        write_run(false, seq![true, true]) == WriteStep::Done,
        write_run(true, seq![true]) == WriteStep::Replace,
        step != WriteStep::Done ==> write_after(step, false) == WriteStep::Fail,
        write_after(WriteStep::Fail, true) == WriteStep::Fail,
{
    reveal_with_fuel(write_run, 6);
    let four = seq![true, true, true, true];
    assert(four.drop_last() =~= seq![true, true, true]);
    assert(four.drop_last().drop_last() =~= seq![true, true]);
    assert(four.drop_last().drop_last().drop_last() =~= seq![true]);
    assert(seq![true, true].drop_last() =~= seq![true]);
    assert(seq![true].drop_last() =~= Seq::<bool>::empty());
}

/// The time between two points is told in whole milliseconds, rounded down, as long
/// as neither lies in a leap second; it is none where the second point comes first.
pub proof fn law_elapsed_in_millis(from: (i64, u32), to: (i64, u32))
    requires
        from.1 < 1_000_000_000,
        to.1 < 1_000_000_000,
    ensures
        ({
            let nanos = (to.0 - from.0) * 1_000_000_000 + to.1 - from.1;
            &&& nanos >= 0 ==> millis_between(from, to) * 1_000_000 <= nanos < (millis_between(
                from,
                to,
            ) + 1) * 1_000_000
            &&& nanos < 0 ==> millis_between(from, to) == 0
        }),
        waited(None, to) == 0,
        waited(Some(from), to) == millis_between(from, to),
{
}

/// A leap second counts as a second of its own: the time from within one to a later
/// second of the day is one second more than the clock shows.
pub proof fn law_leap_second_counted(from: (i64, u32), to: (i64, u32))
    requires
        0 <= from.0 < to.0 < 86400,
        from.1 < 2_000_000_000,
        to.1 < 1_000_000_000,
        from.1 >= 1_000_000_000,
    ensures
        ({
            let nanos = (to.0 - from.0) * 1_000_000_000 + to.1 - (from.1 - 1_000_000_000);
            millis_between(from, to) * 1_000_000 <= nanos < (millis_between(from, to) + 1)
                * 1_000_000
        }),
{
    let nanos = nanos_between(from, to);
    assert(nanos == (to.0 - from.0) * 1_000_000_000 + to.1 - (from.1 - 1_000_000_000));
    assert(nanos >= 0);
}

/// The time to within a leap second that comes earlier in its day counts the leap
/// second as one of its own, too.
pub proof fn law_leap_second_reached(from: (i64, u32), to: (i64, u32))
    requires
        0 <= from.0 < 86400 <= to.0 < 86400 + from.0,
        from.1 < 1_000_000_000,
        1_000_000_000 <= to.1 < 2_000_000_000,
    ensures
        ({
            let nanos = (to.0 - from.0) * 1_000_000_000 + (to.1 - 1_000_000_000) - from.1;
            &&& nanos >= 0 ==> millis_between(from, to) * 1_000_000 <= nanos < (millis_between(
                from,
                to,
            ) + 1) * 1_000_000
            &&& nanos < 0 ==> millis_between(from, to) == 0
        }),
{
    let nanos = nanos_between(from, to);
    assert(second_of_day(to.0 as int) == to.0 - 86400);
    assert(nanos == (to.0 - from.0) * 1_000_000_000 + (to.1 - 1_000_000_000) - from.1);
}

} // verus!
