//! A scan: finding subtitles under the watched directories, filtering them, and
//! queueing those that are to be converted.
use vstd::hash_set::StringHashSet;
use vstd::prelude::*;

use super::filter::{
    shown_path, subtitle_candidate, CandidateView, QueueCandidate, QueuedView, SubtitleCandidate,
};
use crate::fs_walk::{DiscoveredFile, WalkOptions};
use crate::number::{decimal, decimal_chars};
use crate::text::{push_all, push_text, to_text};

verus! {

/// After what time progress is reported in any case: ten seconds.
pub const SCAN_PROGRESS_INTERVAL: u64 = 10_000;

/// After how many files progress is reported in any case.
pub const SCAN_PROGRESS_CANDIDATES: usize = 250;

/// How many jobs are queued at once.
pub const ENQUEUE_BATCH_SIZE: usize = 200;

/// What a walk for subtitles looks for.
pub fn subtitle_walk_options() -> (r: WalkOptions)
    ensures
        !r.follow_links,
        r.extensions@ == seq!["ass", "ssa"],
        r.ignored_directories@ == seq![
            ".sync",
            "@eadir",
            "#recycle",
            "$recycle.bin",
            "system volume information",
            "incomplete",
            "speedtest",
        ],
{
    WalkOptions {
        follow_links: false,
        extensions: &["ass", "ssa"],
        ignored_directories: &[
            ".sync",
            "@eadir",
            "#recycle",
            "$recycle.bin",
            "system volume information",
            "incomplete",
            "speedtest",
        ],
    }
}

/// What a scan came to.
#[derive(Clone, Copy, Debug, PartialEq, Eq, Structural)]
pub struct ScanSummary {
    pub seen: usize,
    pub queued: usize,
    pub skipped: usize,
    pub failed: usize,
    pub cancelled: bool,
}

pub open spec fn empty_summary() -> ScanSummary {
    ScanSummary { seen: 0, queued: 0, skipped: 0, failed: 0, cancelled: false }
}

impl Default for ScanSummary {
    fn default() -> (r: Self)
        ensures
            r == empty_summary(),
    {
        ScanSummary { seen: 0, queued: 0, skipped: 0, failed: 0, cancelled: false }
    }
}

/// How a scan is said to have ended.
pub open spec fn final_stage(r: Option<ScanSummary>) -> Seq<char> {
    match r {
        Some(s) => if s.cancelled {
            "cancelled"@
        } else {
            "completed"@
        },
        None => "failed"@,
    }
}

/// How a scan ended: with a summary, or with an error.
pub fn stage_after(r: Option<ScanSummary>) -> (s: &'static str)
    ensures
        s@ == final_stage(r),
{
    match r {
        Some(s) => if s.cancelled {
            "cancelled"
        } else {
            "completed"
        },
        None => "failed",
    }
}

/// What came of the look at one file.
#[derive(Debug)]
pub enum Judgement {
    Ready(QueueCandidate),
    Skip,
    Failed,
}

/// A scan under way.
pub struct Scan {
    summary: ScanSummary,
    paths: StringHashSet,
    found: Vec<SubtitleCandidate>,
    next: usize,
    filtered: usize,
    ready: Vec<QueueCandidate>,
    done: usize,
    last_progress: u64,
}

#[verifier::ext_equal]
pub struct ScanView {
    pub summary: ScanSummary,
    /// The files that were found, each once.
    pub found: Seq<CandidateView>,
    /// How many of them were handed out to be looked at.
    pub next: int,
    /// How many of them were judged.
    pub filtered: int,
    /// Those that are to be converted.
    pub ready: Seq<QueuedView>,
    /// How many of those were queued.
    pub done: int,
    pub last_progress: u64,
}

pub open spec fn candidates_view(v: Seq<SubtitleCandidate>) -> Seq<CandidateView> {
    Seq::new(v.len(), |i: int| v[i]@)
}

pub open spec fn queued_view(v: Seq<QueueCandidate>) -> Seq<QueuedView> {
    Seq::new(v.len(), |i: int| v[i]@)
}

/// Whether one of the files has the path.
pub open spec fn has_found(v: Seq<CandidateView>, path: Seq<char>) -> bool {
    exists|i: int| 0 <= i < v.len() && (#[trigger] v[i]).path == path
}

/// The paths of the files.
pub open spec fn found_paths(v: Seq<CandidateView>) -> Set<Seq<char>> {
    Set::new(|p: Seq<char>| has_found(v, p))
}

impl View for Scan {
    type V = ScanView;

    closed spec fn view(&self) -> ScanView {
        ScanView {
            summary: self.summary,
            found: candidates_view(self.found@),
            next: self.next as int,
            filtered: self.filtered as int,
            ready: queued_view(self.ready@),
            done: self.done as int,
            last_progress: self.last_progress,
        }
    }
}

/// No two of the files have the same path.
pub open spec fn distinct_paths(v: Seq<CandidateView>) -> bool {
    forall|i: int, j: int| 0 <= i < j < v.len() ==> #[trigger] v[i].path != #[trigger] v[j].path
}

/// The state of a scan makes sense: every file that counts as seen is there
/// once, and no more were judged, found ready or queued than there are.
pub open spec fn sound(s: ScanView) -> bool {
    &&& s.summary.seen == s.found.len()
    &&& distinct_paths(s.found)
    &&& 0 <= s.filtered <= s.next <= s.found.len()
    &&& s.ready.len() <= s.filtered
    &&& 0 <= s.done <= s.ready.len()
    &&& s.summary.queued <= s.done
}

/// Whether progress is reported: when asked for, at every so many files, and
/// after a time.
pub open spec fn report_due(count: int, force: bool, last: u64, now: u64) -> bool {
    force || (count > 0 && count % SCAN_PROGRESS_CANDIDATES as int == 0) || now - last
        >= SCAN_PROGRESS_INTERVAL
}

/// A report on the progress of a scan.
#[derive(Debug)]
pub struct ScanReport {
    pub stage: &'static str,
    pub current: usize,
    pub total: usize,
    pub ready: usize,
    pub summary: ScanSummary,
    pub message: String,
}

/// The stages of a scan at which progress is reported.
#[derive(Clone, Copy, Debug, PartialEq, Eq, Structural)]
pub enum ScanStage {
    Discovering,
    Filtering,
    Enqueuing,
    /// The end of enqueuing, whether or not it was cut short.
    Enqueued,
}

impl ScanStage {
    pub open spec fn text(self) -> Seq<char> {
        match self {
            ScanStage::Discovering => "discovering"@,
            ScanStage::Filtering => "filtering"@,
            ScanStage::Enqueuing => "enqueuing"@,
            ScanStage::Enqueued => "enqueuing"@,
        }
    }

    pub fn name(self) -> (r: &'static str)
        ensures
            r@ == self.text(),
    {
        match self {
            ScanStage::Discovering => "discovering",
            ScanStage::Filtering => "filtering",
            ScanStage::Enqueuing => "enqueuing",
            ScanStage::Enqueued => "enqueuing",
        }
    }
}

/// How far the stage is, of how many files, and how many are ready.
pub open spec fn stage_counts(s: ScanView, stage: ScanStage) -> (int, int, int) {
    match stage {
        ScanStage::Discovering => (s.summary.seen as int, 0, 0),
        ScanStage::Filtering => (s.filtered, s.found.len() as int, s.ready.len() as int),
        ScanStage::Enqueuing => (s.done, s.ready.len() as int, s.ready.len() as int),
        ScanStage::Enqueued => {
            let n = s.ready.len() as int;
            (n, n, n)
        },
    }
}

/// The counts of a summary as text.
pub open spec fn counts_text(s: ScanSummary) -> Seq<char> {
    ", queued "@ + decimal(s.queued as nat) + ", skipped "@ + decimal(s.skipped as nat)
        + ", failed "@ + decimal(s.failed as nat)
}

/// What is said of the progress.
pub open spec fn stage_message(s: ScanView, stage: ScanStage) -> Seq<char> {
    let c = stage_counts(s, stage);
    match stage {
        ScanStage::Discovering => "scan discover progress: seen "@ + decimal(c.0 as nat)
            + counts_text(s.summary),
        ScanStage::Filtering => "scan filter progress: "@ + decimal(c.0 as nat) + "/"@ + decimal(
            c.1 as nat,
        ) + ", ready "@ + decimal(c.2 as nat) + counts_text(s.summary),
        _ => "scan enqueue progress: "@ + decimal(c.0 as nat) + "/"@ + decimal(c.1 as nat)
            + ", ready "@ + decimal(c.2 as nat) + counts_text(s.summary),
    }
}

/// Whether a report on the stage is due.
pub open spec fn due(s: ScanView, stage: ScanStage, force: bool, now: u64) -> bool {
    report_due(stage_counts(s, stage).0, force, s.last_progress, now)
}

/// The report on a stage.
pub open spec fn reported(
    s: ScanView,
    stage: ScanStage,
    force: bool,
    now: u64,
    p: ScanReport,
) -> bool {
    &&& due(s, stage, force, now)
    &&& p.stage@ == stage.text()
    &&& (p.current as int, p.total as int, p.ready as int) == stage_counts(s, stage)
    &&& p.summary == s.summary
    &&& p.message@ == stage_message(s, stage)
}

fn push_count(out: &mut Vec<char>, word: &str, n: usize)
    ensures
        final(out)@ == old(out)@ + word@ + decimal(n as nat),
{
    push_text(out, word);
    let d = decimal_chars(n as u64);
    push_all(out, d.as_slice());
}

/// What happens in a scan, one thing at a time.
pub enum ScanEvent {
    Found(CandidateView),
    WalkFailed,
    HandedOut,
    Ready(QueuedView),
    Skipped,
    Failed,
    Queued { end: int, jobs: int },
}

impl Judgement {
    pub open spec fn event(self) -> ScanEvent {
        match self {
            Judgement::Ready(q) => ScanEvent::Ready(q@),
            Judgement::Skip => ScanEvent::Skipped,
            Judgement::Failed => ScanEvent::Failed,
        }
    }
}

/// The state after one thing more.
pub open spec fn scan_step(s: ScanView, e: ScanEvent) -> ScanView {
    match e {
        ScanEvent::Found(c) => if has_found(s.found, c.path) {
            ScanView {
                summary: ScanSummary { skipped: (s.summary.skipped + 1) as usize, ..s.summary },
                ..s
            }
        } else {
            ScanView {
                summary: ScanSummary { seen: (s.summary.seen + 1) as usize, ..s.summary },
                found: s.found.push(c),
                ..s
            }
        },
        ScanEvent::WalkFailed => ScanView {
            summary: ScanSummary { failed: (s.summary.failed + 1) as usize, ..s.summary },
            ..s
        },
        ScanEvent::HandedOut => ScanView { next: s.next + 1, ..s },
        ScanEvent::Ready(q) => ScanView { filtered: s.filtered + 1, ready: s.ready.push(q), ..s },
        ScanEvent::Skipped => ScanView {
            filtered: s.filtered + 1,
            summary: ScanSummary { skipped: (s.summary.skipped + 1) as usize, ..s.summary },
            ..s
        },
        ScanEvent::Failed => ScanView {
            filtered: s.filtered + 1,
            summary: ScanSummary { failed: (s.summary.failed + 1) as usize, ..s.summary },
            ..s
        },
        ScanEvent::Queued { end, jobs } => ScanView {
            done: end,
            summary: ScanSummary {
                queued: (s.summary.queued + jobs) as usize,
                skipped: (s.summary.skipped + (end - s.done - jobs)) as usize,
                ..s.summary
            },
            ..s
        },
    }
}

impl Scan {
    /// The state makes sense, and the paths that were found are known.
    pub closed spec fn wf(&self) -> bool {
        &&& sound(self@)
        &&& self.paths@ == found_paths(self@.found)
    }

    pub fn start(now: u64) -> (r: Scan)
        ensures
            r.wf(),
            r@ == (ScanView {
                summary: empty_summary(),
                found: seq![],
                next: 0,
                filtered: 0,
                ready: seq![],
                done: 0,
                last_progress: now,
            }),
    {
        let r = Scan {
            summary: ScanSummary::default(),
            paths: StringHashSet::new(),
            found: Vec::new(),
            next: 0,
            filtered: 0,
            ready: Vec::new(),
            done: 0,
            last_progress: now,
        };
        assert(r@.found =~= seq![]);
        assert(r@.ready =~= seq![]);
        assert(r.paths@ =~= found_paths(r@.found));
        r
    }

    /// What the state tells of itself.
    pub proof fn lemma_sound(&self)
        requires
            self.wf(),
        ensures
            sound(self@),
    {
    }

    /// Takes a file that the walk of a root found. A file that was found before
    /// is skipped.
    pub fn discovered(&mut self, root: &str, label: &str, file: DiscoveredFile) -> (r: bool)
        requires
            old(self).wf(),
            old(self)@.summary.skipped < usize::MAX,
        ensures
            final(self).wf(),
            r == !has_found(old(self)@.found, file.path@),
            final(self)@ == scan_step(
                old(self)@,
                ScanEvent::Found(
                    CandidateView {
                        path: file.path@,
                        root_label: label@,
                        relative_path: shown_path(file.path@, root@),
                        size: file.size,
                        mtime: file.mtime,
                    },
                ),
            ),
    {
        let ghost before = self@;
        let ghost path = file.path@;
        if self.paths.contains(file.path.as_str()) {
            self.summary.skipped = self.summary.skipped + 1;
            return false;
        }
        let candidate = subtitle_candidate(root, label, file);
        let ghost c = candidate@;
        self.paths.insert(candidate.path.clone());
        self.found.push(candidate);
        self.summary.seen = self.found.len();
        assert(self@.found =~= before.found.push(c));
        assert(self.paths@ =~= found_paths(self@.found)) by {
            assert forall|p: Seq<char>| self.paths@.contains(p) <==> has_found(
                self@.found,
                p,
            ) by {
                let n = before.found.len() as int;
                if has_found(before.found, p) {
                    let i = choose|i: int|
                        0 <= i < before.found.len() && (#[trigger] before.found[i]).path == p;
                    assert(self@.found[i] == before.found[i]);
                }
                if p == path {
                    assert(self@.found[n].path == p);
                }
                if has_found(self@.found, p) {
                    let i = choose|i: int|
                        0 <= i < self@.found.len() && (#[trigger] self@.found[i]).path == p;
                    if i < n {
                        assert(before.found[i].path == p);
                    }
                }
            }
        }
        assert forall|i: int, j: int| 0 <= i < j < self@.found.len() implies #[trigger] self@.found[i].path
            != #[trigger] self@.found[j].path by {
            if j < before.found.len() {
                assert(before.found[i].path != before.found[j].path);
            } else {
                assert(before.found[i].path != path) by {
                    assert(!has_found(before.found, path));
                }
            }
        }
        true
    }

    /// Counts something that could not be read.
    pub fn walk_failed(&mut self)
        requires
            old(self).wf(),
            old(self)@.summary.failed < usize::MAX,
        ensures
            final(self).wf(),
            final(self)@ == scan_step(old(self)@, ScanEvent::WalkFailed),
    {
        self.summary.failed = self.summary.failed + 1;
    }

    /// Ends the scan early.
    pub fn cancel(&mut self)
        requires
            old(self).wf(),
        ensures
            final(self).wf(),
            final(self)@ == (ScanView {
                summary: ScanSummary { cancelled: true, ..old(self)@.summary },
                ..old(self)@
            }),
    {
        self.summary.cancelled = true;
    }

    /// The next file to look at, in the order in which the files were found.
    pub fn next_candidate(&mut self) -> (r: Option<SubtitleCandidate>)
        requires
            old(self).wf(),
        ensures
            final(self).wf(),
            match r {
                Some(c) => {
                    &&& old(self)@.next < old(self)@.found.len()
                    &&& c@ == old(self)@.found[old(self)@.next]
                    &&& final(self)@ == scan_step(old(self)@, ScanEvent::HandedOut)
                },
                None => old(self)@.next == old(self)@.found.len() && final(self)@ == old(self)@,
            },
    {
        if self.next >= self.found.len() {
            return None;
        }
        let c = self.found[self.next].copy();
        self.next = self.next + 1;
        Some(c)
    }

    /// Whether files are left to look at.
    pub fn has_next(&self) -> (r: bool)
        requires
            self.wf(),
        ensures
            r == (self@.next < self@.found.len()),
    {
        self.next < self.found.len()
    }

    /// How many files are being looked at.
    pub fn being_judged(&self) -> (r: usize)
        requires
            self.wf(),
        ensures
            r == self@.next - self@.filtered,
    {
        self.next - self.filtered
    }

    /// Takes what came of the look at one file.
    pub fn judged(&mut self, what: Judgement)
        requires
            old(self).wf(),
            old(self)@.filtered < old(self)@.next,
            what is Skip ==> old(self)@.summary.skipped < usize::MAX,
            what is Failed ==> old(self)@.summary.failed < usize::MAX,
        ensures
            final(self).wf(),
            final(self)@ == scan_step(old(self)@, what.event()),
    {
        let ghost before = self@;
        self.filtered = self.filtered + 1;
        match what {
            Judgement::Ready(q) => {
                let ghost v = q@;
                self.ready.push(q);
                assert(self@.ready =~= before.ready.push(v));
            },
            Judgement::Skip => {
                self.summary.skipped = self.summary.skipped + 1;
            },
            Judgement::Failed => {
                self.summary.failed = self.summary.failed + 1;
            },
        }
    }

    /// The end of the next batch of files to queue: the batch is empty once all
    /// of them were queued.
    pub fn batch_end(&self) -> (r: usize)
        requires
            self.wf(),
        ensures
            r == (if self@.ready.len() - self@.done > ENQUEUE_BATCH_SIZE {
                self@.done + ENQUEUE_BATCH_SIZE
            } else {
                self@.ready.len() as int
            }),
            r == self@.ready.len() || r == self@.done + 200,
            self@.done < self@.ready.len() ==> self@.done < r <= self@.done + 200,
    {
        if self.ready.len() - self.done > ENQUEUE_BATCH_SIZE {
            self.done + ENQUEUE_BATCH_SIZE
        } else {
            self.ready.len()
        }
    }

    /// Where the next batch starts.
    pub fn batch_start(&self) -> (r: usize)
        requires
            self.wf(),
        ensures
            r == self@.done,
    {
        self.done
    }

    /// One of the files that are to be converted.
    pub fn ready_at(&self, i: usize) -> (r: &QueueCandidate)
        requires
            i < self@.ready.len(),
        ensures
            r@ == self@.ready[i as int],
    {
        &self.ready[i]
    }

    /// Takes that the batch up to `end` was queued, with so many new jobs; a job
    /// was there already for the rest.
    pub fn batch_queued(&mut self, end: usize, jobs: usize)
        requires
            old(self).wf(),
            old(self)@.done <= end <= old(self)@.ready.len(),
            jobs <= end - old(self)@.done,
            old(self)@.summary.skipped + (end - old(self)@.done) <= usize::MAX,
        ensures
            final(self).wf(),
            final(self)@ == scan_step(
                old(self)@,
                ScanEvent::Queued { end: end as int, jobs: jobs as int },
            ),
    {
        let size = end - self.done;
        self.summary.queued = self.summary.queued + jobs;
        self.summary.skipped = self.summary.skipped + (size - jobs);
        self.done = end;
    }

    /// The report that is due at a point in time, in milliseconds, if one is.
    pub fn progress(&mut self, stage: ScanStage, force: bool, now: u64) -> (r: Option<ScanReport>)
        requires
            old(self).wf(),
        ensures
            final(self).wf(),
            match r {
                Some(p) => {
                    &&& reported(old(self)@, stage, force, now, p)
                    &&& final(self)@ == (ScanView { last_progress: now, ..old(self)@ })
                },
                None => !due(old(self)@, stage, force, now) && final(self)@ == old(self)@,
            },
    {
        let (current, total, ready): (usize, usize, usize) = match stage {
            ScanStage::Discovering => (self.summary.seen, 0, 0),
            ScanStage::Filtering => (self.filtered, self.found.len(), self.ready.len()),
            ScanStage::Enqueuing => (self.done, self.ready.len(), self.ready.len()),
            ScanStage::Enqueued => (self.ready.len(), self.ready.len(), self.ready.len()),
        };
        let tick = current > 0 && current % SCAN_PROGRESS_CANDIDATES == 0;
        let waited = now >= self.last_progress && now - self.last_progress
            >= SCAN_PROGRESS_INTERVAL;
        if !force && !tick && !waited {
            return None;
        }
        let mut out: Vec<char> = Vec::new();
        match stage {
            ScanStage::Discovering => {
                push_count(&mut out, "scan discover progress: seen ", current);
            },
            ScanStage::Filtering => {
                push_count(&mut out, "scan filter progress: ", current);
                push_count(&mut out, "/", total);
                push_count(&mut out, ", ready ", ready);
            },
            _ => {
                push_count(&mut out, "scan enqueue progress: ", current);
                push_count(&mut out, "/", total);
                push_count(&mut out, ", ready ", ready);
            },
        }
        push_count(&mut out, ", queued ", self.summary.queued);
        push_count(&mut out, ", skipped ", self.summary.skipped);
        push_count(&mut out, ", failed ", self.summary.failed);
        assert(out@ =~= stage_message(self@, stage));
        self.last_progress = now;
        Some(
            ScanReport {
                stage: stage.name(),
                current,
                total,
                ready,
                summary: self.summary,
                message: to_text(out.as_slice()),
            },
        )
    }

    pub fn summary(&self) -> (r: ScanSummary)
        ensures
            r == self@.summary,
    {
        self.summary
    }
}

// ---------------------------------------------------------------------------
// Laws
// ---------------------------------------------------------------------------
/// Whether the thing can happen, within the limits of the counters.
pub open spec fn can_happen(s: ScanView, e: ScanEvent) -> bool {
    let room = s.summary.seen < usize::MAX && s.summary.skipped < usize::MAX && s.summary.failed
        < usize::MAX;
    match e {
        ScanEvent::Found(c) => room,
        ScanEvent::WalkFailed => room,
        ScanEvent::HandedOut => s.next < s.found.len(),
        ScanEvent::Ready(q) => s.filtered < s.next,
        ScanEvent::Skipped => room && s.filtered < s.next,
        ScanEvent::Failed => room && s.filtered < s.next,
        ScanEvent::Queued { end, jobs } => s.done <= end <= s.ready.len() && 0 <= jobs <= end
            - s.done && s.summary.skipped + (end - s.done) <= usize::MAX && s.summary.queued
            + jobs <= usize::MAX,
    }
}

/// How many files and failures the walk gave.
pub open spec fn walked_upto(v: Seq<ScanEvent>, n: int) -> int
    decreases n,
{
    if n <= 0 {
        0
    } else {
        walked_upto(v, n - 1) + match v[n - 1] {
            ScanEvent::Found(_) => 1int,
            ScanEvent::WalkFailed => 1int,
            _ => 0int,
        }
    }
}

/// The state after the first `n` things.
pub open spec fn scan_upto(s: ScanView, v: Seq<ScanEvent>, n: int) -> ScanView
    decreases n,
{
    if n <= 0 {
        s
    } else {
        scan_step(scan_upto(s, v, n - 1), v[n - 1])
    }
}

/// Every file and failure that the walk gave is accounted for once: it was
/// queued, skipped or failed, or it is still to be judged or queued.
pub open spec fn accounted(s: ScanView) -> int {
    s.summary.queued + s.summary.skipped + s.summary.failed + (s.found.len() - s.filtered) + (
    s.ready.len() - s.done)
}

proof fn lemma_accounted(s: ScanView, v: Seq<ScanEvent>, n: int)
    requires
        0 <= n <= v.len(),
        accounted(s) == 0,
        forall|i: int| 0 <= i < n ==> can_happen(scan_upto(s, v, i), #[trigger] v[i]),
    ensures
        accounted(scan_upto(s, v, n)) == walked_upto(v, n),
    decreases n,
{
    if n > 0 {
        lemma_accounted(s, v, n - 1);
        assert(can_happen(scan_upto(s, v, n - 1), v[n - 1]));
    }
}

/// In a scan that ran to its end, every file and failure that the walk gave was
/// counted once as queued, skipped or failed.
pub proof fn law_every_file_counted(s: ScanView, v: Seq<ScanEvent>)
    requires
        s.summary == empty_summary(),
        s.found.len() == 0 && s.ready.len() == 0 && s.filtered == 0 && s.done == 0,
        forall|i: int| 0 <= i < v.len() ==> can_happen(scan_upto(s, v, i), #[trigger] v[i]),
        ({
            let end = scan_upto(s, v, v.len() as int);
            end.filtered == end.found.len() && end.done == end.ready.len()
        }),
    ensures
        ({
            let end = scan_upto(s, v, v.len() as int).summary;
            end.queued + end.skipped + end.failed == walked_upto(v, v.len() as int)
        }),
{
    lemma_accounted(s, v, v.len() as int);
}

/// A file that is found is looked at once, in its turn, however many roots it lies
/// under; found again it is skipped.
pub proof fn law_found_files_kept(s: ScanView, c: CandidateView)
    requires
        s.summary.seen < usize::MAX,
        s.summary.skipped < usize::MAX,
    ensures
        ({
            let to = scan_step(s, ScanEvent::Found(c));
            let before = exists|i: int| 0 <= i < s.found.len() && (#[trigger] s.found[i]).path
                == c.path;
            &&& !before ==> to.found == s.found.push(c) && to.summary.seen == s.summary.seen + 1
                && to.summary.skipped == s.summary.skipped
            &&& before ==> to.found == s.found && to.summary.seen == s.summary.seen
                && to.summary.skipped == s.summary.skipped + 1
            &&& scan_step(to, ScanEvent::Found(c)).found == to.found
        }),
{
    let to = scan_step(s, ScanEvent::Found(c));
    if !has_found(s.found, c.path) {
        assert(to.found[to.found.len() - 1].path == c.path);
        assert(has_found(to.found, c.path));
    }
}

/// A file that is to be converted joins the queue at its end; one that is skipped
/// or fails is counted as such, and each counts as looked at.
pub proof fn law_judgements_counted(s: ScanView, q: QueuedView)
    requires
        s.summary.skipped < usize::MAX,
        s.summary.failed < usize::MAX,
    ensures
        ({
            let ready = scan_step(s, ScanEvent::Ready(q));
            let skipped = scan_step(s, ScanEvent::Skipped);
            let failed = scan_step(s, ScanEvent::Failed);
            &&& ready.ready == s.ready.push(q) && ready.summary == s.summary
            &&& skipped.ready == s.ready && skipped.summary.skipped == s.summary.skipped + 1
                && skipped.summary.failed == s.summary.failed
            &&& failed.ready == s.ready && failed.summary.failed == s.summary.failed + 1
                && failed.summary.skipped == s.summary.skipped
            &&& ready.filtered == s.filtered + 1 && skipped.filtered == s.filtered + 1
                && failed.filtered == s.filtered + 1
        }),
{
}

/// A batch that is queued counts its new jobs as queued and the files that had a
/// job already as skipped.
pub proof fn law_queued_counted(s: ScanView, end: int, jobs: int)
    requires
        0 <= jobs <= end - s.done,
        s.summary.queued + jobs <= usize::MAX,
        s.summary.skipped + (end - s.done) <= usize::MAX,
    ensures
        ({
            let to = scan_step(s, ScanEvent::Queued { end, jobs });
            &&& to.done == end
            &&& to.summary.queued == s.summary.queued + jobs
            &&& to.summary.skipped - s.summary.skipped + jobs == end - s.done
            &&& to.ready == s.ready
        }),
{
}

/// Progress is reported when it is asked for, at every 250th file, and when ten
/// seconds have passed since the last report; at no other time.
pub proof fn law_progress_reported(count: int, force: bool, last: u64, now: u64)
    requires
        0 <= count,
    ensures
        force ==> report_due(count, force, last, now),
        now - last >= 10 * 1000 ==> report_due(count, force, last, now),
        count > 0 && count % 250 == 0 ==> report_due(count, force, last, now),
        !force && now - last < 10 * 1000 && (count == 0 || count % 250 != 0) ==> !report_due(
            count,
            force,
            last,
            now,
        ),
{
}

/// A scan is said to have failed where it came to no summary, and to have been
/// cancelled or completed as its summary says.
pub proof fn law_scan_end_told(s: ScanSummary)
    ensures
        final_stage(None) == "failed"@,
        s.cancelled ==> final_stage(Some(s)) == "cancelled"@,
        !s.cancelled ==> final_stage(Some(s)) == "completed"@,
        "cancelled"@ != "completed"@,
{
    reveal_strlit("cancelled");
    reveal_strlit("completed");
    assert("cancelled"@[1] != "completed"@[1]);
}

/// What is told of each stage: while files are looked for, how many were seen;
/// while they are judged, how many of those found; while they are queued, how many
/// of those ready.
pub proof fn law_stages_counted(s: ScanView)
    ensures
        stage_counts(s, ScanStage::Discovering).0 == s.summary.seen,
        stage_counts(s, ScanStage::Filtering) == (
            s.filtered,
            s.found.len() as int,
            s.ready.len() as int,
        ),
        stage_counts(s, ScanStage::Enqueuing) == (s.done, s.ready.len() as int, s.ready.len() as int),
        stage_counts(s, ScanStage::Enqueued).0 == stage_counts(s, ScanStage::Enqueued).1,
        stage_counts(s, ScanStage::Enqueued).1 == s.ready.len(),
{
}

/// The stages by their names, and what is told of them.
pub proof fn law_stages_named(s: ScanView)
    ensures
        ScanStage::Discovering.text() == "discovering"@,
        ScanStage::Filtering.text() == "filtering"@,
        ScanStage::Enqueuing.text() == "enqueuing"@,
        ScanStage::Enqueued.text() == "enqueuing"@,
        counts_text(s.summary) == ", queued "@ + decimal(s.summary.queued as nat) + ", skipped "@
            + decimal(s.summary.skipped as nat) + ", failed "@ + decimal(s.summary.failed as nat),
        stage_message(s, ScanStage::Discovering) == "scan discover progress: seen "@ + decimal(
            s.summary.seen as nat,
        ) + counts_text(s.summary),
        stage_message(s, ScanStage::Filtering) == "scan filter progress: "@ + decimal(
            s.filtered as nat,
        ) + "/"@ + decimal(s.found.len()) + ", ready "@ + decimal(s.ready.len()) + counts_text(
            s.summary,
        ),
        stage_message(s, ScanStage::Enqueuing) == "scan enqueue progress: "@ + decimal(
            s.done as nat,
        ) + "/"@ + decimal(s.ready.len()) + ", ready "@ + decimal(s.ready.len()) + counts_text(
            s.summary,
        ),
{
}

} // verus!
