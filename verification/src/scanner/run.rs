//! The course of a scan: what is done next, and what follows from how it went.
use vstd::prelude::*;

use super::filter::{shown_path, CandidateView, QueueCandidate, SubtitleCandidate};
use super::scan::{
    due, empty_summary, reported, scan_step, sound, Judgement, Scan, ScanEvent, ScanReport, ScanStage, ScanSummary,
    ScanView, ENQUEUE_BATCH_SIZE,
};
use crate::fs_walk::DiscoveredFile;

verus! {

/// Where a scan stands.
#[derive(Clone, Copy, Debug, PartialEq, Eq, Structural)]
pub enum ScanPhase {
    /// Between two roots.
    Roots,
    /// A root is being walked.
    Walking,
    /// A root was walked to its end.
    Walked,
    /// The files are looked at.
    Filtering,
    /// The files that are to be converted are queued.
    Enqueuing,
    /// Nothing more is queued.
    Finishing,
    Ended,
}

/// What is to be done next.
#[derive(Debug)]
pub enum ScanAction {
    /// Wait until the scan may go on, and say so with `turn`.
    AskTurn,
    /// Begin to walk a root.
    Walk(usize),
    /// Take the next event of the walk, if one comes in time: a file goes to
    /// `discovered`, a failure to `walk_failed`, the end to `walked`.
    Receive,
    /// Load what is known of the files.
    Load,
    /// Begin to look at a file.
    Judge(SubtitleCandidate),
    /// Wait for one of the looks to end, and hand it to `judged`.
    Collect,
    /// Queue the files from `start` to `end`, and say how many jobs came of it
    /// with `queued`.
    Queue { start: usize, end: usize },
    /// Report the progress.
    Report(ScanStage),
    Done,
}

pub enum ActionView {
    AskTurn,
    Walk(int),
    Receive,
    Load,
    Judge(CandidateView),
    Collect,
    Queue { start: int, end: int },
    Report(ScanStage),
    Done,
}

impl View for ScanAction {
    type V = ActionView;

    open spec fn view(&self) -> ActionView {
        match *self {
            ScanAction::AskTurn => ActionView::AskTurn,
            ScanAction::Walk(i) => ActionView::Walk(i as int),
            ScanAction::Receive => ActionView::Receive,
            ScanAction::Load => ActionView::Load,
            ScanAction::Judge(c) => ActionView::Judge(c@),
            ScanAction::Collect => ActionView::Collect,
            ScanAction::Queue { start, end } => ActionView::Queue {
                start: start as int,
                end: end as int,
            },
            ScanAction::Report(stage) => ActionView::Report(stage),
            ScanAction::Done => ActionView::Done,
        }
    }
}

/// A scan and where it stands.
pub struct ScanRun {
    scan: Scan,
    phase: ScanPhase,
    roots: usize,
    root: usize,
    turn: bool,
    width: usize,
}

#[verifier::ext_equal]
pub struct RunView {
    pub scan: ScanView,
    pub phase: ScanPhase,
    /// How many roots there are.
    pub roots: int,
    /// The root that is walked next or now.
    pub root: int,
    /// Whether the scan was told to go on.
    pub turn: bool,
    /// How many files may be looked at at once.
    pub width: int,
}

impl View for ScanRun {
    type V = RunView;

    closed spec fn view(&self) -> RunView {
        RunView {
            scan: self.scan@,
            phase: self.phase,
            roots: self.roots as int,
            root: self.root as int,
            turn: self.turn,
            width: self.width as int,
        }
    }
}

/// The files were found and nothing else was done yet.
pub open spec fn only_found(s: ScanView) -> bool {
    s.next == 0 && s.filtered == 0 && s.ready.len() == 0 && s.done == 0
}

/// What holds of a scan at every point: the stages follow one another, and no
/// more files are looked at at once than may be.
pub open spec fn run_sound(s: RunView) -> bool {
    let going = !s.scan.summary.cancelled;
    &&& sound(s.scan)
    &&& 0 < s.width
    &&& s.scan.next - s.scan.filtered <= s.width
    &&& 0 <= s.root <= s.roots
    &&& s.scan.summary.cancelled ==> s.phase == ScanPhase::Finishing || s.phase == ScanPhase::Ended
    &&& match s.phase {
        ScanPhase::Roots => only_found(s.scan),
        ScanPhase::Walking => only_found(s.scan) && s.root < s.roots,
        ScanPhase::Walked => only_found(s.scan) && s.root < s.roots,
        ScanPhase::Filtering => s.root == s.roots && s.scan.done == 0,
        ScanPhase::Enqueuing => s.root == s.roots && s.scan.filtered == s.scan.found.len(),
        ScanPhase::Finishing => !going,
        ScanPhase::Ended => going ==> s.root == s.roots && s.scan.filtered == s.scan.found.len()
            && s.scan.done == s.scan.ready.len(),
    }
}

/// The end of the next batch.
pub open spec fn batch_until(s: ScanView) -> int {
    if s.ready.len() - s.done > ENQUEUE_BATCH_SIZE {
        s.done + ENQUEUE_BATCH_SIZE
    } else {
        s.ready.len() as int
    }
}

/// What is done next, and the state once it is begun.
pub open spec fn run_next(s: RunView) -> (ActionView, RunView) {
    let taken = RunView { turn: false, ..s };
    match s.phase {
        ScanPhase::Roots => if s.root == s.roots {
            (ActionView::Load, RunView { phase: ScanPhase::Filtering, ..taken })
        } else if !s.turn {
            (ActionView::AskTurn, s)
        } else {
            (ActionView::Walk(s.root), RunView { phase: ScanPhase::Walking, ..taken })
        },
        ScanPhase::Walking => if !s.turn {
            (ActionView::AskTurn, s)
        } else {
            (ActionView::Receive, taken)
        },
        ScanPhase::Walked => (
            ActionView::Report(ScanStage::Discovering),
            RunView { phase: ScanPhase::Roots, root: s.root + 1, ..taken },
        ),
        ScanPhase::Filtering => if s.scan.next < s.scan.found.len() {
            if !s.turn {
                (ActionView::AskTurn, s)
            } else if s.scan.next - s.scan.filtered >= s.width {
                (ActionView::Collect, s)
            } else {
                (
                    ActionView::Judge(s.scan.found[s.scan.next]),
                    RunView { scan: scan_step(s.scan, ScanEvent::HandedOut), ..taken },
                )
            }
        } else if s.scan.filtered < s.scan.next {
            if !s.turn {
                (ActionView::AskTurn, s)
            } else {
                (ActionView::Collect, taken)
            }
        } else {
            (
                ActionView::Report(ScanStage::Filtering),
                RunView { phase: ScanPhase::Enqueuing, ..taken },
            )
        },
        ScanPhase::Enqueuing => if s.scan.done < s.scan.ready.len() {
            if !s.turn {
                (ActionView::AskTurn, s)
            } else {
                (ActionView::Queue { start: s.scan.done, end: batch_until(s.scan) }, taken)
            }
        } else {
            (
                ActionView::Report(ScanStage::Enqueued),
                RunView { phase: ScanPhase::Ended, ..taken },
            )
        },
        ScanPhase::Finishing => (
            ActionView::Report(ScanStage::Enqueued),
            RunView { phase: ScanPhase::Ended, ..taken },
        ),
        ScanPhase::Ended => (ActionView::Done, s),
    }
}

/// The state once the scan is told to go on, or to stop. A scan that is stopped
/// while files are queued still reports its end.
pub open spec fn run_turn(s: RunView, go: bool) -> RunView {
    if s.phase == ScanPhase::Ended || s.phase == ScanPhase::Finishing {
        s
    } else if go {
        RunView { turn: true, ..s }
    } else {
        RunView {
            scan: ScanView {
                summary: ScanSummary { cancelled: true, ..s.scan.summary },
                ..s.scan
            },
            phase: if s.phase == ScanPhase::Enqueuing {
                ScanPhase::Finishing
            } else {
                ScanPhase::Ended
            },
            ..s
        }
    }
}

impl ScanRun {
    pub closed spec fn wf(&self) -> bool {
        self.scan.wf() && run_sound(self@)
    }

    /// What the state tells of itself.
    pub proof fn lemma_sound(&self)
        requires
            self.wf(),
        ensures
            run_sound(self@),
    {
    }

    pub fn start(roots: usize, width: usize, now: u64) -> (r: ScanRun)
        requires
            width > 0,
        ensures
            r.wf(),
            r@ == (RunView {
                scan: ScanView {
                    summary: empty_summary(),
                    found: seq![],
                    next: 0,
                    filtered: 0,
                    ready: seq![],
                    done: 0,
                    last_progress: now,
                },
                phase: ScanPhase::Roots,
                roots: roots as int,
                root: 0,
                turn: false,
                width: width as int,
            }),
    {
        let scan = Scan::start(now);
        proof {
            scan.lemma_sound();
        }
        ScanRun { scan, phase: ScanPhase::Roots, roots, root: 0, turn: false, width }
    }

    /// What is to be done next.
    pub fn next(&mut self) -> (r: ScanAction)
        requires
            old(self).wf(),
        ensures
            final(self).wf(),
            (r@, final(self)@) == run_next(old(self)@),
    {
        proof {
            self.scan.lemma_sound();
        }
        match self.phase {
            ScanPhase::Roots => {
                if self.root == self.roots {
                    self.turn = false;
                    self.phase = ScanPhase::Filtering;
                    ScanAction::Load
                } else if !self.turn {
                    ScanAction::AskTurn
                } else {
                    self.turn = false;
                    self.phase = ScanPhase::Walking;
                    ScanAction::Walk(self.root)
                }
            },
            ScanPhase::Walking => {
                if !self.turn {
                    ScanAction::AskTurn
                } else {
                    self.turn = false;
                    ScanAction::Receive
                }
            },
            ScanPhase::Walked => {
                self.turn = false;
                self.root = self.root + 1;
                self.phase = ScanPhase::Roots;
                ScanAction::Report(ScanStage::Discovering)
            },
            ScanPhase::Filtering => self.next_filter(),
            ScanPhase::Enqueuing => {
                let start = self.scan.batch_start();
                let end = self.scan.batch_end();
                if start < end {
                    if !self.turn {
                        ScanAction::AskTurn
                    } else {
                        self.turn = false;
                        ScanAction::Queue { start, end }
                    }
                } else {
                    self.turn = false;
                    self.phase = ScanPhase::Ended;
                    ScanAction::Report(ScanStage::Enqueued)
                }
            },
            ScanPhase::Finishing => {
                self.turn = false;
                self.phase = ScanPhase::Ended;
                ScanAction::Report(ScanStage::Enqueued)
            },
            ScanPhase::Ended => ScanAction::Done,
        }
    }

    fn next_filter(&mut self) -> (r: ScanAction)
        requires
            old(self).wf(),
            old(self)@.phase == ScanPhase::Filtering,
        ensures
            final(self).wf(),
            (r@, final(self)@) == run_next(old(self)@),
    {
        proof {
            self.scan.lemma_sound();
        }
        let busy = self.scan.being_judged();
        if self.scan.has_next() {
            if !self.turn {
                return ScanAction::AskTurn;
            }
            if busy >= self.width {
                return ScanAction::Collect;
            }
            match self.scan.next_candidate() {
                Some(c) => {
                    self.turn = false;
                    proof {
                        self.scan.lemma_sound();
                    }
                    ScanAction::Judge(c)
                },
                None => ScanAction::Collect,
            }
        } else if busy > 0 {
            if !self.turn {
                return ScanAction::AskTurn;
            }
            self.turn = false;
            ScanAction::Collect
        } else {
            self.turn = false;
            self.phase = ScanPhase::Enqueuing;
            ScanAction::Report(ScanStage::Filtering)
        }
    }

    /// Takes that the scan may go on, or is to stop.
    pub fn turn(&mut self, go: bool)
        requires
            old(self).wf(),
        ensures
            final(self).wf(),
            final(self)@ == run_turn(old(self)@, go),
    {
        proof {
            self.scan.lemma_sound();
        }
        match self.phase {
            ScanPhase::Ended => {},
            ScanPhase::Finishing => {},
            _ => {
                if go {
                    self.turn = true;
                } else {
                    self.scan.cancel();
                    if self.phase == ScanPhase::Enqueuing {
                        self.phase = ScanPhase::Finishing;
                    } else {
                        self.phase = ScanPhase::Ended;
                    }
                    proof {
                        self.scan.lemma_sound();
                    }
                }
            },
        }
    }

    /// Takes a file that the walk found. A file that was found before is
    /// skipped.
    pub fn discovered(&mut self, root: &str, label: &str, file: DiscoveredFile) -> (r: bool)
        requires
            old(self).wf(),
            old(self)@.phase == ScanPhase::Walking,
            old(self)@.scan.summary.skipped < usize::MAX,
        ensures
            final(self).wf(),
            final(self)@ == (RunView {
                scan: scan_step(
                    old(self)@.scan,
                    ScanEvent::Found(
                        CandidateView {
                            path: file.path@,
                            root_label: label@,
                            relative_path: shown_path(file.path@, root@),
                            size: file.size,
                            mtime: file.mtime,
                        },
                    ),
                ),
                ..old(self)@
            }),
            r == (final(self)@.scan.found.len() > old(self)@.scan.found.len()),
    {
        let r = self.scan.discovered(root, label, file);
        proof {
            self.scan.lemma_sound();
        }
        r
    }

    /// Counts something that the walk could not read.
    pub fn walk_failed(&mut self)
        requires
            old(self).wf(),
            old(self)@.phase == ScanPhase::Walking,
            old(self)@.scan.summary.failed < usize::MAX,
        ensures
            final(self).wf(),
            final(self)@ == (RunView {
                scan: scan_step(old(self)@.scan, ScanEvent::WalkFailed),
                ..old(self)@
            }),
    {
        self.scan.walk_failed();
        proof {
            self.scan.lemma_sound();
        }
    }

    /// Takes that the walk of a root came to its end, or was cut short.
    pub fn walked(&mut self, cut_short: bool)
        requires
            old(self).wf(),
            old(self)@.phase == ScanPhase::Walking,
        ensures
            final(self).wf(),
            final(self)@ == (if cut_short {
                run_turn(old(self)@, false)
            } else {
                RunView { phase: ScanPhase::Walked, ..old(self)@ }
            }),
    {
        if cut_short {
            self.turn(false);
        } else {
            self.phase = ScanPhase::Walked;
        }
    }

    /// Takes what came of the look at one file.
    pub fn judged(&mut self, what: Judgement)
        requires
            old(self).wf(),
            old(self)@.phase == ScanPhase::Filtering,
            old(self)@.scan.filtered < old(self)@.scan.next,
            what is Skip ==> old(self)@.scan.summary.skipped < usize::MAX,
            what is Failed ==> old(self)@.scan.summary.failed < usize::MAX,
        ensures
            final(self).wf(),
            final(self)@ == (RunView {
                scan: scan_step(old(self)@.scan, what.event()),
                ..old(self)@
            }),
    {
        self.scan.judged(what);
        proof {
            self.scan.lemma_sound();
        }
    }

    /// One of the files that are to be converted.
    pub fn ready_at(&self, i: usize) -> (r: &QueueCandidate)
        requires
            i < self@.scan.ready.len(),
        ensures
            r@ == self@.scan.ready[i as int],
    {
        self.scan.ready_at(i)
    }

    /// Takes that the batch up to `end` was queued, with so many new jobs.
    pub fn queued(&mut self, end: usize, jobs: usize)
        requires
            old(self).wf(),
            old(self)@.phase == ScanPhase::Enqueuing,
            old(self)@.scan.done <= end <= old(self)@.scan.ready.len(),
            jobs <= end - old(self)@.scan.done,
            old(self)@.scan.summary.skipped + (end - old(self)@.scan.done) <= usize::MAX,
        ensures
            final(self).wf(),
            final(self)@ == (RunView {
                scan: scan_step(
                    old(self)@.scan,
                    ScanEvent::Queued { end: end as int, jobs: jobs as int },
                ),
                ..old(self)@
            }),
    {
        self.scan.batch_queued(end, jobs);
        proof {
            self.scan.lemma_sound();
        }
    }

    /// The report that is due at a point in time, in milliseconds, if one is.
    pub fn progress(&mut self, stage: ScanStage, force: bool, now: u64) -> (r: Option<ScanReport>)
        requires
            old(self).wf(),
        ensures
            final(self).wf(),
            ({
                let s = old(self)@.scan;
                match r {
                    Some(p) => {
                        &&& reported(s, stage, force, now, p)
                        &&& final(self)@ == (RunView {
                            scan: ScanView { last_progress: now, ..s },
                            ..old(self)@
                        })
                    },
                    None => {
                        &&& !due(s, stage, force, now)
                        &&& final(self)@ == old(self)@
                    },
                }
            }),
    {
        let r = self.scan.progress(stage, force, now);
        proof {
            self.scan.lemma_sound();
        }
        r
    }

    pub fn summary(&self) -> (r: ScanSummary)
        ensures
            r == self@.scan.summary,
    {
        self.scan.summary()
    }
}

// ---------------------------------------------------------------------------
// Laws
// ---------------------------------------------------------------------------
/// A scan that ended without being cancelled walked every root, judged every
/// file that it found, and queued every file that was ready.
pub proof fn law_scan_complete(s: RunView)
    requires
        run_sound(s),
        s.phase == ScanPhase::Ended,
        !s.scan.summary.cancelled,
    ensures
        s.root == s.roots,
        s.scan.filtered == s.scan.found.len(),
        s.scan.done == s.scan.ready.len(),
{
}

/// A scan that is told to stop begins nothing more: all that can follow is its
/// last report.
pub proof fn law_stop_ends_scan(s: RunView)
    requires
        run_sound(s),
    ensures
        ({
            let t = run_turn(s, false);
            let (a, u) = run_next(t);
            &&& a == ActionView::Done || a == ActionView::Report(ScanStage::Enqueued)
            &&& run_next(u).0 == ActionView::Done
        }),
{
}

/// No more files are looked at at once than may be.
pub proof fn law_looks_bounded(s: RunView)
    requires
        run_sound(s),
    ensures
        run_sound(run_next(s).1),
        run_next(s).1.scan.next - run_next(s).1.scan.filtered <= s.width,
{
}

/// Nothing is walked, looked at or queued unless the scan was told to go on since
/// the last time.
pub proof fn law_every_step_asks(s: RunView)
    ensures
        ({
            let (a, t) = run_next(s);
            &&& a is Walk || a is Receive || a is Judge || a is Queue ==> s.turn && !t.turn
            &&& a is AskTurn ==> !s.turn && t == s
        }),
{
}

/// A scan that may go on walks its roots in their order, looks at the files in the
/// order in which they were found, as many at once as it may, and queues those that
/// are ready in their order, at most 200 at a time.
pub proof fn law_scan_goes_on(s: RunView)
    requires
        run_sound(s),
        s.turn,
    ensures
        ({
            let (a, t) = run_next(s);
            &&& s.phase == ScanPhase::Roots && s.root < s.roots ==> a == ActionView::Walk(s.root)
                && t.phase == ScanPhase::Walking
            &&& s.phase == ScanPhase::Roots && s.root == s.roots ==> a is Load && t.phase
                == ScanPhase::Filtering
            &&& s.phase == ScanPhase::Walking ==> a is Receive
            &&& s.phase == ScanPhase::Walked ==> t.phase == ScanPhase::Roots && t.root == s.root + 1
            &&& s.phase == ScanPhase::Filtering && s.scan.next < s.scan.found.len() && s.scan.next
                - s.scan.filtered < s.width ==> a == ActionView::Judge(s.scan.found[s.scan.next])
                && t.scan.next == s.scan.next + 1
            &&& s.phase == ScanPhase::Filtering && s.scan.filtered == s.scan.found.len()
                ==> t.phase == ScanPhase::Enqueuing
            &&& s.phase == ScanPhase::Enqueuing && s.scan.done < s.scan.ready.len() ==> {
                &&& a matches ActionView::Queue { start, end }
                &&& start == s.scan.done
                &&& start < end <= s.scan.ready.len()
                &&& end == s.scan.ready.len() || end == start + 200
            }
            &&& s.phase == ScanPhase::Enqueuing && s.scan.done == s.scan.ready.len() ==> t.phase
                == ScanPhase::Ended
        }),
{
}

/// A scan that is told to stop says that it was cancelled, and keeps what it has
/// counted.
pub proof fn law_stop_is_cancelling(s: RunView)
    requires
        run_sound(s),
        s.phase != ScanPhase::Ended,
    ensures
        run_turn(s, false).scan.summary.cancelled,
        run_turn(s, false).scan.summary.queued == s.scan.summary.queued,
        run_turn(s, false).scan.summary.skipped == s.scan.summary.skipped,
        run_turn(s, false).scan.summary.failed == s.scan.summary.failed,
        !s.scan.summary.cancelled ==> !run_turn(s, true).scan.summary.cancelled,
{
}

} // verus!
