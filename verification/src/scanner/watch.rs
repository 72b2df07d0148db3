//! Which directories are watched, and when they are scanned.
use vstd::prelude::*;

use crate::path::{paths_equal, same_path};
use crate::text::{texts, trim, trim_text};

verus! {

/// A directory that is watched; one of the configuration cannot be removed.
#[derive(Debug)]
pub struct WatchDirEntry {
    pub path: String,
    pub removable: bool,
}

impl View for WatchDirEntry {
    type V = (Seq<char>, bool);

    open spec fn view(&self) -> (Seq<char>, bool) {
        (self.path@, self.removable)
    }
}

pub open spec fn entries_view(v: Seq<WatchDirEntry>) -> Seq<(Seq<char>, bool)> {
    Seq::new(v.len(), |i: int| v[i]@)
}

/// Whether one of the entries is the directory.
pub open spec fn has_entry(v: Seq<(Seq<char>, bool)>, p: Seq<char>) -> bool {
    exists|i: int| 0 <= i < v.len() && same_path((#[trigger] v[i]).0, p)
}

/// The directories of the configuration, and those among the first `n` stored
/// ones that are not among them yet.
pub open spec fn entries_upto(configured: Seq<Seq<char>>, stored: Seq<Seq<char>>, n: int) -> Seq<
    (Seq<char>, bool),
>
    decreases n,
{
    if n <= 0 {
        Seq::new(configured.len(), |i: int| (configured[i], false))
    } else {
        let before = entries_upto(configured, stored, n - 1);
        if has_entry(before, stored[n - 1]) {
            before
        } else {
            before.push((stored[n - 1], true))
        }
    }
}

fn contains_entry(v: &Vec<WatchDirEntry>, p: &str) -> (r: bool)
    ensures
        r == has_entry(entries_view(v@), p@),
{
    let mut i: usize = 0;
    while i < v.len()
        invariant
            i <= v@.len(),
            forall|j: int| 0 <= j < i ==> !same_path((#[trigger] entries_view(v@)[j]).0, p@),
        decreases v@.len() - i,
    {
        if paths_equal(v[i].path.as_str(), p) {
            assert(same_path(entries_view(v@)[i as int].0, p@));
            return true;
        }
        i = i + 1;
    }
    false
}

/// All directories that are watched: those of the configuration first.
pub fn watch_dir_entries(configured: &Vec<String>, stored: &Vec<String>) -> (r: Vec<WatchDirEntry>)
    ensures
        entries_view(r@) == entries_upto(texts(configured@), texts(stored@), stored@.len() as int),
{
    let ghost cv = texts(configured@);
    let ghost sv = texts(stored@);
    let mut out: Vec<WatchDirEntry> = Vec::new();
    let mut i: usize = 0;
    while i < configured.len()
        invariant
            i <= configured@.len(),
            cv == texts(configured@),
            out@.len() == i,
            forall|j: int| 0 <= j < i ==> (#[trigger] out@[j])@ == (cv[j], false),
        decreases configured@.len() - i,
    {
        out.push(WatchDirEntry { path: configured[i].clone(), removable: false });
        i = i + 1;
    }
    assert(entries_view(out@) =~= entries_upto(cv, sv, 0));
    let mut k: usize = 0;
    while k < stored.len()
        invariant
            k <= stored@.len(),
            sv == texts(stored@),
            entries_view(out@) == entries_upto(cv, sv, k as int),
        decreases stored@.len() - k,
    {
        assert(sv[k as int] == stored@[k as int]@);
        if !contains_entry(&out, stored[k].as_str()) {
            let ghost had = entries_view(out@);
            out.push(WatchDirEntry { path: stored[k].clone(), removable: true });
            assert(entries_view(out@) =~= had.push((sv[k as int], true)));
        }
        k = k + 1;
    }
    out
}

/// The paths of the directories.
pub open spec fn entry_paths(v: Seq<(Seq<char>, bool)>) -> Seq<Seq<char>> {
    Seq::new(v.len(), |i: int| v[i].0)
}

pub fn effective_watch_dirs(configured: &Vec<String>, stored: &Vec<String>) -> (r: Vec<String>)
    ensures
        texts(r@) == entry_paths(
            entries_upto(texts(configured@), texts(stored@), stored@.len() as int),
        ),
{
    let entries = watch_dir_entries(configured, stored);
    let ghost v = entries_view(entries@);
    let mut out: Vec<String> = Vec::new();
    let mut i: usize = 0;
    while i < entries.len()
        invariant
            i <= entries@.len(),
            v == entries_view(entries@),
            out@.len() == i,
            forall|j: int| 0 <= j < i ==> (#[trigger] out@[j])@ == v[j].0,
        decreases entries@.len() - i,
    {
        out.push(entries[i].path.clone());
        i = i + 1;
    }
    assert(texts(out@) =~= entry_paths(v));
    out
}

/// The directory that a request names: the text without the space around it,
/// where something is left.
pub fn requested_dir(text: &str) -> (r: Option<String>)
    ensures
        match r {
            Some(t) => t@ == trim(text@) && t@.len() > 0,
            None => trim(text@).len() == 0,
        },
{
    let t = trim_text(text);
    if t.as_str().is_empty() {
        None
    } else {
        Some(t)
    }
}

// ---------------------------------------------------------------------------
// The schedule
// ---------------------------------------------------------------------------
/// What the scheduler does next.
#[derive(Clone, Copy, Debug, PartialEq, Eq, Structural)]
pub enum ScheduleStep {
    /// Say that no scan is planned, and wait for a change.
    AnnounceDisabled,
    /// Wait for a change of the schedule.
    AwaitChange,
    /// Wait for so many seconds or for a change, whichever is first.
    Sleep(u64),
}

/// What ended a wait of the scheduler.
#[derive(Clone, Copy, Debug, PartialEq, Eq, Structural)]
pub enum Woken {
    Elapsed,
    Changed,
    Closed,
}

/// What follows a wait.
#[derive(Clone, Copy, Debug, PartialEq, Eq, Structural)]
pub enum AfterWait {
    Scan,
    LookAgain,
    Stop,
}

/// The scheduler: whether it has said that no scan is planned.
#[derive(Clone, Copy, Debug, PartialEq, Eq, Structural)]
pub struct Scheduler {
    pub announced_disabled: bool,
}

impl Scheduler {
    pub fn new() -> (r: Scheduler)
        ensures
            !r.announced_disabled,
    {
        Scheduler { announced_disabled: false }
    }

    /// What to do with the time between two scans, in seconds.
    pub fn next(&mut self, interval: u64) -> (r: ScheduleStep)
        ensures
            r == (if interval > 0 {
                ScheduleStep::Sleep(interval)
            } else if old(self).announced_disabled {
                ScheduleStep::AwaitChange
            } else {
                ScheduleStep::AnnounceDisabled
            }),
            final(self).announced_disabled == (interval == 0),
    {
        if interval > 0 {
            self.announced_disabled = false;
            return ScheduleStep::Sleep(interval);
        }
        if self.announced_disabled {
            return ScheduleStep::AwaitChange;
        }
        self.announced_disabled = true;
        ScheduleStep::AnnounceDisabled
    }

    /// What follows a wait: only a full wait for the time leads to a scan.
    pub fn woken(&self, step: ScheduleStep, by: Woken) -> (r: AfterWait)
        ensures
            r == (match by {
                Woken::Closed => AfterWait::Stop,
                Woken::Changed => AfterWait::LookAgain,
                Woken::Elapsed => if step is Sleep {
                    AfterWait::Scan
                } else {
                    AfterWait::LookAgain
                },
            }),
    {
        match by {
            Woken::Closed => AfterWait::Stop,
            Woken::Changed => AfterWait::LookAgain,
            Woken::Elapsed => match step {
                ScheduleStep::Sleep(_) => AfterWait::Scan,
                _ => AfterWait::LookAgain,
            },
        }
    }
}

// ---------------------------------------------------------------------------
// Laws
// ---------------------------------------------------------------------------
/// The directories of the configuration stand first, in their order, and cannot
/// be removed; all that follow can.
pub proof fn law_configured_first(configured: Seq<Seq<char>>, stored: Seq<Seq<char>>, n: int)
    requires
        0 <= n <= stored.len(),
    ensures
        ({
            let v = entries_upto(configured, stored, n);
            &&& configured.len() <= v.len() <= configured.len() + n
            &&& forall|i: int|
                0 <= i < configured.len() ==> #[trigger] v[i] == (configured[i], false)
            &&& forall|i: int| configured.len() <= i < v.len() ==> (#[trigger] v[i]).1
        }),
    decreases n,
{
    if n > 0 {
        law_configured_first(configured, stored, n - 1);
        let b = entries_upto(configured, stored, n - 1);
        let v = entries_upto(configured, stored, n);
        assert forall|i: int| configured.len() <= i < v.len() implies (#[trigger] v[i]).1 by {
            if i < b.len() {
                assert(v[i] == b[i]);
            }
        }
        assert forall|i: int| 0 <= i < configured.len() implies #[trigger] v[i] == (
            configured[i],
            false,
        ) by {
            assert(v[i] == b[i]);
        }
    }
}

/// No directory is watched twice, if none stands twice in the configuration.
pub proof fn law_watched_once(configured: Seq<Seq<char>>, stored: Seq<Seq<char>>, n: int)
    requires
        0 <= n <= stored.len(),
        forall|i: int, j: int|
            0 <= i < j < configured.len() ==> !same_path(
                #[trigger] configured[i],
                #[trigger] configured[j],
            ),
    ensures
        forall|i: int, j: int|
            0 <= i < j < entries_upto(configured, stored, n).len() ==> !same_path(
                (#[trigger] entries_upto(configured, stored, n)[i]).0,
                (#[trigger] entries_upto(configured, stored, n)[j]).0,
            ),
    decreases n,
{
    let v = entries_upto(configured, stored, n);
    if n > 0 {
        law_watched_once(configured, stored, n - 1);
        let b = entries_upto(configured, stored, n - 1);
        assert forall|i: int, j: int| 0 <= i < j < v.len() implies !same_path(
            (#[trigger] v[i]).0,
            (#[trigger] v[j]).0,
        ) by {
            assert(v[i] == b[i]);
            if j < b.len() {
                assert(v[j] == b[j]);
            } else {
                assert(!has_entry(b, stored[n - 1]));
            }
        }
    } else {
        assert forall|i: int, j: int| 0 <= i < j < v.len() implies !same_path(
            (#[trigger] v[i]).0,
            (#[trigger] v[j]).0,
        ) by {
            assert(v[i].0 == configured[i] && v[j].0 == configured[j]);
        }
    }
}

/// Every directory that was added is watched.
pub proof fn law_added_dirs_watched(
    configured: Seq<Seq<char>>,
    stored: Seq<Seq<char>>,
    n: int,
    i: int,
)
    requires
        0 <= i < n <= stored.len(),
    ensures
        has_entry(entries_upto(configured, stored, n), stored[i]),
    decreases n,
{
    let b = entries_upto(configured, stored, n - 1);
    let v = entries_upto(configured, stored, n);
    if i == n - 1 {
        if !has_entry(b, stored[i]) {
            assert(same_path(v[v.len() - 1].0, stored[i]));
        }
    } else {
        law_added_dirs_watched(configured, stored, n - 1, i);
        let k = choose|k: int| 0 <= k < b.len() && same_path((#[trigger] b[k]).0, stored[i]);
        assert(v[k] == b[k]);
    }
}

} // verus!
