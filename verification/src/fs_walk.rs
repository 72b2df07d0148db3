//! Walking a directory: which files are reported, and when the walk stops.
use vstd::prelude::*;

use crate::path::{extension, extension_of};
use crate::split::same_ignoring_case;
use crate::text::{lowered, to_chars};

verus! {

/// Whether a walk is paused or to be stopped. Everyone who asks has to see the
/// request of everyone else, so there is one control and it cannot be copied:
/// it is lent out, behind a lock where several threads ask.
#[derive(Debug, PartialEq, Eq, Structural)]
pub struct WalkControl {
    pub paused: bool,
    pub cancelled: bool,
}

/// What a walk does now.
#[derive(Clone, Copy, Debug, PartialEq, Eq, Structural)]
pub enum Turn {
    Stop,
    Go,
    Wait,
}

/// A request to stop comes before a pause.
pub open spec fn turn_of(c: WalkControl) -> Turn {
    if c.cancelled {
        Turn::Stop
    } else if c.paused {
        Turn::Wait
    } else {
        Turn::Go
    }
}

impl Default for WalkControl {
    fn default() -> (r: Self)
        ensures
            r == (WalkControl { paused: false, cancelled: false }),
    {
        WalkControl { paused: false, cancelled: false }
    }
}

impl WalkControl {
    pub fn new() -> (r: Self)
        ensures
            r == (WalkControl { paused: false, cancelled: false }),
    {
        WalkControl { paused: false, cancelled: false }
    }

    pub fn set_paused(&mut self, paused: bool)
        ensures
            *final(self) == (WalkControl { paused, ..*old(self) }),
    {
        self.paused = paused;
    }

    /// Asks the walk to stop; a paused walk goes on so that it can.
    pub fn cancel(&mut self)
        ensures
            *final(self) == (WalkControl { paused: false, cancelled: true }),
            turn_of(*final(self)) == Turn::Stop,
    {
        self.cancelled = true;
        self.paused = false;
    }

    pub fn clear_cancel(&mut self)
        ensures
            *final(self) == (WalkControl { cancelled: false, ..*old(self) }),
    {
        self.cancelled = false;
    }

    pub fn is_paused(&self) -> (r: bool)
        ensures
            r == self.paused,
    {
        self.paused
    }

    pub fn is_cancelled(&self) -> (r: bool)
        ensures
            r == self.cancelled,
    {
        self.cancelled
    }

    pub fn turn(&self) -> (r: Turn)
        ensures
            r == turn_of(*self),
    {
        if self.cancelled {
            Turn::Stop
        } else if self.paused {
            Turn::Wait
        } else {
            Turn::Go
        }
    }
}

/// What a walk looks for.
#[derive(Clone, Copy, Debug)]
pub struct WalkOptions {
    pub follow_links: bool,
    pub extensions: &'static [&'static str],
    pub ignored_directories: &'static [&'static str],
}

/// A file that was found: its size in bytes and its time in seconds.
#[derive(Debug)]
pub struct DiscoveredFile {
    pub path: String,
    pub size: i64,
    pub mtime: i64,
}

#[derive(Debug)]
pub enum WalkEvent {
    File(DiscoveredFile),
    Error { path: String, message: String },
}

/// How a walk ended.
#[derive(Clone, Copy, Debug, PartialEq, Eq, Structural)]
pub struct WalkResult {
    pub complete: bool,
    pub cancelled: bool,
}

impl Default for WalkResult {
    fn default() -> (r: Self)
        ensures
            r == (WalkResult { complete: false, cancelled: false }),
    {
        WalkResult { complete: false, cancelled: false }
    }
}

// ---------------------------------------------------------------------------
// Names
// ---------------------------------------------------------------------------
/// Whether the list has the text, up to the case of ASCII letters.
pub open spec fn listed(v: Seq<&str>, s: Seq<char>) -> bool {
    exists|i: int| 0 <= i < v.len() && lowered(#[trigger] v[i]@) == lowered(s)
}

fn is_listed(v: &[&str], s: &[char]) -> (r: bool)
    ensures
        r == listed(v@, s@),
{
    let mut i: usize = 0;
    while i < v.len()
        invariant
            i <= v@.len(),
            forall|j: int| 0 <= j < i ==> lowered(#[trigger] v@[j]@) != lowered(s@),
        decreases v@.len() - i,
    {
        let c = to_chars(v[i]);
        if same_ignoring_case(c.as_slice(), s) {
            assert(lowered(v@[i as int]@) == lowered(s@));
            return true;
        }
        i = i + 1;
    }
    false
}

/// Whether a walk goes into a directory: into its root always, and into no
/// directory with an ignored name. Files are never left out here.
pub open spec fn visits(depth: int, is_dir: bool, name: Seq<char>, ignored: Seq<&str>) -> bool {
    depth == 0 || !is_dir || !listed(ignored, name)
}

pub fn should_visit(depth: usize, is_dir: bool, name: &str, ignored: &[&str]) -> (r: bool)
    ensures
        r == visits(depth as int, is_dir, name@, ignored@),
{
    if depth == 0 || !is_dir {
        return true;
    }
    let c = to_chars(name);
    !is_listed(ignored, c.as_slice())
}

/// Whether the path has one of the extensions.
pub open spec fn with_extension(path: Seq<char>, extensions: Seq<&str>) -> bool {
    match extension(path) {
        Some(e) => listed(extensions, e),
        None => false,
    }
}

pub fn has_extension(path: &str, extensions: &[&str]) -> (r: bool)
    ensures
        r == with_extension(path@, extensions@),
{
    match extension_of(path) {
        Some(e) => is_listed(extensions, e.as_slice()),
        None => false,
    }
}

/// Whether an entry is reported: a regular file with one of the extensions.
pub fn is_wanted(is_file: bool, path: &str, extensions: &[&str]) -> (r: bool)
    ensures
        r == (is_file && with_extension(path@, extensions@)),
{
    is_file && has_extension(path, extensions)
}

// ---------------------------------------------------------------------------
// The walk
// ---------------------------------------------------------------------------
/// What the root of a walk is.
#[derive(Clone, Copy, Debug, PartialEq, Eq, Structural)]
pub enum RootKind {
    Directory,
    NotDirectory,
    Unreadable,
}

/// What was found next.
#[derive(Clone, Copy, Debug, PartialEq, Eq, Structural)]
pub enum Entry {
    /// Something that cannot be read.
    Unreadable,
    /// A file with a wanted extension, whose size and time are known or not.
    Wanted(bool),
    /// Anything else.
    Other,
}

/// What the walk does with it.
#[derive(Clone, Copy, Debug, PartialEq, Eq, Structural)]
pub enum Visit {
    /// The walk is over.
    End,
    /// An error is reported.
    ReportError,
    /// The file is reported.
    ReportFile,
    /// Nothing is reported.
    Pass,
}

/// A walk under way.
#[derive(Clone, Copy, Debug, PartialEq, Eq, Structural)]
pub struct Walk {
    pub result: WalkResult,
    pub over: bool,
}

/// A walk starts in a directory and nowhere else.
pub open spec fn walk_start(root: RootKind) -> Walk {
    Walk {
        result: WalkResult { complete: root == RootKind::Directory, cancelled: false },
        over: root != RootKind::Directory,
    }
}

/// The walk and what it does, once something was found.
pub open spec fn walk_found(w: Walk, stop: bool, entry: Entry) -> (Walk, Visit) {
    if w.over {
        (w, Visit::End)
    } else if stop {
        (
            Walk { result: WalkResult { complete: false, cancelled: true }, over: true },
            Visit::End,
        )
    } else {
        match entry {
            Entry::Unreadable => (
                Walk { result: WalkResult { complete: false, ..w.result }, over: false },
                Visit::ReportError,
            ),
            Entry::Wanted(false) => (
                Walk { result: WalkResult { complete: false, ..w.result }, over: false },
                Visit::ReportError,
            ),
            Entry::Wanted(true) => (w, Visit::ReportFile),
            Entry::Other => (w, Visit::Pass),
        }
    }
}

/// The walk after a report that nobody took: it is over and not complete.
pub open spec fn walk_reported(w: Walk, taken: bool) -> Walk {
    if taken {
        w
    } else {
        Walk { result: WalkResult { complete: false, ..w.result }, over: true }
    }
}

impl Walk {
    pub fn start(root: RootKind) -> (r: Walk)
        ensures
            r == walk_start(root),
    {
        match root {
            RootKind::Directory => Walk {
                result: WalkResult { complete: true, cancelled: false },
                over: false,
            },
            _ => Walk { result: WalkResult { complete: false, cancelled: false }, over: true },
        }
    }

    /// Decides what to do with what was found next.
    pub fn found(&mut self, stop: bool, entry: Entry) -> (r: Visit)
        ensures
            (*final(self), r) == walk_found(*old(self), stop, entry),
    {
        if self.over {
            return Visit::End;
        }
        if stop {
            self.result = WalkResult { complete: false, cancelled: true };
            self.over = true;
            return Visit::End;
        }
        match entry {
            Entry::Unreadable => {
                self.result.complete = false;
                Visit::ReportError
            },
            Entry::Wanted(known) => if known {
                Visit::ReportFile
            } else {
                self.result.complete = false;
                Visit::ReportError
            },
            Entry::Other => Visit::Pass,
        }
    }

    /// Notes whether a report was taken.
    pub fn reported(&mut self, taken: bool)
        ensures
            *final(self) == walk_reported(*old(self), taken),
    {
        if !taken {
            self.result.complete = false;
            self.over = true;
        }
    }
}

// ---------------------------------------------------------------------------
// Laws
// ---------------------------------------------------------------------------
/// A walk that was cancelled is over and not complete.
pub proof fn law_cancelled_walk(w: Walk, entry: Entry)
    requires
        !w.over,
    ensures
        ({
            let (after, visit) = walk_found(w, true, entry);
            &&& visit == Visit::End
            &&& after.over
            &&& after.result == WalkResult { complete: false, cancelled: true }
        }),
{
}

/// A walk that is not complete never becomes complete again.
pub proof fn law_incomplete_stays(w: Walk, stop: bool, entry: Entry, taken: bool)
    requires
        !w.result.complete,
    ensures
        !walk_found(w, stop, entry).0.result.complete,
        !walk_reported(w, taken).result.complete,
{
}

/// A walk stays complete exactly as long as all is readable, nobody stops it,
/// and every report is taken.
pub proof fn law_complete_walk(w: Walk, stop: bool, entry: Entry, taken: bool)
    requires
        w.result.complete,
        !w.over,
    ensures
        walk_found(w, stop, entry).0.result.complete <==> !stop && entry != Entry::Unreadable
            && entry != Entry::Wanted(false),
        walk_reported(w, taken).result.complete <==> taken,
{
}

/// A walk that was told to stop stops, paused or not; one that is only paused
/// waits; any other goes on.
pub proof fn law_stop_before_pause(c: WalkControl)
    ensures
        c.cancelled ==> turn_of(c) == Turn::Stop,
        !c.cancelled && c.paused ==> turn_of(c) == Turn::Wait,
        !c.cancelled && !c.paused ==> turn_of(c) == Turn::Go,
{
}

/// A walk goes into its root whatever it is called, and into no other directory
/// with an ignored name, in any case of its letters; no file is left out by name.
pub proof fn law_ignored_directories(depth: int, name: Seq<char>, ignored: Seq<&str>, i: int)
    requires
        0 <= i < ignored.len(),
        lowered(name) == lowered(ignored[i]@),
    ensures
        visits(0, true, name, ignored),
        visits(depth, false, name, ignored),
        depth > 0 ==> !visits(depth, true, name, ignored),
{
}

/// A directory whose name is not among the ignored ones is gone into.
pub proof fn law_other_directories_visited(depth: int, name: Seq<char>, ignored: Seq<&str>)
    requires
        forall|i: int| 0 <= i < ignored.len() ==> lowered(#[trigger] ignored[i]@) != lowered(name),
    ensures
        visits(depth, true, name, ignored),
{
}

/// A path has one of the extensions where its own is one of them, in any case of
/// its letters, and only there.
pub proof fn law_extension_any_case(path: Seq<char>, e: Seq<char>, extensions: Seq<&str>, i: int)
    requires
        0 <= i < extensions.len(),
        extension(path) == Some(e),
    ensures
        lowered(e) == lowered(extensions[i]@) ==> with_extension(path, extensions),
        (forall|j: int|
            0 <= j < extensions.len() ==> lowered(#[trigger] extensions[j]@) != lowered(e))
            ==> !with_extension(path, extensions),
{
}

/// A walk starts in a directory only. While nobody stops it, it reports every
/// wanted file whose size and time are known, reports every other wanted file and
/// all that it cannot read as an error, passes over the rest, and goes on.
pub proof fn law_walk_reports(w: Walk, entry: Entry)
    requires
        !w.over,
    ensures
        walk_start(RootKind::Directory).result.complete && !walk_start(RootKind::Directory).over,
        walk_start(RootKind::NotDirectory).over && !walk_start(
            RootKind::NotDirectory,
        ).result.complete,
        walk_start(RootKind::Unreadable).over && !walk_start(
            RootKind::Unreadable,
        ).result.complete,
        ({
            let (after, visit) = walk_found(w, false, entry);
            &&& entry == Entry::Wanted(true) ==> visit == Visit::ReportFile
            &&& entry == Entry::Wanted(false) ==> visit == Visit::ReportError
            &&& entry == Entry::Unreadable ==> visit == Visit::ReportError
            &&& entry == Entry::Other ==> visit == Visit::Pass
            &&& !after.over && after.result.cancelled == w.result.cancelled
        }),
        walk_reported(w, false).over,
        walk_reported(w, true) == w,
{
}

} // verus!
