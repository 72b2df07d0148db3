//! Backups of subtitles: their names, and which of them are dropped.
use vstd::prelude::*;
use vstd::slice::slice_subrange;
use vstd::utf8::{encode_scalar, encode_utf8};

use crate::clock::{rfc3339_text, to_rfc3339, EARLIEST, LATEST};
use crate::path::{
    extension, extension_of, is_name, is_plain_dir, is_under, join_path, joined,
    law_file_in_directory, lies_under, parent, parent_of, stem, stem_of,
};
use crate::text::{code, lemma_char, push_all, push_text, to_chars, to_text};

verus! {

// ---------------------------------------------------------------------------
// Names
// ---------------------------------------------------------------------------
proof fn lemma_encode_push(s: Seq<char>, c: char)
    ensures
        encode_utf8(s.push(c)) == encode_utf8(s) + encode_scalar(c as u32),
    decreases s.len(),
{
    let t = s.push(c);
    if s.len() == 0 {
        assert(t.drop_first() =~= Seq::<char>::empty());
        assert(t[0] == c);
        assert(encode_utf8(t.drop_first()) =~= Seq::<u8>::empty());
        assert(encode_utf8(s) =~= Seq::<u8>::empty());
        assert(encode_utf8(t) =~= encode_scalar(c as u32));
    } else {
        lemma_encode_push(s.drop_first(), c);
        assert(t.drop_first() =~= s.drop_first().push(c));
        assert(encode_utf8(t) =~= encode_utf8(s) + encode_scalar(c as u32));
    }
}

fn width(c: char) -> (r: usize)
    ensures
        r == encode_scalar(c as u32).len(),
        1 <= r <= 4,
{
    let u = code(c);
    proof {
        lemma_char(c);
    }
    if u <= 0x7f {
        1
    } else if u <= 0x7ff {
        2
    } else if u <= 0xffff {
        3
    } else {
        4
    }
}

/// The longest start of the text, of at most `n` characters, that takes at most
/// `max` bytes in UTF-8.
pub open spec fn cut_upto(s: Seq<char>, max: int, n: int) -> Seq<char>
    decreases n,
{
    if n <= 0 || encode_utf8(s.take(n)).len() <= max {
        s.take(n)
    } else {
        cut_upto(s, max, n - 1)
    }
}

/// The longest start of the text that takes at most so many bytes in UTF-8.
pub open spec fn cut(s: Seq<char>, max: int) -> Seq<char> {
    cut_upto(s, max, s.len() as int)
}

proof fn lemma_bytes_grow(s: Seq<char>, a: int, b: int)
    requires
        0 <= a <= b <= s.len(),
    ensures
        encode_utf8(s.take(a)).len() <= encode_utf8(s.take(b)).len(),
    decreases b - a,
{
    if a < b {
        lemma_bytes_grow(s, a, b - 1);
        lemma_encode_push(s.take(b - 1), s[b - 1]);
        assert(s.take(b - 1).push(s[b - 1]) =~= s.take(b));
    }
}

proof fn lemma_cut_is(s: Seq<char>, max: int, k: int, n: int)
    requires
        0 <= k <= n <= s.len(),
        encode_utf8(s.take(k)).len() <= max,
        k < n ==> encode_utf8(s.take(k + 1)).len() > max,
    ensures
        cut_upto(s, max, n) == s.take(k),
    decreases n,
{
    if k < n {
        lemma_bytes_grow(s, k + 1, n);
        lemma_cut_is(s, max, k, n - 1);
    }
}

/// The longest start of the text that takes at most so many bytes in UTF-8.
pub fn truncate_utf8_bytes(value: &str, max_bytes: usize) -> (r: String)
    ensures
        r@ == cut(value@, max_bytes as int),
{
    let c = to_chars(value);
    let mut used: usize = 0;
    let mut i: usize = 0;
    assert(c@.take(0) =~= Seq::<char>::empty());
    assert(encode_utf8(c@.take(0)).len() == 0);
    while i < c.len()
        invariant
            i <= c@.len(),
            c@ == value@,
            used == encode_utf8(c@.take(i as int)).len(),
            used <= max_bytes,
        decreases c@.len() - i,
    {
        let w = width(c[i]);
        proof {
            lemma_encode_push(c@.take(i as int), c@[i as int]);
            assert(c@.take(i as int).push(c@[i as int]) =~= c@.take(i + 1));
        }
        if w > max_bytes - used {
            let t = slice_subrange(c.as_slice(), 0, i);
            assert(t@ =~= value@.take(i as int));
            proof {
                lemma_cut_is(value@, max_bytes as int, i as int, value@.len() as int);
            }
            return to_text(t);
        }
        used = used + w;
        i = i + 1;
    }
    assert(c@.take(i as int) =~= value@);
    value.to_string()
}

/// How many bytes the stem of a backup's name may take.
pub open spec fn stem_limit(suffix: Seq<char>) -> int {
    let left = 240 - encode_utf8(suffix).len();
    if left < 32 {
        32
    } else {
        left
    }
}

/// Whether the first eight bytes of the text, or all where it has fewer, are whole
/// characters.
pub open spec fn cuts_at_eight(s: Seq<char>) -> bool {
    let all = encode_utf8(s).len();
    encode_utf8(cut(s, 8)).len() == (if all < 8 {
        all
    } else {
        8
    })
}

/// What follows the stem in a backup's name: when it was made, the start of the
/// digest of what it holds, and the extension.
pub open spec fn backup_suffix(relative: Seq<char>, time: Seq<char>, sha: Seq<char>) -> Seq<char> {
    "."@ + time + "."@ + cut(sha, 8) + "."@ + match extension(relative) {
        Some(e) => e,
        None => "ass"@,
    }
}

pub open spec fn backup_stem(relative: Seq<char>) -> Seq<char> {
    match stem(relative) {
        Some(t) => t,
        None => "subtitle"@,
    }
}

/// The name of a backup.
pub open spec fn backup_name(relative: Seq<char>, time: Seq<char>, sha: Seq<char>) -> Seq<char> {
    let suffix = backup_suffix(relative, time, sha);
    cut(backup_stem(relative), stem_limit(suffix)) + suffix
}

/// Where the backups of a directory go.
pub open spec fn backup_dir_of(root: Seq<char>, label: Seq<char>, relative: Seq<char>) -> Seq<char> {
    joined(
        joined(root, label),
        match parent(relative) {
            Some(p) => p,
            None => seq![],
        },
    )
}

fn byte_count(s: &[char], limit: usize) -> (r: usize)
    requires
        limit < 1000,
    ensures
        r == (if encode_utf8(s@).len() < limit {
            encode_utf8(s@).len() as int
        } else {
            limit as int
        }),
{
    let mut used: usize = 0;
    let mut i: usize = 0;
    assert(s@.take(0) =~= Seq::<char>::empty());
    assert(encode_utf8(s@.take(0)).len() == 0);
    while i < s.len()
        invariant
            i <= s@.len(),
            limit < 1000,
            used <= limit,
            used == (if encode_utf8(s@.take(i as int)).len() < limit {
                encode_utf8(s@.take(i as int)).len() as int
            } else {
                limit as int
            }),
        decreases s@.len() - i,
    {
        let w = width(s[i]);
        proof {
            lemma_encode_push(s@.take(i as int), s@[i as int]);
            assert(s@.take(i as int).push(s@[i as int]) =~= s@.take(i + 1));
        }
        used = if used + w < limit {
            used + w
        } else {
            limit
        };
        i = i + 1;
    }
    assert(s@.take(i as int) =~= s@);
    used
}

/// The directory and the name of a backup. The digest can be cut behind its eighth
/// byte.
pub fn backup_place(
    backup_dir: &str,
    root_label: &str,
    relative_path: &str,
    time: &str,
    source_sha: &str,
) -> (r: (String, String))
    requires
        cuts_at_eight(source_sha@),
    ensures
        r.0@ == backup_dir_of(backup_dir@, root_label@, relative_path@),
        r.1@ == backup_name(relative_path@, time@, source_sha@),
{
    let up = match parent_of(relative_path) {
        Some(p) => to_text(p.as_slice()),
        None => "".to_string(),
    };
    proof {
        reveal_strlit("");
        assert(""@ =~= seq![]);
    }
    let labelled = join_path(backup_dir, root_label);
    let dir = join_path(labelled.as_str(), up.as_str());
    let mut suffix = to_chars(".");
    push_text(&mut suffix, time);
    push_text(&mut suffix, ".");
    let start = truncate_utf8_bytes(source_sha, 8);
    push_text(&mut suffix, start.as_str());
    push_text(&mut suffix, ".");
    match extension_of(relative_path) {
        Some(e) => {
            push_all(&mut suffix, e.as_slice());
        },
        None => {
            push_text(&mut suffix, "ass");
        },
    }
    assert(suffix@ =~= backup_suffix(relative_path@, time@, source_sha@));
    let taken = byte_count(suffix.as_slice(), 208);
    let limit: usize = 240 - taken;
    let base = match stem_of(relative_path) {
        Some(t) => to_text(t.as_slice()),
        None => "subtitle".to_string(),
    };
    let short = truncate_utf8_bytes(base.as_str(), limit);
    let mut name = to_chars(short.as_str());
    push_all(&mut name, suffix.as_slice());
    assert(name@ =~= backup_name(relative_path@, time@, source_sha@));
    (dir, to_text(name.as_slice()))
}

// ---------------------------------------------------------------------------
// What is dropped
// ---------------------------------------------------------------------------
/// How many seconds a backup is kept: at most a thousand years.
pub open spec fn kept_seconds(retention_days: u64) -> int {
    86_400 * if retention_days > 365_000 {
        365_000
    } else {
        retention_days as int
    }
}

/// The second before which backups are dropped, and its fraction: the first
/// second that has a date where there is no earlier one.
pub open spec fn cutoff_of(retention_days: u64, seconds: int, nanos: int) -> (int, int) {
    if seconds - kept_seconds(retention_days) < EARLIEST {
        (EARLIEST as int, 0)
    } else {
        (seconds - kept_seconds(retention_days), nanos)
    }
}

/// The time before which backups are dropped, as text; nothing where they are
/// kept for ever.
pub fn prune_cutoff(retention_days: u64, seconds: i64, nanos: u32) -> (r: Option<String>)
    requires
        EARLIEST <= seconds <= LATEST,
        nanos < 1_000_000_000,
    ensures
        match r {
            Some(t) => retention_days > 0 && t@ == ({
                let (s, n) = cutoff_of(retention_days, seconds as int, nanos as int);
                rfc3339_text(s, n)
            }),
            None => retention_days == 0,
        },
{
    if retention_days == 0 {
        return None;
    }
    let days: u64 = if retention_days > 365_000 {
        365_000
    } else {
        retention_days
    };
    let cutoff: i64 = seconds - (days * 86_400) as i64;
    if cutoff < EARLIEST {
        return Some(to_rfc3339(EARLIEST, 0));
    }
    Some(to_rfc3339(cutoff, nanos))
}

/// What a clean-up came to.
#[derive(Clone, Copy, Debug, PartialEq, Eq, Structural)]
pub struct BackupPruneSummary {
    pub expired: usize,
    pub removed_files: usize,
    pub missing_files: usize,
    pub failed: usize,
}

impl Default for BackupPruneSummary {
    fn default() -> (r: Self)
        ensures
            r == (BackupPruneSummary { expired: 0, removed_files: 0, missing_files: 0, failed: 0 }),
    {
        BackupPruneSummary { expired: 0, removed_files: 0, missing_files: 0, failed: 0 }
    }
}

/// What was found where a backup should be.
#[derive(Debug)]
pub enum BackupFile {
    Missing,
    /// It cannot be looked at, or its real path cannot be found.
    Unreadable,
    /// It is a directory, a link or something else.
    NotRegular,
    /// A file with this real path.
    Regular { real_path: String },
}

/// What came of removing a file.
#[derive(Clone, Copy, Debug, PartialEq, Eq, Structural)]
pub enum RemoveResult {
    Removed,
    Missing,
    Failed,
}

/// What is done about a backup.
#[derive(Clone, Copy, Debug, PartialEq, Eq, Structural)]
pub enum PruneStep {
    /// Its record is deleted.
    DropRecord,
    /// It is left alone.
    Keep,
    /// Its file is removed.
    RemoveFile,
}

/// What is done about what was found.
pub open spec fn found_step(root: Seq<char>, f: BackupFile) -> PruneStep {
    match f {
        BackupFile::Missing => PruneStep::DropRecord,
        BackupFile::Regular { real_path } => if lies_under(real_path@, root) {
            PruneStep::RemoveFile
        } else {
            PruneStep::Keep
        },
        _ => PruneStep::Keep,
    }
}

/// The counts once it was found.
pub open spec fn found_counts(s: BackupPruneSummary, step: PruneStep) -> BackupPruneSummary {
    match step {
        PruneStep::DropRecord => BackupPruneSummary {
            missing_files: (s.missing_files + 1) as usize,
            ..s
        },
        PruneStep::Keep => BackupPruneSummary { failed: (s.failed + 1) as usize, ..s },
        PruneStep::RemoveFile => s,
    }
}

/// The counts once removing it was tried.
pub open spec fn removed_counts(s: BackupPruneSummary, r: RemoveResult) -> BackupPruneSummary {
    match r {
        RemoveResult::Removed => BackupPruneSummary {
            removed_files: (s.removed_files + 1) as usize,
            ..s
        },
        RemoveResult::Missing => BackupPruneSummary {
            missing_files: (s.missing_files + 1) as usize,
            ..s
        },
        RemoveResult::Failed => BackupPruneSummary { failed: (s.failed + 1) as usize, ..s },
    }
}

/// How many backups are done with.
pub open spec fn handled(s: BackupPruneSummary) -> int {
    s.removed_files + s.missing_files + s.failed
}

impl BackupPruneSummary {
    /// A clean-up of so many backups that are too old.
    pub fn start(expired: usize) -> (r: BackupPruneSummary)
        ensures
            r.expired == expired,
            handled(r) == 0,
    {
        BackupPruneSummary { expired, removed_files: 0, missing_files: 0, failed: 0 }
    }

    /// Decides on a backup by what was found in its place: only a file that really
    /// lies under the root is removed.
    pub fn found(&mut self, root: &str, file: &BackupFile) -> (r: PruneStep)
        requires
            handled(*old(self)) < old(self).expired,
        ensures
            r == found_step(root@, *file),
            *final(self) == found_counts(*old(self), r),
    {
        match file {
            BackupFile::Missing => {
                self.missing_files = self.missing_files + 1;
                PruneStep::DropRecord
            },
            BackupFile::Regular { real_path } => {
                if is_under(real_path.as_str(), root) {
                    PruneStep::RemoveFile
                } else {
                    self.failed = self.failed + 1;
                    PruneStep::Keep
                }
            },
            _ => {
                self.failed = self.failed + 1;
                PruneStep::Keep
            },
        }
    }

    /// Takes what came of removing a file, and returns whether its record is
    /// deleted.
    pub fn removed(&mut self, result: RemoveResult) -> (r: bool)
        requires
            handled(*old(self)) < old(self).expired,
        ensures
            r == !(result is Failed),
            *final(self) == removed_counts(*old(self), result),
    {
        match result {
            RemoveResult::Removed => {
                self.removed_files = self.removed_files + 1;
                true
            },
            RemoveResult::Missing => {
                self.missing_files = self.missing_files + 1;
                true
            },
            RemoveResult::Failed => {
                self.failed = self.failed + 1;
                false
            },
        }
    }
}

// ---------------------------------------------------------------------------
// Laws
// ---------------------------------------------------------------------------
proof fn lemma_encode_add(a: Seq<char>, b: Seq<char>)
    ensures
        encode_utf8(a + b) == encode_utf8(a) + encode_utf8(b),
    decreases b.len(),
{
    if b.len() == 0 {
        assert(a + b =~= a);
        assert(encode_utf8(b) =~= Seq::<u8>::empty());
        assert(encode_utf8(a) + encode_utf8(b) =~= encode_utf8(a));
    } else {
        let c = b.last();
        lemma_encode_add(a, b.drop_last());
        lemma_encode_push(a + b.drop_last(), c);
        lemma_encode_push(b.drop_last(), c);
        assert((a + b.drop_last()).push(c) =~= a + b);
        assert(b.drop_last().push(c) =~= b);
        assert(encode_utf8(a + b) =~= encode_utf8(a) + encode_utf8(b));
    }
}

proof fn lemma_cut_fits(s: Seq<char>, max: int, n: int)
    requires
        0 <= n <= s.len(),
        max >= 0,
    ensures
        encode_utf8(cut_upto(s, max, n)).len() <= max,
    decreases n,
{
    if n <= 0 {
        assert(s.take(n) =~= Seq::<char>::empty());
        assert(encode_utf8(s.take(n)).len() == 0);
    } else if encode_utf8(s.take(n)).len() > max {
        lemma_cut_fits(s, max, n - 1);
    }
}

/// The name of a backup takes at most 240 bytes, as long as what follows the
/// stem takes at most 208.
pub proof fn law_backup_name_fits(relative: Seq<char>, time: Seq<char>, sha: Seq<char>)
    requires
        encode_utf8(backup_suffix(relative, time, sha)).len() <= 208,
    ensures
        encode_utf8(backup_name(relative, time, sha)).len() <= 240,
{
    let suffix = backup_suffix(relative, time, sha);
    let s = backup_stem(relative);
    lemma_cut_fits(s, stem_limit(suffix), s.len() as int);
    lemma_encode_add(cut(s, stem_limit(suffix)), suffix);
}

/// No file outside the backups' own directory is removed.
pub proof fn law_only_backups_removed(root: Seq<char>, f: BackupFile)
    ensures
        found_step(root, f) == PruneStep::RemoveFile ==> (f matches BackupFile::Regular {
            real_path,
        } && lies_under(real_path@, root)),
{
}

/// Every backup is counted once, whatever becomes of it.
pub proof fn law_backups_counted(
    s: BackupPruneSummary,
    root: Seq<char>,
    f: BackupFile,
    r: RemoveResult,
)
    requires
        handled(s) < s.expired,
    ensures
        ({
            let step = found_step(root, f);
            let one = found_counts(s, step);
            let end = if step == PruneStep::RemoveFile {
                removed_counts(one, r)
            } else {
                one
            };
            handled(end) == handled(s) + 1 && end.expired == s.expired
        }),
{
}

/// What is left of a text that is cut is the longest start of it that fits.
pub proof fn law_cut_is_longest(s: Seq<char>, max: int, n: int)
    requires
        0 <= max,
        0 <= n <= s.len(),
    ensures
        cut(s, max).len() <= s.len(),
        cut(s, max) == s.take(cut(s, max).len() as int),
        encode_utf8(cut(s, max)).len() <= max,
        encode_utf8(s.take(n)).len() <= max ==> n <= cut(s, max).len(),
{
    lemma_cut_fits(s, max, s.len() as int);
    lemma_cut_longest(s, max, s.len() as int, n);
}

proof fn lemma_cut_longest(s: Seq<char>, max: int, m: int, n: int)
    requires
        0 <= max,
        0 <= n <= m <= s.len(),
    ensures
        cut_upto(s, max, m).len() <= m,
        cut_upto(s, max, m) == s.take(cut_upto(s, max, m).len() as int),
        encode_utf8(s.take(n)).len() <= max ==> n <= cut_upto(s, max, m).len(),
    decreases m,
{
    if m > 0 && encode_utf8(s.take(m)).len() > max {
        if n < m {
            lemma_cut_longest(s, max, m - 1, n);
        } else {
            lemma_cut_longest(s, max, m - 1, m - 1);
        }
    }
}

/// The name of a backup is the name of the subtitle with the time and the first
/// eight digits of the digest before its extension, as long as it fits.
pub proof fn law_backup_named_after(
    relative: Seq<char>,
    base: Seq<char>,
    ext: Seq<char>,
    time: Seq<char>,
    sha: Seq<char>,
)
    requires
        stem(relative) == Some(base),
        extension(relative) == Some(ext),
        sha.len() >= 8,
        forall|i: int| 0 <= i < 8 ==> (#[trigger] sha[i]) as u32 <= 127,
        encode_utf8(base + "."@ + time + "."@ + sha.take(8) + "."@ + ext).len() <= 240,
    ensures
        backup_name(relative, time, sha) == base + "."@ + time + "."@ + sha.take(8) + "."@ + ext,
{
    let suffix = "."@ + time + "."@ + sha.take(8) + "."@ + ext;
    lemma_plain_bytes(sha, 8);
    law_cut_is_longest(sha, 8, 8);
    if cut(sha, 8).len() > 8 {
        lemma_bytes_grow(sha, 9, cut(sha, 8).len() as int);
        lemma_encode_push(sha.take(8), sha[8]);
        assert(sha.take(8).push(sha[8]) =~= sha.take(9));
    }
    assert(cut(sha, 8) =~= sha.take(8));
    assert(backup_suffix(relative, time, sha) == suffix);
    assert(base + "."@ + time + "."@ + sha.take(8) + "."@ + ext =~= base + suffix);
    lemma_encode_add(base, suffix);
    law_cut_is_longest(base, stem_limit(suffix), base.len() as int);
    assert(base.take(base.len() as int) =~= base);
}

/// ASCII characters take one byte each.
proof fn lemma_plain_bytes(s: Seq<char>, n: int)
    requires
        0 <= n <= s.len(),
        forall|i: int| 0 <= i < n ==> (#[trigger] s[i]) as u32 <= 127,
    ensures
        encode_utf8(s.take(n)).len() == n,
    decreases n,
{
    if n == 0 {
        assert(s.take(0) =~= Seq::<char>::empty());
    } else {
        lemma_plain_bytes(s, n - 1);
        lemma_encode_push(s.take(n - 1), s[n - 1]);
        assert(s.take(n - 1).push(s[n - 1]) =~= s.take(n));
    }
}

/// A backup is dropped once it is older than so many days, and not before: the
/// cutoff lies as many days of 24 hours back, to the nanosecond.
pub proof fn law_backups_kept_for_days(days: u64, seconds: int, nanos: int)
    requires
        days <= 365_000,
        seconds - days * 24 * 60 * 60 >= EARLIEST,
    ensures
        cutoff_of(days, seconds, nanos) == (seconds - days * 24 * 60 * 60, nanos),
{
}

/// A backup whose file is gone loses its record, a file under the root is removed,
/// and anything else is left alone; each ends in the count of its own kind.
pub proof fn law_prune_by_kind(s: BackupPruneSummary, root: Seq<char>, f: BackupFile)
    requires
        handled(s) < s.expired,
    ensures
        f is Missing ==> found_step(root, f) is DropRecord && found_counts(
            s,
            found_step(root, f),
        ).missing_files == s.missing_files + 1,
        f is Unreadable || f is NotRegular ==> found_step(root, f) is Keep && found_counts(
            s,
            found_step(root, f),
        ).failed == s.failed + 1,
        f matches BackupFile::Regular { real_path } ==> {
            if lies_under(real_path@, root) {
                found_step(root, f) is RemoveFile && found_counts(s, found_step(root, f)) == s
            } else {
                found_step(root, f) is Keep && found_counts(s, found_step(root, f)).failed
                    == s.failed + 1
            }
        },
        removed_counts(s, RemoveResult::Removed).removed_files == s.removed_files + 1,
        removed_counts(s, RemoveResult::Missing).missing_files == s.missing_files + 1,
        removed_counts(s, RemoveResult::Failed).failed == s.failed + 1,
{
}

/// The backups of a file go under the label of its root, into the directory that
/// the file has below the root.
pub proof fn law_backups_mirror_directories(
    root: Seq<char>,
    label: Seq<char>,
    dir: Seq<char>,
    name: Seq<char>,
)
    requires
        is_plain_dir(dir),
        dir.len() > 0,
        dir.last() != '/',
        is_name(name),
    ensures
        backup_dir_of(root, label, joined(dir, name)) == joined(joined(root, label), dir),
{
    law_file_in_directory(dir, name);
}

/// A backup of a file without a name or an ending is called as if it had the usual
/// ones.
pub proof fn law_backup_without_name(relative: Seq<char>, time: Seq<char>, sha: Seq<char>)
    ensures
        extension(relative) is None ==> backup_suffix(relative, time, sha) == "."@ + time + "."@ + cut(
            sha,
            8,
        ) + "."@ + "ass"@,
        stem(relative) is None ==> backup_stem(relative) == "subtitle"@,
        stem(relative) is Some ==> backup_stem(relative) == stem(relative)->0,
{
}

/// Backups are kept for a thousand years at most, and no time is reckoned before the
/// earliest one.
pub proof fn law_retention_bounded(days: u64, seconds: int, nanos: int)
    requires
        EARLIEST <= seconds,
    ensures
        days >= 365_000 ==> cutoff_of(days, seconds, nanos) == cutoff_of(365_000, seconds, nanos),
        EARLIEST <= cutoff_of(days, seconds, nanos).0 <= seconds,
        seconds - days * 86_400 < EARLIEST && days <= 365_000 ==> cutoff_of(days, seconds, nanos) == (
            EARLIEST as int,
            0int,
        ),
{
}

} // verus!
