//! Which of the subtitles that were found are to be converted.
use std::collections::HashSet;
use vstd::hash_map::StringHashMap;
use vstd::prelude::*;

use super::inspect::CandidateInspection;
use crate::fs_walk::DiscoveredFile;
use crate::number::{signed_decimal, signed_decimal_chars};
use crate::path::{
    below, components, extension, extension_of, is_name, joined, law_extension_after_dot,
    law_file_in_directory, path_below,
};
use crate::text::{
    is_text, lower_chars, lowered, push_all, push_text, same_text, to_chars, to_text,
};

verus! {

/// Whether a path names a subtitle.
pub open spec fn subtitle_path(s: Seq<char>) -> bool {
    match extension(s) {
        Some(e) => lowered(e) == "ass"@ || lowered(e) == "ssa"@,
        None => false,
    }
}

pub fn is_subtitle_path(path: &str) -> (r: bool)
    ensures
        r == subtitle_path(path@),
{
    match extension_of(path) {
        Some(e) => {
            let low = lower_chars(e.as_slice());
            is_text(low.as_slice(), "ass") || is_text(low.as_slice(), "ssa")
        },
        None => false,
    }
}

/// A subtitle that was found under a watched directory.
#[derive(Clone, Debug)]
pub struct SubtitleCandidate {
    pub path: String,
    pub root_label: String,
    pub relative_path: String,
    pub size: i64,
    pub mtime: i64,
}

#[verifier::ext_equal]
pub struct CandidateView {
    pub path: Seq<char>,
    pub root_label: Seq<char>,
    pub relative_path: Seq<char>,
    pub size: i64,
    pub mtime: i64,
}

impl View for SubtitleCandidate {
    type V = CandidateView;

    open spec fn view(&self) -> CandidateView {
        CandidateView {
            path: self.path@,
            root_label: self.root_label@,
            relative_path: self.relative_path@,
            size: self.size,
            mtime: self.mtime,
        }
    }
}

impl SubtitleCandidate {
    pub fn copy(&self) -> (r: SubtitleCandidate)
        ensures
            r@ == self@,
    {
        SubtitleCandidate {
            path: self.path.clone(),
            root_label: self.root_label.clone(),
            relative_path: self.relative_path.clone(),
            size: self.size,
            mtime: self.mtime,
        }
    }
}

/// A text with a slash for every backslash.
pub open spec fn with_slashes(s: Seq<char>) -> Seq<char> {
    Seq::new(
        s.len(),
        |i: int|
            if s[i] == '\\' {
                '/'
            } else {
                s[i]
            },
    )
}

fn slashes(s: &[char]) -> (r: Vec<char>)
    ensures
        r@ == with_slashes(s@),
{
    let mut out: Vec<char> = Vec::new();
    let mut i: usize = 0;
    while i < s.len()
        invariant
            i <= s@.len(),
            out@.len() == i,
            forall|j: int| 0 <= j < i ==> out@[j] == with_slashes(s@)[j],
        decreases s@.len() - i,
    {
        if s[i] == '\\' {
            out.push('/');
        } else {
            out.push(s[i]);
        }
        i = i + 1;
    }
    assert(out@ =~= with_slashes(s@));
    out
}

/// What a file under a root is called: the path below the root, or the whole
/// path where it lies elsewhere.
pub open spec fn shown_path(path: Seq<char>, root: Seq<char>) -> Seq<char> {
    with_slashes(
        match below(path, root) {
            Some(t) => t,
            None => path,
        },
    )
}

pub fn subtitle_candidate(root: &str, root_label: &str, file: DiscoveredFile) -> (r:
    SubtitleCandidate)
    ensures
        r@ == (CandidateView {
            path: file.path@,
            root_label: root_label@,
            relative_path: shown_path(file.path@, root@),
            size: file.size,
            mtime: file.mtime,
        }),
{
    let shown = match path_below(file.path.as_str(), root) {
        Some(t) => t,
        None => to_chars(file.path.as_str()),
    };
    let relative = slashes(shown.as_slice());
    SubtitleCandidate {
        path: file.path,
        root_label: root_label.to_string(),
        relative_path: to_text(relative.as_slice()),
        size: file.size,
        mtime: file.mtime,
    }
}

/// What is remembered of a subtitle.
#[derive(Clone, Debug)]
pub struct ExistingSubtitle {
    pub id: i64,
    pub size: i64,
    pub mtime: i64,
    pub sha256: String,
    pub last_config_hash: Option<String>,
    pub last_status: Option<String>,
    pub last_font_index_revision: Option<i64>,
}

#[verifier::ext_equal]
pub struct ExistingView {
    pub id: i64,
    pub size: i64,
    pub mtime: i64,
    pub sha256: Seq<char>,
    pub last_config_hash: Option<Seq<char>>,
    pub last_status: Option<Seq<char>>,
    pub last_font_index_revision: Option<i64>,
}

pub open spec fn stored_text(s: Option<String>) -> Option<Seq<char>> {
    match s {
        Some(t) => Some(t@),
        None => None,
    }
}

impl View for ExistingSubtitle {
    type V = ExistingView;

    open spec fn view(&self) -> ExistingView {
        ExistingView {
            id: self.id,
            size: self.size,
            mtime: self.mtime,
            sha256: self.sha256@,
            last_config_hash: stored_text(self.last_config_hash),
            last_status: stored_text(self.last_status),
            last_font_index_revision: self.last_font_index_revision,
        }
    }
}

/// What is remembered of the subtitle at a path.
pub open spec fn remembered(existing: Map<Seq<char>, ExistingSubtitle>, path: Seq<char>) -> Option<
    ExistingView,
> {
    if existing.contains_key(path) {
        Some(existing[path]@)
    } else {
        None
    }
}

/// The subtitles that are remembered, by their paths.
pub struct KnownSubtitles {
    by_path: StringHashMap<ExistingSubtitle>,
}

impl View for KnownSubtitles {
    type V = Map<Seq<char>, ExistingSubtitle>;

    closed spec fn view(&self) -> Map<Seq<char>, ExistingSubtitle> {
        self.by_path@
    }
}

impl KnownSubtitles {
    pub fn new() -> (r: KnownSubtitles)
        ensures
            r@ == Map::<Seq<char>, ExistingSubtitle>::empty(),
    {
        KnownSubtitles { by_path: StringHashMap::new() }
    }

    pub fn insert(&mut self, path: String, subtitle: ExistingSubtitle)
        ensures
            final(self)@ == old(self)@.insert(path@, subtitle),
    {
        self.by_path.insert(path, subtitle);
    }

    pub fn get(&self, path: &str) -> (r: Option<&ExistingSubtitle>)
        ensures
            match r {
                Some(old) => remembered(self@, path@) == Some(old@),
                None => remembered(self@, path@) is None,
            },
    {
        self.by_path.get(path)
    }
}

/// Whether the last conversion still holds: it was made with the same options,
/// and it succeeded, or missed fonts that the index still lacks.
pub open spec fn still_done(old: ExistingView, config_hash: Seq<char>, revision: i64) -> bool {
    &&& old.last_config_hash == Some(config_hash)
    &&& old.last_status == Some("success"@) || (old.last_status == Some("partial"@)
        && old.last_font_index_revision == Some(revision))
}

/// Whether a file is left alone without a look at it: a job is waiting for it or
/// working on it, or it is the file that was converted last.
pub open spec fn known(
    c: CandidateView,
    existing: Map<Seq<char>, ExistingSubtitle>,
    active: Set<i64>,
    config_hash: Seq<char>,
    revision: i64,
) -> bool {
    match remembered(existing, c.path) {
        Some(old) => active.contains(old.id) || (old.size == c.size && old.mtime == c.mtime
            && still_done(old, config_hash, revision)),
        None => false,
    }
}

fn is_stored(s: &Option<String>, t: &str) -> (r: bool)
    ensures
        r == (stored_text(*s) == Some(t@)),
{
    match s {
        Some(x) => same_text(x.as_str(), t),
        None => false,
    }
}

fn holds_still(old: &ExistingSubtitle, config_hash: &str, revision: i64) -> (r: bool)
    ensures
        r == still_done(old@, config_hash@, revision),
{
    if !is_stored(&old.last_config_hash, config_hash) {
        return false;
    }
    if is_stored(&old.last_status, "success") {
        return true;
    }
    is_stored(&old.last_status, "partial") && match old.last_font_index_revision {
        Some(n) => n == revision,
        None => false,
    }
}

/// Whether the file is left alone without a look at it.
pub fn is_known(
    candidate: &SubtitleCandidate,
    existing: &KnownSubtitles,
    active: &HashSet<i64>,
    config_hash: &str,
    font_index_revision: u64,
) -> (r: bool)
    ensures
        r == known(candidate@, existing@, active@, config_hash@, font_index_revision as i64),
{
    broadcast use vstd::std_specs::hash::group_hash_axioms;

    let revision = font_index_revision as i64;
    match existing.get(candidate.path.as_str()) {
        Some(old) => active.contains(&old.id) || (old.size == candidate.size && old.mtime
            == candidate.mtime && holds_still(old, config_hash, revision)),
        None => false,
    }
}

pub open spec fn fingerprint(c: CandidateView) -> Seq<char> {
    "metadata:"@ + signed_decimal(c.size as int) + ":"@ + signed_decimal(c.mtime as int)
}

/// The text that stands for the digest of a file that was not read to its end.
pub fn metadata_fingerprint(candidate: &SubtitleCandidate) -> (r: String)
    ensures
        r@ == fingerprint(candidate@),
{
    let mut out: Vec<char> = to_chars("metadata:");
    let size = signed_decimal_chars(candidate.size);
    push_all(&mut out, size.as_slice());
    push_text(&mut out, ":");
    let time = signed_decimal_chars(candidate.mtime);
    push_all(&mut out, time.as_slice());
    assert(out@ =~= fingerprint(candidate@));
    to_text(out.as_slice())
}

/// A subtitle that is to be converted, with its digest.
#[derive(Clone, Debug)]
pub struct QueueCandidate {
    pub meta: SubtitleCandidate,
    pub sha256: String,
}

#[verifier::ext_equal]
pub struct QueuedView {
    pub meta: CandidateView,
    pub sha256: Seq<char>,
}

impl View for QueueCandidate {
    type V = QueuedView;

    open spec fn view(&self) -> QueuedView {
        QueuedView { meta: self.meta@, sha256: self.sha256@ }
    }
}

/// What becomes of a file that was looked at.
#[derive(Debug)]
pub enum Filtered {
    /// It was subset already: it is remembered as converted, under its fingerprint.
    AlreadySubsetted { fingerprint: String },
    /// It holds what was converted last: its new place and time are remembered.
    Unchanged { sha256: String },
    /// It is to be converted.
    Ready(QueueCandidate),
    /// It has no digest.
    NoDigest,
}

pub enum FilteredView {
    AlreadySubsetted { fingerprint: Seq<char> },
    Unchanged { sha256: Seq<char> },
    Ready(QueuedView),
    NoDigest,
}

impl View for Filtered {
    type V = FilteredView;

    open spec fn view(&self) -> FilteredView {
        match *self {
            Filtered::AlreadySubsetted { fingerprint } => FilteredView::AlreadySubsetted {
                fingerprint: fingerprint@,
            },
            Filtered::Unchanged { sha256 } => FilteredView::Unchanged { sha256: sha256@ },
            Filtered::Ready(q) => FilteredView::Ready(q@),
            Filtered::NoDigest => FilteredView::NoDigest,
        }
    }
}

pub open spec fn filtered(
    c: CandidateView,
    subsetted: bool,
    digest: Option<Seq<char>>,
    existing: Map<Seq<char>, ExistingSubtitle>,
    config_hash: Seq<char>,
    revision: i64,
) -> FilteredView {
    if subsetted {
        FilteredView::AlreadySubsetted { fingerprint: fingerprint(c) }
    } else {
        match digest {
            None => FilteredView::NoDigest,
            Some(h) => match remembered(existing, c.path) {
                Some(old) => if old.sha256 == h && still_done(old, config_hash, revision) {
                    FilteredView::Unchanged { sha256: h }
                } else {
                    FilteredView::Ready(QueuedView { meta: c, sha256: h })
                },
                None => FilteredView::Ready(QueuedView { meta: c, sha256: h }),
            },
        }
    }
}

/// Decides on a file that was looked at.
pub fn filter_candidate(
    candidate: &SubtitleCandidate,
    inspection: CandidateInspection,
    existing: &KnownSubtitles,
    config_hash: &str,
    font_index_revision: u64,
) -> (r: Filtered)
    ensures
        r@ == filtered(
            candidate@,
            inspection.already_subsetted,
            stored_text(inspection.sha256),
            existing@,
            config_hash@,
            font_index_revision as i64,
        ),
{
    let revision = font_index_revision as i64;
    if inspection.already_subsetted {
        return Filtered::AlreadySubsetted { fingerprint: metadata_fingerprint(candidate) };
    }
    let sha256 = match inspection.sha256 {
        Some(h) => h,
        None => {
            return Filtered::NoDigest;
        },
    };
    if let Some(old) = existing.get(candidate.path.as_str()) {
        if same_text(old.sha256.as_str(), sha256.as_str()) && holds_still(
            old,
            config_hash,
            revision,
        ) {
            return Filtered::Unchanged { sha256 };
        }
    }
    Filtered::Ready(QueueCandidate { meta: candidate.copy(), sha256 })
}

// ---------------------------------------------------------------------------
// Laws
// ---------------------------------------------------------------------------
/// A file that was converted with the same options is not converted again while
/// it stays as it is, whatever its time and place.
pub proof fn law_converted_once(
    c: CandidateView,
    digest: Seq<char>,
    existing: Map<Seq<char>, ExistingSubtitle>,
    config_hash: Seq<char>,
    revision: i64,
)
    requires
        remembered(existing, c.path) matches Some(old) && old.sha256 == digest
            && old.last_config_hash == Some(config_hash) && old.last_status == Some("success"@),
    ensures
        filtered(c, false, Some(digest), existing, config_hash, revision) !is Ready,
{
}

/// Other options make every file that is not being worked on wait for a
/// conversion again.
pub proof fn law_new_options_convert_again(
    c: CandidateView,
    digest: Seq<char>,
    existing: Map<Seq<char>, ExistingSubtitle>,
    active: Set<i64>,
    config_hash: Seq<char>,
    revision: i64,
)
    requires
        remembered(existing, c.path) matches Some(old) ==> old.last_config_hash != Some(config_hash)
            && !active.contains(old.id),
    ensures
        !known(c, existing, active, config_hash, revision),
        filtered(c, false, Some(digest), existing, config_hash, revision) == FilteredView::Ready(
            QueuedView { meta: c, sha256: digest },
        ),
{
}

/// A file with missing fonts is converted again once the font index has changed.
pub proof fn law_partial_waits_for_fonts(
    c: CandidateView,
    old: ExistingView,
    digest: Seq<char>,
    existing: Map<Seq<char>, ExistingSubtitle>,
    active: Set<i64>,
    config_hash: Seq<char>,
    revision: i64,
)
    requires
        remembered(existing, c.path) == Some(old),
        old.last_status == Some("partial"@),
        !active.contains(old.id),
        old.last_font_index_revision != Some(revision),
    ensures
        !known(c, existing, active, config_hash, revision),
        filtered(c, false, Some(digest), existing, config_hash, revision) is Ready,
{
    reveal_strlit("partial");
    reveal_strlit("success");
    assert("partial"@[0] != "success"@[0]);
}

/// No second job is made for a file that a job waits for or works on.
pub proof fn law_active_left_alone(
    c: CandidateView,
    existing: Map<Seq<char>, ExistingSubtitle>,
    active: Set<i64>,
    config_hash: Seq<char>,
    revision: i64,
)
    requires
        remembered(existing, c.path) matches Some(old) && active.contains(old.id),
    ensures
        known(c, existing, active, config_hash, revision),
{
}

/// A file that no job waits for or works on is looked at wherever its size or
/// its time is not the one that is remembered.
pub proof fn law_changed_file_looked_at(
    c: CandidateView,
    existing: Map<Seq<char>, ExistingSubtitle>,
    active: Set<i64>,
    config_hash: Seq<char>,
    revision: i64,
)
    requires
        existing.contains_key(c.path) ==> !active.contains(existing[c.path].id) && (
        existing[c.path].size != c.size || existing[c.path].mtime != c.mtime),
    ensures
        !known(c, existing, active, config_hash, revision),
{
}

/// A file that is new, or that holds something else than what was converted
/// last, is to be converted, under the digest that it has now.
pub proof fn law_changed_content_converted(
    c: CandidateView,
    digest: Seq<char>,
    existing: Map<Seq<char>, ExistingSubtitle>,
    config_hash: Seq<char>,
    revision: i64,
)
    requires
        existing.contains_key(c.path) ==> existing[c.path].sha256@ != digest,
    ensures
        filtered(c, false, Some(digest), existing, config_hash, revision) matches FilteredView::Ready(
            q,
        ) && q.meta == c && q.sha256 == digest,
{
}

/// A file whose last conversion came to nothing is tried again, whether it has
/// changed or not.
pub proof fn law_failed_tried_again(
    c: CandidateView,
    digest: Seq<char>,
    existing: Map<Seq<char>, ExistingSubtitle>,
    active: Set<i64>,
    config_hash: Seq<char>,
    revision: i64,
)
    requires
        existing.contains_key(c.path) ==> !active.contains(existing[c.path].id) && match
        existing[c.path].last_status {
            Some(s) => s@ != "success"@ && s@ != "partial"@,
            None => true,
        },
    ensures
        !known(c, existing, active, config_hash, revision),
        filtered(c, false, Some(digest), existing, config_hash, revision) matches FilteredView::Ready(
            q,
        ) && q.meta == c && q.sha256 == digest,
{
}

/// A file is left alone without a look while its size and its time are those of
/// a conversion with the same options that succeeded, or that missed fonts which
/// the index has not got since.
pub proof fn law_converted_left_alone(
    c: CandidateView,
    existing: Map<Seq<char>, ExistingSubtitle>,
    active: Set<i64>,
    config_hash: Seq<char>,
    revision: i64,
)
    requires
        existing.contains_key(c.path),
        existing[c.path].size == c.size,
        existing[c.path].mtime == c.mtime,
        existing[c.path].last_config_hash matches Some(h) && h@ == config_hash,
        existing[c.path].last_status matches Some(s) && (s@ == "success"@ || s@ == "partial"@
            && existing[c.path].last_font_index_revision == Some(revision)),
    ensures
        known(c, existing, active, config_hash, revision),
        filtered(c, false, Some(existing[c.path].sha256@), existing, config_hash, revision)
            matches FilteredView::Unchanged { sha256 } && sha256 == existing[c.path].sha256@,
{
}

/// A file that was subset already is never converted, whatever is remembered of
/// it, and neither is one that has no digest.
pub proof fn law_subset_never_converted(
    c: CandidateView,
    digest: Option<Seq<char>>,
    existing: Map<Seq<char>, ExistingSubtitle>,
    config_hash: Seq<char>,
    revision: i64,
)
    ensures
        filtered(c, true, digest, existing, config_hash, revision) matches
            FilteredView::AlreadySubsetted { fingerprint } && fingerprint == "metadata:"@
            + signed_decimal(c.size as int) + ":"@ + signed_decimal(c.mtime as int),
        filtered(c, false, None, existing, config_hash, revision) is NoDigest,
{
}

/// A file is a subtitle by its ending, in letters of either case; one without an
/// ending is none.
pub proof fn law_subtitle_by_ending(dir: Seq<char>, base: Seq<char>, ext: Seq<char>)
    requires
        base.len() > 0,
        dir.len() > 0,
        dir.last() != '/',
        is_name(base + seq!['.'] + ext),
        forall|i: int| 0 <= i < ext.len() ==> (#[trigger] ext[i]) != '.',
    ensures
        subtitle_path(joined(dir, base + seq!['.'] + ext)) <==> lowered(ext) == "ass"@ || lowered(ext)
            == "ssa"@,
        extension(dir) is None ==> !subtitle_path(dir),
{
    law_extension_after_dot(dir, base, ext);
}

/// A file right below a root is shown by its name, with slashes.
pub proof fn law_shown_below_root(root: Seq<char>, name: Seq<char>, i: int)
    requires
        is_name(name),
        root.len() > 0,
        root.last() != '/',
        components(root).len() > 0,
        0 <= i < name.len(),
    ensures
        ({
            let shown = shown_path(joined(root, name), root);
            &&& shown.len() == name.len()
            &&& name[i] != '\\' ==> shown[i] == name[i]
            &&& name[i] == '\\' ==> shown[i] == '/'
        }),
{
    law_file_in_directory(root, name);
}

} // verus!
