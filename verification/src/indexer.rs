//! Keeping the index of fonts: which files are read again, which names their
//! faces have, and which entries are dropped.
use vstd::hash_map::StringHashMap;
use vstd::hash_set::StringHashSet;
use vstd::prelude::*;

use crate::ass::style::{lookup_name, normalize_lookup_name};
use crate::font_inspect::{face_views, faces, inspect_font, string_of};
use crate::fs_walk::{DiscoveredFile, WalkOptions};
use crate::models::FontFaceInfo;
use crate::path::{
    extension, extension_of, is_name, is_under, joined, law_extension_after_dot, lies_under,
};
use crate::text::{lower_chars, lowered, push_text, same_text, texts, to_chars, to_text};

verus! {

/// How many files are read and written at once.
pub const INDEX_WRITE_BATCH_SIZE: usize = 500;

/// What a walk for fonts looks for.
pub fn font_walk_options() -> (r: WalkOptions)
    ensures
        r.follow_links,
        r.extensions@ == seq!["ttf", "otf", "ttc", "otc", "woff", "woff2"],
        r.ignored_directories@.len() == 0,
{
    WalkOptions {
        follow_links: true,
        extensions: &["ttf", "otf", "ttc", "otc", "woff", "woff2"],
        ignored_directories: &[],
    }
}

/// What a rebuild of the index came to, and how long it took in milliseconds.
#[derive(Clone, Copy, Debug, PartialEq, Eq, Structural)]
pub struct IndexSummary {
    pub scanned: usize,
    pub indexed: usize,
    pub skipped: usize,
    pub failed: usize,
    pub fallback_used: usize,
    pub pruned: usize,
    pub walk_ms: u128,
    pub inspect_ms: u128,
    pub write_ms: u128,
}

pub open spec fn empty_index() -> IndexSummary {
    IndexSummary {
        scanned: 0,
        indexed: 0,
        skipped: 0,
        failed: 0,
        fallback_used: 0,
        pruned: 0,
        walk_ms: 0,
        inspect_ms: 0,
        write_ms: 0,
    }
}

impl Default for IndexSummary {
    fn default() -> (r: Self)
        ensures
            r == empty_index(),
    {
        IndexSummary {
            scanned: 0,
            indexed: 0,
            skipped: 0,
            failed: 0,
            fallback_used: 0,
            pruned: 0,
            walk_ms: 0,
            inspect_ms: 0,
            write_ms: 0,
        }
    }
}

// ---------------------------------------------------------------------------
// Files
// ---------------------------------------------------------------------------
/// A font file, and its entry in the index where it has one.
#[derive(Clone, Debug)]
pub struct FontMeta {
    pub path: String,
    pub size: i64,
    pub mtime: i64,
    pub format: String,
    pub existing_id: Option<i64>,
}

#[verifier::ext_equal]
pub struct FontMetaView {
    pub path: Seq<char>,
    pub size: i64,
    pub mtime: i64,
    pub format: Seq<char>,
    pub existing_id: Option<i64>,
}

impl View for FontMeta {
    type V = FontMetaView;

    open spec fn view(&self) -> FontMetaView {
        FontMetaView {
            path: self.path@,
            size: self.size,
            mtime: self.mtime,
            format: self.format@,
            existing_id: self.existing_id,
        }
    }
}

/// The format of a font file: its extension in lower case.
pub open spec fn format_of(path: Seq<char>) -> Seq<char> {
    match extension(path) {
        Some(e) => lowered(e),
        None => seq![],
    }
}

pub fn font_meta(file: DiscoveredFile) -> (r: FontMeta)
    ensures
        r@ == (FontMetaView {
            path: file.path@,
            size: file.size,
            mtime: file.mtime,
            format: format_of(file.path@),
            existing_id: None,
        }),
{
    let format = match extension_of(file.path.as_str()) {
        Some(e) => lower_chars(e.as_slice()),
        None => Vec::new(),
    };
    assert(format@ =~= format_of(file.path@));
    FontMeta {
        path: file.path,
        size: file.size,
        mtime: file.mtime,
        format: to_text(format.as_slice()),
        existing_id: None,
    }
}

/// What the index holds of a file.
#[derive(Clone, Debug)]
pub struct ExistingMeta {
    pub id: i64,
    pub size: i64,
    pub mtime: i64,
    pub status: String,
}

#[verifier::ext_equal]
pub struct ExistingMetaView {
    pub id: i64,
    pub size: i64,
    pub mtime: i64,
    pub status: Seq<char>,
}

impl View for ExistingMeta {
    type V = ExistingMetaView;

    open spec fn view(&self) -> ExistingMetaView {
        ExistingMetaView {
            id: self.id,
            size: self.size,
            mtime: self.mtime,
            status: self.status@,
        }
    }
}

/// The files in the index, in the order in which they were listed.
pub struct KnownFonts {
    paths: Vec<String>,
    by_path: StringHashMap<ExistingMeta>,
}

#[verifier::ext_equal]
pub struct KnownView {
    pub paths: Seq<Seq<char>>,
    pub by_path: Map<Seq<char>, ExistingMeta>,
}

impl View for KnownFonts {
    type V = KnownView;

    closed spec fn view(&self) -> KnownView {
        KnownView { paths: texts(self.paths@), by_path: self.by_path@ }
    }
}

/// Every path that is listed has an entry.
pub open spec fn listed(k: KnownView) -> bool {
    forall|i: int| 0 <= i < k.paths.len() ==> k.by_path.contains_key(#[trigger] k.paths[i])
}

/// What the index holds of a path.
pub open spec fn known_font(k: KnownView, path: Seq<char>) -> Option<ExistingMetaView> {
    if k.by_path.contains_key(path) {
        Some(k.by_path[path]@)
    } else {
        None
    }
}

impl KnownFonts {
    pub fn new() -> (r: KnownFonts)
        ensures
            r@ == (KnownView {
                paths: seq![],
                by_path: Map::<Seq<char>, ExistingMeta>::empty(),
            }),
            listed(r@),
    {
        let r = KnownFonts { paths: Vec::new(), by_path: StringHashMap::new() };
        assert(r@.paths =~= seq![]);
        r
    }

    /// Lists a file of the index.
    pub fn insert(&mut self, path: String, meta: ExistingMeta)
        requires
            listed(old(self)@),
        ensures
            listed(final(self)@),
            final(self)@ == (KnownView {
                paths: if old(self)@.by_path.contains_key(path@) {
                    old(self)@.paths
                } else {
                    old(self)@.paths.push(path@)
                },
                by_path: old(self)@.by_path.insert(path@, meta),
            }),
    {
        let ghost before = self@;
        let ghost pv = path@;
        if !self.by_path.contains_key(path.as_str()) {
            self.paths.push(path.clone());
            assert(texts(self.paths@) =~= before.paths.push(pv));
        }
        self.by_path.insert(path, meta);
        assert forall|i: int| 0 <= i < self@.paths.len() implies self@.by_path.contains_key(
            #[trigger] self@.paths[i],
        ) by {
            if i < before.paths.len() {
                assert(self@.paths[i] == before.paths[i]);
            }
        }
    }

    pub fn get(&self, path: &str) -> (r: Option<&ExistingMeta>)
        ensures
            match r {
                Some(m) => known_font(self@, path@) == Some(m@),
                None => known_font(self@, path@) is None,
            },
    {
        self.by_path.get(path)
    }
}

/// Whether the path lies under one of the roots.
pub open spec fn under_roots(path: Seq<char>, roots: Seq<Seq<char>>) -> bool {
    exists|i: int| 0 <= i < roots.len() && lies_under(path, #[trigger] roots[i])
}

pub fn path_is_under_roots(path: &str, roots: &Vec<String>) -> (r: bool)
    ensures
        r == under_roots(path@, texts(roots@)),
{
    let ghost v = texts(roots@);
    let mut i: usize = 0;
    while i < roots.len()
        invariant
            i <= roots@.len(),
            v == texts(roots@),
            forall|j: int| 0 <= j < i ==> !lies_under(path@, #[trigger] v[j]),
        decreases roots@.len() - i,
    {
        assert(v[i as int] == roots@[i as int]@);
        if is_under(path, roots[i].as_str()) {
            return true;
        }
        i = i + 1;
    }
    false
}

/// The entries among the first `n` that are dropped: their files were not found
/// again under roots that were walked to the end.
pub open spec fn stale_upto(
    k: KnownView,
    seen: Set<Seq<char>>,
    roots: Seq<Seq<char>>,
    n: int,
) -> Seq<i64>
    decreases n,
{
    if n <= 0 {
        seq![]
    } else {
        let before = stale_upto(k, seen, roots, n - 1);
        let p = k.paths[n - 1];
        if !seen.contains(p) && under_roots(p, roots) {
            before.push(k.by_path[p].id)
        } else {
            before
        }
    }
}

// ---------------------------------------------------------------------------
// Names
// ---------------------------------------------------------------------------
/// A name under which a face is found.
#[derive(Debug)]
pub struct NameInsert {
    pub face_id: i64,
    pub name: String,
    pub normalized: String,
    pub kind: String,
}

#[verifier::ext_equal]
pub struct NameView {
    pub face_id: i64,
    pub name: Seq<char>,
    pub normalized: Seq<char>,
    pub kind: Seq<char>,
}

impl View for NameInsert {
    type V = NameView;

    open spec fn view(&self) -> NameView {
        NameView {
            face_id: self.face_id,
            name: self.name@,
            normalized: self.normalized@,
            kind: self.kind@,
        }
    }
}

pub open spec fn name_views(v: Seq<NameInsert>) -> Seq<NameView> {
    Seq::new(v.len(), |i: int| v[i]@)
}

/// Whether one of the names is of the kind and has the lookup name.
pub open spec fn has_name(v: Seq<NameView>, normalized: Seq<char>, kind: Seq<char>) -> bool {
    exists|i: int|
        0 <= i < v.len() && (#[trigger] v[i]).normalized == normalized && v[i].kind == kind
}

/// The names of a face with one more: a name that is blank, or that the face has
/// already under the same kind, changes nothing.
pub open spec fn with_name(
    v: Seq<NameView>,
    face_id: i64,
    name: Seq<char>,
    kind: Seq<char>,
) -> Seq<NameView> {
    if lookup_name(name).len() == 0 || has_name(v, lookup_name(name), kind) {
        v
    } else {
        v.push(NameView { face_id, name, normalized: lookup_name(name), kind })
    }
}

/// The names of a face with another, where there is one.
pub open spec fn with_some_name(
    v: Seq<NameView>,
    face_id: i64,
    name: Option<Seq<char>>,
    kind: Seq<char>,
) -> Seq<NameView> {
    match name {
        Some(n) => with_name(v, face_id, n, kind),
        None => v,
    }
}

pub open spec fn names_upto(
    face_id: i64,
    names: Seq<(Seq<char>, Seq<char>)>,
    n: int,
) -> Seq<NameView>
    decreases n,
{
    if n <= 0 {
        seq![]
    } else {
        with_name(names_upto(face_id, names, n - 1), face_id, names[n - 1].0, names[n - 1].1)
    }
}

/// The names under which a face is found: the names of its name table, its
/// family, its full name and its PostScript name.
pub open spec fn face_names(face_id: i64, face: crate::font_inspect::FaceView) -> Seq<NameView> {
    with_some_name(
        with_some_name(
            with_some_name(
                names_upto(face_id, face.names, face.names.len() as int),
                face_id,
                face.family,
                "family"@,
            ),
            face_id,
            face.full_name,
            "full"@,
        ),
        face_id,
        face.postscript_name,
        "postscript"@,
    )
}

fn contains_name(v: &Vec<NameInsert>, normalized: &str, kind: &str) -> (r: bool)
    ensures
        r == has_name(name_views(v@), normalized@, kind@),
{
    let mut i: usize = 0;
    while i < v.len()
        invariant
            i <= v@.len(),
            forall|j: int|
                0 <= j < i ==> !((#[trigger] name_views(v@)[j]).normalized == normalized@
                    && name_views(v@)[j].kind == kind@),
        decreases v@.len() - i,
    {
        if same_text(v[i].normalized.as_str(), normalized) && same_text(v[i].kind.as_str(), kind) {
            assert(name_views(v@)[i as int].normalized == normalized@);
            return true;
        }
        i = i + 1;
    }
    false
}

pub fn push_name(out: &mut Vec<NameInsert>, face_id: i64, name: &str, kind: &str)
    ensures
        name_views(final(out)@) == with_name(name_views(old(out)@), face_id, name@, kind@),
{
    let normalized = normalize_lookup_name(name);
    if normalized.as_str().is_empty() || contains_name(out, normalized.as_str(), kind) {
        return ;
    }
    let ghost had = name_views(out@);
    out.push(
        NameInsert { face_id, name: name.to_string(), normalized, kind: kind.to_string() },
    );
    assert(name_views(out@) =~= with_name(had, face_id, name@, kind@));
}

pub fn add_name_if_present(
    out: &mut Vec<NameInsert>,
    face_id: i64,
    name: &Option<String>,
    kind: &str,
)
    ensures
        name_views(final(out)@) == with_some_name(
            name_views(old(out)@),
            face_id,
            string_of(*name),
            kind@,
        ),
{
    if let Some(n) = name {
        push_name(out, face_id, n.as_str(), kind);
    }
}

/// The names under which a face is found.
pub fn collect_face_names(face_id: i64, face: &FontFaceInfo) -> (r: Vec<NameInsert>)
    ensures
        name_views(r@) == face_names(face_id, face@),
{
    let mut out: Vec<NameInsert> = Vec::new();
    let ghost v = face@.names;
    assert(name_views(out@) =~= seq![]);
    let mut i: usize = 0;
    while i < face.names.len()
        invariant
            i <= face.names@.len(),
            v == face@.names,
            name_views(out@) == names_upto(face_id, v, i as int),
        decreases face.names@.len() - i,
    {
        assert(v[i as int] == (face.names@[i as int].name@, face.names@[i as int].kind@));
        push_name(&mut out, face_id, face.names[i].name.as_str(), face.names[i].kind.as_str());
        i = i + 1;
    }
    add_name_if_present(&mut out, face_id, &face.family, "family");
    add_name_if_present(&mut out, face_id, &face.full_name, "full");
    add_name_if_present(&mut out, face_id, &face.postscript_name, "postscript");
    out
}

// ---------------------------------------------------------------------------
// Reading a file
// ---------------------------------------------------------------------------
/// What is said of a file that neither reader could read.
pub open spec fn both_failed(fast: Seq<char>, fallback: Seq<char>) -> Seq<char> {
    "fast sfnt inspect failed: "@ + fast + "; fontTools fallback failed: "@ + fallback
}

/// The faces of a file, and whether the second reader found them.
#[derive(Debug)]
pub struct InspectOutcome {
    pub faces: Vec<FontFaceInfo>,
    pub used_fallback: bool,
}

/// Reads a file with the first reader: its faces, or what is said of its error.
pub fn inspect_font_for_index(data: &[u8]) -> (r: Result<InspectOutcome, String>)
    ensures
        match (faces(data@), r) {
            (Ok(v), Ok(o)) => face_views(o.faces@) == v && !o.used_fallback,
            (Err(e), Err(m)) => m@ == e.text(),
            _ => false,
        },
{
    match inspect_font(data) {
        Ok(v) => Ok(InspectOutcome { faces: v, used_fallback: false }),
        Err(e) => Err(e.message()),
    }
}

/// What follows the second reader, which was asked after the first one failed.
pub fn after_fallback_inspect(fast: &str, r: Result<Vec<FontFaceInfo>, String>) -> (o: Result<
    InspectOutcome,
    String,
>)
    ensures
        match (r, o) {
            (Ok(faces), Ok(x)) => x.faces == faces && x.used_fallback,
            (Err(e), Err(both)) => both@ == both_failed(fast@, e@),
            _ => false,
        },
{
    match r {
        Ok(faces) => Ok(InspectOutcome { faces, used_fallback: true }),
        Err(e) => {
            let mut out = to_chars("fast sfnt inspect failed: ");
            push_text(&mut out, fast);
            push_text(&mut out, "; fontTools fallback failed: ");
            push_text(&mut out, e.as_str());
            assert(out@ =~= both_failed(fast@, e@));
            Err(to_text(out.as_slice()))
        },
    }
}

// ---------------------------------------------------------------------------
// A rebuild
// ---------------------------------------------------------------------------
/// A file that was read.
#[derive(Debug)]
pub struct IndexedFont {
    pub meta: FontMeta,
    pub faces: Vec<FontFaceInfo>,
}

/// A file that could not be read.
#[derive(Debug)]
pub struct FailedFont {
    pub meta: FontMeta,
    pub error: String,
}

/// What the walk found.
#[derive(Clone, Copy, Debug, PartialEq, Eq, Structural)]
pub enum Found {
    /// A file that was found before.
    Again,
    /// A file that is as the index has it.
    Unchanged,
    /// A file to be read.
    Changed,
}

/// A rebuild of the index under way.
pub struct IndexRun {
    summary: IndexSummary,
    seen: StringHashSet,
    batch: Vec<FontMeta>,
    indexed: Vec<IndexedFont>,
    failed: Vec<FailedFont>,
    roots: Vec<String>,
}

#[verifier::ext_equal]
pub struct IndexView {
    pub summary: IndexSummary,
    /// The files that were found.
    pub seen: Set<Seq<char>>,
    /// Those that are to be read.
    pub batch: Seq<FontMetaView>,
    /// Those that were read, and those that could not be.
    pub indexed: Seq<IndexedFont>,
    pub failed: Seq<FailedFont>,
    /// The roots that were walked to the end.
    pub roots: Seq<Seq<char>>,
}

pub open spec fn meta_views(v: Seq<FontMeta>) -> Seq<FontMetaView> {
    Seq::new(v.len(), |i: int| v[i]@)
}

impl View for IndexRun {
    type V = IndexView;

    closed spec fn view(&self) -> IndexView {
        IndexView {
            summary: self.summary,
            seen: self.seen@,
            batch: meta_views(self.batch@),
            indexed: self.indexed@,
            failed: self.failed@,
            roots: texts(self.roots@),
        }
    }
}

/// What a file is to the index.
pub open spec fn found_as(s: IndexView, k: KnownView, path: Seq<char>, size: i64, mtime: i64) -> Found {
    if s.seen.contains(path) {
        Found::Again
    } else {
        match known_font(k, path) {
            Some(old) => if old.size == size && old.mtime == mtime && old.status == "ok"@ {
                Found::Unchanged
            } else {
                Found::Changed
            },
            None => Found::Changed,
        }
    }
}

/// The state once a file was found.
pub open spec fn after_found(
    s: IndexView,
    k: KnownView,
    path: Seq<char>,
    size: i64,
    mtime: i64,
) -> IndexView {
    match found_as(s, k, path, size, mtime) {
        Found::Again => IndexView {
            summary: IndexSummary { skipped: (s.summary.skipped + 1) as usize, ..s.summary },
            ..s
        },
        Found::Unchanged => IndexView {
            summary: IndexSummary {
                scanned: (s.summary.scanned + 1) as usize,
                skipped: (s.summary.skipped + 1) as usize,
                ..s.summary
            },
            seen: s.seen.insert(path),
            ..s
        },
        Found::Changed => IndexView {
            summary: IndexSummary { scanned: (s.summary.scanned + 1) as usize, ..s.summary },
            seen: s.seen.insert(path),
            batch: s.batch.push(
                FontMetaView {
                    path,
                    size,
                    mtime,
                    format: format_of(path),
                    existing_id: match known_font(k, path) {
                        Some(old) => Some(old.id),
                        None => None,
                    },
                },
            ),
            ..s
        },
    }
}

/// Whether so many results are written now.
pub open spec fn flush_due(n: int, force: bool) -> bool {
    n > 0 && (force || n >= INDEX_WRITE_BATCH_SIZE)
}

impl IndexRun {
    pub fn start() -> (r: IndexRun)
        ensures
            r@ == (IndexView {
                summary: empty_index(),
                seen: Set::empty(),
                batch: seq![],
                indexed: seq![],
                failed: seq![],
                roots: seq![],
            }),
    {
        let r = IndexRun {
            summary: IndexSummary::default(),
            seen: StringHashSet::new(),
            batch: Vec::new(),
            indexed: Vec::new(),
            failed: Vec::new(),
            roots: Vec::new(),
        };
        assert(r@.batch =~= seq![]);
        assert(r@.roots =~= seq![]);
        r
    }

    /// Takes a file that the walk of a root found.
    pub fn discovered(&mut self, file: DiscoveredFile, known: &KnownFonts) -> (r: Found)
        requires
            old(self)@.summary.scanned < usize::MAX,
            old(self)@.summary.skipped < usize::MAX,
        ensures
            r == found_as(old(self)@, known@, file.path@, file.size, file.mtime),
            final(self)@ == after_found(old(self)@, known@, file.path@, file.size, file.mtime),
    {
        let ghost before = self@;
        if self.seen.contains(file.path.as_str()) {
            self.summary.skipped = self.summary.skipped + 1;
            return Found::Again;
        }
        self.seen.insert(file.path.clone());
        self.summary.scanned = self.summary.scanned + 1;
        let mut meta = font_meta(file);
        if let Some(old) = known.get(meta.path.as_str()) {
            if old.size == meta.size && old.mtime == meta.mtime && same_text(
                old.status.as_str(),
                "ok",
            ) {
                self.summary.skipped = self.summary.skipped + 1;
                return Found::Unchanged;
            }
            meta.existing_id = Some(old.id);
        }
        let ghost m = meta@;
        self.batch.push(meta);
        assert(self@.batch =~= before.batch.push(m));
        Found::Changed
    }

    /// Counts something that could not be walked.
    pub fn walk_failed(&mut self)
        requires
            old(self)@.summary.failed < usize::MAX,
        ensures
            final(self)@ == (IndexView {
                summary: IndexSummary {
                    failed: (old(self)@.summary.failed + 1) as usize,
                    ..old(self)@.summary
                },
                ..old(self)@
            }),
    {
        self.summary.failed = self.summary.failed + 1;
    }

    /// Takes how the walk of a root ended.
    pub fn root_walked(&mut self, root: &str, complete: bool)
        ensures
            final(self)@ == (IndexView {
                roots: if complete {
                    old(self)@.roots.push(root@)
                } else {
                    old(self)@.roots
                },
                ..old(self)@
            }),
    {
        if complete {
            let ghost had = texts(self.roots@);
            self.roots.push(root.to_string());
            assert(texts(self.roots@) =~= had.push(root@));
        }
    }

    /// The files to read, where there are enough of them or no more will come.
    pub fn take_batch(&mut self, force: bool) -> (r: Option<Vec<FontMeta>>)
        ensures
            match r {
                Some(v) => {
                    &&& flush_due(old(self)@.batch.len() as int, force)
                    &&& meta_views(v@) == old(self)@.batch
                    &&& final(self)@ == (IndexView { batch: seq![], ..old(self)@ })
                },
                None => {
                    &&& !flush_due(old(self)@.batch.len() as int, force)
                    &&& final(self)@ == old(self)@
                },
            },
    {
        if self.batch.len() == 0 || (!force && self.batch.len() < INDEX_WRITE_BATCH_SIZE) {
            return None;
        }
        let mut v: Vec<FontMeta> = Vec::new();
        std::mem::swap(&mut v, &mut self.batch);
        assert(self@.batch =~= seq![]);
        Some(v)
    }

    /// Takes what came of reading a file.
    pub fn inspected(&mut self, meta: FontMeta, outcome: Result<InspectOutcome, String>)
        requires
            old(self)@.summary.indexed < usize::MAX,
            old(self)@.summary.fallback_used < usize::MAX,
            old(self)@.summary.failed < usize::MAX,
        ensures
            match outcome {
                Ok(o) => final(self)@ == (IndexView {
                    summary: IndexSummary {
                        indexed: (old(self)@.summary.indexed + 1) as usize,
                        fallback_used: (old(self)@.summary.fallback_used + if o.used_fallback {
                            1int
                        } else {
                            0
                        }) as usize,
                        ..old(self)@.summary
                    },
                    indexed: old(self)@.indexed.push(IndexedFont { meta, faces: o.faces }),
                    ..old(self)@
                }),
                Err(error) => final(self)@ == (IndexView {
                    summary: IndexSummary {
                        failed: (old(self)@.summary.failed + 1) as usize,
                        ..old(self)@.summary
                    },
                    failed: old(self)@.failed.push(FailedFont { meta, error }),
                    ..old(self)@
                }),
            },
    {
        match outcome {
            Ok(o) => {
                self.summary.indexed = self.summary.indexed + 1;
                if o.used_fallback {
                    self.summary.fallback_used = self.summary.fallback_used + 1;
                }
                self.indexed.push(IndexedFont { meta, faces: o.faces });
            },
            Err(error) => {
                self.summary.failed = self.summary.failed + 1;
                self.failed.push(FailedFont { meta, error });
            },
        }
    }

    /// The results to write, where there are enough of them or no more will come.
    pub fn take_results(&mut self, force: bool) -> (r: Option<(Vec<IndexedFont>, Vec<FailedFont>)>)
        ensures
            ({
                let n = old(self)@.indexed.len() + old(self)@.failed.len();
                match r {
                    Some((a, b)) => {
                        &&& flush_due(n as int, force)
                        &&& a@ == old(self)@.indexed
                        &&& b@ == old(self)@.failed
                        &&& final(self)@ == (IndexView {
                            indexed: seq![],
                            failed: seq![],
                            ..old(self)@
                        })
                    },
                    None => !flush_due(n as int, force) && final(self)@ == old(self)@,
                }
            }),
    {
        let n: u128 = self.indexed.len() as u128 + self.failed.len() as u128;
        if n == 0 || (!force && n < INDEX_WRITE_BATCH_SIZE as u128) {
            return None;
        }
        let mut a: Vec<IndexedFont> = Vec::new();
        let mut b: Vec<FailedFont> = Vec::new();
        std::mem::swap(&mut a, &mut self.indexed);
        std::mem::swap(&mut b, &mut self.failed);
        Some((a, b))
    }

    /// The entries to drop.
    pub fn stale_ids(&self, known: &KnownFonts) -> (r: Vec<i64>)
        requires
            listed(known@),
        ensures
            r@ == stale_upto(known@, self@.seen, self@.roots, known@.paths.len() as int),
    {
        let mut out: Vec<i64> = Vec::new();
        let mut i: usize = 0;
        while i < known.paths.len()
            invariant
                i <= known.paths@.len(),
                known@.paths.len() == known.paths@.len(),
                listed(known@),
                out@ == stale_upto(known@, self@.seen, self@.roots, i as int),
            decreases known.paths@.len() - i,
        {
            let p = known.paths[i].as_str();
            assert(known@.paths[i as int] == p@);
            if !self.seen.contains(p) && path_is_under_roots(p, &self.roots) {
                if let Some(m) = known.by_path.get(p) {
                    out.push(m.id);
                }
            }
            i = i + 1;
        }
        out
    }

    /// Counts the entries that were dropped.
    pub fn pruned(&mut self, n: usize)
        ensures
            final(self)@ == (IndexView {
                summary: IndexSummary { pruned: n, ..old(self)@.summary },
                ..old(self)@
            }),
    {
        self.summary.pruned = n;
    }

    /// Adds the time that writing took.
    pub fn wrote_for(&mut self, ms: u128)
        requires
            old(self)@.summary.write_ms + ms <= u128::MAX,
        ensures
            final(self)@ == (IndexView {
                summary: IndexSummary {
                    write_ms: (old(self)@.summary.write_ms + ms) as u128,
                    ..old(self)@.summary
                },
                ..old(self)@
            }),
    {
        self.summary.write_ms = self.summary.write_ms + ms;
    }

    /// Adds the time that reading a batch took, without the time of writing in
    /// it: `write_before` is what writing had taken before the batch.
    pub fn inspected_for(&mut self, ms: u128, write_before: u128)
        requires
            old(self)@.summary.inspect_ms + ms <= u128::MAX,
        ensures
            final(self)@ == (IndexView {
                summary: IndexSummary {
                    inspect_ms: (old(self)@.summary.inspect_ms + less(
                        ms,
                        less(old(self)@.summary.write_ms, write_before) as u128,
                    )) as u128,
                    ..old(self)@.summary
                },
                ..old(self)@
            }),
    {
        let wrote = take_off(self.summary.write_ms, write_before);
        self.summary.inspect_ms = self.summary.inspect_ms + take_off(ms, wrote);
    }

    /// Sets the time that the walk took: all the time, without that of reading
    /// and writing.
    pub fn walked_for(&mut self, ms: u128)
        ensures
            final(self)@ == (IndexView {
                summary: IndexSummary {
                    walk_ms: less(
                        less(ms, old(self)@.summary.inspect_ms) as u128,
                        old(self)@.summary.write_ms,
                    ) as u128,
                    ..old(self)@.summary
                },
                ..old(self)@
            }),
    {
        let rest = take_off(ms, self.summary.inspect_ms);
        self.summary.walk_ms = take_off(rest, self.summary.write_ms);
    }

    /// Whether a root was walked to the end.
    pub fn has_complete_root(&self) -> (r: bool)
        ensures
            r == (self@.roots.len() > 0),
    {
        self.roots.len() > 0
    }

    /// Whether the index changed.
    pub fn changed(&self) -> (r: bool)
        ensures
            r == index_changed(self@.summary),
    {
        self.summary.indexed > 0 || self.summary.failed > 0 || self.summary.pruned > 0
    }

    pub fn summary(&self) -> (r: IndexSummary)
        ensures
            r == self@.summary,
    {
        self.summary
    }
}

/// One time less another, and nothing where that is more.
pub open spec fn less(a: u128, b: u128) -> int {
    if a >= b {
        a - b
    } else {
        0
    }
}

fn take_off(a: u128, b: u128) -> (r: u128)
    ensures
        r == less(a, b),
{
    if a >= b {
        a - b
    } else {
        0
    }
}

/// Whether a rebuild changed the index: something was read, failed or dropped.
pub open spec fn index_changed(s: IndexSummary) -> bool {
    s.indexed > 0 || s.failed > 0 || s.pruned > 0
}

// ---------------------------------------------------------------------------
// Laws
// ---------------------------------------------------------------------------
/// Only files that lie under a root that was walked to the end, and that were not
/// found, are dropped; all of those are.
pub proof fn law_pruning_scoped(
    k: KnownView,
    seen: Set<Seq<char>>,
    roots: Seq<Seq<char>>,
    id: i64,
    n: int,
)
    requires
        0 <= n <= k.paths.len(),
    ensures
        stale_upto(k, seen, roots, n).contains(id) <==> exists|i: int|
            0 <= i < n && !seen.contains(#[trigger] k.paths[i]) && under_roots(k.paths[i], roots)
                && k.by_path[k.paths[i]].id == id,
    decreases n,
{
    if n > 0 {
        law_pruning_scoped(k, seen, roots, id, n - 1);
        let before = stale_upto(k, seen, roots, n - 1);
        let all = stale_upto(k, seen, roots, n);
        let p = k.paths[n - 1];
        let hit = !seen.contains(p) && under_roots(p, roots);
        if before.contains(id) {
            let i = choose|i: int| 0 <= i < before.len() && before[i] == id;
            assert(all[i] == id);
        }
        if hit && k.by_path[p].id == id {
            assert(all[all.len() - 1] == id);
        }
        if all.contains(id) && !before.contains(id) {
            let i = choose|i: int| 0 <= i < all.len() && all[i] == id;
            assert(i == before.len());
            assert(hit && k.by_path[p].id == id);
        }
    }
}

/// Where no root was walked to the end, nothing is dropped.
pub proof fn law_unwalked_kept(k: KnownView, seen: Set<Seq<char>>, n: int)
    requires
        0 <= n <= k.paths.len(),
    ensures
        stale_upto(k, seen, seq![], n).len() == 0,
    decreases n,
{
    if n > 0 {
        law_unwalked_kept(k, seen, n - 1);
    }
}

/// Only files whose size or time differs from the index, or that it does not have
/// in order, are read.
pub proof fn law_only_changed_read(s: IndexView, k: KnownView, path: Seq<char>, size: i64, mtime: i64)
    ensures
        ({
            let next = after_found(s, k, path, size, mtime);
            let same = known_font(k, path) matches Some(old) && old.size == size && old.mtime
                == mtime && old.status == "ok"@;
            &&& s.seen.contains(path) || same ==> next.batch == s.batch
            &&& !s.seen.contains(path) && !same ==> {
                &&& next.batch.len() == s.batch.len() + 1
                &&& next.batch.drop_last() == s.batch
                &&& next.batch.last().path == path
            }
        }),
{
    let next = after_found(s, k, path, size, mtime);
    if found_as(s, k, path, size, mtime) == Found::Changed {
        assert(next.batch.drop_last() =~= s.batch);
    }
}

/// Each file is read once at most, however many roots it lies under.
pub proof fn law_found_once(
    s: IndexView,
    k: KnownView,
    path: Seq<char>,
    size: i64,
    mtime: i64,
)
    ensures
        found_as(after_found(s, k, path, size, mtime), k, path, size, mtime) == Found::Again,
{
}

/// No name of a face occurs twice under the same kind, and none is blank.
pub open spec fn names_clean(v: Seq<NameView>) -> bool {
    &&& forall|i: int| 0 <= i < v.len() ==> (#[trigger] v[i]).normalized.len() > 0
    &&& forall|i: int, j: int|
        0 <= i < j < v.len() ==> !(#[trigger] v[i].normalized == #[trigger] v[j].normalized
            && v[i].kind == v[j].kind)
}

proof fn lemma_with_name(v: Seq<NameView>, face_id: i64, name: Seq<char>, kind: Seq<char>)
    requires
        names_clean(v),
    ensures
        names_clean(with_name(v, face_id, name, kind)),
{
    let w = with_name(v, face_id, name, kind);
    if w != v {
        assert forall|i: int| 0 <= i < w.len() implies (#[trigger] w[i]).normalized.len() > 0 by {
            if i < v.len() {
                assert(w[i] == v[i]);
            }
        }
        assert forall|i: int, j: int| 0 <= i < j < w.len() implies !(#[trigger] w[i].normalized
            == #[trigger] w[j].normalized && w[i].kind == w[j].kind) by {
            assert(w[i] == v[i]);
            if j < v.len() {
                assert(w[j] == v[j]);
            }
        }
    }
}

/// The names of a face are clean.
pub proof fn law_face_names_clean(face_id: i64, face: crate::font_inspect::FaceView)
    ensures
        names_clean(face_names(face_id, face)),
{
    lemma_names_upto(face_id, face.names, face.names.len() as int);
    let a = names_upto(face_id, face.names, face.names.len() as int);
    if face.family is Some {
        lemma_with_name(a, face_id, face.family->0, "family"@);
    }
    let b = with_some_name(a, face_id, face.family, "family"@);
    if face.full_name is Some {
        lemma_with_name(b, face_id, face.full_name->0, "full"@);
    }
    let c = with_some_name(b, face_id, face.full_name, "full"@);
    if face.postscript_name is Some {
        lemma_with_name(c, face_id, face.postscript_name->0, "postscript"@);
    }
}

proof fn lemma_names_upto(face_id: i64, names: Seq<(Seq<char>, Seq<char>)>, n: int)
    requires
        0 <= n <= names.len(),
    ensures
        names_clean(names_upto(face_id, names, n)),
    decreases n,
{
    if n > 0 {
        lemma_names_upto(face_id, names, n - 1);
        lemma_with_name(
            names_upto(face_id, names, n - 1),
            face_id,
            names[n - 1].0,
            names[n - 1].1,
        );
    }
}

/// What is found of a name list stays found once it has more names.
proof fn lemma_name_stays(
    v: Seq<NameView>,
    face_id: i64,
    name: Seq<char>,
    kind: Seq<char>,
    n: Seq<char>,
    k: Seq<char>,
)
    ensures
        has_name(v, n, k) ==> has_name(with_name(v, face_id, name, kind), n, k),
        lookup_name(name).len() > 0 ==> has_name(
            with_name(v, face_id, name, kind),
            lookup_name(name),
            kind,
        ),
{
    let w = with_name(v, face_id, name, kind);
    if has_name(v, n, k) {
        let i = choose|i: int|
            0 <= i < v.len() && (#[trigger] v[i]).normalized == n && v[i].kind == k;
        assert(w[i] == v[i]);
    }
    if lookup_name(name).len() > 0 && !has_name(v, lookup_name(name), kind) {
        assert(w[w.len() - 1].normalized == lookup_name(name));
    }
}

proof fn lemma_listed_name(face_id: i64, names: Seq<(Seq<char>, Seq<char>)>, n: int, i: int)
    requires
        0 <= i < n <= names.len(),
        lookup_name(names[i].0).len() > 0,
    ensures
        has_name(names_upto(face_id, names, n), lookup_name(names[i].0), names[i].1),
    decreases n,
{
    let had = names_upto(face_id, names, n - 1);
    lemma_name_stays(
        had,
        face_id,
        names[n - 1].0,
        names[n - 1].1,
        lookup_name(names[i].0),
        names[i].1,
    );
    if i < n - 1 {
        lemma_listed_name(face_id, names, n - 1, i);
    }
}

/// A face is found under each of its names, in any case and with any space around
/// it: those of its name table, its family, its full name and its PostScript name.
pub proof fn law_face_found_by_every_name(
    face_id: i64,
    face: crate::font_inspect::FaceView,
    i: int,
)
    ensures
        ({
            let all = face_names(face_id, face);
            &&& 0 <= i < face.names.len() && lookup_name(face.names[i].0).len() > 0 ==> has_name(
                all,
                lookup_name(face.names[i].0),
                face.names[i].1,
            )
            &&& face.family matches Some(n) ==> lookup_name(n).len() > 0 ==> has_name(
                all,
                lookup_name(n),
                "family"@,
            )
            &&& face.full_name matches Some(n) ==> lookup_name(n).len() > 0 ==> has_name(
                all,
                lookup_name(n),
                "full"@,
            )
            &&& face.postscript_name matches Some(n) ==> lookup_name(n).len() > 0 ==> has_name(
                all,
                lookup_name(n),
                "postscript"@,
            )
            &&& forall|k: int| 0 <= k < all.len() ==> (#[trigger] all[k]).face_id == face_id
        }),
{
    let a = names_upto(face_id, face.names, face.names.len() as int);
    let b = with_some_name(a, face_id, face.family, "family"@);
    let c = with_some_name(b, face_id, face.full_name, "full"@);
    let d = with_some_name(c, face_id, face.postscript_name, "postscript"@);
    if 0 <= i < face.names.len() && lookup_name(face.names[i].0).len() > 0 {
        let (n, k) = (lookup_name(face.names[i].0), face.names[i].1);
        lemma_listed_name(face_id, face.names, face.names.len() as int, i);
        if face.family is Some {
            lemma_name_stays(a, face_id, face.family->0, "family"@, n, k);
        }
        if face.full_name is Some {
            lemma_name_stays(b, face_id, face.full_name->0, "full"@, n, k);
        }
        if face.postscript_name is Some {
            lemma_name_stays(c, face_id, face.postscript_name->0, "postscript"@, n, k);
        }
    }
    if let Some(f) = face.family {
        let n = lookup_name(f);
        lemma_name_stays(a, face_id, f, "family"@, n, "family"@);
        if face.full_name is Some {
            lemma_name_stays(b, face_id, face.full_name->0, "full"@, n, "family"@);
        }
        if face.postscript_name is Some {
            lemma_name_stays(c, face_id, face.postscript_name->0, "postscript"@, n, "family"@);
        }
    }
    if let Some(f) = face.full_name {
        let n = lookup_name(f);
        lemma_name_stays(b, face_id, f, "full"@, n, "full"@);
        if face.postscript_name is Some {
            lemma_name_stays(c, face_id, face.postscript_name->0, "postscript"@, n, "full"@);
        }
    }
    if let Some(f) = face.postscript_name {
        lemma_name_stays(c, face_id, f, "postscript"@, lookup_name(f), "postscript"@);
    }
    lemma_own_names(face_id, face.names, face.names.len() as int);
    assert forall|k: int| 0 <= k < d.len() implies (#[trigger] d[k]).face_id == face_id by {
        if k < a.len() {
            assert(d[k] == a[k]);
        } else if k < b.len() {
            assert(d[k] == b[k]);
        } else if k < c.len() {
            assert(d[k] == c[k]);
        }
    }
}

proof fn lemma_own_names(face_id: i64, names: Seq<(Seq<char>, Seq<char>)>, n: int)
    requires
        0 <= n <= names.len(),
    ensures
        forall|k: int|
            0 <= k < names_upto(face_id, names, n).len() ==> (#[trigger] names_upto(
                face_id,
                names,
                n,
            )[k]).face_id == face_id,
    decreases n,
{
    if n > 0 {
        lemma_own_names(face_id, names, n - 1);
        let had = names_upto(face_id, names, n - 1);
        let all = names_upto(face_id, names, n);
        assert forall|k: int| 0 <= k < all.len() implies (#[trigger] all[k]).face_id == face_id by {
            if k < had.len() {
                assert(all[k] == had[k]);
            }
        }
    }
}

/// A font file that is new, or whose size, time or state is not that of the index,
/// is read, with its own size and time and the entry that it has; every other file
/// is passed over, and each is counted as found once.
pub proof fn law_changed_fonts_read(
    s: IndexView,
    k: KnownView,
    path: Seq<char>,
    size: i64,
    mtime: i64,
)
    requires
        s.summary.scanned < usize::MAX,
        s.summary.skipped < usize::MAX,
    ensures
        ({
            let to = after_found(s, k, path, size, mtime);
            let known = k.by_path.contains_key(path);
            let old = k.by_path[path];
            &&& to.seen.contains(path)
            &&& s.seen.contains(path) ==> to.summary.scanned == s.summary.scanned
                && to.summary.skipped == s.summary.skipped + 1 && to.batch == s.batch
            &&& !s.seen.contains(path) ==> to.summary.scanned == s.summary.scanned + 1
            &&& !s.seen.contains(path) && known && old.size == size && old.mtime == mtime
                && old.status@ == "ok"@ ==> to.summary.skipped == s.summary.skipped + 1 && to.batch
                == s.batch
            &&& !s.seen.contains(path) && (!known || old.size != size || old.mtime != mtime
                || old.status@ != "ok"@) ==> {
                &&& to.summary.skipped == s.summary.skipped
                &&& to.batch.len() == s.batch.len() + 1
                &&& to.batch.last().path == path
                &&& to.batch.last().size == size
                &&& to.batch.last().mtime == mtime
                &&& to.batch.last().existing_id == (if known {
                    Some(old.id)
                } else {
                    None
                })
            }
        }),
{
}

/// Results are written as soon as there are 500 of them, and at the end as soon as
/// there is one.
pub proof fn law_written_in_batches(n: int, force: bool)
    requires
        0 <= n,
    ensures
        flush_due(n, false) <==> n >= 500,
        flush_due(n, true) <==> n >= 1,
{
}

/// A rebuild counts as a change where a file was read, could not be read, or was
/// dropped from the index, and not where every file was passed over.
pub proof fn law_change_noticed(s: IndexSummary)
    ensures
        index_changed(s) <==> !(s.indexed == 0 && s.failed == 0 && s.pruned == 0),
{
}

/// The time that one stage takes of another: the two stages together, or the longer
/// of the two times.
pub proof fn law_time_left(a: u128, b: u128)
    ensures
        b <= a ==> less(a, b) + b == a,
        b >= a ==> less(a, b) == 0,
{
}

/// A font that has to be read is listed with the ending of its file, in small
/// letters, as its format.
pub proof fn law_format_by_ending(
    s: IndexView,
    k: KnownView,
    dir: Seq<char>,
    base: Seq<char>,
    ext: Seq<char>,
    size: i64,
    mtime: i64,
)
    requires
        base.len() > 0,
        dir.len() > 0,
        dir.last() != '/',
        is_name(base + seq!['.'] + ext),
        forall|i: int| 0 <= i < ext.len() ==> (#[trigger] ext[i]) != '.',
        ({
            let path = joined(dir, base + seq!['.'] + ext);
            !s.seen.contains(path) && !k.by_path.contains_key(path)
        }),
    ensures
        after_found(s, k, joined(dir, base + seq!['.'] + ext), size, mtime).batch.last().format
            == lowered(ext),
{
    law_extension_after_dot(dir, base, ext);
}

} // verus!
