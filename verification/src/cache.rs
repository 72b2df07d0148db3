//! The rules of the subset cache: which files are managed, which are stale, and
//! which go when the cache is too large.
use vstd::prelude::*;
use vstd::slice::slice_subrange;

use crate::ids::{is_id, temp_beside, temp_name, temp_path_beside};
use crate::sort::{is_order, order_of};
use crate::text::{
    ends_with, ends_with_text, hex_digit, is_hex_digit, push_all, push_text, starts_with,
    starts_with_text, texts, to_chars, to_text,
};

verus! {

/// After how many seconds a use of a cache file is noted again.
pub const CACHE_TOUCH_SECONDS: u64 = 3600;

/// After how many seconds a temporary file is stale.
pub const STALE_TEMP_SECONDS: u64 = 86400;

/// To how many per cent of its limit the cache is brought down.
pub const CACHE_TARGET_PERCENT: u64 = 90;

/// What a round of maintenance did.
#[derive(Clone, Copy, Debug, PartialEq, Eq, Structural)]
pub struct CacheMaintenanceSummary {
    pub files: u64,
    pub bytes: u64,
    pub evicted_files: u64,
    pub evicted_bytes: u64,
    pub stale_temp_files: u64,
    pub deferred: bool,
    pub failed: u64,
}

impl Default for CacheMaintenanceSummary {
    fn default() -> (r: Self)
        ensures
            r == (CacheMaintenanceSummary {
                files: 0,
                bytes: 0,
                evicted_files: 0,
                evicted_bytes: 0,
                stale_temp_files: 0,
                deferred: false,
                failed: 0,
            }),
    {
        CacheMaintenanceSummary {
            files: 0,
            bytes: 0,
            evicted_files: 0,
            evicted_bytes: 0,
            stale_temp_files: 0,
            deferred: false,
            failed: 0,
        }
    }
}

// ---------------------------------------------------------------------------
// File names
// ---------------------------------------------------------------------------
/// A digest in hexadecimal.
pub open spec fn is_hash(s: Seq<char>) -> bool {
    s.len() == 64 && forall|i: int| 0 <= i < s.len() ==> is_hex_digit(#[trigger] s[i])
}

/// The text before an ending.
pub open spec fn before_end(s: Seq<char>, end: Seq<char>) -> Option<Seq<char>> {
    if ends_with(s, end) {
        Some(s.take(s.len() - end.len()))
    } else {
        None
    }
}

/// The lock of a managed cache file: a drawing font or a subset, named by a
/// digest. Every other file is left alone.
pub open spec fn lock_key(name: Seq<char>) -> Option<Seq<char>> {
    match (before_end(name, ".draw.ttf"@), before_end(name, ".ttf"@)) {
        (Some(hash), _) => if is_hash(hash) {
            Some("draw"@ + ":"@ + hash)
        } else {
            None
        },
        (None, Some(hash)) => if is_hash(hash) {
            Some("font"@ + ":"@ + hash)
        } else {
            None
        },
        _ => None,
    }
}

fn hash_chars(s: &[char]) -> (r: bool)
    ensures
        r == is_hash(s@),
{
    if s.len() != 64 {
        return false;
    }
    let mut i: usize = 0;
    while i < s.len()
        invariant
            i <= s@.len(),
            forall|j: int| 0 <= j < i ==> is_hex_digit(#[trigger] s@[j]),
        decreases s@.len() - i,
    {
        if !hex_digit(s[i]) {
            assert(!is_hex_digit(s@[i as int]));
            return false;
        }
        i = i + 1;
    }
    true
}

fn strip_end<'a>(s: &'a [char], end: &str) -> (r: Option<&'a [char]>)
    ensures
        match r {
            Some(t) => before_end(s@, end@) == Some(t@),
            None => before_end(s@, end@) is None,
        },
{
    if ends_with_text(s, end) {
        let e = to_chars(end);
        let t = slice_subrange(s, 0, s.len() - e.len());
        assert(t@ =~= s@.take(s@.len() - end@.len()));
        Some(t)
    } else {
        None
    }
}

fn lock_text(prefix: &str, hash: &[char]) -> (r: String)
    ensures
        r@ == prefix@ + ":"@ + hash@,
{
    let mut out: Vec<char> = to_chars(prefix);
    push_text(&mut out, ":");
    push_all(&mut out, hash);
    to_text(out.as_slice())
}

/// The lock of a managed cache file.
pub fn cache_lock_key(file_name: &str) -> (r: Option<String>)
    ensures
        match r {
            Some(k) => lock_key(file_name@) == Some(k@),
            None => lock_key(file_name@) is None,
        },
{
    let c = to_chars(file_name);
    let s = c.as_slice();
    if let Some(hash) = strip_end(s, ".draw.ttf") {
        if hash_chars(hash) {
            return Some(lock_text("draw", hash));
        }
        return None;
    }
    if let Some(hash) = strip_end(s, ".ttf") {
        if hash_chars(hash) {
            return Some(lock_text("font", hash));
        }
    }
    None
}

/// Whether a file is a temporary file that nobody will finish. The age is
/// missing where the file is newer than the clock.
pub open spec fn stale_temp(name: Seq<char>, age: Option<u64>) -> bool {
    starts_with(name, "."@) && ends_with(name, ".tmp"@) && age is Some && age->0
        >= STALE_TEMP_SECONDS
}

pub fn is_stale_temp_file(file_name: &str, age: Option<u64>) -> (r: bool)
    ensures
        r == stale_temp(file_name@, age),
{
    let c = to_chars(file_name);
    starts_with_text(c.as_slice(), ".") && ends_with_text(c.as_slice(), ".tmp") && match age {
        Some(a) => a >= STALE_TEMP_SECONDS,
        None => false,
    }
}

/// Whether the use of a file has to be noted: it was noted long ago, or its time
/// is not known.
pub fn needs_touch(age: Option<u64>) -> (r: bool)
    ensures
        r == (age is None || age->0 >= CACHE_TOUCH_SECONDS),
        age matches Some(a) ==> r == (a >= 60 * 60),
{
    match age {
        Some(a) => a >= CACHE_TOUCH_SECONDS,
        None => true,
    }
}

/// The temporary file that a cache file is made in.
pub fn temp_path(output_path: &str) -> (r: String)
    ensures
        exists|id: Seq<char>| is_id(id) && r@ == temp_beside(output_path@, "font-cache.ttf"@, id),
{
    temp_path_beside(output_path, "font-cache.ttf")
}

// ---------------------------------------------------------------------------
// Publishing
// ---------------------------------------------------------------------------
/// What follows when a finished file has been moved to its place, or not.
#[derive(Clone, Copy, Debug, PartialEq, Eq, Structural)]
pub enum Published {
    /// A file is in its place. The temporary file goes where another file took
    /// the place, and the file is counted where none was there before.
    Ready { drop_temp: bool, count: bool },
    /// The file is not there.
    Fail,
}

/// What follows a move: `existed` before it, `ready` after it where it failed.
pub open spec fn published(existed: bool, moved: bool, ready: bool) -> Published {
    if moved || ready {
        Published::Ready { drop_temp: !moved, count: !existed }
    } else {
        Published::Fail
    }
}

pub fn after_publish(existed: bool, moved: bool, ready: bool) -> (r: Published)
    ensures
        r == published(existed, moved, ready),
{
    if moved || ready {
        Published::Ready { drop_temp: !moved, count: !existed }
    } else {
        Published::Fail
    }
}

// ---------------------------------------------------------------------------
// The files of the cache
// ---------------------------------------------------------------------------
/// What a file in the directory of the cache is.
#[derive(Clone, Copy, Debug, PartialEq, Eq, Structural)]
pub enum CacheFile {
    /// A temporary file that has to go.
    StaleTemp,
    /// A file of the cache.
    Managed,
    /// Anything else, which is left alone.
    Other,
}

pub open spec fn kind_of(name: Seq<char>, age: Option<u64>) -> CacheFile {
    if stale_temp(name, age) {
        CacheFile::StaleTemp
    } else if lock_key(name) is Some {
        CacheFile::Managed
    } else {
        CacheFile::Other
    }
}

/// How the removal of a file went.
#[derive(Clone, Copy, Debug, PartialEq, Eq, Structural)]
pub enum Removal {
    Removed,
    /// Someone else removed the file.
    Missing,
    /// The file is in use.
    Busy,
    Failed,
}

/// The files of the cache, as a walk over its directory finds them.
pub struct CacheListing {
    /// The names of the managed files.
    pub names: Vec<String>,
    /// Their locks.
    pub keys: Vec<String>,
    pub sizes: Vec<u64>,
    pub last_used: Vec<u64>,
    /// How many stale temporary files have been removed.
    pub stale_temp_files: u64,
    pub failed: u64,
}

#[verifier::ext_equal]
pub struct CacheListingView {
    pub names: Seq<Seq<char>>,
    pub keys: Seq<Seq<char>>,
    pub sizes: Seq<u64>,
    pub last_used: Seq<u64>,
    pub stale_temp_files: int,
    pub failed: int,
}

impl View for CacheListing {
    type V = CacheListingView;

    open spec fn view(&self) -> CacheListingView {
        CacheListingView {
            names: texts(self.names@),
            keys: texts(self.keys@),
            sizes: self.sizes@,
            last_used: self.last_used@,
            stale_temp_files: self.stale_temp_files as int,
            failed: self.failed as int,
        }
    }
}

/// A listing of managed files, each with its lock.
pub open spec fn listing_ok(l: CacheListingView) -> bool {
    &&& l.names.len() == l.keys.len() == l.sizes.len() == l.last_used.len()
    &&& forall|i: int| 0 <= i < l.names.len() ==> lock_key(#[trigger] l.names[i]) == Some(l.keys[i])
}

/// The listing with one file more, where the file is managed.
pub open spec fn listed(
    l: CacheListingView,
    name: Seq<char>,
    age: Option<u64>,
    size: u64,
    last_used: u64,
) -> CacheListingView {
    if kind_of(name, age) == CacheFile::Managed {
        CacheListingView {
            names: l.names.push(name),
            keys: l.keys.push(lock_key(name)->0),
            sizes: l.sizes.push(size),
            last_used: l.last_used.push(last_used),
            ..l
        }
    } else {
        l
    }
}

/// The listing after the removal of a stale file went as told.
pub open spec fn temp_gone(l: CacheListingView, how: Removal) -> CacheListingView {
    match how {
        Removal::Removed => CacheListingView { stale_temp_files: l.stale_temp_files + 1, ..l },
        Removal::Missing | Removal::Busy => l,
        Removal::Failed => CacheListingView { failed: l.failed + 1, ..l },
    }
}

impl CacheListing {
    pub fn new() -> (r: Self)
        ensures
            listing_ok(r@),
            r@ == (CacheListingView {
                names: Seq::empty(),
                keys: Seq::empty(),
                sizes: Seq::empty(),
                last_used: Seq::empty(),
                stale_temp_files: 0,
                failed: 0,
            }),
    {
        CacheListing {
            names: Vec::new(),
            keys: Vec::new(),
            sizes: Vec::new(),
            last_used: Vec::new(),
            stale_temp_files: 0,
            failed: 0,
        }
    }

    /// Notes a file and says what it is.
    pub fn found(&mut self, file_name: &str, age: Option<u64>, size: u64, last_used: u64) -> (r:
        CacheFile)
        requires
            listing_ok(old(self)@),
        ensures
            listing_ok(final(self)@),
            r == kind_of(file_name@, age),
            final(self)@ == listed(old(self)@, file_name@, age, size, last_used),
    {
        if is_stale_temp_file(file_name, age) {
            return CacheFile::StaleTemp;
        }
        match cache_lock_key(file_name) {
            Some(key) => {
                let ghost before = self@;
                let c = to_chars(file_name);
                self.names.push(to_text(c.as_slice()));
                self.keys.push(key);
                self.sizes.push(size);
                self.last_used.push(last_used);
                assert(self@ =~= listed(before, file_name@, age, size, last_used));
                CacheFile::Managed
            },
            None => CacheFile::Other,
        }
    }

    /// Notes a file of which nothing could be read.
    pub fn unreadable(&mut self)
        requires
            listing_ok(old(self)@),
            old(self)@.failed < u64::MAX,
        ensures
            listing_ok(final(self)@),
            final(self)@ == (CacheListingView { failed: old(self)@.failed + 1, ..old(self)@ }),
    {
        self.failed = self.failed + 1;
    }

    /// Notes how the removal of a stale file went.
    pub fn temp_removed(&mut self, how: Removal)
        requires
            listing_ok(old(self)@),
            old(self)@.failed < u64::MAX,
            old(self)@.stale_temp_files < u64::MAX,
        ensures
            listing_ok(final(self)@),
            final(self)@ == temp_gone(old(self)@, how),
    {
        match how {
            Removal::Removed => {
                self.stale_temp_files = self.stale_temp_files + 1;
            },
            Removal::Missing | Removal::Busy => {},
            Removal::Failed => {
                self.failed = self.failed + 1;
            },
        }
    }
}

// ---------------------------------------------------------------------------
// Eviction
// ---------------------------------------------------------------------------
/// The number of bytes of the first `n` files.
pub open spec fn total_upto(sizes: Seq<u64>, n: int) -> int
    decreases n,
{
    if n <= 0 {
        0
    } else {
        total_upto(sizes, n - 1) + sizes[n - 1]
    }
}

pub open spec fn total_size(sizes: Seq<u64>) -> int {
    total_upto(sizes, sizes.len() as int)
}

/// To how many bytes a cache that is too large is brought down.
pub open spec fn target_of(max: int) -> int {
    (if max * 90 > u64::MAX {
        u64::MAX as int
    } else {
        max * 90
    }) / 100
}

/// A round of eviction: the files in the order of their last use, and how far
/// it has come.
pub struct Eviction {
    sizes: Vec<u64>,
    order: Vec<usize>,
    next: usize,
    current: u64,
    target: u64,
    files: u64,
    bytes: u64,
    failed: u64,
}

#[verifier::ext_equal]
pub struct EvictionView {
    pub sizes: Seq<u64>,
    /// The files, the one used longest ago first.
    pub order: Seq<usize>,
    /// How many of them have been asked for.
    pub next: int,
    /// How many bytes the cache holds.
    pub current: int,
    pub target: int,
    pub files: int,
    pub bytes: int,
    pub failed: int,
}

impl View for Eviction {
    type V = EvictionView;

    closed spec fn view(&self) -> EvictionView {
        EvictionView {
            sizes: self.sizes@,
            order: self.order@,
            next: self.next as int,
            current: self.current as int,
            target: self.target as int,
            files: self.files as int,
            bytes: self.bytes as int,
            failed: self.failed as int,
        }
    }
}

/// A round that has come somewhere.
pub open spec fn eviction_ok(e: EvictionView) -> bool {
    &&& e.order.len() == e.sizes.len()
    &&& forall|i: int| 0 <= i < e.order.len() ==> (#[trigger] e.order[i]) < e.sizes.len()
    &&& 0 <= e.next <= e.order.len()
    &&& 0 <= e.files
    &&& 0 <= e.failed
    &&& e.files + e.failed <= e.next
    &&& 0 <= e.current
    &&& 0 <= e.bytes
}

/// The round after the last file that was asked for went as told.
pub open spec fn evicted(e: EvictionView, how: Removal) -> EvictionView {
    let size = e.sizes[e.order[e.next - 1] as int] as int;
    let left = if e.current < size {
        0
    } else {
        e.current - size
    };
    match how {
        Removal::Removed => EvictionView {
            current: left,
            files: e.files + 1,
            bytes: if e.bytes + size > u64::MAX {
                u64::MAX as int
            } else {
                e.bytes + size
            },
            ..e
        },
        Removal::Missing => EvictionView { current: left, ..e },
        Removal::Busy => e,
        Removal::Failed => EvictionView { failed: e.failed + 1, ..e },
    }
}

impl Eviction {
    /// Starts a round. Files go only where there is a limit and the cache is
    /// over it.
    pub fn start(sizes: Vec<u64>, last_used: &Vec<u64>, max_bytes: u64) -> (r: Eviction)
        requires
            sizes@.len() == last_used@.len(),
            total_size(sizes@) <= u64::MAX,
        ensures
            eviction_ok(r@),
            r@.sizes == sizes@,
            is_order(last_used@, r@.order),
            r@.next == 0,
            r@.current == total_size(sizes@),
            r@.target == if max_bytes > 0 && total_size(sizes@) > max_bytes {
                target_of(max_bytes as int)
            } else {
                u64::MAX as int
            },
            r@.files == 0,
            r@.bytes == 0,
            r@.failed == 0,
    {
        let mut sum: u64 = 0;
        let mut i: usize = 0;
        while i < sizes.len()
            invariant
                i <= sizes@.len(),
                sum == total_upto(sizes@, i as int),
                total_size(sizes@) <= u64::MAX,
            decreases sizes@.len() - i,
        {
            proof {
                lemma_total_grows(sizes@, i + 1, sizes@.len() as int);
            }
            sum = sum + sizes[i];
            i = i + 1;
        }
        let order = order_of(last_used);
        let target: u64 = if max_bytes > 0 && sum > max_bytes {
            if max_bytes > u64::MAX / 90 {
                u64::MAX / 100
            } else {
                max_bytes * 90 / 100
            }
        } else {
            u64::MAX
        };
        Eviction {
            sizes,
            order,
            next: 0,
            current: sum,
            target,
            files: 0,
            bytes: 0,
            failed: 0,
        }
    }

    /// The next file to remove: as long as the cache is over its target, the
    /// one used longest ago of those not asked for.
    pub fn next_file(&mut self) -> (r: Option<usize>)
        requires
            eviction_ok(old(self)@),
        ensures
            eviction_ok(final(self)@),
            match r {
                Some(i) => {
                    &&& old(self)@.current > old(self)@.target
                    &&& old(self)@.next < old(self)@.order.len()
                    &&& i == old(self)@.order[old(self)@.next]
                    &&& final(self)@ == (EvictionView {
                        next: old(self)@.next + 1,
                        ..old(self)@
                    })
                },
                None => {
                    &&& old(self)@.current <= old(self)@.target || old(self)@.next
                        == old(self)@.order.len()
                    &&& final(self)@ == old(self)@
                },
            },
    {
        if self.current <= self.target || self.next >= self.order.len() {
            return None;
        }
        let i = self.order[self.next];
        self.next = self.next + 1;
        Some(i)
    }

    /// Notes how the removal of the last file went.
    pub fn report(&mut self, how: Removal)
        requires
            eviction_ok(old(self)@),
            old(self)@.next > 0,
            old(self)@.files + old(self)@.failed < old(self)@.next,
        ensures
            eviction_ok(final(self)@),
            final(self)@ == evicted(old(self)@, how),
    {
        let size = self.sizes[self.order[self.next - 1]];
        match how {
            Removal::Removed => {
                self.current = if self.current < size { 0 } else { self.current - size };
                self.files = self.files + 1;
                self.bytes = if self.bytes > u64::MAX - size { u64::MAX } else { self.bytes + size };
            },
            Removal::Missing => {
                self.current = if self.current < size { 0 } else { self.current - size };
            },
            Removal::Busy => {},
            Removal::Failed => {
                self.failed = self.failed + 1;
            },
        }
    }

    /// What the round did, with what the walk over the files had done before.
    pub fn summary(&self, stale_temp_files: u64, failed_before: u64) -> (r: CacheMaintenanceSummary)
        requires
            eviction_ok(self@),
            failed_before + self@.failed <= u64::MAX,
        ensures
            r.files == self@.sizes.len() - self@.files,
            r.bytes == self@.current,
            r.evicted_files == self@.files,
            r.evicted_bytes == self@.bytes,
            r.stale_temp_files == stale_temp_files,
            !r.deferred,
            r.failed == failed_before + self@.failed,
    {
        let n: u64 = self.sizes.len() as u64;
        CacheMaintenanceSummary {
            files: n - self.files,
            bytes: self.current,
            evicted_files: self.files,
            evicted_bytes: self.bytes,
            stale_temp_files,
            deferred: false,
            failed: failed_before + self.failed,
        }
    }
}

// ---------------------------------------------------------------------------
// Laws
// ---------------------------------------------------------------------------
pub proof fn lemma_total_grows(sizes: Seq<u64>, m: int, n: int)
    requires
        0 <= m <= n <= sizes.len(),
    ensures
        0 <= total_upto(sizes, m) <= total_upto(sizes, n),
    decreases n,
{
    if m < n {
        lemma_total_grows(sizes, m, n - 1);
    } else if n > 0 {
        lemma_total_grows(sizes, m - 1, n - 1);
    }
}

/// The bytes of the files at the places from `n` on in an order.
pub open spec fn sizes_from(sizes: Seq<u64>, order: Seq<usize>, n: int) -> int
    decreases order.len() - n,
{
    if 0 <= n < order.len() {
        sizes[order[n] as int] + sizes_from(sizes, order, n + 1)
    } else {
        0
    }
}

/// The bytes of the files that are left when those before `n` in the order are
/// gone.
pub open spec fn left_from(e: EvictionView, n: int) -> int {
    sizes_from(e.sizes, e.order, n)
}

/// As long as every removal succeeds, the bytes that are counted are those of
/// the files that are left.
pub proof fn law_removals_count(e: EvictionView)
    requires
        eviction_ok(e),
        e.next < e.order.len(),
        e.current == left_from(e, e.next),
    ensures
        ({
            let asked = EvictionView { next: e.next + 1, ..e };
            let after = evicted(asked, Removal::Removed);
            &&& after.current == left_from(after, after.next)
            &&& after.files == e.files + 1
        }),
{
    lemma_left_nonnegative(e, e.next + 1);
}

proof fn lemma_left_nonnegative(e: EvictionView, n: int)
    requires
        0 <= n <= e.order.len(),
    ensures
        0 <= left_from(e, n),
    decreases e.order.len() - n,
{
    if n < e.order.len() {
        lemma_left_nonnegative(e, n + 1);
    }
}

/// The sizes of some of the files: those that are members.
spec fn total_of(sizes: Seq<u64>, members: Set<int>, n: int) -> int
    decreases n,
{
    if n <= 0 {
        0
    } else {
        total_of(sizes, members, n - 1) + if members.contains(n - 1) {
            sizes[n - 1] as int
        } else {
            0
        }
    }
}

/// The places that stand in the order from `n` on.
spec fn places_from(order: Seq<usize>, n: int) -> Set<int> {
    Set::new(|k: int| exists|j: int| n <= j < order.len() && #[trigger] order[j] == k)
}

proof fn lemma_member_more(sizes: Seq<u64>, small: Set<int>, k: int, n: int)
    requires
        0 <= n <= sizes.len(),
        0 <= k < sizes.len(),
        !small.contains(k),
    ensures
        total_of(sizes, small.insert(k), n) == total_of(sizes, small, n) + if k < n {
            sizes[k] as int
        } else {
            0
        },
    decreases n,
{
    if n > 0 {
        lemma_member_more(sizes, small, k, n - 1);
    }
}

proof fn lemma_sizes_from(sizes: Seq<u64>, order: Seq<usize>, n: int)
    requires
        0 <= n <= order.len(),
        forall|i: int| 0 <= i < order.len() ==> (#[trigger] order[i]) < sizes.len(),
        forall|i: int, j: int|
            0 <= i < j < order.len() ==> #[trigger] order[i] != #[trigger] order[j],
    ensures
        sizes_from(sizes, order, n) == total_of(sizes, places_from(order, n), sizes.len() as int),
    decreases order.len() - n,
{
    if n < order.len() {
        lemma_sizes_from(sizes, order, n + 1);
        let rest = places_from(order, n + 1);
        let k = order[n] as int;
        assert(!rest.contains(k));
        assert(places_from(order, n) =~= rest.insert(k)) by {
            assert forall|x: int| places_from(order, n).contains(x) == rest.insert(k).contains(x) by {
                if places_from(order, n).contains(x) {
                    let j = choose|j: int| n <= j < order.len() && #[trigger] order[j] == x;
                    if j > n {
                        assert(rest.contains(x));
                    }
                }
                if rest.contains(x) {
                    let j = choose|j: int| n + 1 <= j < order.len() && #[trigger] order[j] == x;
                    assert(places_from(order, n).contains(x));
                }
                if x == k {
                    assert(order[n] == x);
                }
            }
        }
        lemma_member_more(sizes, rest, k, sizes.len() as int);
    } else {
        assert(places_from(order, n) =~= Set::<int>::empty());
        lemma_total_of_none(sizes, sizes.len() as int);
    }
}

proof fn lemma_total_of_none(sizes: Seq<u64>, n: int)
    ensures
        total_of(sizes, Set::<int>::empty(), n) == 0,
    decreases n,
{
    if n > 0 {
        lemma_total_of_none(sizes, n - 1);
    }
}

proof fn lemma_total_of_all(sizes: Seq<u64>, members: Set<int>, n: int)
    requires
        forall|k: int| 0 <= k < n ==> members.contains(k),
    ensures
        total_of(sizes, members, n) == total_upto(sizes, n),
    decreases n,
{
    if n > 0 {
        lemma_total_of_all(sizes, members, n - 1);
    }
}

/// Every place stands in an order of as many different places.
proof fn lemma_every_place(order: Seq<usize>, k: int)
    requires
        0 <= k < order.len(),
        forall|i: int| 0 <= i < order.len() ==> (#[trigger] order[i]) < order.len(),
        forall|i: int, j: int|
            0 <= i < j < order.len() ==> #[trigger] order[i] != #[trigger] order[j],
    ensures
        places_from(order, 0).contains(k),
{
    let n = order.len() as int;
    let at = order.map_values(|x: usize| x as int);
    assert(at.no_duplicates()) by {
        assert forall|i: int, j: int| 0 <= i < n && 0 <= j < n && i != j implies at[i] != at[j] by {
            assert(order[i] != order[j]);
        }
    }
    at.unique_seq_to_set();
    let all = vstd::set_lib::set_int_range(0, n);
    vstd::set_lib::lemma_int_range(0, n);
    assert(at.to_set().subset_of(all)) by {
        assert forall|x: int| at.to_set().contains(x) implies all.contains(x) by {
            let i = choose|i: int| 0 <= i < at.len() && at[i] == x;
            assert(order[i] < n);
        }
    }
    vstd::set_lib::lemma_subset_equality(at.to_set(), all);
    assert(at.to_set().contains(k));
    let i = choose|i: int| 0 <= i < at.len() && at[i] == k;
    assert(order[i] == k);
}

/// A round starts with all the files: each of them stands in its order once,
/// and the bytes that are counted are those of all of them.
pub proof fn law_round_starts_whole(e: EvictionView, last_used: Seq<u64>)
    requires
        eviction_ok(e),
        is_order(last_used, e.order),
        last_used.len() == e.sizes.len(),
    ensures
        left_from(e, 0) == total_size(e.sizes),
{
    let n = e.sizes.len() as int;
    assert forall|i: int, j: int| 0 <= i < j < e.order.len() implies #[trigger] e.order[i]
        != #[trigger] e.order[j] by {}
    lemma_sizes_from(e.sizes, e.order, 0);
    assert forall|k: int| 0 <= k < n implies places_from(e.order, 0).contains(k) by {
        lemma_every_place(e.order, k);
    }
    lemma_total_of_all(e.sizes, places_from(e.order, 0), n);
}

/// The end of a round in which every removal succeeds.
pub open spec fn round_end(e: EvictionView) -> EvictionView
    decreases e.order.len() - e.next,
{
    if 0 <= e.next < e.order.len() && e.current > e.target {
        round_end(evicted(EvictionView { next: e.next + 1, ..e }, Removal::Removed))
    } else {
        e
    }
}

/// A round in which every removal succeeds ends at or below its target. It has
/// removed the files that were used longest ago, and no more of them than the
/// target asks for.
pub proof fn law_eviction_reaches_target(e: EvictionView)
    requires
        eviction_ok(e),
        e.current == left_from(e, e.next),
        e.target >= 0,
    ensures
        ({
            let end = round_end(e);
            &&& end.order == e.order
            &&& end.current <= e.target
            &&& end.current == left_from(e, end.next)
            &&& end.files - e.files == end.next - e.next
            &&& end.next > e.next ==> left_from(e, end.next - 1) > e.target
        }),
    decreases e.order.len() - e.next,
{
    if e.next < e.order.len() && e.current > e.target {
        law_removals_count(e);
        let after = evicted(EvictionView { next: e.next + 1, ..e }, Removal::Removed);
        law_eviction_reaches_target(after);
        lemma_round_grows(after);
    }
}

proof fn lemma_round_grows(e: EvictionView)
    requires
        0 <= e.next <= e.order.len(),
    ensures
        e.next <= round_end(e).next <= e.order.len(),
    decreases e.order.len() - e.next,
{
    if e.next < e.order.len() && e.current > e.target {
        lemma_round_grows(evicted(EvictionView { next: e.next + 1, ..e }, Removal::Removed));
    }
}

/// The target of a cache with a limit is below the limit.
pub proof fn law_target_below_limit(max: int)
    requires
        0 < max <= u64::MAX,
    ensures
        0 <= target_of(max) < max,
{
}

/// Only files named by a digest are ever managed.
pub proof fn law_managed_files_are_hashes(name: Seq<char>)
    requires
        lock_key(name) is Some,
    ensures
        exists|hash: Seq<char>|
            is_hash(hash) && (name == hash + ".ttf"@ || name == #[trigger] (hash + ".draw.ttf"@)),
{
    match (before_end(name, ".draw.ttf"@), before_end(name, ".ttf"@)) {
        (Some(hash), _) => {
            assert(name =~= hash + ".draw.ttf"@);
        },
        (None, Some(hash)) => {
            assert(name =~= hash + ".ttf"@);
            assert(hash + ".draw.ttf"@ == hash + ".draw.ttf"@);
        },
        _ => {},
    }
}

/// A temporary file is recognised as one once it is old, and is never taken for
/// a managed file.
pub proof fn law_temp_files_recognised(name: Seq<char>, id: Seq<char>, age: u64)
    requires
        age >= STALE_TEMP_SECONDS,
    ensures
        stale_temp(temp_name(name, id), Some(age)),
        lock_key(temp_name(name, id)) is None,
{
    let t = temp_name(name, id);
    reveal_strlit(".");
    reveal_strlit(".tmp");
    reveal_strlit(".ttf");
    reveal_strlit(".draw.ttf");
    assert(t.subrange(0, 1) =~= "."@);
    let n = t.len() as int;
    assert(t.subrange(n - 4, n) =~= ".tmp"@);
    assert(t[n - 1] == 'p');
    if ends_with(t, ".ttf"@) {
        assert(t.subrange(n - 4, n)[3] == 'f');
    }
    if ends_with(t, ".draw.ttf"@) {
        assert(t.subrange(n - 9, n)[8] == 'f');
    }
}

/// The files that go first are those that were used longest ago.
pub proof fn law_longest_unused_first(e: EvictionView, last_used: Seq<u64>, i: int, j: int)
    requires
        is_order(last_used, e.order),
        0 <= i < j < e.order.len(),
    ensures
        last_used[e.order[i] as int] <= last_used[e.order[j] as int],
        e.order[i] != e.order[j],
{
    let (a, b) = (e.order[i], e.order[j]);
}

/// A cache that is too large is brought down to nine tenths of its limit.
pub proof fn law_target_is_nine_tenths(max: int)
    requires
        0 <= max,
        max * 90 <= u64::MAX,
    ensures
        target_of(max) * 10 <= max * 9 < target_of(max) * 10 + 10,
{
}

/// A file that someone else removed takes no more room, but is not counted as
/// removed; a file in use changes nothing; a file that could not be removed is
/// counted as a failure and keeps its room.
pub proof fn law_only_removals_counted(e: EvictionView)
    requires
        eviction_ok(e),
        0 < e.next,
        e.sizes[e.order[e.next - 1] as int] <= e.current,
    ensures
        ({
            let size = e.sizes[e.order[e.next - 1] as int] as int;
            let gone = evicted(e, Removal::Missing);
            let stuck = evicted(e, Removal::Failed);
            &&& gone.current == e.current - size
            &&& gone.files == e.files && gone.bytes == e.bytes && gone.failed == e.failed
            &&& evicted(e, Removal::Busy) == e
            &&& stuck.current == e.current && stuck.files == e.files && stuck.bytes == e.bytes
            &&& stuck.failed == e.failed + 1
            &&& e.bytes + size <= u64::MAX ==> evicted(e, Removal::Removed).bytes == e.bytes + size
            &&& evicted(e, Removal::Removed).failed == e.failed
        }),
{
}

/// Every file that is named by a digest of 64 hexadecimal digits is managed, and a
/// subset and a font of drawings with the same digest have different locks.
pub proof fn law_hashes_are_managed(hash: Seq<char>)
    requires
        hash.len() == 64,
        forall|i: int|
            0 <= i < 64 ==> '0' <= (#[trigger] hash[i]) <= '9' || 'a' <= hash[i] <= 'f' || 'A'
                <= hash[i] <= 'F',
    ensures
        lock_key(hash + ".ttf"@) == Some("font:"@ + hash),
        lock_key(hash + ".draw.ttf"@) == Some("draw:"@ + hash),
        lock_key(hash + ".ttf"@) != lock_key(hash + ".draw.ttf"@),
{
    reveal_strlit(".ttf");
    reveal_strlit(".draw.ttf");
    reveal_strlit("font");
    reveal_strlit("draw");
    reveal_strlit(":");
    reveal_strlit("font:");
    reveal_strlit("draw:");
    let s = hash + ".ttf"@;
    let d = hash + ".draw.ttf"@;
    assert(s.subrange(64, 68) =~= ".ttf"@);
    assert(d.subrange(64, 73) =~= ".draw.ttf"@);
    assert(s.take(64) =~= hash);
    assert(d.take(64) =~= hash);
    if ends_with(s, ".draw.ttf"@) {
        assert(s.subrange(59, 68)[0] == '.');
        assert(s[59] == hash[59]);
    }
    assert("font"@ + ":"@ + hash =~= "font:"@ + hash);
    assert("draw"@ + ":"@ + hash =~= "draw:"@ + hash);
    assert(("font:"@ + hash)[0] != ("draw:"@ + hash)[0]);
}

/// A temporary file is removed only once it is a day old, and no file that does
/// not start with a dot is ever taken for one.
pub proof fn law_young_temp_files_stay(name: Seq<char>, age: Option<u64>)
    ensures
        stale_temp(name, age) ==> (age matches Some(a) && a >= 24 * 60 * 60) && name.len() >= 4
            && name[0] == '.',
        kind_of(name, age) is StaleTemp <==> stale_temp(name, age),
        kind_of(name, age) is Managed ==> lock_key(name) is Some,
{
    reveal_strlit(".");
    reveal_strlit(".tmp");
    if stale_temp(name, age) {
        assert(name.subrange(0, 1)[0] == '.');
    }
}

/// A finished file is taken for published where it was moved to its place, or where
/// another one stands there. Its temporary file goes in the second case, and it is
/// counted only where no file stood there before.
pub proof fn law_published_where_ready(existed: bool, moved: bool, ready: bool)
    ensures
        published(existed, moved, ready) is Fail <==> !moved && !ready,
        published(existed, moved, ready) matches Published::Ready { drop_temp, count } ==> {
            &&& drop_temp <==> !moved
            &&& count <==> !existed
        },
{
}

/// Only temporary files that were removed count as removed, and only a removal that
/// failed counts as failed: one that is gone or in use counts as neither.
pub proof fn law_stale_files_counted(l: CacheListingView)
    ensures
        temp_gone(l, Removal::Removed).stale_temp_files == l.stale_temp_files + 1,
        temp_gone(l, Removal::Removed).failed == l.failed,
        temp_gone(l, Removal::Failed).stale_temp_files == l.stale_temp_files,
        temp_gone(l, Removal::Failed).failed == l.failed + 1,
        temp_gone(l, Removal::Missing) == l,
        temp_gone(l, Removal::Busy) == l,
{
}

/// A temporary file is stale after a day, and a file of the cache is listed with its
/// size and the time of its last use; other files are left out.
pub proof fn law_files_listed(
    l: CacheListingView,
    name: Seq<char>,
    id: Seq<char>,
    age: u64,
    size: u64,
    last_used: u64,
)
    ensures
        age >= 24 * 60 * 60 ==> kind_of(temp_name(name, id), Some(age)) is StaleTemp,
        age < 24 * 60 * 60 ==> kind_of(temp_name(name, id), Some(age)) is Other,
        kind_of(temp_name(name, id), None) is Other,
        lock_key(name) is None ==> listed(l, name, Some(age), size, last_used) == l,
        lock_key(name) is Some && name[0] != '.' ==> {
            let to = listed(l, name, Some(age), size, last_used);
            &&& to.names == l.names.push(name)
            &&& to.keys == l.keys.push(lock_key(name)->0)
            &&& to.sizes == l.sizes.push(size)
            &&& to.last_used == l.last_used.push(last_used)
            &&& to.failed == l.failed && to.stale_temp_files == l.stale_temp_files
        },
{
    law_temp_files_recognised(name, id, 0xffff_ffff);
    law_young_temp_files_stay(name, Some(age));
    law_young_temp_files_stay(temp_name(name, id), Some(age));
}

/// Each file counts once in the size of the cache.
pub proof fn law_each_size_counts(sizes: Seq<u64>, n: int)
    requires
        0 < n <= sizes.len(),
    ensures
        total_upto(sizes, n) - total_upto(sizes, n - 1) == sizes[n - 1],
        total_upto(sizes, 0) == 0,
        total_size(sizes) == total_upto(sizes, sizes.len() as int),
{
}

} // verus!
