//! What the service keeps while it runs: the settings that can be changed, who
//! is logged in, and what is going on.
use std::sync::atomic::AtomicBool;
use std::sync::Arc;

use vstd::prelude::*;

use crate::auth::{LoginRateLimiter, Sessions};
use crate::config::{clamped, Config, ProcessingOptions};
use crate::fs_walk::{Turn, turn_of, WalkControl};
use crate::number::{
    decimal, decimal_chars, law_decimal_read_back, parse_unsigned_text, unsigned,
};
use crate::text::{same_text, to_text};

verus! {

// ---------------------------------------------------------------------------
// One operation at a time
// ---------------------------------------------------------------------------
/// The right to run an operation of which only one may run. The operation has a
/// flag that all threads share; it is set as long as the guard lives, and a guard
/// that goes frees the flag it was made for, and no other.
///
/// What a shared flag holds at a given moment depends on the other threads, so no
/// contract speaks of it: what follows each answer of the flag is stated instead.
pub struct OperationGuard {
    running: Arc<AtomicBool>,
}

/// `AtomicBool::store` of `false` with release ordering, which does not unwind.
#[verifier::external_body]
fn free_flag(flag: &AtomicBool)
    opens_invariants none
    no_unwind
{
    flag.store(false, std::sync::atomic::Ordering::Release);
}

impl OperationGuard {
    /// The flag that the guard frees when it goes.
    pub closed spec fn flag(&self) -> Arc<AtomicBool> {
        self.running
    }
}

impl Drop for OperationGuard {
    fn drop(&mut self)
        opens_invariants none
        no_unwind
    {
        free_flag(&self.running);
    }
}

/// The guard of an operation by what its flag answered when it was to be set: the
/// operation begins where the flag was free.
pub fn guard_after(claim: Result<bool, bool>, running: &Arc<AtomicBool>) -> (r: Option<
    OperationGuard,
>)
    ensures
        r is Some <==> claim is Ok,
        r matches Some(g) ==> g.flag() == *running,
{
    match claim {
        Ok(_) => Some(OperationGuard { running: running.clone() }),
        Err(_) => None,
    }
}

/// Starts an operation, unless it is running already: the flag is set where it
/// was free, in one step.
pub fn try_begin_operation(running: &Arc<AtomicBool>) -> (r: Option<OperationGuard>)
    ensures
        r matches Some(g) ==> g.flag() == *running,
{
    let claim = running.compare_exchange(
        false,
        true,
        std::sync::atomic::Ordering::AcqRel,
        std::sync::atomic::Ordering::Acquire,
    );
    guard_after(claim, running)
}

// ---------------------------------------------------------------------------
// The progress of a scan
// ---------------------------------------------------------------------------
#[derive(Clone, Debug)]
pub struct ScanProgress {
    pub stage: String,
    pub current: usize,
    pub total: usize,
    pub seen: usize,
    pub ready: usize,
    pub queued: usize,
    pub skipped: usize,
    pub failed: usize,
    pub started_at: Option<String>,
    pub updated_at: Option<String>,
}

#[verifier::ext_equal]
pub struct ScanProgressView {
    pub stage: Seq<char>,
    pub current: usize,
    pub total: usize,
    pub seen: usize,
    pub ready: usize,
    pub queued: usize,
    pub skipped: usize,
    pub failed: usize,
    pub started_at: Option<Seq<char>>,
    pub updated_at: Option<Seq<char>>,
}

pub open spec fn time_text(t: Option<String>) -> Option<Seq<char>> {
    match t {
        Some(s) => Some(s@),
        None => None,
    }
}

impl View for ScanProgress {
    type V = ScanProgressView;

    open spec fn view(&self) -> ScanProgressView {
        ScanProgressView {
            stage: self.stage@,
            current: self.current,
            total: self.total,
            seen: self.seen,
            ready: self.ready,
            queued: self.queued,
            skipped: self.skipped,
            failed: self.failed,
            started_at: time_text(self.started_at),
            updated_at: time_text(self.updated_at),
        }
    }
}

/// The progress of a scan that has not begun.
pub open spec fn no_progress() -> ScanProgressView {
    ScanProgressView {
        stage: ""@,
        current: 0,
        total: 0,
        seen: 0,
        ready: 0,
        queued: 0,
        skipped: 0,
        failed: 0,
        started_at: None,
        updated_at: None,
    }
}

impl Default for ScanProgress {
    fn default() -> (r: Self)
        ensures
            r@ == no_progress(),
    {
        ScanProgress {
            stage: "".to_string(),
            current: 0,
            total: 0,
            seen: 0,
            ready: 0,
            queued: 0,
            skipped: 0,
            failed: 0,
            started_at: None,
            updated_at: None,
        }
    }
}

fn copy_time(t: &Option<String>) -> (r: Option<String>)
    ensures
        time_text(r) == time_text(*t),
{
    match t {
        Some(s) => Some(s.clone()),
        None => None,
    }
}

fn copy_progress(p: &ScanProgress) -> (r: ScanProgress)
    ensures
        r@ == p@,
{
    ScanProgress {
        stage: p.stage.clone(),
        current: p.current,
        total: p.total,
        seen: p.seen,
        ready: p.ready,
        queued: p.queued,
        skipped: p.skipped,
        failed: p.failed,
        started_at: copy_time(&p.started_at),
        updated_at: copy_time(&p.updated_at),
    }
}

/// What is going on.
#[derive(Clone, Debug)]
pub struct ControlStatus {
    pub scan_paused: bool,
    pub scan_cancel_requested: bool,
    pub conversion_paused: bool,
    pub conversion_cancel_requested: bool,
    pub conversion_parallelism: usize,
    pub scan_running: bool,
    pub index_running: bool,
    pub scan_progress: ScanProgress,
}

// ---------------------------------------------------------------------------
// Options by name
// ---------------------------------------------------------------------------
/// Which option has the name.
pub open spec fn option_index(key: Seq<char>) -> Option<int> {
    if key == "embed_external_fonts"@ {
        Some(0int)
    } else if key == "embed_system_fonts"@ {
        Some(1int)
    } else if key == "include_ascii"@ {
        Some(2int)
    } else if key == "multi_weight"@ {
        Some(3int)
    } else if key == "randomize_font_names"@ {
        Some(4int)
    } else if key == "draw_subset"@ {
        Some(5int)
    } else if key == "full_font_embed"@ {
        Some(6int)
    } else if key == "fallback_full_font_embed"@ {
        Some(7int)
    } else if key == "variable_fonts"@ {
        Some(8int)
    } else {
        None
    }
}

/// The options with the `i`th of them changed.
pub open spec fn with_option_at(o: ProcessingOptions, i: int, value: bool) -> ProcessingOptions {
    ProcessingOptions {
        embed_external_fonts: if i == 0 {
            value
        } else {
            o.embed_external_fonts
        },
        embed_system_fonts: if i == 1 {
            value
        } else {
            o.embed_system_fonts
        },
        include_ascii: if i == 2 {
            value
        } else {
            o.include_ascii
        },
        multi_weight: if i == 3 {
            value
        } else {
            o.multi_weight
        },
        randomize_font_names: if i == 4 {
            value
        } else {
            o.randomize_font_names
        },
        draw_subset: if i == 5 {
            value
        } else {
            o.draw_subset
        },
        full_font_embed: if i == 6 {
            value
        } else {
            o.full_font_embed
        },
        fallback_full_font_embed: if i == 7 {
            value
        } else {
            o.fallback_full_font_embed
        },
        variable_fonts: if i == 8 {
            value
        } else {
            o.variable_fonts
        },
    }
}

/// The options with one of them changed, if there is one of that name.
pub open spec fn with_option(o: ProcessingOptions, key: Seq<char>, value: bool) -> Option<
    ProcessingOptions,
> {
    match option_index(key) {
        Some(i) => Some(with_option_at(o, i, value)),
        None => None,
    }
}

fn set_option(o: &ProcessingOptions, key: &str, value: bool) -> (r: Option<ProcessingOptions>)
    ensures
        r == with_option(*o, key@, value),
{
    let mut n = *o;
    if same_text(key, "embed_external_fonts") {
        n.embed_external_fonts = value;
    } else if same_text(key, "embed_system_fonts") {
        n.embed_system_fonts = value;
    } else if same_text(key, "include_ascii") {
        n.include_ascii = value;
    } else if same_text(key, "multi_weight") {
        n.multi_weight = value;
    } else if same_text(key, "randomize_font_names") {
        n.randomize_font_names = value;
    } else if same_text(key, "draw_subset") {
        n.draw_subset = value;
    } else if same_text(key, "full_font_embed") {
        n.full_font_embed = value;
    } else if same_text(key, "fallback_full_font_embed") {
        n.fallback_full_font_embed = value;
    } else if same_text(key, "variable_fonts") {
        n.variable_fonts = value;
    } else {
        return None;
    }
    Some(n)
}

/// There is no option of that name.
#[derive(Clone, Copy, Debug, PartialEq, Eq, Structural)]
pub struct UnknownOption;

// ---------------------------------------------------------------------------
// The state
// ---------------------------------------------------------------------------
/// What the service keeps while it runs.
pub struct AppState {
    pub sessions: Sessions,
    pub login_limiter: LoginRateLimiter,
    runtime_options: ProcessingOptions,
    scan_interval: u64,
    scan_schedule_version: u64,
    font_index_revision: u64,
    conversion_parallelism: usize,
    scan_control: WalkControl,
    conversion_paused: bool,
    conversion_cancel_requested: bool,
    scan_running: Arc<AtomicBool>,
    index_running: Arc<AtomicBool>,
    scan_progress: ScanProgress,
}

#[verifier::ext_equal]
pub struct AppView {
    pub sessions: Seq<(Seq<char>, crate::auth::SessionView)>,
    pub attempts: Seq<(Seq<char>, crate::auth::AttemptView)>,
    pub options: ProcessingOptions,
    pub scan_interval: u64,
    pub schedule_version: u64,
    pub font_index_revision: u64,
    pub parallelism: usize,
    pub scan_control: WalkControl,
    pub conversion_paused: bool,
    pub conversion_cancel_requested: bool,
    /// The flags of the operations of which only one may run.
    pub scan_flag: Arc<AtomicBool>,
    pub index_flag: Arc<AtomicBool>,
    pub progress: ScanProgressView,
}

impl View for AppState {
    type V = AppView;

    closed spec fn view(&self) -> AppView {
        AppView {
            sessions: self.sessions@,
            attempts: self.login_limiter@,
            options: self.runtime_options,
            scan_interval: self.scan_interval,
            schedule_version: self.scan_schedule_version,
            font_index_revision: self.font_index_revision,
            parallelism: self.conversion_parallelism,
            scan_control: self.scan_control,
            conversion_paused: self.conversion_paused,
            conversion_cancel_requested: self.conversion_cancel_requested,
            scan_flag: self.scan_running,
            index_flag: self.index_running,
            progress: self.scan_progress@,
        }
    }
}

/// A number that a stored setting writes, or the one that holds already.
pub open spec fn stored_number(raw: Option<Seq<char>>, max: int, other: int) -> int {
    match raw {
        Some(s) => match unsigned(s, max) {
            Some(n) => n,
            None => other,
        },
        None => other,
    }
}

/// How many conversions may run at once, by a stored setting.
pub open spec fn stored_parallelism(raw: Option<Seq<char>>, other: int) -> int {
    match raw {
        Some(s) => match unsigned(s, usize::MAX as int) {
            Some(n) => clamped(n, 1, 32),
            None => other,
        },
        None => other,
    }
}

pub open spec fn raw_text(raw: Option<&str>) -> Option<Seq<char>> {
    match raw {
        Some(s) => Some(s@),
        None => None,
    }
}

fn read_number(raw: Option<&str>, max: u64, other: u64) -> (r: u64)
    ensures
        r == stored_number(raw_text(raw), max as int, other as int),
{
    match raw {
        Some(s) => match parse_unsigned_text(s, max) {
            Some(n) => n,
            None => other,
        },
        None => other,
    }
}

fn within_parallelism(value: usize) -> (r: usize)
    ensures
        r == clamped(value as int, 1, 32),
{
    if value < 1 {
        1
    } else if value > 32 {
        32
    } else {
        value
    }
}

impl AppState {
    /// The state when the service starts. The flags of the operations are new and
    /// free, which no contract says, as none speaks of what a shared flag holds.
    pub fn new(config: &Config) -> (r: AppState)
        ensures
            r@ == (AppView {
                sessions: seq![],
                attempts: seq![],
                options: config.options,
                scan_interval: config.scan_interval,
                schedule_version: 0,
                font_index_revision: 0,
                parallelism: config.max_concurrent_jobs,
                scan_control: WalkControl { paused: false, cancelled: false },
                conversion_paused: false,
                conversion_cancel_requested: false,
                scan_flag: r@.scan_flag,
                index_flag: r@.index_flag,
                progress: no_progress(),
            }),
    {
        AppState {
            sessions: Sessions::new(),
            login_limiter: LoginRateLimiter::new(),
            runtime_options: config.options,
            scan_interval: config.scan_interval,
            scan_schedule_version: 0,
            font_index_revision: 0,
            conversion_parallelism: config.max_concurrent_jobs,
            scan_control: WalkControl::new(),
            conversion_paused: false,
            conversion_cancel_requested: false,
            scan_running: Arc::new(AtomicBool::new(false)),
            index_running: Arc::new(AtomicBool::new(false)),
            scan_progress: ScanProgress::default(),
        }
    }

    /// Takes over the settings that were stored: the options as they were read,
    /// and the numbers as text. What cannot be read changes nothing.
    pub fn load_runtime_settings(
        &mut self,
        options: Option<ProcessingOptions>,
        scan_interval: Option<&str>,
        parallelism: Option<&str>,
        revision: Option<&str>,
    )
        ensures
            final(self)@ == (AppView {
                options: match options {
                    Some(o) => o,
                    None => old(self)@.options,
                },
                scan_interval: stored_number(
                    raw_text(scan_interval),
                    u64::MAX as int,
                    old(self)@.scan_interval as int,
                ) as u64,
                parallelism: stored_parallelism(
                    raw_text(parallelism),
                    old(self)@.parallelism as int,
                ) as usize,
                font_index_revision: stored_number(
                    raw_text(revision),
                    u64::MAX as int,
                    old(self)@.font_index_revision as int,
                ) as u64,
                ..old(self)@
            }),
    {
        if let Some(o) = options {
            self.runtime_options = o;
        }
        self.scan_interval = read_number(scan_interval, u64::MAX, self.scan_interval);
        if let Some(s) = parallelism {
            if let Some(n) = parse_unsigned_text(s, usize::MAX as u64) {
                self.conversion_parallelism = within_parallelism(n as usize);
            }
        }
        self.font_index_revision = read_number(revision, u64::MAX, self.font_index_revision);
    }

    pub fn processing_options(&self) -> (r: ProcessingOptions)
        ensures
            r == self@.options,
    {
        self.runtime_options
    }

    /// The text under which outcomes with the present options are remembered.
    pub fn config_hash(&self) -> (r: String)
        ensures
            r@ == crate::config::options_hash(self@.options),
    {
        self.runtime_options.config_hash()
    }

    /// Changes one option.
    pub fn set_processing_option(&mut self, key: &str, value: bool) -> (r: Result<
        ProcessingOptions,
        UnknownOption,
    >)
        ensures
            match with_option(old(self)@.options, key@, value) {
                Some(o) => r == Ok::<ProcessingOptions, UnknownOption>(o) && final(self)@ == (
                AppView { options: o, ..old(self)@ }),
                None => r == Err::<ProcessingOptions, UnknownOption>(UnknownOption) && final(self)@
                    == old(self)@,
            },
    {
        match set_option(&self.runtime_options, key, value) {
            Some(o) => {
                self.runtime_options = o;
                Ok(o)
            },
            None => Err(UnknownOption),
        }
    }

    /// The time between two scans in seconds; zero where none is planned.
    pub fn scan_interval(&self) -> (r: u64)
        ensures
            r == self@.scan_interval,
    {
        self.scan_interval
    }

    /// Changes the time between two scans, and returns the text to store. Those who
    /// wait for the schedule are told once it is stored.
    pub fn set_scan_interval(&mut self, seconds: u64) -> (r: String)
        ensures
            r@ == decimal(seconds as nat),
            final(self)@ == (AppView { scan_interval: seconds, ..old(self)@ }),
    {
        self.scan_interval = seconds;
        to_text(decimal_chars(seconds).as_slice())
    }

    /// Notes that a changed time between two scans was stored, and returns the
    /// number of changes, which starts again at zero when it is used up.
    pub fn schedule_stored(&mut self) -> (r: u64)
        ensures
            r == final(self)@.schedule_version,
            final(self)@ == (AppView {
                schedule_version: (if old(self)@.schedule_version == u64::MAX {
                    0
                } else {
                    old(self)@.schedule_version + 1
                }) as u64,
                ..old(self)@
            }),
    {
        self.scan_schedule_version = if self.scan_schedule_version == u64::MAX {
            0
        } else {
            self.scan_schedule_version + 1
        };
        self.scan_schedule_version
    }

    /// The number of stored changes of the time between two scans.
    pub fn subscribe_scan_schedule(&self) -> (r: u64)
        ensures
            r == self@.schedule_version,
    {
        self.scan_schedule_version
    }

    /// What is going on, by what the flags of the operations hold.
    pub fn controls_with(&self, scan_running: bool, index_running: bool) -> (r: ControlStatus)
        ensures
            r.scan_paused == self@.scan_control.paused,
            r.scan_cancel_requested == self@.scan_control.cancelled,
            r.conversion_paused == self@.conversion_paused,
            r.conversion_cancel_requested == self@.conversion_cancel_requested,
            r.conversion_parallelism == self@.parallelism,
            r.scan_running == scan_running,
            r.index_running == index_running,
            r.scan_progress@ == self@.progress,
    {
        ControlStatus {
            scan_paused: self.scan_control.is_paused(),
            scan_cancel_requested: self.scan_control.is_cancelled(),
            conversion_paused: self.conversion_paused,
            conversion_cancel_requested: self.conversion_cancel_requested,
            conversion_parallelism: self.conversion_parallelism,
            scan_running,
            index_running,
            scan_progress: copy_progress(&self.scan_progress),
        }
    }

    /// What is going on. Which operations run is read from their flags.
    pub fn controls(&self) -> (r: ControlStatus)
        ensures
            r.scan_paused == self@.scan_control.paused,
            r.scan_cancel_requested == self@.scan_control.cancelled,
            r.conversion_paused == self@.conversion_paused,
            r.conversion_cancel_requested == self@.conversion_cancel_requested,
            r.conversion_parallelism == self@.parallelism,
            r.scan_progress@ == self@.progress,
    {
        let scan_running = self.scan_running.load(std::sync::atomic::Ordering::Acquire);
        let index_running = self.index_running.load(std::sync::atomic::Ordering::Acquire);
        self.controls_with(scan_running, index_running)
    }

    /// Starts a scan, unless one is running; the scan runs as long as the guard
    /// lives.
    pub fn try_begin_scan(&self) -> (r: Option<OperationGuard>)
        ensures
            r matches Some(g) ==> g.flag() == self@.scan_flag,
    {
        try_begin_operation(&self.scan_running)
    }

    /// Starts a rebuild of the index, unless one is running; it runs as long as the
    /// guard lives.
    pub fn try_begin_index(&self) -> (r: Option<OperationGuard>)
        ensures
            r matches Some(g) ==> g.flag() == self@.index_flag,
    {
        try_begin_operation(&self.index_running)
    }

    pub fn begin_scan_progress(&mut self, now: &str)
        ensures
            final(self)@ == (AppView {
                progress: ScanProgressView {
                    stage: "discovering"@,
                    started_at: Some(now@),
                    updated_at: Some(now@),
                    ..no_progress()
                },
                ..old(self)@
            }),
    {
        let mut p = ScanProgress::default();
        p.stage = "discovering".to_string();
        p.started_at = Some(now.to_string());
        p.updated_at = Some(now.to_string());
        self.scan_progress = p;
    }

    pub fn update_scan_progress(
        &mut self,
        stage: &str,
        current: usize,
        total: usize,
        seen: usize,
        ready: usize,
        queued: usize,
        skipped: usize,
        failed: usize,
        now: &str,
    )
        ensures
            final(self)@ == (AppView {
                progress: ScanProgressView {
                    stage: stage@,
                    current,
                    total,
                    seen,
                    ready,
                    queued,
                    skipped,
                    failed,
                    started_at: old(self)@.progress.started_at,
                    updated_at: Some(now@),
                },
                ..old(self)@
            }),
    {
        self.scan_progress.stage = stage.to_string();
        self.scan_progress.current = current;
        self.scan_progress.total = total;
        self.scan_progress.seen = seen;
        self.scan_progress.ready = ready;
        self.scan_progress.queued = queued;
        self.scan_progress.skipped = skipped;
        self.scan_progress.failed = failed;
        self.scan_progress.updated_at = Some(now.to_string());
    }

    pub fn finish_scan_progress(&mut self, stage: &str, now: &str)
        ensures
            final(self)@ == (AppView {
                progress: ScanProgressView {
                    stage: stage@,
                    updated_at: Some(now@),
                    ..old(self)@.progress
                },
                ..old(self)@
            }),
    {
        self.scan_progress.stage = stage.to_string();
        self.scan_progress.updated_at = Some(now.to_string());
    }

    pub fn font_index_revision(&self) -> (r: u64)
        ensures
            r == self@.font_index_revision,
    {
        self.font_index_revision
    }

    /// Marks the font index as changed.
    pub fn bump_font_index_revision(&mut self) -> (r: u64)
        ensures
            r == (if old(self)@.font_index_revision == u64::MAX {
                u64::MAX as int
            } else {
                old(self)@.font_index_revision + 1
            }),
            final(self)@ == (AppView { font_index_revision: r, ..old(self)@ }),
    {
        if self.font_index_revision < u64::MAX {
            self.font_index_revision = self.font_index_revision + 1;
        }
        self.font_index_revision
    }

    pub fn conversion_parallelism(&self) -> (r: usize)
        ensures
            r == self@.parallelism,
    {
        self.conversion_parallelism
    }

    /// Changes how many conversions may run at once, and returns the number that
    /// holds now.
    pub fn set_conversion_parallelism(&mut self, value: usize) -> (r: usize)
        ensures
            r == clamped(value as int, 1, 32),
            final(self)@ == (AppView { parallelism: r, ..old(self)@ }),
    {
        self.conversion_parallelism = within_parallelism(value);
        self.conversion_parallelism
    }

    /// Pauses or resumes the scan; to resume it takes a request to stop back.
    pub fn set_scan_paused(&mut self, paused: bool)
        ensures
            final(self)@ == (AppView {
                scan_control: WalkControl {
                    paused,
                    cancelled: paused && old(self)@.scan_control.cancelled,
                },
                ..old(self)@
            }),
    {
        self.scan_control.set_paused(paused);
        if !paused {
            self.scan_control.clear_cancel();
        }
    }

    pub fn request_scan_cancel(&mut self)
        ensures
            final(self)@ == (AppView {
                scan_control: WalkControl { paused: false, cancelled: true },
                ..old(self)@
            }),
    {
        self.scan_control.cancel();
    }

    pub fn clear_scan_cancel(&mut self)
        ensures
            final(self)@ == (AppView {
                scan_control: WalkControl { cancelled: false, ..old(self)@.scan_control },
                ..old(self)@
            }),
    {
        self.scan_control.clear_cancel();
    }

    /// Whether the scan goes on now, waits or stops.
    pub fn wait_for_scan_turn(&self) -> (r: Turn)
        ensures
            r == turn_of(self@.scan_control),
    {
        self.scan_control.turn()
    }

    /// The control of the scan, as it stands while it is lent out.
    pub fn scan_control(&self) -> (r: &WalkControl)
        ensures
            *r == self@.scan_control,
    {
        &self.scan_control
    }

    /// Pauses or resumes conversions; to resume them takes a request to stop back.
    pub fn set_conversion_paused(&mut self, paused: bool)
        ensures
            final(self)@ == (AppView {
                conversion_paused: paused,
                conversion_cancel_requested: paused && old(self)@.conversion_cancel_requested,
                ..old(self)@
            }),
    {
        self.conversion_paused = paused;
        if !paused {
            self.conversion_cancel_requested = false;
        }
    }

    pub fn request_conversion_cancel(&mut self)
        ensures
            final(self)@ == (AppView {
                conversion_paused: false,
                conversion_cancel_requested: true,
                ..old(self)@
            }),
    {
        self.conversion_cancel_requested = true;
        self.conversion_paused = false;
    }

    pub fn clear_conversion_cancel(&mut self)
        ensures
            final(self)@ == (AppView { conversion_cancel_requested: false, ..old(self)@ }),
    {
        self.conversion_cancel_requested = false;
    }

    pub fn conversion_cancel_requested(&self) -> (r: bool)
        ensures
            r == self@.conversion_cancel_requested,
    {
        self.conversion_cancel_requested
    }

    pub fn conversion_paused(&self) -> (r: bool)
        ensures
            r == self@.conversion_paused,
    {
        self.conversion_paused
    }
}

// ---------------------------------------------------------------------------
// Laws
// ---------------------------------------------------------------------------
/// A time between scans that was stored is the one that is read again.
pub proof fn law_interval_read_back(seconds: u64, other: int)
    ensures
        stored_number(Some(decimal(seconds as nat)), u64::MAX as int, other) == seconds,
{
    law_decimal_read_back(seconds as nat, u64::MAX as int);
}

/// How many conversions may run at once, stored and read again, is what it was.
pub proof fn law_parallelism_read_back(value: usize, other: int)
    ensures
        ({
            let set = clamped(value as int, 1, 32);
            &&& 1 <= set <= 32
            &&& stored_parallelism(Some(decimal(set as nat)), other) == set
        }),
{
    let set = clamped(value as int, 1, 32);
    law_decimal_read_back(set as nat, usize::MAX as int);
}

/// Setting an option twice is setting it to the later value, and one of its two
/// values is the one that it has.
pub proof fn law_last_option_counts(
    o: ProcessingOptions,
    key: Seq<char>,
    first: bool,
    second: bool,
)
    requires
        with_option(o, key, first) is Some,
    ensures
        with_option(with_option(o, key, first)->0, key, second) == with_option(o, key, second),
        with_option(o, key, true) == Some(o) || with_option(o, key, false) == Some(o),
{
    let i = option_index(key)->0;
    assert(0 <= i < 9);
    lemma_option_at(o, i, first, second);
}

proof fn lemma_option_at(o: ProcessingOptions, i: int, first: bool, second: bool)
    requires
        0 <= i < 9,
    ensures
        with_option_at(with_option_at(o, i, first), i, second) == with_option_at(o, i, second),
        with_option_at(o, i, true) == o || with_option_at(o, i, false) == o,
{
    let a = with_option_at(with_option_at(o, i, first), i, second);
    let b = with_option_at(o, i, second);
    assert(a.embed_external_fonts == b.embed_external_fonts);
    assert(a.embed_system_fonts == b.embed_system_fonts);
    assert(a.include_ascii == b.include_ascii);
    assert(a.multi_weight == b.multi_weight);
    assert(a.randomize_font_names == b.randomize_font_names);
    assert(a.draw_subset == b.draw_subset);
    assert(a.full_font_embed == b.full_font_embed);
    assert(a.fallback_full_font_embed == b.fallback_full_font_embed);
    assert(a.variable_fonts == b.variable_fonts);
}

/// Every option is set by its own name, and setting it leaves the others as they
/// are.
pub proof fn law_option_set_by_name(o: ProcessingOptions, value: bool)
    ensures
        with_option(o, "embed_external_fonts"@, value) == Some(ProcessingOptions { embed_external_fonts: value, ..o }),
        with_option(o, "embed_system_fonts"@, value) == Some(ProcessingOptions { embed_system_fonts: value, ..o }),
        with_option(o, "include_ascii"@, value) == Some(ProcessingOptions { include_ascii: value, ..o }),
        with_option(o, "multi_weight"@, value) == Some(ProcessingOptions { multi_weight: value, ..o }),
        with_option(o, "randomize_font_names"@, value) == Some(ProcessingOptions { randomize_font_names: value, ..o }),
        with_option(o, "draw_subset"@, value) == Some(ProcessingOptions { draw_subset: value, ..o }),
        with_option(o, "full_font_embed"@, value) == Some(ProcessingOptions { full_font_embed: value, ..o }),
        with_option(o, "fallback_full_font_embed"@, value) == Some(ProcessingOptions { fallback_full_font_embed: value, ..o }),
        with_option(o, "variable_fonts"@, value) == Some(ProcessingOptions { variable_fonts: value, ..o }),
{
    reveal_strlit("embed_external_fonts");
    reveal_strlit("embed_system_fonts");
    reveal_strlit("include_ascii");
    reveal_strlit("multi_weight");
    reveal_strlit("randomize_font_names");
    reveal_strlit("draw_subset");
    reveal_strlit("full_font_embed");
    reveal_strlit("fallback_full_font_embed");
    reveal_strlit("variable_fonts");
    assert("embed_external_fonts"@[6] != "embed_system_fonts"@[6]);
    assert("include_ascii"@[0] == 'i');
    assert("multi_weight"@[0] == 'm');
    assert("randomize_font_names"@[0] == 'r');
    assert("draw_subset"@[0] == 'd');
    assert("full_font_embed"@[1] == 'u');
    assert("fallback_full_font_embed"@[1] == 'a');
    assert("variable_fonts"@[0] == 'v');
    assert("embed_external_fonts"@[0] == 'e');
    assert("embed_system_fonts"@[0] == 'e');
}

/// A stored number of conversions is read as it stands from one to thirty-two,
/// and as the nearer end of that range outside it.
pub proof fn law_parallelism_kept_in_range(n: nat, other: int)
    requires
        n <= usize::MAX,
    ensures
        ({
            let read = stored_parallelism(Some(decimal(n)), other);
            &&& 1 <= n <= 32 ==> read == n
            &&& n == 0 ==> read == 1
            &&& n > 32 ==> read == 32
        }),
        stored_parallelism(None, other) == other,
{
    law_decimal_read_back(n, usize::MAX as int);
}

/// A service that has scanned nothing tells of nothing.
pub proof fn law_no_progress()
    ensures
        ({
            let p = no_progress();
            &&& p.stage.len() == 0 && p.started_at is None && p.updated_at is None
            &&& p.current == 0 && p.total == 0 && p.ready == 0
            &&& p.seen == 0 && p.queued == 0 && p.skipped == 0 && p.failed == 0
        }),
{
    reveal_strlit("");
}

} // verus!
