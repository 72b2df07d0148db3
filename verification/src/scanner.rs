//! Looking for subtitles to convert.
pub mod filter;
pub mod inspect;
pub mod run;
pub mod scan;
pub mod watch;

pub use filter::{
    filter_candidate, is_known, is_subtitle_path, metadata_fingerprint, subtitle_candidate,
    ExistingSubtitle, Filtered, KnownSubtitles, QueueCandidate, SubtitleCandidate,
};
pub use inspect::{
    contains_subset_marker, decode_prefix_lossy, inspect_candidate, text_has_marker,
    CandidateInspection, Inspection,
};
pub use run::{ScanAction, ScanPhase, ScanRun};
pub use scan::{
    stage_after, subtitle_walk_options, Judgement, Scan, ScanReport, ScanStage, ScanSummary,
};
pub use watch::{
    effective_watch_dirs, requested_dir, watch_dir_entries, AfterWait, ScheduleStep, Scheduler,
    WatchDirEntry, Woken,
};
