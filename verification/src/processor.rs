//! Converting subtitles: embedding subset fonts, and taking them out again.
pub mod candidates;
pub mod keys;
pub mod memory;
pub mod steps;
pub mod strip_job;
pub mod subset_job;

pub use candidates::{
    best_candidate, embedded_family_name, hash_source, select_best_candidate, HashSource,
};
pub use keys::{draw_cache_key, stable_font_name, subset_cache_key, try_stable_font_name};
pub use memory::memory_permits_for_size;
pub use steps::{
    elapsed_millis, end_of_job, job_is_runnable, may_fall_back, queue_latency, replacement_path,
    waiting_millis, CacheStep, JobEnd, JobQueue, QueueStep, WriteStep,
};
pub use strip_job::{FontReport, StripJob};
pub use subset_job::{
    font_wanted, is_draw_font, plan_subsets, status_of, FontPlan, JobOutcome, ProcessStats,
    SubsetJob, SubsetTask,
};
