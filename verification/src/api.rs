//! What the service answers.
pub mod analysis;
pub mod listing;
pub mod login;
pub mod names;
pub mod settings;
pub mod status;
pub mod upload;

pub use analysis::{
    analyze_subtitle, analyze_text, cached_analysis, fingerprint_matches, SubtitleAnalysis,
};
pub use listing::{backups_query, files_query, jobs_query, page, Bound, ListQuery};
pub use login::{login, login_begins, login_ends, password_lets_in, LoginOutcome};
pub use names::{
    content_disposition_filename, download_filename, percent_encode_utf8, upload_name,
};
pub use settings::{option_label, option_message, schedule_message, schedule_seconds};
pub use status::{job_counts, status, status_visible, JobCount, StatusCounts, StatusReport};
pub use upload::{
    new_upload_dir, UploadError, UploadMeter, MAX_UPLOAD_BYTES, MULTIPART_OVERHEAD_BYTES,
};
