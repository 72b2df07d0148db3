//! Font subsetting for ASS/SSA subtitles: parsing, rewriting and restoring
//! subtitle files, reading font tables, and the rules of the service around it.
pub mod api;
pub mod ass;
pub mod auth;
pub mod backup;
pub mod cache;
pub mod clock;
pub mod config;
pub mod db;
pub mod digest;
pub mod events;
pub mod failure_log;
pub mod font_inspect;
pub mod font_worker;
pub mod fs_walk;
pub mod ids;
pub mod indexer;
pub mod inspect_laws;
pub mod line_laws;
pub mod metrics;
pub mod models;
pub mod number;
pub mod path;
pub mod processor;
pub mod scanner;
pub mod sort;
pub mod split;
pub mod state;
pub mod strmap;
pub mod text;
pub mod text_laws;
pub mod utf16;
