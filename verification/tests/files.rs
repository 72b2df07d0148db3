use std::collections::HashSet;

use aris_subset::backup::{
    backup_place, prune_cutoff, truncate_utf8_bytes, BackupFile, BackupPruneSummary, PruneStep,
    RemoveResult,
};
use aris_subset::clock::{day_stamp, second_stamp, EARLIEST, LATEST};
use aris_subset::config::{
    listen_address, parse_dirs, root_label, sanitize_path_segment, scan_interval_readable, Config,
    ConfigError,
};
use aris_subset::db::{
    add_column_if_missing, database_url, later_column, script_statements, table_info_sql,
    version_description,
};
use aris_subset::events::{log_level, LogLevel};
use aris_subset::failure_log::{daily_log, export_log, file_name_from_path, log_entry};
use aris_subset::font_inspect::{inspect_font, InspectError};
use aris_subset::fs_walk::{
    has_extension, is_wanted, should_visit, DiscoveredFile, Entry, RootKind, Visit, Walk, WalkControl,
};
use aris_subset::indexer::{
    after_fallback_inspect, collect_face_names, font_meta, font_walk_options,
    inspect_font_for_index, path_is_under_roots, ExistingMeta, Found, IndexRun, InspectOutcome,
    KnownFonts,
};
use aris_subset::models::{FontFaceInfo, FontNameInfo};
use aris_subset::path::{parent_of, path_below};
use aris_subset::scanner::{
    contains_subset_marker, effective_watch_dirs, filter_candidate, inspect_candidate, is_known,
    is_subtitle_path, metadata_fingerprint, requested_dir, stage_after, subtitle_candidate,
    subtitle_walk_options, watch_dir_entries, AfterWait, ExistingSubtitle, Filtered, Inspection,
    Judgement, KnownSubtitles, Scan, ScanAction, ScanRun, ScanStage, ScheduleStep, Scheduler, SubtitleCandidate, Woken,
};
use aris_subset::strmap::StrMap;
use sha2::Digest;

fn text(v: Option<Vec<char>>) -> Option<String> {
    v.map(|c| c.into_iter().collect())
}

#[test]
fn truncation_keeps_utf8_boundaries() {
    assert_eq!(truncate_utf8_bytes("abc字幕def", 7), "abc字");
    assert_eq!(truncate_utf8_bytes("short", 20), "short");
}

#[test]
fn truncation_takes_all_that_fits() {
    assert_eq!(truncate_utf8_bytes("abc字幕def", 6), "abc字");
    assert_eq!(truncate_utf8_bytes("abc字幕def", 5), "abc");
    assert_eq!(truncate_utf8_bytes("字", 2), "");
    assert_eq!(truncate_utf8_bytes("é\u{1F600}", 6), "é\u{1F600}");
}

#[test]
fn backups_are_named_after_their_subtitle() {
    let sha = "0123456789abcdef";
    let (dir, name) = backup_place("/backups", "watch", "show/s1/ep 1.ass", "20240102-030405", sha);
    assert_eq!(dir, "/backups/watch/show/s1");
    assert_eq!(name, "ep 1.20240102-030405.01234567.ass");
    let (dir, name) = backup_place("/b", "w", "x.SSA", "t", "abc");
    assert_eq!((dir.as_str(), name.as_str()), ("/b/w/", "x.t.abc.SSA"));
    let (_, name) = backup_place("/b", "w", "x.ass", "t", "é1234567");
    assert_eq!(name, "x.t.é123456.ass");
    let (_, name) = backup_place("/b", "w", "", "t", "");
    assert_eq!(name, "subtitle.t..ass");
    let long = "字".repeat(100);
    let (_, name) = backup_place("/b", "w", &format!("{long}.ass"), "20240102-030405", sha);
    assert!(name.len() <= 240);
    assert!(name.ends_with(".20240102-030405.01234567.ass"));
    assert!(name.len() > 235);
}

#[test]
fn old_backups_are_dropped_by_date() {
    assert_eq!(prune_cutoff(0, 0, 0), None);
    assert_eq!(prune_cutoff(1, 86_400 * 2, 0).unwrap(), "1970-01-02T00:00:00+00:00");
    assert_eq!(
        prune_cutoff(1, 86_400 * 2, 500_000_000).unwrap(),
        "1970-01-02T00:00:00.500+00:00"
    );
    assert_eq!(prune_cutoff(u64::MAX, 0, 0), prune_cutoff(365_000, 0, 0));
    assert_eq!(prune_cutoff(1, EARLIEST + 5, 7).unwrap(), "-262143-01-01T00:00:00+00:00");
    assert_eq!(prune_cutoff(1, LATEST, 0).unwrap(), "+262142-12-30T23:59:59+00:00");
    assert_eq!(day_stamp(951_782_400), "20000229");
    assert_eq!(second_stamp(951_782_400 + 3661), "20000229-010101");
}

#[test]
fn only_files_under_the_backup_root_are_removed() {
    let mut s = BackupPruneSummary::start(5);
    assert_eq!(s.found("/b", &BackupFile::Missing), PruneStep::DropRecord);
    assert_eq!(s.found("/b", &BackupFile::Unreadable), PruneStep::Keep);
    assert_eq!(s.found("/b", &BackupFile::NotRegular), PruneStep::Keep);
    let out = BackupFile::Regular { real_path: "/backup/x".to_string() };
    assert_eq!(s.found("/b", &out), PruneStep::Keep);
    let inside = BackupFile::Regular { real_path: "/b/x".to_string() };
    assert_eq!(s.found("/b", &inside), PruneStep::RemoveFile);
    assert!(s.removed(RemoveResult::Removed));
    assert_eq!((s.removed_files, s.missing_files, s.failed), (1, 1, 3));
    let mut t = BackupPruneSummary::start(2);
    assert!(t.removed(RemoveResult::Missing));
    assert!(!t.removed(RemoveResult::Failed));
    assert_eq!((t.missing_files, t.failed), (1, 1));
}

fn env(pairs: &[(&str, &str)]) -> StrMap<String> {
    let mut m = StrMap::new();
    for (k, v) in pairs {
        m.insert(k.to_string(), v.to_string());
    }
    m
}

#[test]
fn settings_are_read_and_limited() {
    let set = env(&[
        ("ADMIN_PASSWORD", "x"),
        ("FONT_DIRS", "/a, /b;/a/"),
        ("SCAN_CRON", "@every 15m"),
        ("MAX_SCAN_CONCURRENCY", "100"),
        ("MAX_CONVERSION_MEMORY_MB", "1"),
        ("INCLUDE_ASCII", "off"),
        ("LISTEN_ADDR", "127.0.0.1:80"),
    ]);
    let c = Config::from_env(&set, true).unwrap();
    assert_eq!(listen_address(&set), "127.0.0.1:80");
    assert_eq!(listen_address(&env(&[])), "0.0.0.0:8080");
    assert_eq!(Config::from_env(&set, false).unwrap_err(), ConfigError::BadAddress);
    assert_eq!(Config::from_env(&env(&[]), false).unwrap_err(), ConfigError::BadAddress);
    assert_eq!(c.font_dirs, vec!["/a", "/b"]);
    assert_eq!(c.watch_dirs, vec!["/watch"]);
    assert_eq!(c.scan_interval, 900);
    assert_eq!(c.max_scan_concurrency, 32);
    assert_eq!(c.max_conversion_memory_mb, 64);
    assert!(!c.options.include_ascii);
    assert_eq!(c.subset_cache_max_bytes(), 2048 * 1024 * 1024);
    assert_eq!(Config::from_env(&env(&[]), true).unwrap_err(), ConfigError::NoPassword);
    assert!(scan_interval_readable(&env(&[])));
    assert!(scan_interval_readable(&env(&[("SCAN_CRON", "@every 6h")])));
    let long = [("SCAN_CRON", "@every 9999999999999999999h")];
    assert!(!scan_interval_readable(&env(&long)));
    assert_eq!(parse_dirs(" ; /x ,, /x"), vec!["/x"]);
}

#[test]
fn names_are_made_safe() {
    assert_eq!(sanitize_path_segment("a/b:c?"), "a_b_c_");
    assert_eq!(sanitize_path_segment(" .. "), "_");
    assert_eq!(root_label("/mnt/Shows/", 3), "Shows");
    assert_eq!(root_label("/", 3), "watch3");
}

#[test]
fn paths_below_a_root_are_found() {
    assert_eq!(text(path_below("/w/a/b.ass", "/w")), Some("a/b.ass".to_string()));
    assert_eq!(text(path_below("/w//./a/b.ass/", "/w/")), Some("a/b.ass".to_string()));
    assert_eq!(text(path_below("/w/a//b", "/w")), Some("a//b".to_string()));
    assert_eq!(text(path_below("/w", "/w")), Some(String::new()));
    assert_eq!(text(path_below("/wx/a", "/w")), None);
    for p in ["/w/a/b.ass", "/w//./a/b.ass/", "/w/a//b", "/w", "/wx/a", "w/a", "/w/./a"] {
        let want = std::path::Path::new(p)
            .strip_prefix("/w")
            .ok()
            .map(|r| r.to_str().unwrap().to_string());
        assert_eq!(text(path_below(p, "/w")), want);
    }
    for p in ["", "/", "a", "a/b", "/a", "//a/b/", "a/./b", "./a", ".", "/a/..", "a//b"] {
        let want = std::path::Path::new(p).parent().map(|r| r.to_str().unwrap().to_string());
        assert_eq!(text(parent_of(p)), want);
    }
}

#[test]
fn scripts_are_split_into_statements() {
    assert_eq!(
        script_statements("CREATE TABLE a(x);\n ; \nDROP TABLE b\n;"),
        vec!["CREATE TABLE a(x)", "DROP TABLE b"]
    );
    assert!(script_statements(" \n ").is_empty());
}

#[test]
fn columns_are_added_once() {
    let mut columns = vec!["id".to_string()];
    let sql = add_column_if_missing(&columns, "jobs", "mode", "TEXT").unwrap();
    assert_eq!(sql, "ALTER TABLE jobs ADD COLUMN mode TEXT");
    columns.push("mode".to_string());
    assert_eq!(add_column_if_missing(&columns, "jobs", "mode", "TEXT"), None);
    assert_eq!(table_info_sql("jobs"), "PRAGMA table_info(jobs)");
    assert_eq!(later_column(4).unwrap().table, "jobs");
    assert!(later_column(5).is_none());
    assert_eq!(version_description(3), Some("backup retention index"));
    assert_eq!(version_description(5), None);
    assert_eq!(database_url("/data/x.db"), "sqlite:///data/x.db");
}

#[test]
fn failed_jobs_are_logged() {
    let e = log_entry("now", 7, None, "subset", "/w/a.ass", None);
    assert_eq!((e.file_name.as_str(), e.error.as_str()), ("a.ass", "unknown error"));
    assert_eq!(log_entry("now", 7, Some(1), "m", "/", Some("bad")).error, "bad");
    assert_eq!(file_name_from_path("/"), "/");
    assert_eq!(daily_log("/d", "20240102"), "/d/error-logs/failed-jobs-20240102.jsonl");
    assert_eq!(export_log("/d", "t"), "/d/error-logs/failed-jobs-export-t.jsonl");
}

#[test]
fn levels_are_read() {
    assert_eq!(log_level("err"), LogLevel::Error);
    assert_eq!(log_level("error"), LogLevel::Error);
    assert_eq!(log_level("warn"), LogLevel::Warn);
    assert_eq!(log_level("warning"), LogLevel::Warn);
    assert_eq!(log_level("ok"), LogLevel::Info);
}

fn file(path: &str, size: i64, mtime: i64) -> DiscoveredFile {
    DiscoveredFile { path: path.to_string(), size, mtime }
}

#[test]
fn walk_runs_off_runtime_and_filters_extensions_and_directories() {
    let options = subtitle_walk_options();
    assert!(has_extension("/w/one.ASS", options.extensions));
    assert!(!has_extension("/w/two.txt", options.extensions));
    assert!(is_wanted(true, "/w/one.ASS", options.extensions));
    assert!(!is_wanted(false, "/w/one.ASS", options.extensions));
    assert!(!is_wanted(true, "/w/two.txt", options.extensions));
    assert!(!should_visit(1, true, "#RECYCLE", options.ignored_directories));
    assert!(should_visit(0, true, "#recycle", options.ignored_directories));
    assert!(should_visit(1, false, "#recycle", options.ignored_directories));
    assert!(font_walk_options().follow_links);
    let mut walk = Walk::start(RootKind::Directory);
    assert_eq!(walk.found(false, Entry::Wanted(true)), Visit::ReportFile);
    walk.reported(true);
    assert_eq!(walk.found(false, Entry::Other), Visit::Pass);
    assert!(walk.result.complete);
    assert_eq!(walk.found(false, Entry::Unreadable), Visit::ReportError);
    assert!(!walk.result.complete);
    assert!(Walk::start(RootKind::NotDirectory).over);
}

#[test]
fn cancelled_walk_reports_cancellation() {
    let mut control = WalkControl::new();
    control.set_paused(true);
    control.cancel();
    assert!(control.is_cancelled());
    let mut walk = Walk::start(RootKind::Directory);
    assert_eq!(walk.found(control.is_cancelled(), Entry::Wanted(true)), Visit::End);
    assert!(walk.result.cancelled);
    assert!(!walk.result.complete);
}

#[test]
fn stale_pruning_is_scoped_to_fully_scanned_roots() {
    let roots = vec!["/fonts/ready".to_string()];
    assert!(path_is_under_roots("/fonts/ready/a.ttf", &roots));
    assert!(!path_is_under_roots("/fonts/unavailable/a.ttf", &roots));
    assert!(!path_is_under_roots("/fonts/ready-other/a.ttf", &roots));
}

fn known(entries: &[(&str, i64, &str)]) -> KnownFonts {
    let mut k = KnownFonts::new();
    for (path, id, status) in entries {
        k.insert(
            path.to_string(),
            ExistingMeta { id: *id, size: 10, mtime: 20, status: status.to_string() },
        );
    }
    k
}

#[test]
fn only_changed_fonts_are_read_again() {
    let k = known(&[("/f/a.ttf", 1, "ok"), ("/f/b.ttf", 2, "error"), ("/f/gone.ttf", 3, "ok"), ("/g/x.ttf", 4, "ok")]);
    let mut run = IndexRun::start();
    assert_eq!(run.discovered(file("/f/a.ttf", 10, 20), &k), Found::Unchanged);
    assert_eq!(run.discovered(file("/f/b.ttf", 10, 20), &k), Found::Changed);
    assert_eq!(run.discovered(file("/f/c.TTF", 1, 2), &k), Found::Changed);
    assert_eq!(run.discovered(file("/f/c.TTF", 1, 2), &k), Found::Again);
    run.root_walked("/f", true);
    run.root_walked("/g", false);
    assert!(run.take_batch(false).is_none());
    let batch = run.take_batch(true).unwrap();
    assert_eq!(batch.len(), 2);
    assert_eq!(batch[0].existing_id, Some(2));
    assert_eq!((batch[1].existing_id, batch[1].format.as_str()), (None, "ttf"));
    assert!(run.take_batch(true).is_none());
    for (i, meta) in batch.into_iter().enumerate() {
        if i == 0 {
            run.inspected(meta, Ok(InspectOutcome { faces: Vec::new(), used_fallback: true }));
        } else {
            run.inspected(meta, Err("bad".to_string()));
        }
    }
    assert!(run.take_results(false).is_none());
    let (good, bad) = run.take_results(true).unwrap();
    assert_eq!((good.len(), bad.len()), (1, 1));
    assert_eq!(bad[0].error, "bad");
    assert!(run.has_complete_root());
    assert_eq!(run.stale_ids(&k), vec![3]);
    run.pruned(1);
    run.wrote_for(5);
    run.inspected_for(20, 0);
    run.walked_for(30);
    let s = run.summary();
    assert_eq!((s.scanned, s.skipped, s.indexed, s.failed, s.fallback_used), (3, 2, 1, 1, 1));
    assert_eq!((s.pruned, s.write_ms, s.inspect_ms, s.walk_ms), (1, 5, 15, 10));
    assert!(run.changed());
    assert!(!IndexRun::start().changed());
}

#[test]
fn faces_are_found_under_each_name_once() {
    let face = FontFaceInfo {
        ttc_index: 0,
        family: Some("Main".to_string()),
        full_name: Some(" @MAIN Bold ".to_string()),
        postscript_name: Some("  ".to_string()),
        subfamily: None,
        version: None,
        weight: 400,
        italic: false,
        names: vec![
            FontNameInfo { name: "main".to_string(), kind: "family".to_string() },
            FontNameInfo { name: "主体".to_string(), kind: "family".to_string() },
        ],
    };
    let names = collect_face_names(9, &face);
    let shown: Vec<(&str, &str)> =
        names.iter().map(|n| (n.normalized.as_str(), n.kind.as_str())).collect();
    assert_eq!(shown, vec![("main", "family"), ("主体", "family"), ("main bold", "full")]);
    assert!(names.iter().all(|n| n.face_id == 9));
    assert_eq!(font_meta(file("/f/x", 1, 2)).format, "");
}

#[test]
fn broken_fonts_are_told_in_words() {
    assert_eq!(inspect_font(&[0; 4]).unwrap_err(), InspectError::OutOfBounds);
    let fast = inspect_font_for_index(&[0; 12]).unwrap_err();
    assert_eq!(fast, "unrecognized sfnt version");
    let mut ttc = b"ttcf\0\x01\0\0".to_vec();
    ttc.extend_from_slice(&[0, 0, 0, 0]);
    assert_eq!(inspect_font_for_index(&ttc).unwrap_err(), "invalid TTC face count: 0");
    let both = after_fallback_inspect(&fast, Err("worker".to_string())).unwrap_err();
    assert_eq!(
        both,
        "fast sfnt inspect failed: unrecognized sfnt version; fontTools fallback failed: worker"
    );
    assert!(after_fallback_inspect(&fast, Ok(Vec::new())).unwrap().used_fallback);
}

fn be16(v: &mut Vec<u8>, n: u16) {
    v.extend_from_slice(&n.to_be_bytes());
}

fn be32(v: &mut Vec<u8>, n: u32) {
    v.extend_from_slice(&n.to_be_bytes());
}

#[test]
fn the_names_of_a_font_are_read() {
    let family: Vec<u8> = "Main".encode_utf16().flat_map(|u| u.to_be_bytes()).collect();
    let style: Vec<u8> = "Bold Italic".encode_utf16().flat_map(|u| u.to_be_bytes()).collect();
    let mut table = Vec::new();
    be16(&mut table, 0);
    be16(&mut table, 2);
    be16(&mut table, 6 + 24);
    for (id, len, offset) in [(1u16, family.len(), 0), (2, style.len(), family.len())] {
        be16(&mut table, 3);
        be16(&mut table, 1);
        be16(&mut table, 0x409);
        be16(&mut table, id);
        be16(&mut table, len as u16);
        be16(&mut table, offset as u16);
    }
    table.extend_from_slice(&family);
    table.extend_from_slice(&style);
    let mut font = vec![0, 1, 0, 0];
    be16(&mut font, 1);
    font.extend_from_slice(&[0; 6]);
    font.extend_from_slice(b"name");
    be32(&mut font, 0);
    be32(&mut font, 28);
    be32(&mut font, table.len() as u32);
    font.extend_from_slice(&table);
    let faces = inspect_font(&font).unwrap();
    assert_eq!(faces.len(), 1);
    assert_eq!(faces[0].family.as_deref(), Some("Main"));
    assert_eq!(faces[0].subfamily.as_deref(), Some("Bold Italic"));
    assert_eq!(faces[0].weight, 700);
    assert!(faces[0].italic);
    let shown: Vec<(&str, &str)> =
        faces[0].names.iter().map(|n| (n.name.as_str(), n.kind.as_str())).collect();
    assert_eq!(shown, vec![("Main", "family")]);
    assert!(!inspect_font_for_index(&font).unwrap().used_fallback);
}

#[test]
fn candidate_inspection_stops_hashing_after_subset_marker() {
    let marked = inspect_candidate(b"[Script Info]\n; Font Subset: AS123 - Example\n[Events]\n");
    assert!(marked.already_subsetted);
    assert!(marked.sha256.is_none());

    let plain_bytes = b"[Script Info]\n[Events]\nDialogue: 0,0,1,Default,Hello\n";
    let plain = inspect_candidate(plain_bytes);
    assert!(!plain.already_subsetted);
    assert_eq!(plain.sha256.unwrap(), hex::encode(sha2::Sha256::digest(plain_bytes)));
}

#[test]
fn marks_are_found_in_every_encoding_and_up_to_the_limit() {
    let line = "{\\fnASSDrawSubset\\p0}";
    assert!(contains_subset_marker(line.as_bytes()));
    let mut wide = vec![0xff, 0xfe];
    wide.extend(line.encode_utf16().flat_map(|u| u.to_le_bytes()));
    wide.push(0x41);
    assert!(contains_subset_marker(&wide));
    let mut big = vec![0xfe, 0xff];
    big.extend(line.encode_utf16().flat_map(|u| u.to_be_bytes()));
    assert!(contains_subset_marker(&big));
    let mut broken = vec![0xff, 0x80];
    broken.extend_from_slice(line.as_bytes());
    assert!(contains_subset_marker(&broken));
    assert!(!contains_subset_marker(b"\xef\xbb\xbfplain"));

    let mut reading = Inspection::start();
    assert!(reading.read(&vec![b'x'; 1024 * 1024]));
    assert!(reading.read(line.as_bytes()));
    let late = reading.finish();
    assert!(!late.already_subsetted);
    assert!(late.sha256.is_some());
    let mut reading = Inspection::start();
    assert!(reading.read(b"{\\fnASSDraw"));
    assert!(!reading.read(b"Subset\\p0}"));
    assert!(reading.finish().already_subsetted);
}

fn candidate(path: &str) -> SubtitleCandidate {
    subtitle_candidate("/w", "w", file(path, 10, 20))
}

fn existing(sha: &str, config: &str, status: &str, revision: Option<i64>) -> ExistingSubtitle {
    ExistingSubtitle {
        id: 7,
        size: 10,
        mtime: 20,
        sha256: sha.to_string(),
        last_config_hash: Some(config.to_string()),
        last_status: Some(status.to_string()),
        last_font_index_revision: revision,
    }
}

fn remembered(e: ExistingSubtitle) -> KnownSubtitles {
    let mut k = KnownSubtitles::new();
    k.insert("/w/a.ass".to_string(), e);
    k
}

#[test]
fn converted_files_are_left_alone() {
    let c = candidate("/w/a.ass");
    let idle: HashSet<i64> = HashSet::new();
    let busy: HashSet<i64> = HashSet::from([7]);
    let done = remembered(existing("h", "cfg", "success", None));
    assert!(is_known(&c, &done, &idle, "cfg", 1));
    assert!(!is_known(&c, &done, &idle, "other", 1));
    assert!(is_known(&c, &done, &busy, "other", 1));
    assert!(!is_known(&candidate("/w/b.ass"), &done, &busy, "cfg", 1));
    let partial = remembered(existing("h", "cfg", "partial", Some(1)));
    assert!(is_known(&c, &partial, &idle, "cfg", 1));
    assert!(!is_known(&c, &partial, &idle, "cfg", 2));
    let failed = remembered(existing("h", "cfg", "failed", Some(1)));
    assert!(!is_known(&c, &failed, &idle, "cfg", 1));
}

#[test]
fn inspected_files_are_sorted() {
    let c = candidate("/w/a.ass");
    let bytes = b"[Events]\n";
    let sha = hex::encode(sha2::Sha256::digest(bytes));
    let same = remembered(existing(&sha, "cfg", "success", None));
    match filter_candidate(&c, inspect_candidate(bytes), &same, "cfg", 1) {
        Filtered::Unchanged { sha256 } => assert_eq!(sha256, sha),
        _ => panic!("the file is unchanged"),
    }
    match filter_candidate(&c, inspect_candidate(bytes), &same, "new", 1) {
        Filtered::Ready(q) => assert_eq!((q.sha256, q.meta.path), (sha, "/w/a.ass".to_string())),
        _ => panic!("the file is ready"),
    }
    let marked = inspect_candidate(b"; Font Subset: A - B");
    match filter_candidate(&c, marked, &same, "new", 1) {
        Filtered::AlreadySubsetted { fingerprint } => assert_eq!(fingerprint, "metadata:10:20"),
        _ => panic!("the file was subset already"),
    }
    assert_eq!(metadata_fingerprint(&candidate("/w/a.ass")), "metadata:10:20");
}

#[test]
fn candidates_are_named_below_their_root() {
    assert_eq!(candidate("/w/show/a\\b.ass").relative_path, "show/a/b.ass");
    assert_eq!(candidate("/elsewhere/a.ass").relative_path, "/elsewhere/a.ass");
    assert!(is_subtitle_path("x.ASS"));
    assert!(is_subtitle_path("/a.b/x.ssa"));
    assert!(!is_subtitle_path(".ass"));
    assert!(!is_subtitle_path("x.ass.bak"));
}

#[test]
fn every_file_of_a_scan_is_counted() {
    let mut scan = Scan::start(0);
    for i in 0..250 {
        assert!(scan.discovered("/w", "w", file(&format!("/w/{i}.ass"), 1, 1)));
    }
    let report = scan.progress(ScanStage::Discovering, false, 1).unwrap();
    assert_eq!(report.message, "scan discover progress: seen 250, queued 0, skipped 0, failed 0");
    assert!(!scan.discovered("/w", "w", file("/w/3.ass", 1, 1)));
    scan.walk_failed();
    assert!(scan.discovered("/w", "w", file("/w/last.ass", 1, 1)));
    assert!(scan.progress(ScanStage::Discovering, false, 10_000).is_none());
    assert!(scan.progress(ScanStage::Discovering, false, 10_001).is_some());
    assert!(scan.progress(ScanStage::Discovering, true, 10_001).is_some());

    let mut n = 0;
    while let Some(c) = scan.next_candidate() {
        assert_eq!(scan.being_judged(), 1);
        n += 1;
        let what = match n % 10 {
            0 => Judgement::Skip,
            1 => Judgement::Failed,
            _ => match filter_candidate(
                &c,
                inspect_candidate(b"x"),
                &KnownSubtitles::new(),
                "cfg",
                0,
            ) {
                Filtered::Ready(q) => Judgement::Ready(q),
                _ => panic!("a new file is ready"),
            },
        };
        scan.judged(what);
    }
    assert_eq!(n, 251);
    let mut batches = Vec::new();
    while scan.batch_start() < scan.batch_end() {
        let size = scan.batch_end() - scan.batch_start();
        assert_eq!(scan.ready_at(scan.batch_start()).meta.root_label, "w");
        batches.push(size);
        scan.batch_queued(scan.batch_end(), size - 1);
    }
    assert_eq!(batches, vec![200]);
    let s = scan.summary();
    assert_eq!(s.seen, 251);
    assert_eq!(s.queued + s.skipped + s.failed, 251 + 1 + 1);
    let report = scan.progress(ScanStage::Enqueuing, true, 10_002).unwrap();
    assert_eq!(
        report.message,
        "scan enqueue progress: 200/200, ready 200, queued 199, skipped 27, failed 27"
    );
    assert_eq!(stage_after(Some(s)), "completed");
    scan.cancel();
    assert_eq!(stage_after(Some(scan.summary())), "cancelled");
    assert_eq!(stage_after(None), "failed");
}

fn ready(c: SubtitleCandidate) -> Judgement {
    match filter_candidate(&c, inspect_candidate(b"x"), &KnownSubtitles::new(), "cfg", 0) {
        Filtered::Ready(q) => Judgement::Ready(q),
        _ => panic!("a new file is ready"),
    }
}

#[test]
fn a_scan_runs_to_its_end() {
    let mut run = ScanRun::start(2, 2, 0);
    let mut files = vec![vec!["/a/1.ass", "/a/2.ass", "/a/3.ass"], vec!["/b/1.ass", "/a/2.ass"]];
    let mut looks = Vec::new();
    let mut log = Vec::new();
    let mut root = 0;
    loop {
        match run.next() {
            ScanAction::AskTurn => run.turn(true),
            ScanAction::Walk(i) => {
                root = i;
                log.push(format!("walk {i}"));
            }
            ScanAction::Receive => {
                if files[root].is_empty() {
                    run.walked(false);
                } else {
                    run.discovered("/", "r", file(files[root].remove(0), 1, 1));
                }
            }
            ScanAction::Load => log.push("load".to_string()),
            ScanAction::Judge(c) => {
                looks.push(c);
                assert!(looks.len() <= 2);
            }
            ScanAction::Collect => run.judged(ready(looks.remove(0))),
            ScanAction::Queue { start, end } => {
                log.push(format!("queue {start}..{end}"));
                assert_eq!(run.ready_at(start).meta.path, "/a/1.ass");
                run.queued(end, end - start);
            }
            ScanAction::Report(stage) => {
                log.push(run.progress(stage, true, 1).unwrap().message);
            }
            ScanAction::Done => break,
        }
    }
    assert_eq!(
        log,
        vec![
            "walk 0",
            "scan discover progress: seen 3, queued 0, skipped 0, failed 0",
            "walk 1",
            "scan discover progress: seen 4, queued 0, skipped 1, failed 0",
            "load",
            "scan filter progress: 4/4, ready 4, queued 0, skipped 1, failed 0",
            "queue 0..4",
            "scan enqueue progress: 4/4, ready 4, queued 4, skipped 1, failed 0",
        ]
    );
    assert!(!run.summary().cancelled);
}

#[test]
fn a_scan_that_is_stopped_begins_nothing_more() {
    let mut run = ScanRun::start(1, 1, 0);
    assert!(matches!(run.next(), ScanAction::AskTurn));
    run.turn(false);
    assert!(matches!(run.next(), ScanAction::Done));
    assert!(run.summary().cancelled);

    let mut run = ScanRun::start(1, 1, 0);
    run.turn(true);
    assert!(matches!(run.next(), ScanAction::Walk(0)));
    run.discovered("/", "r", file("/a.ass", 1, 1));
    run.walked(false);
    assert!(matches!(run.next(), ScanAction::Report(ScanStage::Discovering)));
    assert!(matches!(run.next(), ScanAction::Load));
    run.turn(true);
    let Some(c) = (match run.next() {
        ScanAction::Judge(c) => Some(c),
        _ => None,
    }) else {
        panic!("one file is to be judged");
    };
    run.turn(true);
    assert!(matches!(run.next(), ScanAction::Collect));
    run.judged(ready(c));
    assert!(matches!(run.next(), ScanAction::Report(ScanStage::Filtering)));
    run.turn(false);
    assert!(matches!(run.next(), ScanAction::Report(ScanStage::Enqueued)));
    let report = run.progress(ScanStage::Enqueued, true, 1).unwrap();
    assert_eq!(report.message, "scan enqueue progress: 1/1, ready 1, queued 0, skipped 0, failed 0");
    assert!(matches!(run.next(), ScanAction::Done));
    assert_eq!(stage_after(Some(run.summary())), "cancelled");
}

#[test]
fn watched_directories_are_listed_once() {
    let configured = vec!["/watch".to_string(), "/b".to_string()];
    let stored = vec!["/watch/".to_string(), "/c".to_string(), "/c/.".to_string()];
    let shown: Vec<(String, bool)> = watch_dir_entries(&configured, &stored)
        .into_iter()
        .map(|e| (e.path, e.removable))
        .collect();
    assert_eq!(
        shown,
        vec![
            ("/watch".to_string(), false),
            ("/b".to_string(), false),
            ("/c".to_string(), true)
        ]
    );
    assert_eq!(effective_watch_dirs(&configured, &stored), vec!["/watch", "/b", "/c"]);
    assert_eq!(requested_dir("  /x ").as_deref(), Some("/x"));
    assert_eq!(requested_dir(" \t"), None);
}

#[test]
fn scans_follow_the_schedule() {
    let mut s = Scheduler::new();
    assert_eq!(s.next(0), ScheduleStep::AnnounceDisabled);
    assert_eq!(s.next(0), ScheduleStep::AwaitChange);
    let step = s.next(60);
    assert_eq!(step, ScheduleStep::Sleep(60));
    assert_eq!(s.woken(step, Woken::Elapsed), AfterWait::Scan);
    assert_eq!(s.woken(step, Woken::Changed), AfterWait::LookAgain);
    assert_eq!(s.woken(step, Woken::Closed), AfterWait::Stop);
    assert_eq!(s.next(0), ScheduleStep::AnnounceDisabled);
}
