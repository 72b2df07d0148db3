use std::sync::atomic::{AtomicBool, Ordering};
use std::sync::Arc;

use argon2::password_hash::{PasswordHasher, SaltString};
use aris_subset::api::{
    analyze_subtitle, analyze_text, backups_query, cached_analysis, content_disposition_filename,
    download_filename, files_query, job_counts, jobs_query, login, new_upload_dir, option_label,
    option_message, page, percent_encode_utf8, schedule_message, schedule_seconds, status_visible,
    upload_name, Bound, LoginOutcome, StatusCounts, UploadError, UploadMeter, MAX_UPLOAD_BYTES,
};
use aris_subset::auth::{
    cleanup_sessions, create_session, read_cookie, require_auth, session_cookie,
    verify_password, verify_password_value, AuthError, LoginRateLimiter, Sessions, LOGIN_BLOCK,
    LOGIN_MAX_FAILURES, SECOND, SESSION_COOKIE, SESSION_TTL,
};
use aris_subset::config::{Config, ProcessingOptions};
use aris_subset::fs_walk::Turn;
use aris_subset::state::{guard_after, try_begin_operation, AppState, UnknownOption};
use aris_subset::strmap::StrMap;
use sha2::Digest;

#[test]
fn verifies_argon2_and_legacy_sha256_hashes() {
    let salt = SaltString::encode_b64(b"0123456789abcdef").unwrap();
    let argon = argon2::Argon2::default().hash_password(b"secret", &salt).unwrap().to_string();
    assert!(verify_password_value(None, Some(&argon), "secret"));
    assert!(!verify_password_value(None, Some(&argon), "wrong"));

    let legacy = format!("sha256:{}", hex::encode(sha2::Sha256::digest(b"secret")));
    assert!(verify_password_value(None, Some(&legacy), "secret"));
    assert!(!verify_password_value(None, Some(&legacy), "wrong"));
}

#[test]
fn plain_passwords_come_first_and_other_hashes_are_refused() {
    assert!(verify_password_value(Some("open"), Some("sha256:00"), "open"));
    assert!(!verify_password_value(Some("open"), None, "Open"));
    assert!(!verify_password_value(None, None, ""));
    assert!(!verify_password_value(None, Some("md5:abc"), "x"));
    assert!(!verify_password_value(None, Some("$argon2id$broken"), "x"));
    let upper = format!("sha256: {} ", hex::encode_upper(sha2::Sha256::digest(b"secret")));
    assert!(verify_password_value(None, Some(&upper), "secret"));
    assert!(verify_password(true, None, None, "anything"));
    assert!(!verify_password(false, None, None, "anything"));
}

#[test]
fn repeated_login_failures_are_temporarily_blocked() {
    let mut limiter = LoginRateLimiter::new();
    let now = 5 * SECOND;
    for _ in 0..LOGIN_MAX_FAILURES {
        limiter.record_failure("client", now);
    }
    assert!(limiter.retry_after("client", now).is_some());
    limiter.record_success("client");
    assert!(limiter.retry_after("client", now).is_none());
}

#[test]
fn blocks_last_a_minute_and_failures_are_counted_within_one() {
    let mut limiter = LoginRateLimiter::new();
    for i in 0..4 {
        limiter.record_failure("a", i * SECOND);
    }
    assert_eq!(limiter.retry_after("a", 4 * SECOND), None);
    limiter.record_failure("a", 5 * SECOND);
    assert_eq!(limiter.retry_after("a", 5 * SECOND), Some(60));
    assert_eq!(limiter.retry_after("a", 5 * SECOND + LOGIN_BLOCK - 1), Some(1));
    assert_eq!(limiter.retry_after("a", 5 * SECOND + LOGIN_BLOCK), None);
    assert_eq!(limiter.retry_after("b", 5 * SECOND), None);

    let mut slow = LoginRateLimiter::new();
    for i in 0..10 {
        slow.record_failure("a", i * 61 * SECOND);
    }
    assert_eq!(slow.retry_after("a", 9 * 61 * SECOND), None);
}

#[test]
fn sessions_last_a_day_and_need_their_token() {
    let mut sessions = Sessions::new();
    let info = create_session(&mut sessions, SECOND);
    assert_eq!(info.token.len(), 48);
    assert_eq!(info.csrf.len(), 32);
    assert!(info.token.chars().all(|c| c.is_ascii_alphanumeric()));
    let other = create_session(&mut sessions, SECOND);
    assert_ne!(info.token, other.token);
    let cookies = format!("theme=dark; {SESSION_COOKIE}={}", info.token);

    let ok = require_auth(&sessions, false, Some(&cookies), Some(&info.csrf), true, 2 * SECOND);
    assert_eq!(ok.unwrap().token, info.token);
    let read = require_auth(&sessions, false, Some(&cookies), None, false, 2 * SECOND);
    assert_eq!(read.unwrap().csrf, info.csrf);
    let forged = require_auth(&sessions, false, Some(&cookies), Some("x"), true, 2 * SECOND);
    assert_eq!(forged.unwrap_err(), AuthError::Forbidden);
    let late = require_auth(&sessions, false, Some(&cookies), None, false, SECOND + SESSION_TTL);
    assert_eq!(late.unwrap_err(), AuthError::Unauthorized);
    let none = require_auth(&sessions, false, None, None, false, SECOND);
    assert_eq!(none.unwrap_err(), AuthError::Unauthorized);
    assert_eq!(require_auth(&sessions, true, None, None, true, SECOND).unwrap().token, "dev");
    assert!(status_visible(&sessions, false, Some(&cookies), SECOND));
    assert!(!status_visible(&sessions, false, Some("a=b"), SECOND));

    cleanup_sessions(&mut sessions, SECOND + SESSION_TTL);
    let gone = require_auth(&sessions, false, Some(&cookies), None, false, 2 * SECOND);
    assert_eq!(gone.unwrap_err(), AuthError::Unauthorized);
}

#[test]
fn session_cookies_are_read_back() {
    let cookie = session_cookie("abc123", true);
    assert_eq!(
        cookie,
        "ass_subset_session=abc123; HttpOnly; SameSite=Lax; Path=/; Max-Age=86400; Secure"
    );
    assert_eq!(
        session_cookie("t", false),
        "ass_subset_session=t; HttpOnly; SameSite=Lax; Path=/; Max-Age=86400"
    );
    assert_eq!(read_cookie("ass_subset_session=abc123", SESSION_COOKIE).unwrap(), "abc123");
    assert_eq!(read_cookie(" a=1 ; ass_subset_session=x=y", SESSION_COOKIE).unwrap(), "x=y");
    assert_eq!(read_cookie("flag; ass_subset_session=x", SESSION_COOKIE), None);
    assert_eq!(read_cookie("a=1", SESSION_COOKIE), None);
}

#[test]
fn login_lets_in_refuses_and_blocks() {
    let mut sessions = Sessions::new();
    let mut limiter = LoginRateLimiter::new();
    for _ in 0..5 {
        let r = login(&mut sessions, &mut limiter, false, Some("pw"), None, "ip", "no", SECOND);
        assert!(matches!(r, LoginOutcome::Invalid));
    }
    let r = login(&mut sessions, &mut limiter, false, Some("pw"), None, "ip", "pw", SECOND);
    assert!(matches!(r, LoginOutcome::Blocked { retry_after: 60 }));
    let r = login(&mut sessions, &mut limiter, false, Some("pw"), None, "other", "pw", SECOND);
    match r {
        LoginOutcome::Welcome(info) => {
            let cookies = format!("{SESSION_COOKIE}={}", info.token);
            assert!(require_auth(&sessions, false, Some(&cookies), Some(&info.csrf), true, SECOND)
                .is_ok());
        }
        _ => panic!("the right password lets in"),
    }
    let long = "x".repeat(1025);
    let r = login(&mut sessions, &mut limiter, false, Some(&long), None, "c", &long, SECOND);
    assert!(matches!(r, LoginOutcome::Invalid));
}

#[test]
fn operation_guard_allows_only_one_owner_and_releases_on_drop() {
    let running = Arc::new(AtomicBool::new(false));
    let first = try_begin_operation(&running).expect("first operation should start");
    assert!(try_begin_operation(&running).is_none());
    drop(first);
    assert!(try_begin_operation(&running).is_some());
}

#[test]
fn operations_begin_where_the_flag_was_free() {
    let flag = Arc::new(AtomicBool::new(true));
    assert!(guard_after(Err(true), &flag).is_none());
    assert!(flag.load(Ordering::Acquire));
    let guard = guard_after(Ok(false), &flag);
    assert!(guard.is_some());
    drop(guard);
    assert!(!flag.load(Ordering::Acquire));
}

fn config(pairs: &[(&str, &str)]) -> Config {
    let mut env = StrMap::new();
    env.insert("ASS_SUBSET_ALLOW_NO_AUTH".to_string(), "true".to_string());
    for (k, v) in pairs {
        env.insert(k.to_string(), v.to_string());
    }
    Config::from_env(&env, true).unwrap()
}

#[test]
fn settings_change_and_are_read_back() {
    let config = config(&[]);
    let mut state = AppState::new(&config);
    let before = state.config_hash();
    let changed = state.set_processing_option("draw_subset", false).unwrap();
    assert!(!changed.draw_subset);
    assert_eq!(state.processing_options(), changed);
    assert_ne!(state.config_hash(), before);
    assert_eq!(state.set_processing_option("nothing", true), Err(UnknownOption));
    assert_eq!(state.set_conversion_parallelism(0), 1);
    assert_eq!(state.set_conversion_parallelism(100), 32);
    let stored = state.set_scan_interval(900);
    assert_eq!(stored, "900");
    assert_eq!(state.subscribe_scan_schedule(), 0);
    assert_eq!(state.schedule_stored(), 1);
    assert_eq!(state.subscribe_scan_schedule(), 1);
    assert_eq!(state.bump_font_index_revision(), 1);

    let mut again = AppState::new(&config);
    again.load_runtime_settings(Some(changed), Some(&stored), Some("99"), Some("1"));
    assert_eq!(again.scan_interval(), 900);
    assert_eq!(again.conversion_parallelism(), 32);
    assert_eq!(again.font_index_revision(), 1);
    assert_eq!(again.processing_options(), changed);
    again.load_runtime_settings(None, Some("soon"), Some("-1"), Some("99999999999999999999"));
    assert_eq!(again.scan_interval(), 900);
    assert_eq!(again.conversion_parallelism(), 32);
    assert_eq!(again.font_index_revision(), 1);
}

#[test]
fn scans_and_conversions_pause_and_stop() {
    let mut state = AppState::new(&config(&[]));
    let scan = state.try_begin_scan();
    assert!(scan.is_some());
    assert!(state.try_begin_scan().is_none());
    let index = state.try_begin_index();
    assert!(index.is_some());
    drop(index);
    assert!(state.try_begin_scan().is_none());
    assert!(state.try_begin_index().is_some());
    assert!(!state.controls().index_running);

    assert_eq!(state.wait_for_scan_turn(), Turn::Go);
    state.set_scan_paused(true);
    assert_eq!(state.wait_for_scan_turn(), Turn::Wait);
    state.request_scan_cancel();
    assert_eq!(state.wait_for_scan_turn(), Turn::Stop);
    state.set_scan_paused(false);
    assert_eq!(state.wait_for_scan_turn(), Turn::Go);

    state.set_conversion_paused(true);
    state.request_conversion_cancel();
    assert!(!state.conversion_paused());
    assert!(state.conversion_cancel_requested());
    state.set_conversion_paused(false);
    assert!(!state.conversion_cancel_requested());

    state.begin_scan_progress("t0");
    state.update_scan_progress("filtering", 1, 2, 3, 4, 5, 6, 7, "t1");
    state.finish_scan_progress("completed", "t2");
    let shown = state.controls();
    assert!(shown.scan_running);
    assert_eq!(shown.scan_progress.stage, "completed");
    assert_eq!(shown.scan_progress.failed, 7);
    assert_eq!(shown.scan_progress.started_at.as_deref(), Some("t0"));
    assert_eq!(shown.scan_progress.updated_at.as_deref(), Some("t2"));
}

#[test]
fn analysis_cache_requires_matching_file_fingerprint() {
    let raw = Some(r#"{"char_count":42}"#);
    let hit = cached_analysis(raw, Some(100), Some(200), 100, 200).unwrap();
    let value: serde_json::Value = serde_json::from_str(hit).unwrap();
    assert_eq!(value["char_count"], 42);
    assert!(cached_analysis(raw, Some(99), Some(200), 100, 200).is_none());
    assert!(cached_analysis(raw, Some(100), Some(199), 100, 200).is_none());
    assert!(cached_analysis(Some("not-json"), Some(100), Some(200), 100, 200).is_none());
    assert!(cached_analysis(None, Some(100), Some(200), 100, 200).is_none());
    assert!(cached_analysis(raw, None, Some(200), 100, 200).is_none());
}

#[test]
fn analysis_sorts_fonts_and_counts_characters() {
    let text = "[V4+ Styles]\nFormat: Name, Fontname\nStyle: A,Zed\nStyle: B,Arial\nStyle: C,字体\nStyle: D,Amber\n[Fonts]\nfontname: z_0.ttf\n!!!!\n\nfontname: a_0.ttf\n!!!!\n\n[Events]\nFormat: Style, Text\nDialogue: A,aab\nDialogue: B,c\nDialogue: C,d\nDialogue: D,e{\\p1}m 0 0{\\p0}\n";
    let a = analyze_text(text);
    assert_eq!(a.third_party_fonts, vec!["Amber", "Zed", "字体"]);
    assert_eq!(a.system_fonts, vec!["Arial"]);
    assert_eq!(a.embedded_fonts, vec!["a_0.ttf", "z_0.ttf"]);
    assert_eq!(a.char_count, 5);
    assert_eq!(a.drawing_count, 1);
    assert!(analyze_subtitle(&[0xff, 0xfe, 0x00]).is_none());
    assert_eq!(analyze_subtitle(text.as_bytes()).unwrap().char_count, 5);
}

fn values(v: &[Bound]) -> Vec<String> {
    v.iter()
        .map(|b| match b {
            Bound::Text(t) => t.clone(),
            Bound::Number(n) => n.to_string(),
        })
        .collect()
}

#[test]
fn lists_are_asked_for_by_page() {
    let q = jobs_query(Some("failed"), Some("subset"), Some(9), Some(2));
    assert!(q.sql.ends_with(
        "FROM jobs WHERE status = ? AND mode = ? AND id < ? ORDER BY id DESC LIMIT ?"
    ));
    assert_eq!(values(&q.values), vec!["failed", "subset", "9", "3"]);
    let q = jobs_query(Some(""), None, None, None);
    assert!(q.sql.ends_with("FROM jobs ORDER BY id DESC LIMIT ?"));
    assert_eq!((q.limit, values(&q.values)), (100, vec!["101".to_string()]));
    let q = files_query(Some("partial"), None, Some(100_000));
    assert!(q.sql.ends_with("FROM subtitle_files WHERE last_status = ? ORDER BY id DESC LIMIT ?"));
    assert_eq!(q.limit, 200);
    assert_eq!(files_query(None, None, None).limit, 50);
    let q = backups_query(Some(4), Some(0));
    assert!(q.sql.ends_with("FROM backups WHERE id < ? ORDER BY id DESC LIMIT ?"));
    assert_eq!(values(&q.values), vec!["4", "2"]);
}

#[test]
fn pages_cover_the_whole_list() {
    let all: Vec<i64> = (1..=7).rev().collect();
    let mut cursor: Option<i64> = None;
    let mut seen: Vec<i64> = Vec::new();
    loop {
        let left: Vec<i64> =
            all.iter().copied().filter(|id| cursor.is_none() || *id < cursor.unwrap()).collect();
        let fetched: Vec<i64> = left.into_iter().take(4).collect();
        let (shown, next) = page(&fetched, 3);
        seen.extend_from_slice(&fetched[..shown]);
        match next {
            Some(c) => cursor = Some(c),
            None => break,
        }
    }
    assert_eq!(seen, all);
    assert_eq!(page(&vec![5, 4, 3], 3), (3, None));
    assert_eq!(page(&vec![5, 4, 3, 2], 3), (3, Some(3)));
}

#[test]
fn uploads_are_named_and_bounded() {
    assert_eq!(upload_name(Some("dir\\sub/Movie: 1.ass")).unwrap(), "Movie_ 1.ass");
    assert_eq!(upload_name(Some("a.SSA")).unwrap(), "a.SSA");
    assert_eq!(upload_name(None).unwrap(), "subtitle.ass");
    assert_eq!(upload_name(Some("a.srt")), None);
    let mut meter = UploadMeter::new();
    assert_eq!(meter.finish(), Err(UploadError::Empty));
    assert_eq!(meter.chunk(MAX_UPLOAD_BYTES), Ok(()));
    assert_eq!(meter.chunk(1), Err(UploadError::TooLarge));
    assert_eq!(meter.finish(), Ok(()));
    let dir = new_upload_dir("/data");
    assert!(dir.starts_with("/data/uploads/"));
    assert_eq!(dir.len(), "/data/uploads/".len() + 36);
    assert_ne!(dir, new_upload_dir("/data"));
}

#[test]
fn downloads_are_named() {
    assert_eq!(download_filename("show/字幕 01.ass"), "字幕 01.ass");
    assert_eq!(download_filename(""), "subtitle.ass");
    assert_eq!(percent_encode_utf8("a-é %"), "a-%C3%A9%20%25");
    assert_eq!(
        content_disposition_filename("字 1.ass"),
        "attachment; filename=\"1.ass\"; filename*=UTF-8''%E5%AD%97%201.ass"
    );
    assert_eq!(
        content_disposition_filename("字幕"),
        "attachment; filename=\"subtitle.ass\"; filename*=UTF-8''%E5%AD%97%E5%B9%95"
    );
}

#[test]
fn settings_are_told_in_words() {
    assert_eq!(schedule_seconds(1_000_000), 604_800);
    assert_eq!(schedule_message(0), "已关闭定时扫描");
    assert_eq!(schedule_message(930), "定时扫描间隔已设为 15 分钟");
    assert_eq!(option_label("draw_subset"), "绘图字体");
    assert_eq!(option_label("?"), "处理选项");
    assert_eq!(option_message("include_ascii", false), "已关闭 保留 ASCII");
}

#[test]
fn jobs_are_counted_by_status() {
    let counts = StatusCounts {
        font_files: 1,
        font_faces: 2,
        font_errors: 3,
        subtitle_files: 4,
        backups: 5,
        jobs_queued: 6,
        jobs_running: 7,
        jobs_success: 8,
        jobs_partial: 9,
        jobs_failed: 10,
        jobs_cancelled: 11,
    };
    let shown: Vec<(&str, i64)> =
        job_counts(&counts).into_iter().map(|c| (c.status, c.count)).collect();
    assert_eq!(
        shown,
        vec![
            ("queued", 6),
            ("running", 7),
            ("success", 8),
            ("partial", 9),
            ("failed", 10),
            ("cancelled", 11)
        ]
    );
}

#[test]
fn options_have_one_digest() {
    let base = ProcessingOptions::default();
    let digest = hex::encode(sha2::Sha256::digest(base.to_json().as_bytes()));
    assert_eq!(base.config_hash(), digest);
    let value: serde_json::Value = serde_json::from_str(&base.to_json()).unwrap();
    assert_eq!(value["embed_external_fonts"], true);
    assert_eq!(value["variable_fonts"], false);
}
