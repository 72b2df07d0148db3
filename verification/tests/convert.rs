use aris_subset::ass::{ass_uu_encode, parse_embedded_fonts, parse_font_subset_comments};
use aris_subset::cache::{
    after_publish, cache_lock_key, is_stale_temp_file, needs_touch, temp_path, CacheFile,
    CacheListing, Eviction, Published, Removal,
};
use aris_subset::config::ProcessingOptions;
use aris_subset::font_worker::{
    attempt_for, judge_answer, subset_request, Answer, Attempt, DrawTableEntry,
    EmbeddedFontMetadata, FontSubsetMap, RequestState,
};
use aris_subset::metrics::{LatencySamples, RuntimeMetrics};
use aris_subset::models::{FontCandidate, FontSlot, JobMode};
use aris_subset::processor::{
    draw_cache_key, embedded_family_name, end_of_job, hash_source, job_is_runnable, may_fall_back,
    memory_permits_for_size, queue_latency, replacement_path, select_best_candidate,
    stable_font_name, subset_cache_key, try_stable_font_name, CacheStep, FontPlan, FontReport,
    HashSource, JobEnd, JobQueue, QueueStep, StripJob, SubsetJob, WriteStep,
};

#[test]
fn cache_keys_only_accept_managed_hash_files() {
    let hash = "a".repeat(64);
    assert_eq!(cache_lock_key(&format!("{hash}.ttf")), Some(format!("font:{hash}")));
    assert_eq!(cache_lock_key(&format!("{hash}.draw.ttf")), Some(format!("draw:{hash}")));
    assert!(cache_lock_key("notes.ttf").is_none());
    assert!(cache_lock_key("../escape.ttf").is_none());
}

#[test]
fn maintenance_evicts_oldest_managed_files_to_target() {
    let limit: u64 = 1024 * 1024;
    let old = format!("{}.ttf", "a".repeat(64));
    let middle = format!("{}.ttf", "b".repeat(64));
    let newest = format!("{}.draw.ttf", "c".repeat(64));
    let mut listing = CacheListing::new();
    for (name, used) in [(&newest, 3u64), (&old, 1), (&middle, 2)] {
        let found = listing.found(name, Some(1_000_000), 400 * 1024, used);
        assert_eq!(found, CacheFile::Managed);
    }
    let mut round = Eviction::start(listing.sizes.clone(), &listing.last_used, limit);
    let mut removed = Vec::new();
    while let Some(i) = round.next_file() {
        removed.push(listing.names[i].clone());
        round.report(Removal::Removed);
    }
    let summary = round.summary(listing.stale_temp_files, listing.failed);
    assert_eq!(removed, vec![old]);
    assert_eq!((summary.files, summary.stale_temp_files, summary.failed), (2, 0, 0));
    assert_eq!(summary.evicted_files, 1);
    assert_eq!(summary.evicted_bytes, 400 * 1024);
    assert!(summary.bytes <= 1024 * 1024 * 90 / 100);
}

#[test]
fn the_listing_holds_managed_files_only() {
    let hash = "0".repeat(64);
    let mut listing = CacheListing::new();
    assert_eq!(listing.found("notes.txt", Some(90_000), 1, 1), CacheFile::Other);
    assert_eq!(listing.found(".x.ttf.1.tmp", Some(86_399), 1, 1), CacheFile::Other);
    assert_eq!(listing.found(".x.ttf.1.tmp", Some(86_400), 1, 1), CacheFile::StaleTemp);
    listing.temp_removed(Removal::Removed);
    listing.temp_removed(Removal::Missing);
    listing.temp_removed(Removal::Failed);
    listing.unreadable();
    assert_eq!(listing.found(&format!("{hash}.ttf"), None, 7, 9), CacheFile::Managed);
    assert_eq!(listing.names, vec![format!("{hash}.ttf")]);
    assert_eq!(listing.keys, vec![format!("font:{hash}")]);
    assert_eq!((listing.sizes[0], listing.last_used[0]), (7, 9));
    assert_eq!((listing.stale_temp_files, listing.failed), (1, 2));
}

#[test]
fn eviction_passes_over_busy_files_and_needs_a_limit() {
    let mut round = Eviction::start(vec![10, 20, 30], &vec![1, 2, 3], 50);
    assert_eq!(round.next_file(), Some(0));
    round.report(Removal::Busy);
    assert_eq!(round.next_file(), Some(1));
    round.report(Removal::Failed);
    assert_eq!(round.next_file(), Some(2));
    round.report(Removal::Missing);
    assert_eq!(round.next_file(), None);
    let summary = round.summary(4, 1);
    assert_eq!(summary.bytes, 30);
    assert_eq!((summary.evicted_files, summary.failed, summary.stale_temp_files), (0, 2, 4));

    let mut free = Eviction::start(vec![10, 20], &vec![1, 2], 0);
    assert_eq!(free.next_file(), None);
}

#[test]
fn temporary_files_stand_beside_the_file() {
    let path = temp_path("/cache/abc.ttf");
    assert!(path.starts_with("/cache/.abc.ttf."));
    assert!(path.ends_with(".tmp"));
    assert_eq!(path.len(), "/cache/.abc.ttf..tmp".len() + 36);
    assert_ne!(path, temp_path("/cache/abc.ttf"));
    let name = path.rsplit('/').next().unwrap().to_string();
    assert!(is_stale_temp_file(&name, Some(86_400)));
    assert!(!is_stale_temp_file(&name, Some(86_399)));
    assert!(!is_stale_temp_file(&name, None));
    assert!(!is_stale_temp_file("abc.ttf", Some(90_000)));
    assert!(cache_lock_key(&name).is_none());
    assert!(replacement_path("/w/movie.ass").starts_with("/w/.movie.ass."));
}

#[test]
fn cache_files_are_published_once() {
    let ready = |drop_temp: bool, count: bool| Published::Ready { drop_temp, count };
    assert_eq!(after_publish(false, true, true), ready(false, true));
    assert_eq!(after_publish(true, true, true), ready(false, false));
    assert_eq!(after_publish(true, false, true), ready(true, false));
    assert_eq!(after_publish(false, false, true), ready(true, true));
    assert_eq!(after_publish(false, false, false), Published::Fail);
    assert!(needs_touch(None));
    assert!(needs_touch(Some(3600)));
    assert!(!needs_touch(Some(3599)));
}

#[test]
fn latency_snapshot_reports_percentiles_from_recent_samples() {
    let mut samples = LatencySamples::new();
    for millis in 1..=100 {
        samples.record(millis);
    }
    let snapshot = samples.snapshot();
    assert_eq!(snapshot.samples, 100);
    assert_eq!(snapshot.average_ms, 50);
    assert_eq!(snapshot.p50_ms, 50);
    assert_eq!(snapshot.p95_ms, 95);
    assert_eq!(snapshot.max_ms, 100);
}

#[test]
fn cache_hit_rate_uses_all_runtime_lookups() {
    let mut metrics = RuntimeMetrics::new();
    metrics.record_cache_lookup(true);
    metrics.record_cache_lookup(true);
    metrics.record_cache_lookup(false);
    let snapshot = metrics.snapshot(1024, 0);
    let hit_rate_percent = snapshot.cache.hits as f64 * 100.0 / snapshot.cache.lookups as f64;
    assert!((hit_rate_percent - 66.666).abs() < 0.01);
    assert_eq!(snapshot.cache.max_bytes, 1024);
}

#[test]
fn only_the_last_times_are_kept() {
    let mut samples = LatencySamples::new();
    for millis in 1..=1124 {
        samples.record(millis);
    }
    let snapshot = samples.snapshot();
    assert_eq!((snapshot.samples, snapshot.max_ms), (1024, 1124));
    assert_eq!(snapshot.p50_ms, 100 + 512);
    assert_eq!(snapshot.average_ms, (101 + 1124) / 2);
}

#[test]
fn metrics_count_what_happens() {
    let mut metrics = RuntimeMetrics::new();
    metrics.set_cache_usage(2, 100);
    metrics.record_cache_insert(50);
    metrics.record_cache_eviction(30);
    metrics.record_worker_request();
    metrics.record_worker_restart();
    metrics.record_conversion_started(5);
    metrics.record_conversion_finished(70, true);
    metrics.record_conversion_finished(10, false);
    let s = metrics.snapshot(0, 9);
    assert_eq!((s.cache.files, s.cache.bytes), (3, 150));
    assert_eq!((s.cache.evictions, s.cache.evicted_bytes), (1, 30));
    assert_eq!((s.workers.requests, s.workers.restarts), (1, 1));
    assert_eq!((s.conversions.started, s.conversions.succeeded, s.conversions.failed), (1, 1, 1));
    assert_eq!(s.conversions.duration.max_ms, 70);
    assert_eq!(s.queue.samples, 1);
    assert_eq!(s.uptime_seconds, 9);
}

fn candidate() -> FontCandidate {
    FontCandidate {
        file_id: 1,
        path: "font.ttf".to_string(),
        full_hash: "abc".to_string(),
        ttc_index: -1,
        weight: 400,
        italic: false,
    }
}

fn face(weight: i32, italic: bool) -> FontCandidate {
    FontCandidate { weight, italic, ..candidate() }
}

#[test]
fn memory_budget_rounds_up_and_caps_large_subtitles() {
    assert_eq!(memory_permits_for_size(0, 512), 1);
    assert_eq!(memory_permits_for_size(1024 * 1024, 512), 5);
    assert_eq!(memory_permits_for_size(200 * 1024 * 1024, 512), 512);
    assert_eq!(memory_permits_for_size(-1, 512), 1);
}

#[test]
fn stable_names_are_repeatable_and_collision_safe() {
    let first = stable_font_name("example font", &mut Vec::new());
    let second = stable_font_name("example font", &mut Vec::new());
    assert_eq!(first, second);
    assert_eq!(first.len(), 12);

    let mut used = vec![first.clone()];
    assert_ne!(stable_font_name("example font", &mut used), first);
    assert_eq!(used.len(), 2);
    assert_eq!(try_stable_font_name("example font", &mut Vec::new()), Some(first));
}

#[test]
fn cache_key_ignores_non_font_processing_switches() {
    let base = ProcessingOptions::default();
    let key = subset_cache_key(
        "AS1234567890",
        FontSlot::Normal,
        &[65, 66],
        &candidate(),
        "font-hash",
        &base,
    );
    let mut changed = base.clone();
    changed.embed_external_fonts = !changed.embed_external_fonts;
    changed.embed_system_fonts = !changed.embed_system_fonts;
    changed.multi_weight = !changed.multi_weight;
    changed.randomize_font_names = !changed.randomize_font_names;
    changed.draw_subset = !changed.draw_subset;
    assert_eq!(
        key,
        subset_cache_key(
            "AS1234567890",
            FontSlot::Normal,
            &[65, 66],
            &candidate(),
            "font-hash",
            &changed,
        )
    );

    changed.include_ascii = !changed.include_ascii;
    assert_ne!(
        key,
        subset_cache_key(
            "AS1234567890",
            FontSlot::Normal,
            &[65, 66],
            &candidate(),
            "font-hash",
            &changed,
        )
    );
}

#[test]
fn the_nearest_face_is_taken() {
    let faces = [face(700, false), face(400, true), face(300, false), face(500, false)];
    assert_eq!(select_best_candidate(&faces, FontSlot::Normal).unwrap().weight, 300);
    assert_eq!(select_best_candidate(&faces, FontSlot::Bold).unwrap().weight, 700);
    assert!(select_best_candidate(&faces, FontSlot::BoldItalic).unwrap().italic);
    assert!(select_best_candidate(&[], FontSlot::Normal).is_none());
    let far = [face(i32::MIN, false), face(i32::MAX, false)];
    assert_eq!(select_best_candidate(&far, FontSlot::Bold).unwrap().weight, i32::MAX);
}

#[test]
fn digests_are_reckoned_only_where_none_is_known() {
    assert_eq!(hash_source("abc", None), HashSource::Candidate);
    assert_eq!(hash_source(" ", Some("abc")), HashSource::Stored);
    assert_eq!(hash_source("", Some("  ")), HashSource::Compute);
    assert_eq!(hash_source("", None), HashSource::Compute);
}

#[test]
fn names_of_embedded_fonts_lose_their_suffix() {
    assert_eq!(embedded_family_name("AS12_0.ttf"), "AS12");
    assert_eq!(embedded_family_name("AS12_BI0.ttf"), "AS12");
}

#[test]
fn fonts_pass_through_the_cache() {
    assert_eq!(CacheStep::Lookup.after(true, false), CacheStep::Read);
    assert_eq!(CacheStep::Lookup.after(false, true), CacheStep::Generate);
    assert_eq!(CacheStep::Generate.after(false, true), CacheStep::GenerateFull);
    assert_eq!(CacheStep::Generate.after(false, false), CacheStep::Fail);
    assert_eq!(CacheStep::GenerateFull.after(false, true), CacheStep::Fail);
    assert_eq!(CacheStep::CheckTemp.after(true, true), CacheStep::Publish);
    assert_eq!(CacheStep::Publish.after(true, true), CacheStep::Read);
    let mut options = ProcessingOptions::default();
    assert!(may_fall_back(&options));
    options.full_font_embed = true;
    assert!(!may_fall_back(&options));
}

#[test]
fn a_file_is_replaced_after_its_backup() {
    let mut step = WriteStep::first(true);
    let mut steps = vec![step];
    while step != WriteStep::Done {
        step = step.after(true);
        steps.push(step);
    }
    assert_eq!(
        steps,
        vec![
            WriteStep::Backup,
            WriteStep::Replace,
            WriteStep::Touch,
            WriteStep::Record,
            WriteStep::Done,
        ]
    );
    assert_eq!(WriteStep::first(true).after(false), WriteStep::Fail);
    assert_eq!(WriteStep::Replace.after(false), WriteStep::Fail);
    assert_eq!(WriteStep::first(false), WriteStep::Touch);
    assert_eq!(WriteStep::Fail.after(true), WriteStep::Fail);
}

#[test]
fn jobs_start_in_order_and_are_cancelled_together() {
    let mut queue = JobQueue::new();
    for job in [4, 5, 6] {
        queue.push(job);
    }
    assert!(matches!(queue.poll(false, true, 0, 2), QueueStep::Wait));
    assert!(matches!(queue.poll(false, false, 0, 2), QueueStep::Start(4)));
    assert!(matches!(queue.poll(false, false, 2, 2), QueueStep::Wait));
    match queue.poll(true, false, 1, 2) {
        QueueStep::Cancel(jobs, clear) => {
            assert_eq!(jobs, vec![5, 6]);
            assert!(!clear);
        }
        _ => panic!("everything is cancelled"),
    }
    assert!(queue.is_over(true, 0));
    assert!(!queue.is_over(true, 1));
    assert!(job_is_runnable(Some("queued")));
    assert!(!job_is_runnable(Some("cancelled")));
    assert!(!job_is_runnable(None));
    assert!(matches!(end_of_job(true), JobEnd::Cancelled));
}

#[test]
fn waiting_time_is_read_from_the_queue_time() {
    assert_eq!(queue_latency("1970-01-01T00:00:10+00:00", (12, 500_000_000)), 2500);
    assert_eq!(queue_latency("1970-01-01T08:00:10+08:00", (12, 0)), 2000);
    assert_eq!(queue_latency("1970-01-01T00:00:10+00:00", (5, 0)), 0);
    assert_eq!(queue_latency("yesterday", (5, 0)), 0);
    // A leap second is a second of its own.
    assert_eq!(queue_latency("1970-01-01T12:00:60+00:00", (43_500, 0)), 241_000);
    assert_eq!(queue_latency("1970-01-01T12:00:59+00:00", (43_500, 0)), 241_000);
}

#[test]
fn job_modes_are_read_back() {
    for mode in [JobMode::Subset, JobMode::StripEmbedded] {
        assert_eq!(JobMode::from_db(mode.as_str()).as_str(), mode.as_str());
    }
    assert_eq!(JobMode::from_db("unknown").as_str(), "subset");
}

const SUBTITLE: &str = "[Script Info]\nTitle: x\n[V4+ Styles]\nFormat: Name, Fontname\nStyle: Default,Main\nStyle: Other,Lost\n[Events]\nFormat: Style, Text\nDialogue: Default,ab{\\b1}c\nDialogue: Other,d\n";

#[test]
fn a_conversion_embeds_what_it_finds() {
    let options = ProcessingOptions::default();
    let mut job = SubsetJob::start(SUBTITLE.as_bytes(), options).unwrap();
    assert_eq!(job.next_font().as_deref(), Some("Main"));
    let name = match job.plan_font(&[face(400, false), face(700, false)]) {
        FontPlan::Embed(name, tasks) => {
            assert_eq!(tasks.len(), 2);
            assert_eq!(tasks[0].codepoints, vec![97, 98]);
            assert_eq!((tasks[1].slot, tasks[1].candidate), (FontSlot::Bold, 1));
            name
        }
        _ => panic!("the font is there"),
    };
    assert_eq!(name.len(), 12);
    job.embed(name.clone(), FontSlot::Normal, b"abc".to_vec());
    assert_eq!(job.next_font().as_deref(), Some("Lost"));
    assert!(matches!(job.plan_font(&[]), FontPlan::Missing));
    assert_eq!(job.next_font(), None);
    assert!(job.replace_drawings().is_empty());
    let outcome = job.finish(SUBTITLE.as_bytes());
    assert!(outcome.changed);
    assert_eq!(outcome.status, "partial");
    assert_eq!(outcome.message, "部分完成：嵌入 1 个字体，缺失 1 个字体");
    assert_eq!(outcome.problems, vec!["Lost"]);
    let text = String::from_utf8(outcome.output).unwrap();
    assert!(text.contains(&format!("Style: Default,{name}")));
    assert!(text.contains("Style: Other,Lost"));
    assert_eq!(parse_embedded_fonts(&text)[0].fontname, format!("{name}_0.ttf"));
    assert_eq!(
        parse_font_subset_comments(&text).get(&name.to_ascii_lowercase()).unwrap(),
        "Main"
    );
    assert_eq!(outcome.stats.embedded_count, 1);
    assert_eq!(outcome.stats.missing_count, 1);
}

#[test]
fn nothing_to_embed_leaves_the_file_alone() {
    let bytes = b"\xef\xbb\xbf[Script Info]\r\n";
    let mut job = SubsetJob::start(bytes, ProcessingOptions::default()).unwrap();
    assert_eq!(job.next_font(), None);
    job.replace_drawings();
    let outcome = job.finish(bytes);
    assert!(!outcome.changed);
    assert_eq!(outcome.output, bytes.to_vec());
    assert_eq!(outcome.status, "success");
    assert!(SubsetJob::start(&[0xff, 0xfe, 0x00], ProcessingOptions::default()).is_err());
}

#[test]
fn a_restoration_keeps_what_it_cannot_place() {
    let payload = ass_uu_encode(b"font");
    let text = format!(
        "[Script Info]\n; Font Subset: AS1 - Main Font\n[V4+ Styles]\nFormat: Name, Fontname\nStyle: Default,AS1\n[Fonts]\nfontname: AS1_0.ttf\n{payload}\n\nfontname: AS2_0.ttf\n{payload}\n\nfontname: Keep_0.ttf\n{payload}\n\n[Events]\nFormat: Style, Text\nDialogue: Default,{{\\fnAS2}}Hi\n"
    );
    let mut job = StripJob::start(text.as_bytes()).unwrap();
    assert_eq!(job.next_font().as_deref(), Some("Zm9udA=="));
    job.report(FontReport::Known(EmbeddedFontMetadata {
        font_subset_map: None,
        draw_entries: Vec::new(),
    }));
    job.report(FontReport::Known(EmbeddedFontMetadata {
        font_subset_map: Some(FontSubsetMap {
            original: "Second".to_string(),
            subset: "AS2".to_string(),
            version: None,
        }),
        draw_entries: Vec::new(),
    }));
    job.report(FontReport::Unknown("not a font".to_string()));
    assert_eq!(job.next_font(), None);
    let outcome = job.finish(text.as_bytes());
    assert!(outcome.changed);
    let out = String::from_utf8(outcome.output).unwrap();
    assert!(out.contains("Style: Default,Main Font"));
    assert!(out.contains("{\\fnSecond}Hi"));
    let left: Vec<String> = parse_embedded_fonts(&out).into_iter().map(|f| f.fontname).collect();
    assert_eq!(left, vec!["Keep_0.ttf"]);
    assert_eq!(outcome.stats.embedded_removed_count, 2);
    assert_eq!(outcome.status, "partial");
    assert_eq!(outcome.problems, vec!["kept Keep_0.ttf: not a font"]);
}

#[test]
fn drawings_come_back_through_their_font() {
    let text = "[Script Info]\n[V4+ Styles]\nFormat: Name, Fontname\nStyle: Default,Arial\n[Events]\nFormat: Style, Text\nDialogue: Default,{\\p1}m 0 0 l 10 0{\\p0} done\n";
    let mut job = SubsetJob::start(text.as_bytes(), ProcessingOptions::default()).unwrap();
    assert_eq!(job.next_font(), None);
    let entries = job.replace_drawings();
    assert_eq!(entries.len(), 1);
    assert_eq!(draw_cache_key(&entries), draw_cache_key(&entries));
    assert_eq!(draw_cache_key(&entries).len(), 64);
    job.embed_drawings(b"drawn".to_vec());
    let made = job.finish(text.as_bytes());
    assert_eq!(made.stats.draw_fonts_created, 1);
    let mut back = StripJob::start(&made.output).unwrap();
    back.report(FontReport::Known(EmbeddedFontMetadata {
        font_subset_map: None,
        draw_entries: entries
            .iter()
            .map(|e| DrawTableEntry { data: e.data.clone(), ch: e.ch.clone(), flags: e.flags })
            .collect(),
    }));
    let restored = String::from_utf8(back.finish(&made.output).output).unwrap();
    assert!(restored.contains("{\\p1}m 0 0 l 10 0{\\p0} done"));
    assert!(!restored.to_ascii_lowercase().contains("assdrawsubset"));
}

#[test]
fn worker_crash_restarts_and_retries_once() {
    let state = RequestState::start().after_attempt(Attempt::Broken).after_restart(true);
    assert_eq!(state, RequestState::Sending(1));
    assert_eq!(state.after_attempt(Attempt::Answered), RequestState::Done);
    let again = state.after_attempt(Attempt::Broken).after_restart(true);
    assert_eq!(again, RequestState::GaveUp);
    let refused = RequestState::start().after_attempt(Attempt::Refused);
    assert_eq!(refused, RequestState::Failed);
    let lost = RequestState::start().after_attempt(Attempt::Broken).after_restart(false);
    assert_eq!(lost, RequestState::RestartFailed);
}

#[test]
fn answers_to_other_requests_are_worth_nothing() {
    assert_eq!(judge_answer("a", "b", true, true), Answer::WrongId);
    assert_eq!(judge_answer("a", "a", false, true), Answer::Refused);
    assert_eq!(judge_answer("a", "a", true, false), Answer::NoResult);
    assert_eq!(judge_answer("a", "a", true, true), Answer::Accept);
    assert_eq!(attempt_for(Answer::WrongId), Attempt::Broken);
    assert_eq!(attempt_for(Answer::Refused), Attempt::Refused);
}

#[test]
fn requests_name_both_fonts_where_they_differ() {
    let options = ProcessingOptions::default();
    let c = candidate();
    let r = subset_request(&options, "Main", "AS1", FontSlot::Bold, &[65], &c, "/o", false, "v");
    assert_eq!(r.subfamily, "Bold");
    assert_eq!(r.randomize_map.unwrap().original, "Main");
    assert_eq!(r.source_path, "font.ttf");
    let same = subset_request(&options, "Main", "Main", FontSlot::Normal, &[], &c, "/o", true, "v");
    assert!(same.randomize_map.is_none());
    assert!(same.full_font);
}
