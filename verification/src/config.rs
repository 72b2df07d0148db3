//! The settings of the service and the rules for file names.
use vstd::prelude::*;

use vstd::utf8::encode_utf8;

use crate::digest::{law_hex_injective, sha256, sha256_hex, sha256_text};
use crate::line_laws::lemma_trim_is;
use crate::number::{
    decimal, decimal_chars, law_decimal_read_back, lemma_decimal, parse_unsigned,
    parse_unsigned_text, unsigned,
};
use crate::path::{file_name, file_name_of, join_path, joined, paths_equal, same_path};
use crate::split::{same_ignoring_case, split, split_chars};
use crate::strmap::{lookup, StrMap};
use crate::text::{
    code, control, cut_both, cut_both_chars, is_control, is_text, lemma_cut_both, lemma_cut_nothing,
    lower_chars, lowered, push_all, push_text, rows, starts_with, starts_with_text, texts, to_chars,
    to_text, trim, trim_chars, Cut,
};

verus! {

/// What a conversion does with the fonts of a subtitle.
#[derive(Clone, Copy, Debug, PartialEq, Eq, Structural)]
pub struct ProcessingOptions {
    pub embed_external_fonts: bool,
    pub embed_system_fonts: bool,
    pub include_ascii: bool,
    pub multi_weight: bool,
    pub randomize_font_names: bool,
    pub draw_subset: bool,
    pub full_font_embed: bool,
    pub fallback_full_font_embed: bool,
    pub variable_fonts: bool,
}

pub open spec fn default_options() -> ProcessingOptions {
    ProcessingOptions {
        embed_external_fonts: true,
        embed_system_fonts: false,
        include_ascii: true,
        multi_weight: true,
        randomize_font_names: true,
        draw_subset: true,
        full_font_embed: false,
        fallback_full_font_embed: true,
        variable_fonts: false,
    }
}

impl Default for ProcessingOptions {
    fn default() -> (r: Self)
        ensures
            r == default_options(),
    {
        ProcessingOptions {
            embed_external_fonts: true,
            embed_system_fonts: false,
            include_ascii: true,
            multi_weight: true,
            randomize_font_names: true,
            draw_subset: true,
            full_font_embed: false,
            fallback_full_font_embed: true,
            variable_fonts: false,
        }
    }
}

pub open spec fn bool_text(b: bool) -> Seq<char> {
    if b {
        "true"@
    } else {
        "false"@
    }
}

/// The options as a compact JSON object, in the order of the fields.
pub open spec fn options_json(o: ProcessingOptions) -> Seq<char> {
    "{\"embed_external_fonts\":"@ + bool_text(o.embed_external_fonts) + ",\"embed_system_fonts\":"@
        + bool_text(o.embed_system_fonts) + ",\"include_ascii\":"@ + bool_text(o.include_ascii)
        + ",\"multi_weight\":"@ + bool_text(o.multi_weight) + ",\"randomize_font_names\":"@
        + bool_text(o.randomize_font_names) + ",\"draw_subset\":"@ + bool_text(o.draw_subset)
        + ",\"full_font_embed\":"@ + bool_text(o.full_font_embed)
        + ",\"fallback_full_font_embed\":"@ + bool_text(o.fallback_full_font_embed)
        + ",\"variable_fonts\":"@ + bool_text(o.variable_fonts) + "}"@
}

/// The text under which the outcome of a conversion is remembered: the digest of
/// the options' JSON.
pub open spec fn options_hash(o: ProcessingOptions) -> Seq<char> {
    sha256_text(encode_utf8(options_json(o)))
}

fn push_bool(out: &mut Vec<char>, key: &str, b: bool)
    ensures
        final(out)@ == old(out)@ + key@ + bool_text(b),
{
    push_text(out, key);
    if b {
        push_text(out, "true");
    } else {
        push_text(out, "false");
    }
}

impl ProcessingOptions {
    pub fn to_json(&self) -> (r: String)
        ensures
            r@ == options_json(*self),
    {
        let mut out: Vec<char> = Vec::new();
        push_bool(&mut out, "{\"embed_external_fonts\":", self.embed_external_fonts);
        push_bool(&mut out, ",\"embed_system_fonts\":", self.embed_system_fonts);
        push_bool(&mut out, ",\"include_ascii\":", self.include_ascii);
        push_bool(&mut out, ",\"multi_weight\":", self.multi_weight);
        push_bool(&mut out, ",\"randomize_font_names\":", self.randomize_font_names);
        push_bool(&mut out, ",\"draw_subset\":", self.draw_subset);
        push_bool(&mut out, ",\"full_font_embed\":", self.full_font_embed);
        push_bool(&mut out, ",\"fallback_full_font_embed\":", self.fallback_full_font_embed);
        push_bool(&mut out, ",\"variable_fonts\":", self.variable_fonts);
        push_text(&mut out, "}");
        assert(out@ =~= options_json(*self));
        to_text(out.as_slice())
    }

    pub fn config_hash(&self) -> (r: String)
        ensures
            r@ == options_hash(*self),
            r@.len() == 64,
    {
        let json = self.to_json();
        sha256_hex(json.as_str().as_bytes())
    }
}

// ---------------------------------------------------------------------------
// Reading the environment
// ---------------------------------------------------------------------------
/// The settings of the service. Paths are texts; times are in seconds.
#[derive(Clone, Debug)]
pub struct Config {
    pub listen_addr: String,
    pub font_dirs: Vec<String>,
    pub watch_dirs: Vec<String>,
    pub backup_dir: String,
    pub data_dir: String,
    pub worker_script: String,
    pub python_bin: String,
    pub admin_password_hash: Option<String>,
    pub admin_password_plain: Option<String>,
    pub allow_no_auth: bool,
    pub secure_cookies: bool,
    pub max_concurrent_jobs: usize,
    pub max_font_workers: usize,
    pub max_index_concurrency: usize,
    pub max_scan_concurrency: usize,
    pub max_conversion_memory_mb: usize,
    pub subset_cache_max_mb: u64,
    pub font_worker_timeout: u64,
    pub job_queue_size: usize,
    pub scan_interval: u64,
    pub backup_retention_days: u64,
    pub options: ProcessingOptions,
}

#[verifier::ext_equal]
pub struct ConfigView {
    pub listen_addr: Seq<char>,
    pub font_dirs: Seq<Seq<char>>,
    pub watch_dirs: Seq<Seq<char>>,
    pub backup_dir: Seq<char>,
    pub data_dir: Seq<char>,
    pub worker_script: Seq<char>,
    pub python_bin: Seq<char>,
    pub admin_password_hash: Option<Seq<char>>,
    pub admin_password_plain: Option<Seq<char>>,
    pub allow_no_auth: bool,
    pub secure_cookies: bool,
    pub max_concurrent_jobs: int,
    pub max_font_workers: int,
    pub max_index_concurrency: int,
    pub max_scan_concurrency: int,
    pub max_conversion_memory_mb: int,
    pub subset_cache_max_mb: int,
    pub font_worker_timeout: int,
    pub job_queue_size: int,
    pub scan_interval: int,
    pub backup_retention_days: int,
    pub options: ProcessingOptions,
}

pub open spec fn text_of(s: Option<String>) -> Option<Seq<char>> {
    match s {
        Some(t) => Some(t@),
        None => None,
    }
}

impl View for Config {
    type V = ConfigView;

    open spec fn view(&self) -> ConfigView {
        ConfigView {
            listen_addr: self.listen_addr@,
            font_dirs: texts(self.font_dirs@),
            watch_dirs: texts(self.watch_dirs@),
            backup_dir: self.backup_dir@,
            data_dir: self.data_dir@,
            worker_script: self.worker_script@,
            python_bin: self.python_bin@,
            admin_password_hash: text_of(self.admin_password_hash),
            admin_password_plain: text_of(self.admin_password_plain),
            allow_no_auth: self.allow_no_auth,
            secure_cookies: self.secure_cookies,
            max_concurrent_jobs: self.max_concurrent_jobs as int,
            max_font_workers: self.max_font_workers as int,
            max_index_concurrency: self.max_index_concurrency as int,
            max_scan_concurrency: self.max_scan_concurrency as int,
            max_conversion_memory_mb: self.max_conversion_memory_mb as int,
            subset_cache_max_mb: self.subset_cache_max_mb as int,
            font_worker_timeout: self.font_worker_timeout as int,
            job_queue_size: self.job_queue_size as int,
            scan_interval: self.scan_interval as int,
            backup_retention_days: self.backup_retention_days as int,
            options: self.options,
        }
    }
}

/// Why the settings cannot be used.
#[derive(Clone, Copy, Debug, PartialEq, Eq, Structural)]
pub enum ConfigError {
    /// The address to listen on is no socket address.
    BadAddress,
    /// No password is set, and none is not allowed.
    NoPassword,
}

pub open spec fn or_text(m: Seq<(Seq<char>, Seq<char>)>, key: Seq<char>, other: Seq<char>) -> Seq<
    char,
> {
    match lookup(m, key) {
        Some(v) => v,
        None => other,
    }
}

/// A switch: one of the words for yes or no, or the default.
pub open spec fn or_bool(m: Seq<(Seq<char>, Seq<char>)>, key: Seq<char>, other: bool) -> bool {
    match lookup(m, key) {
        Some(v) => {
            let w = lowered(v);
            if w == "1"@ || w == "true"@ || w == "yes"@ || w == "on"@ {
                true
            } else if w == "0"@ || w == "false"@ || w == "no"@ || w == "off"@ {
                false
            } else {
                other
            }
        },
        None => other,
    }
}

/// A number, or the default where the text is none.
pub open spec fn or_number(
    m: Seq<(Seq<char>, Seq<char>)>,
    key: Seq<char>,
    other: int,
    max: int,
) -> int {
    match lookup(m, key) {
        Some(v) => match unsigned(v, max) {
            Some(n) => n,
            None => other,
        },
        None => other,
    }
}

pub open spec fn clamped(n: int, lo: int, hi: int) -> int {
    if n < lo {
        lo
    } else if n > hi {
        hi
    } else {
        n
    }
}

pub open spec fn at_least(n: int, lo: int) -> int {
    if n < lo {
        lo
    } else {
        n
    }
}

pub open spec fn at_most(n: int, hi: int) -> int {
    if n > hi {
        hi
    } else {
        n
    }
}

/// A list with commas where it had semicolons.
pub open spec fn with_commas(s: Seq<char>) -> Seq<char> {
    Seq::new(
        s.len(),
        |i: int|
            if s[i] == ';' {
                ','
            } else {
                s[i]
            },
    )
}

pub open spec fn has_path(v: Seq<Seq<char>>, p: Seq<char>) -> bool {
    exists|i: int| 0 <= i < v.len() && same_path(#[trigger] v[i], p)
}

/// The directories among the first `n` parts: trimmed, not empty, each once.
pub open spec fn dirs_upto(parts: Seq<Seq<char>>, n: int) -> Seq<Seq<char>>
    decreases n,
{
    if n <= 0 {
        seq![]
    } else {
        let had = dirs_upto(parts, n - 1);
        let p = trim(parts[n - 1]);
        if p.len() == 0 || has_path(had, p) {
            had
        } else {
            had.push(p)
        }
    }
}

/// The directories of a list.
pub open spec fn dirs_of(s: Seq<char>) -> Seq<Seq<char>> {
    let parts = split(with_commas(s), ',');
    dirs_upto(parts, parts.len() as int)
}

/// A time with a unit, in seconds: a number and `s`, `m` or `h`, or a number
/// of two or more digits.
pub open spec fn duration(s: Seq<char>) -> Option<int> {
    if s.len() == 0 {
        None
    } else {
        match unsigned(s.drop_last(), u64::MAX as int) {
            None => None,
            Some(n) => if s.last() == 's' || s.last() == 'S' {
                Some(n)
            } else if s.last() == 'm' || s.last() == 'M' {
                Some(n * 60)
            } else if s.last() == 'h' || s.last() == 'H' {
                Some(n * 3600)
            } else {
                unsigned(s, u64::MAX as int)
            },
        }
    }
}

/// A time that can be read: its last character is ASCII, and it fits.
pub open spec fn duration_fits(s: Seq<char>) -> bool {
    &&& s.len() > 0 ==> (s.last() as int) < 0x80
    &&& duration(s) matches Some(n) ==> n <= u64::MAX
}

/// The time between two scans: `SCAN_CRON`, or else `SCAN_INTERVAL_SECONDS`.
pub open spec fn interval_of(m: Seq<(Seq<char>, Seq<char>)>) -> int {
    let other = or_number(m, "SCAN_INTERVAL_SECONDS"@, 3600, u64::MAX as int);
    match lookup(m, "SCAN_CRON"@) {
        None => other,
        Some(raw) => if lowered(raw) == lowered("disabled"@) || raw == "0"@ {
            0
        } else if starts_with(raw, "@every "@) {
            match duration(trim(raw.skip("@every "@.len() as int))) {
                Some(n) => n,
                None => other,
            }
        } else {
            other
        },
    }
}

/// A schedule that can be read.
pub open spec fn interval_fits(m: Seq<(Seq<char>, Seq<char>)>) -> bool {
    lookup(m, "SCAN_CRON"@) matches Some(raw) ==> starts_with(raw, "@every "@) ==> duration_fits(
        trim(raw.skip("@every "@.len() as int)),
    )
}

pub open spec fn workers_of(m: Seq<(Seq<char>, Seq<char>)>) -> int {
    at_least(or_number(m, "MAX_FONT_WORKERS"@, 2, usize::MAX as int), 1)
}

pub open spec fn options_of(m: Seq<(Seq<char>, Seq<char>)>) -> ProcessingOptions {
    ProcessingOptions {
        embed_external_fonts: or_bool(m, "EMBED_EXTERNAL_FONTS"@, true),
        embed_system_fonts: or_bool(m, "EMBED_SYSTEM_FONTS"@, false),
        include_ascii: or_bool(m, "INCLUDE_ASCII"@, true),
        multi_weight: or_bool(m, "MULTI_WEIGHT"@, true),
        randomize_font_names: or_bool(m, "RANDOMIZE_FONT_NAMES"@, true),
        draw_subset: or_bool(m, "DRAW_SUBSET"@, true),
        full_font_embed: or_bool(m, "FULL_FONT_EMBED"@, false),
        fallback_full_font_embed: or_bool(m, "FALLBACK_FULL_FONT_EMBED"@, true),
        variable_fonts: or_bool(m, "VARIABLE_FONTS"@, false),
    }
}

/// The settings that the variables give.
pub open spec fn config_of(m: Seq<(Seq<char>, Seq<char>)>) -> ConfigView {
    ConfigView {
        listen_addr: or_text(m, "LISTEN_ADDR"@, "0.0.0.0:8080"@),
        font_dirs: dirs_of(or_text(m, "FONT_DIRS"@, "/fonts"@)),
        watch_dirs: dirs_of(or_text(m, "WATCH_DIRS"@, "/watch"@)),
        backup_dir: or_text(m, "BACKUP_DIR"@, "/backups"@),
        data_dir: or_text(m, "DATA_DIR"@, "/data"@),
        worker_script: or_text(m, "FONT_WORKER_PATH"@, "workers/font_worker.py"@),
        python_bin: or_text(m, "PYTHON_BIN"@, "python3"@),
        admin_password_hash: lookup(m, "ADMIN_PASSWORD_HASH"@),
        admin_password_plain: lookup(m, "ADMIN_PASSWORD"@),
        allow_no_auth: or_bool(m, "ASS_SUBSET_ALLOW_NO_AUTH"@, false),
        secure_cookies: or_bool(m, "SECURE_COOKIES"@, false),
        max_concurrent_jobs: at_least(
            or_number(m, "MAX_CONCURRENT_JOBS"@, 2, usize::MAX as int),
            1,
        ),
        max_font_workers: workers_of(m),
        max_index_concurrency: at_least(
            or_number(
                m,
                "MAX_INDEX_CONCURRENCY"@,
                clamped(workers_of(m) * 8, 8, 64),
                usize::MAX as int,
            ),
            1,
        ),
        max_scan_concurrency: clamped(
            or_number(m, "MAX_SCAN_CONCURRENCY"@, 4, usize::MAX as int),
            1,
            32,
        ),
        max_conversion_memory_mb: clamped(
            or_number(m, "MAX_CONVERSION_MEMORY_MB"@, 512, usize::MAX as int),
            64,
            32768,
        ),
        subset_cache_max_mb: at_most(
            or_number(m, "SUBSET_CACHE_MAX_MB"@, 2048, u64::MAX as int),
            1048576,
        ),
        font_worker_timeout: clamped(
            or_number(m, "FONT_WORKER_TIMEOUT_SECONDS"@, 300, u64::MAX as int),
            10,
            3600,
        ),
        job_queue_size: at_least(or_number(m, "JOB_QUEUE_SIZE"@, 1024, usize::MAX as int), 16),
        scan_interval: interval_of(m),
        backup_retention_days: at_most(
            or_number(m, "BACKUP_RETENTION_DAYS"@, 0, u64::MAX as int),
            365000,
        ),
        options: options_of(m),
    }
}

/// Whether a password is missing that has to be there.
pub open spec fn password_missing(m: Seq<(Seq<char>, Seq<char>)>) -> bool {
    !or_bool(m, "ASS_SUBSET_ALLOW_NO_AUTH"@, false) && lookup(m, "ADMIN_PASSWORD_HASH"@) is None
        && lookup(m, "ADMIN_PASSWORD"@) is None
}

fn env_text(m: &StrMap<String>, key: &str, other: &str) -> (r: String)
    ensures
        r@ == or_text(m@, key@, other@),
{
    match m.get(key) {
        Some(v) => v.clone(),
        None => other.to_string(),
    }
}

fn env_option(m: &StrMap<String>, key: &str) -> (r: Option<String>)
    ensures
        text_of(r) == lookup(m@, key@),
{
    match m.get(key) {
        Some(v) => Some(v.clone()),
        None => None,
    }
}

/// Reads a switch.
pub fn env_bool(m: &StrMap<String>, key: &str, default: bool) -> (r: bool)
    ensures
        r == or_bool(m@, key@, default),
{
    match m.get(key) {
        Some(v) => {
            let c = to_chars(v.as_str());
            let low = lower_chars(c.as_slice());
            let w = low.as_slice();
            if is_text(w, "1") || is_text(w, "true") || is_text(w, "yes") || is_text(w, "on") {
                true
            } else if is_text(w, "0") || is_text(w, "false") || is_text(w, "no") || is_text(
                w,
                "off",
            ) {
                false
            } else {
                default
            }
        },
        None => default,
    }
}

/// Reads a 64-bit number.
pub fn env_u64(m: &StrMap<String>, key: &str, default: u64) -> (r: u64)
    ensures
        r == or_number(m@, key@, default as int, u64::MAX as int),
{
    match m.get(key) {
        Some(v) => match parse_unsigned_text(v.as_str(), u64::MAX) {
            Some(n) => n,
            None => default,
        },
        None => default,
    }
}

/// Reads a number of the machine's size.
pub fn env_usize(m: &StrMap<String>, key: &str, default: usize) -> (r: usize)
    ensures
        r == or_number(m@, key@, default as int, usize::MAX as int),
{
    match m.get(key) {
        Some(v) => match parse_unsigned_text(v.as_str(), usize::MAX as u64) {
            Some(n) => n as usize,
            None => default,
        },
        None => default,
    }
}

fn commas(s: &[char]) -> (r: Vec<char>)
    ensures
        r@ == with_commas(s@),
{
    let mut out: Vec<char> = Vec::new();
    let mut i: usize = 0;
    while i < s.len()
        invariant
            i <= s@.len(),
            out@.len() == i,
            forall|j: int| 0 <= j < i ==> out@[j] == with_commas(s@)[j],
        decreases s@.len() - i,
    {
        if s[i] == ';' {
            out.push(',');
        } else {
            out.push(s[i]);
        }
        i = i + 1;
    }
    assert(out@ =~= with_commas(s@));
    out
}

/// Whether the list holds the path.
pub fn contains_path(v: &Vec<String>, p: &str) -> (r: bool)
    ensures
        r == has_path(texts(v@), p@),
{
    let mut i: usize = 0;
    while i < v.len()
        invariant
            i <= v@.len(),
            forall|j: int| 0 <= j < i ==> !same_path(#[trigger] texts(v@)[j], p@),
        decreases v@.len() - i,
    {
        if paths_equal(v[i].as_str(), p) {
            assert(same_path(texts(v@)[i as int], p@));
            return true;
        }
        i = i + 1;
    }
    false
}

/// Reads a list of directories.
pub fn parse_dirs(raw: &str) -> (r: Vec<String>)
    ensures
        texts(r@) == dirs_of(raw@),
{
    let c = to_chars(raw);
    let list = commas(c.as_slice());
    let parts = split_chars(list.as_slice(), ',');
    let ghost v = rows(parts@);
    let mut out: Vec<String> = Vec::new();
    let mut i: usize = 0;
    assert(texts(out@) =~= seq![]);
    while i < parts.len()
        invariant
            i <= parts@.len(),
            v == rows(parts@),
            texts(out@) == dirs_upto(v, i as int),
        decreases parts@.len() - i,
    {
        let p = trim_chars(parts[i].as_slice());
        assert(p@ == trim(v[i as int]));
        if p.len() > 0 {
            let t = to_text(p);
            if !contains_path(&out, t.as_str()) {
                let ghost had = texts(out@);
                let ghost tv = t@;
                out.push(t);
                assert(texts(out@) =~= had.push(tv));
            }
        }
        i = i + 1;
    }
    out
}

pub open spec fn seconds_of(r: Option<u64>) -> Option<int> {
    match r {
        Some(n) => Some(n as int),
        None => None,
    }
}

/// Reads a time with a unit, in seconds.
pub fn parse_duration(s: &[char]) -> (r: Option<u64>)
    requires
        duration_fits(s@),
    ensures
        seconds_of(r) == duration(s@),
{
    if s.len() == 0 {
        return None;
    }
    let last = s.len() - 1;
    let num = vstd::slice::slice_subrange(s, 0, last);
    assert(num@ =~= s@.drop_last());
    let unit = s[last];
    match parse_unsigned(num, u64::MAX) {
        None => None,
        Some(n) => if unit == 's' || unit == 'S' {
            Some(n)
        } else if unit == 'm' || unit == 'M' {
            Some(n * 60)
        } else if unit == 'h' || unit == 'H' {
            Some(n * 3600)
        } else {
            parse_unsigned(s, u64::MAX)
        },
    }
}

fn duration_readable(s: &[char]) -> (r: bool)
    ensures
        r == duration_fits(s@),
{
    if s.len() == 0 {
        return true;
    }
    let last = s.len() - 1;
    let unit = s[last];
    if code(unit) >= 0x80 {
        return false;
    }
    let num = vstd::slice::slice_subrange(s, 0, last);
    assert(num@ =~= s@.drop_last());
    match parse_unsigned(num, u64::MAX) {
        None => true,
        Some(n) => if unit == 'm' || unit == 'M' {
            n <= u64::MAX / 60
        } else if unit == 'h' || unit == 'H' {
            n <= u64::MAX / 3600
        } else {
            true
        },
    }
}

/// Whether the schedule can be read.
pub fn scan_interval_readable(m: &StrMap<String>) -> (r: bool)
    ensures
        r == interval_fits(m@),
{
    if let Some(raw) = m.get("SCAN_CRON") {
        let c = to_chars(raw.as_str());
        if starts_with_text(c.as_slice(), "@every ") {
            let word = to_chars("@every ");
            let rest = vstd::slice::slice_subrange(c.as_slice(), word.len(), c.len());
            assert(rest@ =~= raw@.skip("@every "@.len() as int));
            return duration_readable(trim_chars(rest));
        }
    }
    true
}

/// Reads the time between two scans, in seconds; zero is never.
pub fn parse_scan_interval(m: &StrMap<String>) -> (r: u64)
    requires
        interval_fits(m@),
    ensures
        r == interval_of(m@),
{
    if let Some(raw) = m.get("SCAN_CRON") {
        let c = to_chars(raw.as_str());
        let off = to_chars("disabled");
        if same_ignoring_case(c.as_slice(), off.as_slice()) || is_text(c.as_slice(), "0") {
            return 0;
        }
        if starts_with_text(c.as_slice(), "@every ") {
            let word = to_chars("@every ");
            let rest = vstd::slice::slice_subrange(c.as_slice(), word.len(), c.len());
            assert(rest@ =~= raw@.skip("@every "@.len() as int));
            if let Some(n) = parse_duration(trim_chars(rest)) {
                return n;
            }
        }
    }
    env_u64(m, "SCAN_INTERVAL_SECONDS", 3600)
}

fn clamp_usize(n: usize, lo: usize, hi: usize) -> (r: usize)
    ensures
        r == clamped(n as int, lo as int, hi as int),
{
    if n < lo {
        lo
    } else if n > hi {
        hi
    } else {
        n
    }
}

fn clamp_u64(n: u64, lo: u64, hi: u64) -> (r: u64)
    ensures
        r == clamped(n as int, lo as int, hi as int),
{
    if n < lo {
        lo
    } else if n > hi {
        hi
    } else {
        n
    }
}

fn least(n: usize, lo: usize) -> (r: usize)
    ensures
        r == at_least(n as int, lo as int),
{
    if n < lo {
        lo
    } else {
        n
    }
}

fn most(n: u64, hi: u64) -> (r: u64)
    ensures
        r == at_most(n as int, hi as int),
{
    if n > hi {
        hi
    } else {
        n
    }
}

fn read_options(m: &StrMap<String>) -> (r: ProcessingOptions)
    ensures
        r == options_of(m@),
{
    let d = ProcessingOptions::default();
    ProcessingOptions {
        embed_external_fonts: env_bool(m, "EMBED_EXTERNAL_FONTS", d.embed_external_fonts),
        embed_system_fonts: env_bool(m, "EMBED_SYSTEM_FONTS", d.embed_system_fonts),
        include_ascii: env_bool(m, "INCLUDE_ASCII", d.include_ascii),
        multi_weight: env_bool(m, "MULTI_WEIGHT", d.multi_weight),
        randomize_font_names: env_bool(m, "RANDOMIZE_FONT_NAMES", d.randomize_font_names),
        draw_subset: env_bool(m, "DRAW_SUBSET", d.draw_subset),
        full_font_embed: env_bool(m, "FULL_FONT_EMBED", d.full_font_embed),
        fallback_full_font_embed: env_bool(
            m,
            "FALLBACK_FULL_FONT_EMBED",
            d.fallback_full_font_embed,
        ),
        variable_fonts: env_bool(m, "VARIABLE_FONTS", d.variable_fonts),
    }
}

/// The address to listen on, as it is written.
pub fn listen_address(m: &StrMap<String>) -> (r: String)
    ensures
        r@ == config_of(m@).listen_addr,
{
    env_text(m, "LISTEN_ADDR", "0.0.0.0:8080")
}

impl Config {
    /// Reads the settings from the variables of the environment.
    /// `address_readable` says whether the text that `listen_address` gives is a
    /// socket address; where it is none, nothing else is looked at.
    pub fn from_env(m: &StrMap<String>, address_readable: bool) -> (r: Result<Config, ConfigError>)
        requires
            address_readable && !password_missing(m@) ==> interval_fits(m@),
        ensures
            match r {
                Ok(c) => address_readable && !password_missing(m@) && c@ == config_of(m@),
                Err(ConfigError::BadAddress) => !address_readable,
                Err(ConfigError::NoPassword) => address_readable && password_missing(m@),
            },
    {
        let listen_addr = listen_address(m);
        if !address_readable {
            return Err(ConfigError::BadAddress);
        }
        let data_dir = env_text(m, "DATA_DIR", "/data");
        let backup_dir = env_text(m, "BACKUP_DIR", "/backups");
        let font_list = env_text(m, "FONT_DIRS", "/fonts");
        let watch_list = env_text(m, "WATCH_DIRS", "/watch");
        let worker_script = env_text(m, "FONT_WORKER_PATH", "workers/font_worker.py");
        let python_bin = env_text(m, "PYTHON_BIN", "python3");
        let admin_password_hash = env_option(m, "ADMIN_PASSWORD_HASH");
        let admin_password_plain = env_option(m, "ADMIN_PASSWORD");
        let allow_no_auth = env_bool(m, "ASS_SUBSET_ALLOW_NO_AUTH", false);
        if !allow_no_auth && admin_password_hash.is_none() && admin_password_plain.is_none() {
            return Err(ConfigError::NoPassword);
        }
        let workers = least(env_usize(m, "MAX_FONT_WORKERS", 2), 1);
        let eightfold: usize = if workers >= 8 { 64 } else { workers * 8 };
        let index = env_usize(m, "MAX_INDEX_CONCURRENCY", eightfold);
        let c = Config {
            listen_addr,
            font_dirs: parse_dirs(font_list.as_str()),
            watch_dirs: parse_dirs(watch_list.as_str()),
            backup_dir,
            data_dir,
            worker_script,
            python_bin,
            admin_password_hash,
            admin_password_plain,
            allow_no_auth,
            secure_cookies: env_bool(m, "SECURE_COOKIES", false),
            max_concurrent_jobs: least(env_usize(m, "MAX_CONCURRENT_JOBS", 2), 1),
            max_font_workers: workers,
            max_index_concurrency: least(index, 1),
            max_scan_concurrency: clamp_usize(env_usize(m, "MAX_SCAN_CONCURRENCY", 4), 1, 32),
            max_conversion_memory_mb: clamp_usize(
                env_usize(m, "MAX_CONVERSION_MEMORY_MB", 512),
                64,
                32768,
            ),
            subset_cache_max_mb: most(env_u64(m, "SUBSET_CACHE_MAX_MB", 2048), 1048576),
            font_worker_timeout: clamp_u64(
                env_u64(m, "FONT_WORKER_TIMEOUT_SECONDS", 300),
                10,
                3600,
            ),
            job_queue_size: least(env_usize(m, "JOB_QUEUE_SIZE", 1024), 16),
            scan_interval: parse_scan_interval(m),
            backup_retention_days: most(env_u64(m, "BACKUP_RETENTION_DAYS", 0), 365000),
            options: read_options(m),
        };
        Ok(c)
    }

    pub fn database_path(&self) -> (r: String)
        ensures
            r@ == joined(self.data_dir@, "ass-subset-service.sqlite3"@),
    {
        join_path(self.data_dir.as_str(), "ass-subset-service.sqlite3")
    }

    pub fn subset_cache_dir(&self) -> (r: String)
        ensures
            r@ == joined(joined(self.data_dir@, "cache"@), "subsets"@),
    {
        let cache = join_path(self.data_dir.as_str(), "cache");
        join_path(cache.as_str(), "subsets")
    }

    pub fn subset_cache_max_bytes(&self) -> (r: u64)
        ensures
            r == at_most(self.subset_cache_max_mb * 1048576, u64::MAX as int),
    {
        if self.subset_cache_max_mb > u64::MAX / 1048576 {
            u64::MAX
        } else {
            self.subset_cache_max_mb * 1048576
        }
    }
}

// ---------------------------------------------------------------------------
// File names
// ---------------------------------------------------------------------------
/// A character that no file name may hold.
pub open spec fn is_forbidden(c: char) -> bool {
    is_control(c) || c == '/' || c == '\\' || c == ':' || c == '*' || c == '?' || c == '"' || c
        == '<' || c == '>' || c == '|'
}

/// A text with underscores in place of forbidden characters.
pub open spec fn replaced(s: Seq<char>) -> Seq<char> {
    Seq::new(
        s.len(),
        |i: int|
            if is_forbidden(s[i]) {
                '_'
            } else {
                s[i]
            },
    )
}

/// A text made into a file name: without forbidden characters, without spaces
/// and dots at its ends, and not empty.
pub open spec fn sanitized(s: Seq<char>) -> Seq<char> {
    let t = cut_both(replaced(s), Cut::SpaceOrDot);
    if t.len() == 0 {
        "_"@
    } else {
        t
    }
}

fn forbidden(c: char) -> (r: bool)
    ensures
        r == is_forbidden(c),
{
    control(c) || c == '/' || c == '\\' || c == ':' || c == '*' || c == '?' || c == '"' || c == '<'
        || c == '>' || c == '|'
}

pub fn sanitize_chars(s: &[char]) -> (r: Vec<char>)
    ensures
        r@ == sanitized(s@),
{
    let mut out: Vec<char> = Vec::new();
    let mut i: usize = 0;
    while i < s.len()
        invariant
            i <= s@.len(),
            out@.len() == i,
            forall|j: int| 0 <= j < i ==> out@[j] == replaced(s@)[j],
        decreases s@.len() - i,
    {
        if forbidden(s[i]) {
            out.push('_');
        } else {
            out.push(s[i]);
        }
        i = i + 1;
    }
    assert(out@ =~= replaced(s@));
    let t = cut_both_chars(out.as_slice(), Cut::SpaceOrDot);
    if t.len() == 0 {
        to_chars("_")
    } else {
        vstd::slice::slice_to_vec(t)
    }
}

pub fn sanitize_path_segment(s: &str) -> (r: String)
    ensures
        r@ == sanitized(s@),
{
    let c = to_chars(s);
    let v = sanitize_chars(c.as_slice());
    to_text(v.as_slice())
}

/// The name under which a watched directory's backups are kept.
pub open spec fn label_of(path: Seq<char>, index: int) -> Seq<char> {
    match file_name(path) {
        Some(n) => if trim(n).len() > 0 {
            sanitized(n)
        } else {
            "watch"@ + decimal(index as nat)
        },
        None => "watch"@ + decimal(index as nat),
    }
}

pub fn root_label(path: &str, index: usize) -> (r: String)
    ensures
        r@ == label_of(path@, index as int),
{
    if let Some(n) = file_name_of(path) {
        if trim_chars(n.as_slice()).len() > 0 {
            let v = sanitize_chars(n.as_slice());
            return to_text(v.as_slice());
        }
    }
    let mut out: Vec<char> = to_chars("watch");
    let d = decimal_chars(index as u64);
    push_all(&mut out, d.as_slice());
    to_text(out.as_slice())
}

// ---------------------------------------------------------------------------
// Laws
// ---------------------------------------------------------------------------
/// A sanitized name is a usable file name: not empty, without forbidden
/// characters, and with no space or dot at its ends.
pub proof fn law_sanitized_usable(s: Seq<char>)
    ensures
        sanitized(s).len() > 0,
        forall|i: int| 0 <= i < sanitized(s).len() ==> !is_forbidden(#[trigger] sanitized(s)[i]),
        !Cut::SpaceOrDot.has(sanitized(s)[0]),
        !Cut::SpaceOrDot.has(sanitized(s).last()),
{
    reveal_strlit("_");
    let r = replaced(s);
    let k = Cut::SpaceOrDot;
    lemma_cut_both(r, k);
    let t = cut_both(r, k);
    if t.len() > 0 {
        let a = crate::text::cut_front(r, k, 0);
        assert forall|i: int| 0 <= i < t.len() implies !is_forbidden(#[trigger] t[i]) by {
            assert(t[i] == r.subrange(a, a + t.len())[i]);
            assert(t[i] == r[a + i]);
        }
    }
}

/// Sanitizing twice is sanitizing once.
pub proof fn law_sanitize_idempotent(s: Seq<char>)
    ensures
        sanitized(sanitized(s)) == sanitized(s),
{
    let t = sanitized(s);
    law_sanitized_usable(s);
    assert(replaced(t) =~= t) by {
        assert forall|i: int| 0 <= i < t.len() implies replaced(t)[i] == t[i] by {
            assert(!is_forbidden(t[i]));
        }
    }
    lemma_cut_nothing(t, Cut::SpaceOrDot);
}

/// No directory is listed twice.
pub proof fn law_dirs_once(parts: Seq<Seq<char>>, n: int, i: int, j: int)
    requires
        0 <= n <= parts.len(),
        0 <= i < j < dirs_upto(parts, n).len(),
    ensures
        !same_path(dirs_upto(parts, n)[i], dirs_upto(parts, n)[j]),
    decreases n,
{
    let had = dirs_upto(parts, n - 1);
    if j < had.len() {
        law_dirs_once(parts, n - 1, i, j);
    } else {
        assert(had[i] == dirs_upto(parts, n)[i]);
    }
}

/// Settings that are read are within their limits.
pub proof fn law_config_limits(m: Seq<(Seq<char>, Seq<char>)>)
    ensures
        config_of(m).max_concurrent_jobs >= 1,
        config_of(m).max_font_workers >= 1,
        config_of(m).max_index_concurrency >= 1,
        1 <= config_of(m).max_scan_concurrency <= 32,
        64 <= config_of(m).max_conversion_memory_mb <= 32768,
        config_of(m).subset_cache_max_mb <= 1048576,
        10 <= config_of(m).font_worker_timeout <= 3600,
        config_of(m).job_queue_size >= 16,
        config_of(m).backup_retention_days <= 365000,
{
}

/// Every directory of a list is watched, or one with the same path is.
pub proof fn law_every_dir_kept(parts: Seq<Seq<char>>, n: int, i: int)
    requires
        0 <= i < n <= parts.len(),
        trim(parts[i]).len() > 0,
    ensures
        has_path(dirs_upto(parts, n), trim(parts[i])),
    decreases n,
{
    let had = dirs_upto(parts, n - 1);
    let all = dirs_upto(parts, n);
    if i == n - 1 {
        if !has_path(had, trim(parts[i])) {
            assert(same_path(all[all.len() - 1], trim(parts[i])));
        }
    } else {
        law_every_dir_kept(parts, n - 1, i);
        let k = choose|k: int| 0 <= k < had.len() && same_path(#[trigger] had[k], trim(parts[i]));
        assert(same_path(all[k], trim(parts[i])));
    }
}

/// A number that is set is taken as it stands, and anything that is no number
/// leaves the default.
pub proof fn law_number_taken(
    m: Seq<(Seq<char>, Seq<char>)>,
    key: Seq<char>,
    n: nat,
    other: int,
    max: int,
)
    requires
        n <= max,
    ensures
        lookup(m, key) == Some(decimal(n)) ==> or_number(m, key, other, max) == n,
        lookup(m, key) is None ==> or_number(m, key, other, max) == other,
        lookup(m, key) == Some(Seq::<char>::empty()) ==> or_number(m, key, other, max) == other,
{
    law_decimal_read_back(n, max);
}

/// A switch is read without regard to the case of its letters, and a word that is
/// neither yes nor no leaves the default.
pub proof fn law_switch_ignores_case(
    m: Seq<(Seq<char>, Seq<char>)>,
    key: Seq<char>,
    v: Seq<char>,
    other: bool,
)
    requires
        lookup(m, key) == Some(v),
    ensures
        lowered(v) == "1"@ || lowered(v) == "true"@ || lowered(v) == "yes"@ || lowered(v) == "on"@
            ==> or_bool(m, key, other),
        lowered(v) == "0"@ || lowered(v) == "false"@ || lowered(v) == "no"@ || lowered(v) == "off"@
            ==> !or_bool(m, key, other),
        or_bool(m, key, true) != or_bool(m, key, false) ==> or_bool(m, key, other) == other,
{
    reveal_strlit("1");
    reveal_strlit("0");
    reveal_strlit("true");
    reveal_strlit("yes");
    reveal_strlit("on");
    reveal_strlit("false");
    reveal_strlit("no");
    reveal_strlit("off");
    assert("1"@[0] == '1' && "0"@[0] == '0' && "true"@[0] == 't' && "yes"@[0] == 'y');
    assert("on"@.len() == 2 && "off"@.len() == 3 && "no"@[0] == 'n' && "false"@[0] == 'f');
    assert("on"@[0] == 'o');
}

/// Limits that lie within their bounds are taken as they are set.
pub proof fn law_limits_taken(m: Seq<(Seq<char>, Seq<char>)>, n: nat)
    requires
        n <= usize::MAX,
    ensures
        lookup(m, "MAX_CONCURRENT_JOBS"@) == Some(decimal(n)) && n >= 1
            ==> config_of(m).max_concurrent_jobs == n,
        lookup(m, "MAX_FONT_WORKERS"@) == Some(decimal(n)) && n >= 1
            ==> config_of(m).max_font_workers == n,
        lookup(m, "MAX_INDEX_CONCURRENCY"@) == Some(decimal(n)) && n >= 1
            ==> config_of(m).max_index_concurrency == n,
        lookup(m, "MAX_SCAN_CONCURRENCY"@) == Some(decimal(n)) && 1 <= n <= 32
            ==> config_of(m).max_scan_concurrency == n,
        lookup(m, "MAX_CONVERSION_MEMORY_MB"@) == Some(decimal(n)) && 64 <= n <= 32768
            ==> config_of(m).max_conversion_memory_mb == n,
        lookup(m, "SUBSET_CACHE_MAX_MB"@) == Some(decimal(n)) && n <= 1048576
            ==> config_of(m).subset_cache_max_mb == n,
        lookup(m, "FONT_WORKER_TIMEOUT_SECONDS"@) == Some(decimal(n)) && 10 <= n <= 3600
            ==> config_of(m).font_worker_timeout == n,
        lookup(m, "JOB_QUEUE_SIZE"@) == Some(decimal(n)) && n >= 16 ==> config_of(
            m,
        ).job_queue_size == n,
        lookup(m, "BACKUP_RETENTION_DAYS"@) == Some(decimal(n)) && n <= 365000
            ==> config_of(m).backup_retention_days == n,
        lookup(m, "SCAN_INTERVAL_SECONDS"@) == Some(decimal(n)) && lookup(m, "SCAN_CRON"@) is None
            ==> config_of(m).scan_interval == n,
{
    law_decimal_read_back(n, usize::MAX as int);
    law_decimal_read_back(n, u64::MAX as int);
}

/// A time is a number of seconds, minutes or hours, by the letter behind it, large
/// or small.
pub proof fn law_duration_units(n: nat)
    requires
        n <= u64::MAX,
    ensures
        duration(decimal(n).push('s')) == Some(n as int),
        duration(decimal(n).push('S')) == Some(n as int),
        duration(decimal(n).push('m')) == Some(60 * n as int),
        duration(decimal(n).push('M')) == Some(60 * n as int),
        duration(decimal(n).push('h')) == Some(3600 * n as int),
        duration(decimal(n).push('H')) == Some(3600 * n as int),
        n >= 10 ==> duration(decimal(n)) == Some(n as int),
{
    law_decimal_read_back(n, u64::MAX as int);
    let d = decimal(n);
    assert(d.push('s').drop_last() =~= d);
    assert(d.push('S').drop_last() =~= d);
    assert(d.push('m').drop_last() =~= d);
    assert(d.push('M').drop_last() =~= d);
    assert(d.push('h').drop_last() =~= d);
    assert(d.push('H').drop_last() =~= d);
    if n >= 10 {
        lemma_decimal(n);
        assert(crate::text::is_digit(d[d.len() - 1]));
        assert(d.drop_last() =~= decimal(n / 10));
        law_decimal_read_back(n / 10, u64::MAX as int);
    }
}

/// A schedule of `@every` and a time is that time; the word for never, in any case,
/// and zero stop the scans.
pub proof fn law_schedule_read(m: Seq<(Seq<char>, Seq<char>)>, raw: Seq<char>, n: nat, unit: char)
    requires
        lookup(m, "SCAN_CRON"@) == Some(raw),
        n <= u64::MAX,
        unit == 's' || unit == 'm' || unit == 'h',
    ensures
        lowered(raw) == "disabled"@ || raw == "0"@ ==> interval_of(m) == 0,
        raw == "@every "@ + decimal(n).push(unit) ==> interval_of(m) == if unit == 's' {
            n as int
        } else if unit == 'm' {
            60 * n as int
        } else {
            3600 * n as int
        },
{
    reveal_strlit("disabled");
    reveal_strlit("@every ");
    reveal_strlit("0");
    assert(lowered("disabled"@) =~= "disabled"@);
    if raw == "@every "@ + decimal(n).push(unit) {
        let d = decimal(n).push(unit);
        lemma_decimal(n);
        law_duration_units(n);
        assert(raw.subrange(0, 7) =~= "@every "@);
        assert(raw.skip(7) =~= d);
        assert(crate::text::is_digit(decimal(n)[0]));
        assert(d[0] == decimal(n)[0]);
        lemma_trim_is(d, 0, d.len() as int);
        assert(d.subrange(0, d.len() as int) =~= d);
        assert(raw[0] == '@');
        if lowered(raw) == lowered("disabled"@) {
            assert(lowered(raw)[0] == '@');
        }
    }
}

/// Different options have different texts, and so the outcome of a conversion is
/// remembered for its own options alone, unless SHA-256 has one digest for both.
pub proof fn law_options_told_apart(a: ProcessingOptions, b: ProcessingOptions)
    requires
        a != b,
    ensures
        options_json(a) != options_json(b),
        sha256(encode_utf8(options_json(a))) != sha256(encode_utf8(options_json(b)))
            ==> options_hash(a) != options_hash(b),
{
    if options_json(a) == options_json(b) {
        lemma_switches_read(a, b);
    }
    if options_hash(a) == options_hash(b) {
        law_hex_injective(
            sha256(encode_utf8(options_json(a))),
            sha256(encode_utf8(options_json(b))),
            false,
        );
    }
}

/// What stands before a switch, where texts end alike behind it.
proof fn lemma_switch_before(p: Seq<char>, x: bool, q: Seq<char>, y: bool, end: Seq<char>)
    requires
        p + bool_text(x) + end == q + bool_text(y) + end,
    ensures
        x == y,
        p == q,
{
    reveal_strlit("true");
    reveal_strlit("false");
    let s = p + bool_text(x) + end;
    let t = q + bool_text(y) + end;
    let n = s.len() - end.len();
    assert(s[n - 2] == bool_text(x)[bool_text(x).len() - 2]);
    assert(t[n - 2] == bool_text(y)[bool_text(y).len() - 2]);
    assert(s.take(p.len() as int) =~= p);
    assert(t.take(q.len() as int) =~= q);
}

proof fn lemma_switches_read(a: ProcessingOptions, b: ProcessingOptions)
    requires
        options_json(a) == options_json(b),
    ensures
        a == b,
{
    let k1 = "{\"embed_external_fonts\":"@;
    let k2 = ",\"embed_system_fonts\":"@;
    let k3 = ",\"include_ascii\":"@;
    let k4 = ",\"multi_weight\":"@;
    let k5 = ",\"randomize_font_names\":"@;
    let k6 = ",\"draw_subset\":"@;
    let k7 = ",\"full_font_embed\":"@;
    let k8 = ",\"fallback_full_font_embed\":"@;
    let k9 = ",\"variable_fonts\":"@;
    let x2 = k1 + bool_text(a.embed_external_fonts) + k2;
    let x3 = x2 + bool_text(a.embed_system_fonts) + k3;
    let x4 = x3 + bool_text(a.include_ascii) + k4;
    let x5 = x4 + bool_text(a.multi_weight) + k5;
    let x6 = x5 + bool_text(a.randomize_font_names) + k6;
    let x7 = x6 + bool_text(a.draw_subset) + k7;
    let x8 = x7 + bool_text(a.full_font_embed) + k8;
    let x9 = x8 + bool_text(a.fallback_full_font_embed) + k9;
    let y2 = k1 + bool_text(b.embed_external_fonts) + k2;
    let y3 = y2 + bool_text(b.embed_system_fonts) + k3;
    let y4 = y3 + bool_text(b.include_ascii) + k4;
    let y5 = y4 + bool_text(b.multi_weight) + k5;
    let y6 = y5 + bool_text(b.randomize_font_names) + k6;
    let y7 = y6 + bool_text(b.draw_subset) + k7;
    let y8 = y7 + bool_text(b.full_font_embed) + k8;
    let y9 = y8 + bool_text(b.fallback_full_font_embed) + k9;
    lemma_switch_before(x9, a.variable_fonts, y9, b.variable_fonts, "}"@);
    lemma_switch_before(x8, a.fallback_full_font_embed, y8, b.fallback_full_font_embed, k9);
    lemma_switch_before(x7, a.full_font_embed, y7, b.full_font_embed, k8);
    lemma_switch_before(x6, a.draw_subset, y6, b.draw_subset, k7);
    lemma_switch_before(x5, a.randomize_font_names, y5, b.randomize_font_names, k6);
    lemma_switch_before(x4, a.multi_weight, y4, b.multi_weight, k5);
    lemma_switch_before(x3, a.include_ascii, y3, b.include_ascii, k4);
    lemma_switch_before(x2, a.embed_system_fonts, y2, b.embed_system_fonts, k3);
    lemma_switch_before(k1, a.embed_external_fonts, k1, b.embed_external_fonts, k2);
}

/// A name that can be used as it stands is kept as it stands.
pub proof fn law_usable_names_kept(s: Seq<char>)
    requires
        s.len() > 0,
        forall|i: int|
            0 <= i < s.len() ==> 32 <= (#[trigger] s[i]) as u32 && !(127 <= s[i] as u32 <= 159)
                && s[i] != '/' && s[i] != '\\' && s[i] != ':' && s[i] != '*' && s[i] != '?' && s[i]
                != '"' && s[i] != '<' && s[i] != '>' && s[i] != '|',
        s[0] != ' ' && s[0] != '.',
        s.last() != ' ' && s.last() != '.',
    ensures
        sanitized(s) == s,
{
    assert(replaced(s) =~= s) by {
        assert forall|i: int| 0 <= i < s.len() implies replaced(s)[i] == s[i] by {
            assert(32 <= s[i] as u32);
        }
    }
    lemma_cut_nothing(s, Cut::SpaceOrDot);
}

/// What is done where nothing is set: the fonts of the index are embedded as
/// subsets of several weights under random names, with the drawings, and in full
/// only where a subset fails.
pub proof fn law_defaults()
    ensures
        ({
            let o = default_options();
            &&& o.embed_external_fonts && !o.embed_system_fonts
            &&& o.include_ascii && o.multi_weight && o.randomize_font_names && o.draw_subset
            &&& !o.full_font_embed && o.fallback_full_font_embed
            &&& !o.variable_fonts
        }),
{
}

/// A password is missing where neither it nor its digest is set, unless it is said
/// that none is needed.
pub proof fn law_password_needed(m: Seq<(Seq<char>, Seq<char>)>)
    ensures
        lookup(m, "ADMIN_PASSWORD"@) is Some ==> !password_missing(m),
        lookup(m, "ADMIN_PASSWORD_HASH"@) is Some ==> !password_missing(m),
        lookup(m, "ADMIN_PASSWORD"@) is None && lookup(m, "ADMIN_PASSWORD_HASH"@) is None && lookup(
            m,
            "ASS_SUBSET_ALLOW_NO_AUTH"@,
        ) is None ==> password_missing(m),
        lookup(m, "ASS_SUBSET_ALLOW_NO_AUTH"@) matches Some(v) && lowered(v) == "true"@
            ==> !password_missing(m),
        lookup(m, "ASS_SUBSET_ALLOW_NO_AUTH"@) matches Some(v) && lowered(v) == "false"@ && lookup(
            m,
            "ADMIN_PASSWORD"@,
        ) is None && lookup(m, "ADMIN_PASSWORD_HASH"@) is None ==> password_missing(m),
{
    let key = "ASS_SUBSET_ALLOW_NO_AUTH"@;
    if lookup(m, key) is Some {
        law_switch_ignores_case(m, key, lookup(m, key)->0, false);
    }
}

/// A watched directory is called by the last part of its path.
pub proof fn law_directory_labelled(dir: Seq<char>, name: Seq<char>, index: nat)
    requires
        crate::path::is_name(name),
        dir.len() > 0,
        dir.last() != '/',
        trim(name).len() > 0,
    ensures
        label_of(joined(dir, name), index as int) == sanitized(name),
        file_name(dir) is None ==> label_of(dir, index as int) == "watch"@ + decimal(index),
{
    crate::path::law_file_in_directory(dir, name);
}

/// Each option is switched by the variable of its own name.
pub proof fn law_options_by_variable(m: Seq<(Seq<char>, Seq<char>)>)
    ensures
        config_of(m).options.embed_external_fonts == or_bool(m, "EMBED_EXTERNAL_FONTS"@, true),
        config_of(m).options.embed_system_fonts == or_bool(m, "EMBED_SYSTEM_FONTS"@, false),
        config_of(m).options.include_ascii == or_bool(m, "INCLUDE_ASCII"@, true),
        config_of(m).options.multi_weight == or_bool(m, "MULTI_WEIGHT"@, true),
        config_of(m).options.randomize_font_names == or_bool(m, "RANDOMIZE_FONT_NAMES"@, true),
        config_of(m).options.draw_subset == or_bool(m, "DRAW_SUBSET"@, true),
        config_of(m).options.full_font_embed == or_bool(m, "FULL_FONT_EMBED"@, false),
        config_of(m).options.fallback_full_font_embed == or_bool(m, "FALLBACK_FULL_FONT_EMBED"@, true),
        config_of(m).options.variable_fonts == or_bool(m, "VARIABLE_FONTS"@, false),
        config_of(m).allow_no_auth == or_bool(m, "ASS_SUBSET_ALLOW_NO_AUTH"@, false),
        config_of(m).secure_cookies == or_bool(m, "SECURE_COOKIES"@, false),
{
}

/// Texts are taken as they are set, and directories are read from theirs.
pub proof fn law_texts_taken(m: Seq<(Seq<char>, Seq<char>)>, v: Seq<char>)
    ensures
        lookup(m, "LISTEN_ADDR"@) == Some(v) ==> config_of(m).listen_addr == v,
        lookup(m, "BACKUP_DIR"@) == Some(v) ==> config_of(m).backup_dir == v,
        lookup(m, "DATA_DIR"@) == Some(v) ==> config_of(m).data_dir == v,
        lookup(m, "FONT_WORKER_PATH"@) == Some(v) ==> config_of(m).worker_script == v,
        lookup(m, "PYTHON_BIN"@) == Some(v) ==> config_of(m).python_bin == v,
        lookup(m, "FONT_DIRS"@) == Some(v) ==> config_of(m).font_dirs == dirs_of(v),
        lookup(m, "WATCH_DIRS"@) == Some(v) ==> config_of(m).watch_dirs == dirs_of(v),
        config_of(m).admin_password_plain == lookup(m, "ADMIN_PASSWORD"@),
        config_of(m).admin_password_hash == lookup(m, "ADMIN_PASSWORD_HASH"@),
{
}

/// What holds where nothing is set.
pub proof fn law_config_defaults(m: Seq<(Seq<char>, Seq<char>)>)
    requires
        m.len() == 0,
    ensures
        ({
            let c = config_of(m);
            &&& c.listen_addr == "0.0.0.0:8080"@
            &&& c.font_dirs == dirs_of("/fonts"@)
            &&& c.watch_dirs == dirs_of("/watch"@)
            &&& c.backup_dir == "/backups"@
            &&& c.data_dir == "/data"@
            &&& c.worker_script == "workers/font_worker.py"@
            &&& c.python_bin == "python3"@
            &&& c.admin_password_hash is None && c.admin_password_plain is None
            &&& !c.allow_no_auth && !c.secure_cookies
            &&& c.max_concurrent_jobs == 2
            &&& c.max_font_workers == 2
            &&& c.max_index_concurrency == 16
            &&& c.max_scan_concurrency == 4
            &&& c.max_conversion_memory_mb == 512
            &&& c.subset_cache_max_mb == 2048
            &&& c.font_worker_timeout == 300
            &&& c.job_queue_size == 1024
            &&& c.scan_interval == 3600
            &&& c.backup_retention_days == 0
            &&& c.options == default_options()
        }),
{
}

/// A limit that is set beyond its bounds is taken as the nearer bound.
pub proof fn law_limits_bounded(m: Seq<(Seq<char>, Seq<char>)>, n: nat)
    requires
        n <= usize::MAX,
    ensures
        lookup(m, "MAX_CONCURRENT_JOBS"@) == Some(decimal(n)) && n < 1
            ==> config_of(m).max_concurrent_jobs == 1,
        lookup(m, "MAX_FONT_WORKERS"@) == Some(decimal(n)) && n < 1
            ==> config_of(m).max_font_workers == 1,
        lookup(m, "MAX_SCAN_CONCURRENCY"@) == Some(decimal(n)) && n > 32
            ==> config_of(m).max_scan_concurrency == 32,
        lookup(m, "MAX_CONVERSION_MEMORY_MB"@) == Some(decimal(n)) && n < 64
            ==> config_of(m).max_conversion_memory_mb == 64,
        lookup(m, "MAX_CONVERSION_MEMORY_MB"@) == Some(decimal(n)) && n > 32768
            ==> config_of(m).max_conversion_memory_mb == 32768,
        lookup(m, "SUBSET_CACHE_MAX_MB"@) == Some(decimal(n)) && n > 1048576
            ==> config_of(m).subset_cache_max_mb == 1048576,
        lookup(m, "FONT_WORKER_TIMEOUT_SECONDS"@) == Some(decimal(n)) && n < 10
            ==> config_of(m).font_worker_timeout == 10,
        lookup(m, "FONT_WORKER_TIMEOUT_SECONDS"@) == Some(decimal(n)) && n > 3600
            ==> config_of(m).font_worker_timeout == 3600,
        lookup(m, "JOB_QUEUE_SIZE"@) == Some(decimal(n)) && n < 16 ==> config_of(
            m,
        ).job_queue_size == 16,
        lookup(m, "BACKUP_RETENTION_DAYS"@) == Some(decimal(n)) && n > 365000
            ==> config_of(m).backup_retention_days == 365000,
{
    law_decimal_read_back(n, usize::MAX as int);
    law_decimal_read_back(n, u64::MAX as int);
}

/// Directories are separated by commas or semicolons.
pub proof fn law_separators_alike(s: Seq<char>, t: Seq<char>)
    requires
        s.len() == t.len(),
        forall|i: int|
            0 <= i < s.len() ==> #[trigger] s[i] == t[i] || (s[i] == ';' && t[i] == ',') || (s[i]
                == ',' && t[i] == ';'),
    ensures
        dirs_of(s) == dirs_of(t),
{
    assert forall|i: int| 0 <= i < s.len() implies with_commas(s)[i] == with_commas(t)[i] by {
        assert(s[i] == t[i] || (s[i] == ';' && t[i] == ',') || (s[i] == ',' && t[i] == ';'));
    }
    assert(with_commas(s) =~= with_commas(t));
}

/// Every character that no name may hold is replaced by an underscore, and the
/// others stay.
pub proof fn law_forbidden_replaced(a: char, c: char, b: char)
    requires
        !is_forbidden(a) && a != ' ' && a != '.',
        !is_forbidden(b) && b != ' ' && b != '.',
        c == '/' || c == '\\' || c == ':' || c == '*' || c == '?' || c == '"' || c == '<' || c
            == '>' || c == '|',
    ensures
        sanitized(seq![a, c, b]) == seq![a, '_', b],
{
    let r = replaced(seq![a, c, b]);
    assert(r =~= seq![a, '_', b]);
    lemma_cut_nothing(r, Cut::SpaceOrDot);
}

} // verus!
