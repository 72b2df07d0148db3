//! What is asked of the font workers, and what is made of their answers.
use vstd::prelude::*;

use crate::config::ProcessingOptions;
use crate::models::{FontCandidate, FontFaceInfo, FontSlot};
use crate::text::same_text;

verus! {

#[derive(Debug)]
pub struct InspectResult {
    pub faces: Vec<FontFaceInfo>,
}

#[derive(Debug)]
pub struct SubsetResult {
    pub output_path: String,
    pub orig_size: u64,
    pub subset_size: u64,
    pub used_codepoints: Vec<u32>,
}

/// What a font that a subtitle carries says of itself.
#[derive(Debug)]
pub struct EmbeddedFontMetadata {
    pub font_subset_map: Option<FontSubsetMap>,
    pub draw_entries: Vec<DrawTableEntry>,
}

/// Which font a subset was made of.
#[derive(Debug)]
pub struct FontSubsetMap {
    pub original: String,
    pub subset: String,
    pub version: Option<String>,
}

/// Which drawing a character stands for.
#[derive(Clone, Debug)]
pub struct DrawTableEntry {
    pub data: String,
    pub ch: String,
    pub flags: u8,
}

#[derive(Debug)]
pub struct DrawFontResult {
    pub output_path: String,
    pub subset_size: u64,
    pub entries: Vec<DrawTableEntry>,
}

/// A subset to be made.
#[derive(Debug)]
pub struct SubsetRequest<'a> {
    pub source_path: &'a str,
    pub ttc_index: i32,
    pub output_path: &'a str,
    pub codepoints: &'a [u32],
    pub include_ascii: bool,
    pub full_font: bool,
    pub retain_variations: bool,
    pub target_family: &'a str,
    pub original_family: &'a str,
    pub subfamily: &'a str,
    pub randomize_map: Option<RandomizeMap<'a>>,
    pub service_version: &'static str,
}

/// The two names of a font that is renamed.
#[derive(Clone, Copy, Debug)]
pub struct RandomizeMap<'a> {
    pub original: &'a str,
    pub subset: &'a str,
}

/// A font of drawings to be made.
#[derive(Debug)]
pub struct DrawFontRequest<'a> {
    pub output_path: &'a str,
    pub family: &'a str,
    pub drawings: &'a [DrawTableEntry],
    pub service_version: &'static str,
}

// ---------------------------------------------------------------------------
// Requests
// ---------------------------------------------------------------------------
/// The style name of a slot.
pub open spec fn subfamily_text(slot: FontSlot) -> Seq<char> {
    match slot {
        FontSlot::Normal => "Regular"@,
        FontSlot::Bold => "Bold"@,
        FontSlot::Italic => "Italic"@,
        FontSlot::BoldItalic => "Bold Italic"@,
    }
}

pub fn subfamily_of(slot: FontSlot) -> (r: &'static str)
    ensures
        r@ == subfamily_text(slot),
{
    match slot {
        FontSlot::Normal => "Regular",
        FontSlot::Bold => "Bold",
        FontSlot::Italic => "Italic",
        FontSlot::BoldItalic => "Bold Italic",
    }
}

/// What the request asks for.
pub open spec fn asks(
    req: SubsetRequest<'_>,
    options: ProcessingOptions,
    original: Seq<char>,
    embedded: Seq<char>,
    slot: FontSlot,
    full: bool,
) -> bool {
    &&& req.include_ascii == options.include_ascii
    &&& req.full_font == full
    &&& req.retain_variations == options.variable_fonts
    &&& req.target_family@ == embedded
    &&& req.original_family@ == original
    &&& req.subfamily@ == subfamily_text(slot)
    &&& match req.randomize_map {
        Some(m) => embedded != original && m.original@ == original && m.subset@ == embedded,
        None => embedded == original,
    }
}

/// The request for a subset, or for the whole font where that is asked for.
pub fn subset_request<'a>(
    options: &ProcessingOptions,
    original_name: &'a str,
    embedded_name: &'a str,
    slot: FontSlot,
    codepoints: &'a [u32],
    candidate: &'a FontCandidate,
    output_path: &'a str,
    full_font: bool,
    service_version: &'static str,
) -> (r: SubsetRequest<'a>)
    ensures
        asks(r, *options, original_name@, embedded_name@, slot, full_font),
        r.source_path@ == candidate.path@,
        r.ttc_index == candidate.ttc_index,
        r.output_path@ == output_path@,
        r.codepoints@ == codepoints@,
        r.service_version@ == service_version@,
{
    let randomize_map = if same_text(embedded_name, original_name) {
        None
    } else {
        Some(RandomizeMap { original: original_name, subset: embedded_name })
    };
    SubsetRequest {
        source_path: candidate.path.as_str(),
        ttc_index: candidate.ttc_index,
        output_path,
        codepoints,
        include_ascii: options.include_ascii,
        full_font,
        retain_variations: options.variable_fonts,
        target_family: embedded_name,
        original_family: original_name,
        subfamily: subfamily_of(slot),
        randomize_map,
        service_version,
    }
}

// ---------------------------------------------------------------------------
// Answers
// ---------------------------------------------------------------------------
/// What an answer of a worker is worth.
#[derive(Clone, Copy, Debug, PartialEq, Eq, Structural)]
pub enum Answer {
    /// The result is there.
    Accept,
    /// The answer belongs to another request.
    WrongId,
    /// The worker says yes and gives nothing.
    NoResult,
    /// The worker says no.
    Refused,
}

/// What an answer is worth: one to another request is worth nothing.
pub open spec fn judged(expected: Seq<char>, id: Seq<char>, ok: bool, has_result: bool) -> Answer {
    if id != expected {
        Answer::WrongId
    } else if !ok {
        Answer::Refused
    } else if has_result {
        Answer::Accept
    } else {
        Answer::NoResult
    }
}

pub fn judge_answer(expected: &str, id: &str, ok: bool, has_result: bool) -> (r: Answer)
    ensures
        r == judged(expected@, id@, ok, has_result),
{
    if !same_text(id, expected) {
        Answer::WrongId
    } else if !ok {
        Answer::Refused
    } else if has_result {
        Answer::Accept
    } else {
        Answer::NoResult
    }
}

/// How an attempt to reach a worker ended.
#[derive(Clone, Copy, Debug, PartialEq, Eq, Structural)]
pub enum Attempt {
    /// An answer that is accepted.
    Answered,
    /// An answer that says no: asking again is of no use.
    Refused,
    /// No answer, or one that is worth nothing.
    Broken,
}

pub open spec fn attempt_of(a: Answer) -> Attempt {
    match a {
        Answer::Accept => Attempt::Answered,
        Answer::Refused => Attempt::Refused,
        Answer::WrongId => Attempt::Broken,
        Answer::NoResult => Attempt::Broken,
    }
}

pub fn attempt_for(a: Answer) -> (r: Attempt)
    ensures
        r == attempt_of(a),
{
    match a {
        Answer::Accept => Attempt::Answered,
        Answer::Refused => Attempt::Refused,
        Answer::WrongId => Attempt::Broken,
        Answer::NoResult => Attempt::Broken,
    }
}

/// Where a request stands.
#[derive(Clone, Copy, Debug, PartialEq, Eq, Structural)]
pub enum RequestState {
    /// The request is sent; so many attempts were made before.
    Sending(u8),
    /// The worker is started again after an attempt.
    Restarting(u8),
    /// The result is there.
    Done,
    /// The worker said no.
    Failed,
    /// The worker could not be started again.
    RestartFailed,
    /// The second attempt broke too.
    GaveUp,
}

/// Where a request stands after an attempt.
pub open spec fn after_attempt_state(s: RequestState, a: Attempt) -> RequestState {
    match s {
        RequestState::Sending(n) => match a {
            Attempt::Answered => RequestState::Done,
            Attempt::Refused => RequestState::Failed,
            Attempt::Broken => RequestState::Restarting(n),
        },
        _ => s,
    }
}

/// Where a request stands after a restart.
pub open spec fn after_restart_state(s: RequestState, started: bool) -> RequestState {
    match s {
        RequestState::Restarting(n) => if !started {
            RequestState::RestartFailed
        } else if n >= 1 {
            RequestState::GaveUp
        } else {
            RequestState::Sending((n + 1) as u8)
        },
        _ => s,
    }
}

impl RequestState {
    pub fn start() -> (r: RequestState)
        ensures
            r == RequestState::Sending(0),
    {
        RequestState::Sending(0)
    }

    pub fn after_attempt(self, a: Attempt) -> (r: RequestState)
        ensures
            r == after_attempt_state(self, a),
    {
        match self {
            RequestState::Sending(n) => match a {
                Attempt::Answered => RequestState::Done,
                Attempt::Refused => RequestState::Failed,
                Attempt::Broken => RequestState::Restarting(n),
            },
            _ => self,
        }
    }

    pub fn after_restart(self, started: bool) -> (r: RequestState)
        ensures
            r == after_restart_state(self, started),
    {
        match self {
            RequestState::Restarting(n) => if !started {
                RequestState::RestartFailed
            } else if n >= 1 {
                RequestState::GaveUp
            } else {
                RequestState::Sending(n + 1)
            },
            _ => self,
        }
    }
}

// ---------------------------------------------------------------------------
// Laws
// ---------------------------------------------------------------------------
/// A broken attempt is made again once, after a restart, and a second one is
/// the last.
pub proof fn law_one_retry(a: Attempt, b: Attempt)
    ensures
        ({
            let s0 = RequestState::Sending(0);
            let s1 = after_restart_state(after_attempt_state(s0, Attempt::Broken), true);
            let s2 = after_restart_state(after_attempt_state(s1, Attempt::Broken), true);
            &&& s1 == RequestState::Sending(1)
            &&& s2 == RequestState::GaveUp
            &&& after_attempt_state(s2, a) == s2
            &&& after_attempt_state(s1, Attempt::Answered) == RequestState::Done
        }),
{
}

/// A worker that says no is not asked again, and one that is not started again
/// is given up.
pub proof fn law_refusal_is_final(n: u8, a: Attempt, started: bool)
    ensures
        ({
            let s = after_attempt_state(RequestState::Sending(n), Attempt::Refused);
            &&& s == RequestState::Failed
            &&& after_attempt_state(s, a) == s
            &&& after_restart_state(s, started) == s
        }),
        after_restart_state(RequestState::Restarting(n), false) == RequestState::RestartFailed,
{
}

/// An answer is accepted where it belongs to the request, says yes and brings a
/// result, and only there; an answer that says no ends the request, and every
/// other counts as none.
pub proof fn law_answers_weighed(expected: Seq<char>, id: Seq<char>, ok: bool, has_result: bool)
    ensures
        attempt_of(judged(expected, id, ok, has_result)) == Attempt::Answered <==> id == expected
            && ok && has_result,
        attempt_of(judged(expected, id, ok, has_result)) == Attempt::Refused <==> id == expected
            && !ok,
        judged(expected, id, ok, has_result) == Answer::WrongId <==> id != expected,
{
}

/// A subset is asked for as the options say, under the name that it is embedded
/// with. The two names are handed over where they differ, and only there.
pub proof fn law_request_follows_options(
    req: SubsetRequest<'_>,
    options: ProcessingOptions,
    original: Seq<char>,
    embedded: Seq<char>,
    slot: FontSlot,
    full: bool,
)
    requires
        asks(req, options, original, embedded, slot, full),
    ensures
        req.include_ascii <==> options.include_ascii,
        req.retain_variations <==> options.variable_fonts,
        req.full_font <==> full,
        req.target_family@ == embedded,
        req.original_family@ == original,
        slot is Normal ==> req.subfamily@ == "Regular"@,
        slot is Bold ==> req.subfamily@ == "Bold"@,
        slot is Italic ==> req.subfamily@ == "Italic"@,
        slot is BoldItalic ==> req.subfamily@ == "Bold Italic"@,
        req.randomize_map is Some <==> embedded != original,
        req.randomize_map matches Some(m) ==> m.original@ == original && m.subset@ == embedded,
{
}

/// The style name of a subset tells its slot.
pub proof fn law_style_names_differ(a: FontSlot, b: FontSlot)
    requires
        subfamily_text(a) == subfamily_text(b),
    ensures
        a == b,
{
    reveal_strlit("Regular");
    reveal_strlit("Bold");
    reveal_strlit("Italic");
    reveal_strlit("Bold Italic");
    assert("Regular"@[0] == 'R' && "Bold"@[0] == 'B' && "Italic"@[0] == 'I' && "Bold Italic"@[0]
        == 'B');
    assert("Bold"@.len() == 4 && "Bold Italic"@.len() == 11);
}

/// The styles as fonts name them.
pub proof fn law_styles_named()
    ensures
        subfamily_text(FontSlot::Normal) == "Regular"@,
        subfamily_text(FontSlot::Bold) == "Bold"@,
        subfamily_text(FontSlot::Italic) == "Italic"@,
        subfamily_text(FontSlot::BoldItalic) == "Bold Italic"@,
{
}

} // verus!
