//! One conversion: the fonts of a subtitle are looked up one after the other,
//! their subsets are made, and the subtitle is written with the subsets in it.
use vstd::prelude::*;
use vstd::slice::slice_to_vec;

use crate::ass::draw::{
    entry_views, file_drawn, rejoined, rewrite_drawings_as_font, DrawRestoreEntry,
};
use crate::ass::encoding::{
    decode_subtitle, decoded, encode_subtitle, encoded, law_decode_encode, law_encode_decode,
    mark_of, BomKind, DecodeError,
};
use crate::ass::font_laws::{
    all_as_read, all_readable, fonts_on_one_line, law_embedded_fonts_read_back, names_on_one_line,
};
use crate::ass::fonts::{embedded_blocks, fonts_of};
use crate::ass::parse::{newline_of, parse_subtitle, parsed};
use crate::ass::rewrite::{embedded_file, rewrite_with_embedded_fonts};
use crate::ass::style::{
    is_system_font, lookup_name, lookup_name_chars, normalize_lookup_name, system_font,
};
use crate::ass::usage::{lists, FontUsage, UsageView};
use crate::config::ProcessingOptions;
use crate::line_laws::is_newline;
use crate::models::{embedded_views, EmbeddedFont, EmbeddedFontView, FontCandidate, FontSlot};
use crate::number::{decimal, decimal_chars};
use crate::processor::candidates::{best_candidate, law_exact_face_taken, nearest};
use crate::processor::keys::{free_salt, stable_name, try_stable_font_name};
use crate::strmap::{law_lookup_put, lookup, put, StrMap};
use crate::text::{
    push_all, push_text, same_text, starts_with, starts_with_text, texts, to_chars, to_text,
};

verus! {

/// What a conversion did.
#[derive(Clone, Copy, Debug, PartialEq, Eq, Structural)]
pub struct ProcessStats {
    pub embedded_count: usize,
    pub missing_count: usize,
    pub drawing_count: usize,
    pub embedded_removed_count: usize,
    pub random_names_restored: usize,
    pub drawings_restored: usize,
    pub draw_fonts_created: usize,
    pub original_size: u64,
    pub output_size: u64,
}

/// The status of a conversion: something may be missing.
pub open spec fn status_text(complete: bool) -> Seq<char> {
    if complete {
        "success"@
    } else {
        "partial"@
    }
}

pub fn status_of(complete: bool) -> (r: &'static str)
    ensures
        r@ == status_text(complete),
{
    if complete {
        "success"
    } else {
        "partial"
    }
}

// ---------------------------------------------------------------------------
// Which fonts are embedded
// ---------------------------------------------------------------------------
/// Whether a font of a subtitle is to be embedded: the font of drawings never,
/// a font that every system has and any other as the options say.
pub open spec fn wanted(font: Seq<char>, o: ProcessingOptions) -> bool {
    !starts_with(lookup_name(font), "assdrawsubset"@) && if system_font(lookup_name(font)) {
        o.embed_system_fonts
    } else {
        o.embed_external_fonts
    }
}

/// Whether a font is the font of drawings.
pub fn is_draw_font(name: &str) -> (r: bool)
    ensures
        r == starts_with(lookup_name(name@), "assdrawsubset"@),
{
    let c = to_chars(name);
    let key = lookup_name_chars(c.as_slice());
    starts_with_text(key.as_slice(), "assdrawsubset")
}

pub fn font_wanted(font: &str, options: &ProcessingOptions) -> (r: bool)
    ensures
        r == wanted(font@, *options),
{
    if is_draw_font(font) {
        return false;
    }
    if is_system_font(font) {
        options.embed_system_fonts
    } else {
        options.embed_external_fonts
    }
}

/// The next font from `i` on that is to be embedded, or the number of fonts.
pub open spec fn next_wanted(
    usages: Seq<(Seq<char>, UsageView)>,
    o: ProcessingOptions,
    i: int,
) -> int
    decreases usages.len() - i,
{
    if 0 <= i < usages.len() && !wanted(usages[i].0, o) {
        next_wanted(usages, o, i + 1)
    } else {
        i
    }
}

/// A subset to be made.
#[derive(Debug)]
pub struct SubsetTask {
    pub slot: FontSlot,
    pub codepoints: Vec<u32>,
    /// The place of the face among the candidates.
    pub candidate: usize,
}

pub open spec fn task_slots(v: Seq<SubsetTask>) -> Seq<FontSlot> {
    Seq::new(v.len(), |i: int| v[i].slot)
}

pub open spec fn slot_list() -> Seq<FontSlot> {
    seq![FontSlot::Normal, FontSlot::Bold, FontSlot::Italic, FontSlot::BoldItalic]
}

/// Whether a set has a member.
pub open spec fn some_member(s: Set<u32>) -> bool {
    exists|x: u32| s.contains(x)
}

/// The slots among the first `n` that have something to draw.
pub open spec fn used_slots(u: UsageView, n: int) -> Seq<FontSlot>
    decreases n,
{
    if n <= 0 {
        seq![]
    } else if some_member(u.slot(slot_list()[n - 1])) {
        used_slots(u, n - 1).push(slot_list()[n - 1])
    } else {
        used_slots(u, n - 1)
    }
}

/// The slots for which subsets are made: each that is used, or one for all.
pub open spec fn subset_slots(u: UsageView, multi: bool) -> Seq<FontSlot> {
    if multi {
        used_slots(u, 4)
    } else if some_member(u.all()) {
        seq![FontSlot::Normal]
    } else {
        seq![]
    }
}

/// What a subset has to draw.
pub open spec fn task_set(u: UsageView, slot: FontSlot, multi: bool) -> Set<u32> {
    if multi {
        u.slot(slot)
    } else {
        u.all()
    }
}

/// The subsets to be made of a font.
pub open spec fn is_plan(
    tasks: Seq<SubsetTask>,
    u: UsageView,
    multi: bool,
    candidates: Seq<FontCandidate>,
) -> bool {
    &&& task_slots(tasks) == subset_slots(u, multi)
    &&& forall|k: int|
        0 <= k < tasks.len() ==> {
            &&& lists((#[trigger] tasks[k]).codepoints@, task_set(u, tasks[k].slot, multi))
            &&& tasks[k].candidate == nearest(candidates, tasks[k].slot)
            &&& tasks[k].candidate < candidates.len()
        }
}

proof fn lemma_listed_member(v: Seq<u32>, s: Set<u32>)
    requires
        lists(v, s),
    ensures
        v.len() > 0 <==> some_member(s),
{
    if v.len() > 0 {
        assert(v.contains(v[0]));
        assert(s.contains(v[0]));
    }
    if some_member(s) {
        let x = choose|x: u32| s.contains(x);
        assert(v.contains(x));
    }
}

fn slot_at(k: usize) -> (r: FontSlot)
    requires
        k < 4,
    ensures
        r == slot_list()[k as int],
{
    if k == 0 {
        FontSlot::Normal
    } else if k == 1 {
        FontSlot::Bold
    } else if k == 2 {
        FontSlot::Italic
    } else {
        FontSlot::BoldItalic
    }
}

/// Which subsets are to be made of a font, and of which faces.
pub fn plan_subsets(
    usage: &FontUsage,
    options: &ProcessingOptions,
    candidates: &[FontCandidate],
) -> (r: Vec<SubsetTask>)
    requires
        candidates@.len() > 0,
    ensures
        is_plan(r@, usage@, options.multi_weight, candidates@),
{
    let mut out: Vec<SubsetTask> = Vec::new();
    assert(task_slots(out@) =~= seq![]);
    if options.multi_weight {
        let mut k: usize = 0;
        while k < 4
            invariant
                k <= 4,
                candidates@.len() > 0,
                task_slots(out@) == used_slots(usage@, k as int),
                forall|j: int|
                    0 <= j < out@.len() ==> {
                        &&& lists(
                            (#[trigger] out@[j]).codepoints@,
                            task_set(usage@, out@[j].slot, true),
                        )
                        &&& out@[j].candidate == nearest(candidates@, out@[j].slot)
                        &&& out@[j].candidate < candidates@.len()
                    },
            decreases 4 - k,
        {
            let slot = slot_at(k);
            let codepoints = usage.slot_codepoints(slot);
            proof {
                lemma_listed_member(codepoints@, usage@.slot(slot));
            }
            if codepoints.len() > 0 {
                if let Some(candidate) = best_candidate(candidates, slot) {
                    let ghost had = task_slots(out@);
                    out.push(SubsetTask { slot, codepoints, candidate });
                    assert(task_slots(out@) =~= had.push(slot));
                }
            }
            k = k + 1;
        }
    } else {
        let codepoints = usage.all_codepoints();
        proof {
            lemma_listed_member(codepoints@, usage@.all());
        }
        if codepoints.len() > 0 {
            if let Some(candidate) = best_candidate(candidates, FontSlot::Normal) {
                out.push(SubsetTask { slot: FontSlot::Normal, codepoints, candidate });
                assert(task_slots(out@) =~= seq![FontSlot::Normal]);
            }
        }
    }
    out
}

// ---------------------------------------------------------------------------
// The state of a conversion
// ---------------------------------------------------------------------------
/// A conversion under way.
pub struct SubsetJob {
    options: ProcessingOptions,
    text: String,
    bom: BomKind,
    newline: String,
    usages: StrMap<FontUsage>,
    drawing_count: usize,
    next: usize,
    embedded: Vec<EmbeddedFont>,
    renames: StrMap<String>,
    missing: Vec<String>,
    used: Vec<String>,
    assigned: StrMap<String>,
    base: String,
    draw_fonts: usize,
}

#[verifier::ext_equal]
pub struct JobView {
    pub options: ProcessingOptions,
    pub text: Seq<char>,
    pub bom: BomKind,
    pub newline: Seq<char>,
    pub usages: Seq<(Seq<char>, UsageView)>,
    pub drawing_count: int,
    /// How many fonts have been passed.
    pub next: int,
    pub embedded: Seq<EmbeddedFontView>,
    /// The new names by lookup name.
    pub renames: Seq<(Seq<char>, Seq<char>)>,
    pub missing: Seq<Seq<char>>,
    /// The generated names.
    pub used: Seq<Seq<char>>,
    /// The generated names by lookup name.
    pub assigned: Seq<(Seq<char>, Seq<char>)>,
    /// The text with its drawings replaced.
    pub base: Seq<char>,
    pub draw_fonts: int,
}

impl View for SubsetJob {
    type V = JobView;

    closed spec fn view(&self) -> JobView {
        JobView {
            options: self.options,
            text: self.text@,
            bom: self.bom,
            newline: self.newline@,
            usages: self.usages@,
            drawing_count: self.drawing_count as int,
            next: self.next as int,
            embedded: embedded_views(self.embedded@),
            renames: self.renames@,
            missing: texts(self.missing@),
            used: texts(self.used@),
            assigned: self.assigned@,
            base: self.base@,
            draw_fonts: self.draw_fonts as int,
        }
    }
}

/// The state at the start.
pub open spec fn job_start(s: Seq<char>, bom: BomKind, options: ProcessingOptions) -> JobView {
    JobView {
        options,
        text: s,
        bom,
        newline: newline_of(s),
        usages: parsed(s).usages,
        drawing_count: parsed(s).drawings,
        next: 0,
        embedded: seq![],
        renames: seq![],
        missing: seq![],
        used: seq![],
        assigned: seq![],
        base: s,
        draw_fonts: 0,
    }
}

/// The name that a font is embedded under: its own, or a generated one that is
/// the same for all spellings of the font. Nothing where no name is free.
pub open spec fn name_for(v: JobView, font: Seq<char>) -> Option<Seq<char>> {
    let key = lookup_name(font);
    if !v.options.randomize_font_names {
        Some(font)
    } else {
        match (lookup(v.assigned, key), free_salt(key, v.used, 0)) {
            (Some(n), _) => Some(n),
            (None, Some(salt)) => Some(stable_name(key, salt)),
            _ => None,
        }
    }
}

/// The state once a font has its name.
pub open spec fn with_name(v: JobView, font: Seq<char>, name: Seq<char>) -> JobView {
    let key = lookup_name(font);
    let fresh = v.options.randomize_font_names && lookup(v.assigned, key) is None;
    JobView {
        used: if fresh {
            v.used.push(name)
        } else {
            v.used
        },
        assigned: if fresh {
            put(v.assigned, key, name)
        } else {
            v.assigned
        },
        renames: if name != font {
            put(v.renames, key, name)
        } else {
            v.renames
        },
        ..v
    }
}

/// What is to be done with a font.
pub enum FontPlan {
    /// No face has the name: the font is missing.
    Missing,
    /// No generated name is free.
    NoName,
    /// The subsets to be made, under the name.
    Embed(String, Vec<SubsetTask>),
}

impl SubsetJob {
    /// Reads a subtitle to be converted.
    pub fn start(bytes: &[u8], options: ProcessingOptions) -> (r: Result<SubsetJob, DecodeError>)
        ensures
            match r {
                Ok(job) => {
                    &&& decoded(bytes@) == Ok::<Seq<char>, DecodeError>(job@.text)
                    &&& job@ == job_start(job@.text, mark_of(bytes@), options)
                },
                Err(e) => decoded(bytes@) == Err::<Seq<char>, DecodeError>(e),
            },
    {
        let d = match decode_subtitle(bytes) {
            Ok(d) => d,
            Err(e) => {
                return Err(e);
            },
        };
        let p = parse_subtitle(d.text.as_str());
        let base = d.text.clone();
        let job = SubsetJob {
            options,
            text: d.text,
            bom: d.bom,
            newline: p.newline,
            usages: p.usages,
            drawing_count: p.drawing_count,
            next: 0,
            embedded: Vec::new(),
            renames: StrMap::new(),
            missing: Vec::new(),
            used: Vec::new(),
            assigned: StrMap::new(),
            base,
            draw_fonts: 0,
        };
        assert(job@ =~= job_start(job@.text, mark_of(bytes@), options));
        Ok(job)
    }

    /// The next font to look up, if there is one. Fonts that are not to be
    /// embedded are passed over.
    pub fn next_font(&mut self) -> (r: Option<String>)
        ensures
            ({
                let at = next_wanted(old(self)@.usages, old(self)@.options, old(self)@.next);
                match r {
                    Some(name) => {
                        &&& 0 <= old(self)@.next <= at < old(self)@.usages.len()
                        &&& name@ == old(self)@.usages[at].0
                        &&& final(self)@ == (JobView { next: at + 1, ..old(self)@ })
                    },
                    None => {
                        &&& at >= old(self)@.usages.len()
                        &&& final(self)@ == (JobView { next: at, ..old(self)@ })
                    },
                }
            }),
    {
        let ghost before = self@;
        while self.next < self.usages.len()
            invariant
                before == old(self)@,
                self@ == (JobView { next: self@.next, ..before }),
                0 <= before.next <= self@.next,
                next_wanted(before.usages, before.options, before.next) == next_wanted(
                    before.usages,
                    before.options,
                    self@.next,
                ),
            decreases self@.usages.len() - self@.next,
        {
            let at = self.next;
            let wanted_now = font_wanted(self.usages.key(at).as_str(), &self.options);
            if wanted_now {
                let name = self.usages.key(at).clone();
                self.next = at + 1;
                return Some(name);
            }
            self.next = at + 1;
        }
        None
    }

    /// Decides what is done with the font that was looked up last, from the
    /// faces that were found.
    pub fn plan_font(&mut self, candidates: &[FontCandidate]) -> (r: FontPlan)
        requires
            0 < old(self)@.next <= old(self)@.usages.len(),
        ensures
            ({
                let before = old(self)@;
                let font = before.usages[before.next - 1].0;
                let usage = before.usages[before.next - 1].1;
                match r {
                    FontPlan::Missing => {
                        &&& candidates@.len() == 0
                        &&& final(self)@ == (JobView { missing: before.missing.push(font), ..before })
                    },
                    FontPlan::NoName => {
                        &&& candidates@.len() > 0
                        &&& name_for(before, font) is None
                        &&& final(self)@ == before
                    },
                    FontPlan::Embed(name, tasks) => {
                        &&& candidates@.len() > 0
                        &&& name_for(before, font) == Some(name@)
                        &&& final(self)@ == with_name(before, font, name@)
                        &&& is_plan(tasks@, usage, before.options.multi_weight, candidates@)
                    },
                }
            }),
    {
        let ghost before = self@;
        let at: usize = self.next - 1;
        let font = self.usages.key(at).clone();
        if candidates.len() == 0 {
            let ghost had = texts(self.missing@);
            let ghost fv = font@;
            self.missing.push(font);
            assert(texts(self.missing@) =~= had.push(fv));
            return FontPlan::Missing;
        }
        let key = normalize_lookup_name(font.as_str());
        let name: String = if self.options.randomize_font_names {
            let found = match self.assigned.get(key.as_str()) {
                Some(n) => Some(n.clone()),
                None => None,
            };
            match found {
                Some(n) => n,
                None => match try_stable_font_name(key.as_str(), &mut self.used) {
                    Some(n) => {
                        self.assigned.insert(key.clone(), n.clone());
                        n
                    },
                    None => {
                        return FontPlan::NoName;
                    },
                },
            }
        } else {
            font.clone()
        };
        if !same_text(name.as_str(), font.as_str()) {
            self.renames.insert(key, name.clone());
        }
        assert(self@ =~= with_name(before, font@, name@));
        let tasks = plan_subsets(self.usages.value(at), &self.options, candidates);
        FontPlan::Embed(name, tasks)
    }

    /// Takes a finished subset of the font that was looked up last.
    pub fn embed(&mut self, embedded_name: String, slot: FontSlot, data: Vec<u8>)
        requires
            0 < old(self)@.next <= old(self)@.usages.len(),
        ensures
            final(self)@ == (JobView {
                embedded: old(self)@.embedded.push(
                    EmbeddedFontView {
                        original_name: old(self)@.usages[old(self)@.next - 1].0,
                        embedded_name: embedded_name@,
                        slot,
                        data: data@,
                    },
                ),
                ..old(self)@
            }),
    {
        let ghost had = embedded_views(self.embedded@);
        let original_name = self.usages.key(self.next - 1).clone();
        let font = EmbeddedFont { original_name, embedded_name, slot, data };
        let ghost fv = font@;
        self.embedded.push(font);
        assert(embedded_views(self.embedded@) =~= had.push(fv));
    }

    /// Replaces the drawings where the options ask for it, and says which
    /// characters a font of drawings has to have.
    pub fn replace_drawings(&mut self) -> (r: Vec<DrawRestoreEntry>)
        ensures
            old(self)@.options.draw_subset ==> {
                &&& entry_views(r@) == file_drawn(old(self)@.text).entries
                &&& final(self)@ == (JobView {
                    base: rejoined(
                        file_drawn(old(self)@.text).out,
                        old(self)@.newline,
                        old(self)@.text,
                    ),
                    ..old(self)@
                })
            },
            !old(self)@.options.draw_subset ==> {
                &&& r@.len() == 0
                &&& final(self)@ == (JobView { base: old(self)@.text, ..old(self)@ })
            },
    {
        if self.options.draw_subset {
            let w = rewrite_drawings_as_font(self.text.as_str(), self.newline.as_str());
            self.base = w.text;
            w.entries
        } else {
            self.base = self.text.clone();
            Vec::new()
        }
    }

    /// Takes the finished font of drawings.
    pub fn embed_drawings(&mut self, data: Vec<u8>)
        ensures
            final(self)@ == (JobView {
                embedded: old(self)@.embedded.push(
                    EmbeddedFontView {
                        original_name: "ASSDrawSubset"@,
                        embedded_name: "ASSDrawSubset"@,
                        slot: FontSlot::Normal,
                        data: data@,
                    },
                ),
                draw_fonts: 1,
                ..old(self)@
            }),
    {
        let ghost had = embedded_views(self.embedded@);
        let font = EmbeddedFont {
            original_name: "ASSDrawSubset".to_string(),
            embedded_name: "ASSDrawSubset".to_string(),
            slot: FontSlot::Normal,
            data,
        };
        let ghost fv = font@;
        self.embedded.push(font);
        assert(embedded_views(self.embedded@) =~= had.push(fv));
        self.draw_fonts = 1;
    }
}

// ---------------------------------------------------------------------------
// The outcome
// ---------------------------------------------------------------------------
/// The outcome of a conversion.
#[derive(Debug)]
pub struct JobOutcome {
    /// Whether the file has to be written.
    pub changed: bool,
    pub output: Vec<u8>,
    pub status: &'static str,
    pub message: String,
    pub problems: Vec<String>,
    pub stats: ProcessStats,
}

/// The text that a conversion writes.
pub open spec fn job_text(v: JobView) -> Seq<char> {
    if v.embedded.len() == 0 {
        v.text
    } else {
        embedded_file(v.base, v.newline, v.renames, v.embedded)
    }
}

/// The bytes that a conversion leaves: the file's own where nothing is embedded.
pub open spec fn job_output(v: JobView, bytes: Seq<u8>) -> Seq<u8> {
    if v.embedded.len() == 0 {
        bytes
    } else {
        encoded(job_text(v), v.bom)
    }
}

/// What a conversion says of itself.
pub open spec fn job_message(embedded: int, missing: int) -> Seq<char> {
    if missing == 0 {
        "转换完成：嵌入 "@ + decimal(embedded as nat) + " 个字体"@
    } else {
        "部分完成：嵌入 "@ + decimal(embedded as nat) + " 个字体，缺失 "@ + decimal(missing as nat)
            + " 个字体"@
    }
}

fn message_of(embedded: usize, missing: usize) -> (r: String)
    ensures
        r@ == job_message(embedded as int, missing as int),
{
    let e = decimal_chars(embedded as u64);
    let m = decimal_chars(missing as u64);
    let mut out: Vec<char> = Vec::new();
    if missing == 0 {
        push_text(&mut out, "转换完成：嵌入 ");
        push_all(&mut out, e.as_slice());
        push_text(&mut out, " 个字体");
    } else {
        push_text(&mut out, "部分完成：嵌入 ");
        push_all(&mut out, e.as_slice());
        push_text(&mut out, " 个字体，缺失 ");
        push_all(&mut out, m.as_slice());
        push_text(&mut out, " 个字体");
    }
    assert(out@ =~= job_message(embedded as int, missing as int));
    to_text(out.as_slice())
}

pub fn copy_texts(v: &Vec<String>) -> (r: Vec<String>)
    ensures
        texts(r@) == texts(v@),
{
    let mut out: Vec<String> = Vec::new();
    let mut i: usize = 0;
    while i < v.len()
        invariant
            i <= v@.len(),
            out@.len() == i,
            forall|j: int| 0 <= j < i ==> (#[trigger] out@[j])@ == v@[j]@,
        decreases v@.len() - i,
    {
        out.push(v[i].clone());
        i = i + 1;
    }
    assert(texts(out@) =~= texts(v@));
    out
}

impl SubsetJob {
    /// Writes the subtitle, once every font has been handled.
    pub fn finish(&self, bytes: &[u8]) -> (r: JobOutcome)
        ensures
            r.changed == (job_text(self@) != self@.text),
            r.output@ == job_output(self@, bytes@),
            r.status@ == status_text(self@.missing.len() == 0),
            r.message@ == job_message(self@.embedded.len() as int, self@.missing.len() as int),
            texts(r.problems@) == self@.missing,
            r.stats.embedded_count == self@.embedded.len(),
            r.stats.missing_count == self@.missing.len(),
            r.stats.drawing_count == self@.drawing_count,
            r.stats.embedded_removed_count == 0,
            r.stats.random_names_restored == 0,
            r.stats.drawings_restored == 0,
            r.stats.draw_fonts_created == self@.draw_fonts,
            r.stats.original_size == bytes@.len(),
            r.stats.output_size == job_output(self@, bytes@).len(),
    {
        let n = self.embedded.len();
        let (changed, output) = if n == 0 {
            (false, slice_to_vec(bytes))
        } else {
            let written = rewrite_with_embedded_fonts(
                self.base.as_str(),
                self.newline.as_str(),
                &self.renames,
                self.embedded.as_slice(),
            );
            (!same_text(written.as_str(), self.text.as_str()), encode_subtitle(
                written.as_str(),
                &self.bom,
            ))
        };
        let m = self.missing.len();
        let stats = ProcessStats {
            embedded_count: n,
            missing_count: m,
            drawing_count: self.drawing_count,
            embedded_removed_count: 0,
            random_names_restored: 0,
            drawings_restored: 0,
            draw_fonts_created: self.draw_fonts,
            original_size: bytes.len() as u64,
            output_size: output.len() as u64,
        };
        JobOutcome {
            changed,
            output,
            status: status_of(m == 0),
            message: message_of(n, m),
            problems: copy_texts(&self.missing),
            stats,
        }
    }
}

// ---------------------------------------------------------------------------
// Laws
// ---------------------------------------------------------------------------
/// A conversion that changes no text leaves the bytes of the file as they are.
pub proof fn law_unchanged_text_unchanged_file(v: JobView, bytes: Seq<u8>)
    requires
        decoded(bytes) == Ok::<Seq<char>, DecodeError>(v.text),
        v.bom == mark_of(bytes),
        job_text(v) == v.text,
    ensures
        job_output(v, bytes) == bytes,
{
    law_encode_decode(bytes);
}

/// The file that a conversion writes carries the fonts that were embedded, in
/// their order, and is read with the mark it had.
pub proof fn law_written_fonts(v: JobView, bytes: Seq<u8>)
    requires
        v.embedded.len() > 0,
        is_newline(v.newline),
        names_on_one_line(v.renames),
        fonts_on_one_line(v.embedded),
        all_readable(embedded_blocks(v.embedded)),
        v.bom == BomKind::Absent && job_text(v).len() > 0 ==> job_text(v)[0] != '\u{FEFF}',
    ensures
        decoded(job_output(v, bytes)) == Ok::<Seq<char>, DecodeError>(job_text(v)),
        mark_of(job_output(v, bytes)) == v.bom,
        fonts_of(job_text(v)) == all_as_read(embedded_blocks(v.embedded)),
{
    law_decode_encode(job_text(v), v.bom);
    law_embedded_fonts_read_back(v.base, v.newline, v.renames, v.embedded);
}

/// Two spellings of a font are embedded under one name.
pub proof fn law_spellings_share_name(v: JobView, a: Seq<char>, b: Seq<char>)
    requires
        v.options.randomize_font_names,
        lookup_name(a) == lookup_name(b),
        name_for(v, a) is Some,
    ensures
        name_for(with_name(v, a, name_for(v, a)->0), b) == name_for(v, a),
{
    let name = name_for(v, a)->0;
    crate::strmap::law_lookup_put(v.assigned, lookup_name(a), name, lookup_name(b));
}

/// No two fonts share a generated name: a new name is not among those in use.
pub proof fn law_names_unique(v: JobView, font: Seq<char>)
    requires
        v.options.randomize_font_names,
        lookup(v.assigned, lookup_name(font)) is None,
        name_for(v, font) is Some,
    ensures
        !v.used.contains(name_for(v, font)->0),
{
    crate::processor::keys::lemma_free_salt(lookup_name(font), v.used, 0);
}

/// Fonts are passed over only where they are not to be embedded.
pub proof fn law_only_unwanted_skipped(
    usages: Seq<(Seq<char>, UsageView)>,
    o: ProcessingOptions,
    i: int,
)
    requires
        0 <= i <= usages.len(),
    ensures
        i <= next_wanted(usages, o, i) <= usages.len(),
        forall|j: int| i <= j < next_wanted(usages, o, i) ==> !wanted((#[trigger] usages[j]).0, o),
        next_wanted(usages, o, i) < usages.len() ==> wanted(usages[next_wanted(usages, o, i)].0, o),
    decreases usages.len() - i,
{
    if i < usages.len() && !wanted(usages[i].0, o) {
        law_only_unwanted_skipped(usages, o, i + 1);
    }
}

/// Every code point that a font has to draw is in one of its subsets.
pub proof fn law_every_codepoint_planned(
    tasks: Seq<SubsetTask>,
    u: UsageView,
    multi: bool,
    candidates: Seq<FontCandidate>,
    cp: u32,
)
    requires
        is_plan(tasks, u, multi, candidates),
        u.all().contains(cp),
    ensures
        exists|k: int| 0 <= k < tasks.len() && (#[trigger] tasks[k]).codepoints@.contains(cp),
{
    if multi {
        let s = if u.normal.contains(cp) {
            0int
        } else if u.bold.contains(cp) {
            1
        } else if u.italic.contains(cp) {
            2
        } else {
            3
        };
        let slot = slot_list()[s];
        assert(u.slot(slot).contains(cp));
        lemma_slot_used(u, s, 4);
        let k = choose|k: int| 0 <= k < used_slots(u, 4).len() && used_slots(u, 4)[k] == slot;
        assert(task_slots(tasks)[k] == tasks[k].slot);
        assert(tasks[k].codepoints@.contains(cp));
    } else {
        assert(some_member(u.all()));
        assert(task_slots(tasks).len() == 1);
        assert(tasks[0].codepoints@.contains(cp));
    }
}

proof fn lemma_slot_used(u: UsageView, s: int, n: int)
    requires
        0 <= s < n <= 4,
        some_member(u.slot(slot_list()[s])),
    ensures
        used_slots(u, n).contains(slot_list()[s]),
    decreases n,
{
    if s < n - 1 {
        lemma_slot_used(u, s, n - 1);
        let had = used_slots(u, n - 1);
        let k = choose|k: int| 0 <= k < had.len() && had[k] == slot_list()[s];
        assert(used_slots(u, n)[k] == slot_list()[s]);
    } else {
        let v = used_slots(u, n);
        assert(v[v.len() - 1] == slot_list()[s]);
    }
}

/// A font of drawings is never embedded as a font of the subtitle. A font that
/// every system has is embedded where the options ask for such fonts, and any
/// other where they ask for the others.
pub proof fn law_options_choose_fonts(font: Seq<char>, o: ProcessingOptions)
    ensures
        starts_with(lookup_name(font), "assdrawsubset"@) ==> !wanted(font, o),
        wanted(font, o) && !o.embed_external_fonts ==> system_font(lookup_name(font)),
        wanted(font, o) && !o.embed_system_fonts ==> !system_font(lookup_name(font)),
        o.embed_external_fonts && o.embed_system_fonts && !starts_with(
            lookup_name(font),
            "assdrawsubset"@,
        ) ==> wanted(font, o),
        system_font(lookup_name(font)) && o.embed_system_fonts && !starts_with(
            lookup_name(font),
            "assdrawsubset"@,
        ) ==> wanted(font, o),
        !system_font(lookup_name(font)) && o.embed_external_fonts && !starts_with(
            lookup_name(font),
            "assdrawsubset"@,
        ) ==> wanted(font, o),
{
}

/// With one subset for each weight and slant, a subset holds what is drawn with
/// its own weight and slant and nothing else, there is one for each that is used,
/// and no two are for the same.
pub proof fn law_subset_for_each_slot(
    tasks: Seq<SubsetTask>,
    u: UsageView,
    candidates: Seq<FontCandidate>,
    k: int,
    cp: u32,
)
    requires
        is_plan(tasks, u, true, candidates),
        0 <= k < tasks.len(),
    ensures
        tasks[k].codepoints@.contains(cp) <==> match tasks[k].slot {
            FontSlot::Normal => u.normal.contains(cp),
            FontSlot::Bold => u.bold.contains(cp),
            FontSlot::Italic => u.italic.contains(cp),
            FontSlot::BoldItalic => u.bold_italic.contains(cp),
        },
        tasks[k].codepoints@.len() > 0,
        forall|j: int| 0 <= j < tasks.len() && j != k ==> (#[trigger] tasks[j]).slot != tasks[k].slot,
{
    assert(lists(tasks[k].codepoints@, task_set(u, tasks[k].slot, true)));
    lemma_slots_once(u, 4);
    let slots = used_slots(u, 4);
    assert(task_slots(tasks)[k] == tasks[k].slot);
    assert forall|j: int| 0 <= j < tasks.len() && j != k implies (#[trigger] tasks[j]).slot
        != tasks[k].slot by {
        assert(task_slots(tasks)[j] == tasks[j].slot);
    }
    lemma_listed_member(tasks[k].codepoints@, u.slot(tasks[k].slot));
}

proof fn lemma_slots_once(u: UsageView, n: int)
    requires
        0 <= n <= 4,
    ensures
        forall|i: int|
            0 <= i < used_slots(u, n).len() ==> slot_list().take(n).contains(
                #[trigger] used_slots(u, n)[i],
            ) && some_member(u.slot(used_slots(u, n)[i])),
        forall|i: int, j: int|
            0 <= i < j < used_slots(u, n).len() ==> used_slots(u, n)[i] != used_slots(u, n)[j],
    decreases n,
{
    if n > 0 {
        lemma_slots_once(u, n - 1);
        let had = used_slots(u, n - 1);
        let v = used_slots(u, n);
        let slot = slot_list()[n - 1];
        assert forall|i: int| 0 <= i < had.len() implies slot_list().take(n).contains(
            #[trigger] had[i],
        ) && had[i] != slot by {
            let x = choose|x: int|
                0 <= x < n - 1 && #[trigger] slot_list().take(n - 1)[x] == had[i];
            assert(slot_list().take(n)[x] == had[i]);
        }
        assert(slot_list().take(n)[n - 1] == slot);
        assert forall|i: int| 0 <= i < v.len() implies slot_list().take(n).contains(
            #[trigger] v[i],
        ) && some_member(u.slot(v[i])) by {
            if i < had.len() {
                assert(v[i] == had[i]);
            }
        }
        assert forall|i: int, j: int| 0 <= i < j < v.len() implies v[i] != v[j] by {
            assert(v[i] == had[i]);
            if j < had.len() {
                assert(v[j] == had[j]);
            }
        }
    }
}

/// With one subset for all weights and slants, it is the upright regular one, and
/// it holds what is drawn with any of them and nothing else.
pub proof fn law_one_subset_for_all(
    tasks: Seq<SubsetTask>,
    u: UsageView,
    candidates: Seq<FontCandidate>,
    cp: u32,
)
    requires
        is_plan(tasks, u, false, candidates),
        tasks.len() > 0,
    ensures
        tasks.len() == 1,
        tasks[0].slot is Normal,
        tasks[0].codepoints@.contains(cp) <==> u.normal.contains(cp) || u.bold.contains(cp)
            || u.italic.contains(cp) || u.bold_italic.contains(cp),
{
    assert(task_slots(tasks)[0] == tasks[0].slot);
    assert(task_slots(tasks).len() == tasks.len());
    assert(lists(tasks[0].codepoints@, task_set(u, tasks[0].slot, false)));
}

/// A subset is made of a face with the weight and the slant of its slot wherever
/// one was found.
pub proof fn law_subset_of_right_face(
    tasks: Seq<SubsetTask>,
    u: UsageView,
    multi: bool,
    candidates: Seq<FontCandidate>,
    k: int,
    i: int,
)
    requires
        is_plan(tasks, u, multi, candidates),
        0 <= k < tasks.len(),
        0 <= i < candidates.len(),
        match tasks[k].slot {
            FontSlot::Normal => !candidates[i].italic && candidates[i].weight == 400,
            FontSlot::Bold => !candidates[i].italic && candidates[i].weight == 700,
            FontSlot::Italic => candidates[i].italic && candidates[i].weight == 400,
            FontSlot::BoldItalic => candidates[i].italic && candidates[i].weight == 700,
        },
    ensures
        tasks[k].candidate <= i,
        candidates[tasks[k].candidate as int].italic == candidates[i].italic,
        candidates[tasks[k].candidate as int].weight == candidates[i].weight,
{
    law_exact_face_taken(candidates, tasks[k].slot, i);
}

/// A font keeps its own name unless the options ask for generated ones, and its
/// new name is found under its lookup name wherever it has one.
pub proof fn law_new_names_found(v: JobView, font: Seq<char>, other: Seq<char>)
    requires
        name_for(v, font) is Some,
    ensures
        !v.options.randomize_font_names ==> {
            &&& name_for(v, font) == Some(font)
            &&& with_name(v, font, font) == v
        },
        name_for(v, font)->0 != font ==> {
            let to = with_name(v, font, name_for(v, font)->0);
            &&& lookup(to.renames, lookup_name(font)) == name_for(v, font)
            &&& other != lookup_name(font) ==> lookup(to.renames, other) == lookup(
                v.renames,
                other,
            )
        },
{
    let name = name_for(v, font)->0;
    law_lookup_put(v.renames, lookup_name(font), name, lookup_name(font));
    law_lookup_put(v.renames, lookup_name(font), name, other);
}

/// A conversion that embedded nothing writes nothing.
pub proof fn law_nothing_embedded(v: JobView, bytes: Seq<u8>)
    requires
        v.embedded.len() == 0,
    ensures
        job_text(v) == v.text,
        job_output(v, bytes) == bytes,
{
}

/// A conversion starts with every font that the text uses, with none embedded and
/// none missing, and with the text as it stands.
pub proof fn law_conversion_starts(s: Seq<char>, bom: BomKind, options: ProcessingOptions)
    ensures
        ({
            let job = job_start(s, bom, options);
            &&& job.text == s && job.base == s && job.bom == bom && job.options == options
            &&& job.usages == parsed(s).usages
            &&& job.drawing_count == parsed(s).drawings
            &&& job.next == 0
            &&& job.embedded.len() == 0 && job.renames.len() == 0 && job.missing.len() == 0
            &&& job.draw_fonts == 0
        }),
{
}

/// A conversion is a success where no font is missing, and tells how many fonts it
/// embedded; where some are missing it is partial, and tells how many.
pub proof fn law_conversion_told(embedded: nat, missing: nat)
    requires
        missing > 0,
    ensures
        status_text(true) == "success"@,
        status_text(false) == "partial"@,
        job_message(embedded as int, 0) == "转换完成：嵌入 "@ + decimal(embedded) + " 个字体"@,
        job_message(embedded as int, missing as int) == "部分完成：嵌入 "@ + decimal(embedded)
            + " 个字体，缺失 "@ + decimal(missing) + " 个字体"@,
{
}

} // verus!
