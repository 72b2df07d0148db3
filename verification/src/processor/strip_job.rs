//! Taking subset fonts out of a subtitle: each font that it carries is asked
//! what it stands for, and names and drawings are put back.
use vstd::prelude::*;
use vstd::slice::slice_to_vec;

use crate::ass::draw::{DrawEntryView, DrawRestoreEntry};
use crate::ass::encoding::{
    decode_subtitle, decoded, encode_subtitle, encoded, law_decode_encode, mark_of, BomKind,
    DecodeError,
};
use crate::ass::font_laws::{
    all_as_read, all_readable, drawings_tagged, law_kept_fonts_read_back, names_on_one_line,
};
use crate::ass::fonts::{
    blocks, comments_of, fonts_of, parse_embedded_fonts, parse_font_subset_comments, section_text,
    AssEmbeddedFont, FontBlock,
};
use crate::ass::parse::{newline_of, parse_subtitle, parsed};
use crate::ass::rewrite::{rewrite_strip_embedded, stripped_file, StripPlan};
use crate::ass::style::{lookup_name, normalize_lookup_name};
use crate::digest::{base64_of, base64_text};
use crate::font_worker::{DrawTableEntry, EmbeddedFontMetadata};
use crate::line_laws::is_newline;
use crate::number::{decimal, decimal_chars};
use crate::processor::candidates::{embedded_family_name, family_of, law_family_of_embedded};
use crate::processor::subset_job::{copy_texts, is_draw_font, status_of, status_text, JobOutcome, ProcessStats};
use crate::models::FontSlot;
use crate::strmap::{law_lookup_put, lemma_place, lookup, place, put, StrMap};
use crate::text::{is_white, push_all, push_text, same_text, starts_with, texts, to_chars, to_text};

verus! {

/// What was learned of a font that a subtitle carries.
pub enum FontReport {
    /// What the font says of itself.
    Known(EmbeddedFontMetadata),
    /// Why the font could not be read.
    Unknown(String),
}

/// A restoration under way.
pub struct StripJob {
    text: String,
    bom: BomKind,
    newline: String,
    drawing_count: usize,
    fonts: Vec<AssEmbeddedFont>,
    comments: StrMap<String>,
    next: usize,
    names: StrMap<String>,
    drawings: StrMap<DrawRestoreEntry>,
    kept: Vec<AssEmbeddedFont>,
    removed: usize,
    warnings: Vec<String>,
}

#[verifier::ext_equal]
pub struct StripView {
    pub text: Seq<char>,
    pub bom: BomKind,
    pub newline: Seq<char>,
    pub drawing_count: int,
    pub fonts: Seq<FontBlock>,
    /// The original names that the comments give.
    pub comments: Seq<(Seq<char>, Seq<char>)>,
    /// How many fonts have been handled.
    pub next: int,
    /// The original names by the subset's lookup name.
    pub names: Seq<(Seq<char>, Seq<char>)>,
    pub drawings: Seq<(Seq<char>, DrawEntryView)>,
    pub kept: Seq<FontBlock>,
    pub removed: int,
    pub warnings: Seq<Seq<char>>,
}

impl View for StripJob {
    type V = StripView;

    closed spec fn view(&self) -> StripView {
        StripView {
            text: self.text@,
            bom: self.bom,
            newline: self.newline@,
            drawing_count: self.drawing_count as int,
            fonts: blocks(self.fonts@),
            comments: self.comments@,
            next: self.next as int,
            names: self.names@,
            drawings: self.drawings@,
            kept: blocks(self.kept@),
            removed: self.removed as int,
            warnings: texts(self.warnings@),
        }
    }
}

/// The state at the start.
pub open spec fn strip_start(s: Seq<char>, bom: BomKind) -> StripView {
    StripView {
        text: s,
        bom,
        newline: newline_of(s),
        drawing_count: parsed(s).drawings,
        fonts: fonts_of(s),
        comments: comments_of(s),
        next: 0,
        names: comments_of(s),
        drawings: seq![],
        kept: seq![],
        removed: 0,
        warnings: seq![],
    }
}

/// A state that has been reached.
pub open spec fn strip_ok(v: StripView) -> bool {
    &&& 0 <= v.next <= v.fonts.len()
    &&& 0 <= v.removed
    &&& v.removed + v.kept.len() == v.next
}

/// Whether the name of a font alone says that it is a subset.
pub open spec fn named_subset(v: StripView, font: FontBlock) -> bool {
    let key = lookup_name(family_of(font.fontname));
    lookup(v.comments, key) is Some || starts_with(key, "assdrawsubset"@)
}

/// The drawings once the first `n` entries are in.
pub open spec fn with_drawings(
    m: Seq<(Seq<char>, DrawEntryView)>,
    v: Seq<DrawTableEntry>,
    n: int,
) -> Seq<(Seq<char>, DrawEntryView)>
    decreases n,
{
    if n <= 0 {
        m
    } else {
        put(
            with_drawings(m, v, n - 1),
            v[n - 1].ch@,
            DrawEntryView { data: v[n - 1].data@, ch: v[n - 1].ch@, flags: v[n - 1].flags },
        )
    }
}

/// Whether what a font says of itself makes it a subset.
pub open spec fn tells_subset(r: FontReport) -> bool {
    match r {
        FontReport::Known(m) => m.font_subset_map is Some || m.draw_entries@.len() > 0,
        FontReport::Unknown(_) => false,
    }
}

pub open spec fn names_with(
    m: Seq<(Seq<char>, Seq<char>)>,
    r: FontReport,
) -> Seq<(Seq<char>, Seq<char>)> {
    match r {
        FontReport::Known(meta) => match meta.font_subset_map {
            Some(map) => put(m, lookup_name(map.subset@), map.original@),
            None => m,
        },
        FontReport::Unknown(_) => m,
    }
}

/// The state after the next font: a subset goes, every other font is kept.
pub open spec fn strip_step(v: StripView, r: FontReport) -> StripView {
    let font = v.fonts[v.next];
    let goes = named_subset(v, font) || tells_subset(r);
    StripView {
        next: v.next + 1,
        names: names_with(v.names, r),
        drawings: match r {
            FontReport::Known(meta) => with_drawings(
                v.drawings,
                meta.draw_entries@,
                meta.draw_entries@.len() as int,
            ),
            FontReport::Unknown(_) => v.drawings,
        },
        warnings: match r {
            FontReport::Known(_) => v.warnings,
            FontReport::Unknown(why) => v.warnings.push(
                "kept "@ + font.fontname + ": "@ + why@,
            ),
        },
        removed: if goes {
            v.removed + 1
        } else {
            v.removed
        },
        kept: if goes {
            v.kept
        } else {
            v.kept.push(font)
        },
        ..v
    }
}

fn copy_font(f: &AssEmbeddedFont) -> (r: AssEmbeddedFont)
    ensures
        r@ == f@,
{
    AssEmbeddedFont { fontname: f.fontname.clone(), data: slice_to_vec(f.data.as_slice()) }
}

impl StripJob {
    /// Reads a subtitle to be restored.
    pub fn start(bytes: &[u8]) -> (r: Result<StripJob, DecodeError>)
        ensures
            match r {
                Ok(job) => {
                    &&& decoded(bytes@) == Ok::<Seq<char>, DecodeError>(job@.text)
                    &&& job@ == strip_start(job@.text, mark_of(bytes@))
                    &&& strip_ok(job@)
                },
                Err(e) => decoded(bytes@) == Err::<Seq<char>, DecodeError>(e),
            },
    {
        let d = match decode_subtitle(bytes) {
            Ok(d) => d,
            Err(e) => {
                return Err(e);
            },
        };
        let p = parse_subtitle(d.text.as_str());
        let fonts = parse_embedded_fonts(d.text.as_str());
        let comments = parse_font_subset_comments(d.text.as_str());
        let names = parse_font_subset_comments(d.text.as_str());
        let job = StripJob {
            text: d.text,
            bom: d.bom,
            newline: p.newline,
            drawing_count: p.drawing_count,
            fonts,
            comments,
            next: 0,
            names,
            drawings: StrMap::new(),
            kept: Vec::new(),
            removed: 0,
            warnings: Vec::new(),
        };
        assert(job@ =~= strip_start(job@.text, mark_of(bytes@)));
        Ok(job)
    }

    /// The next font to ask, in Base64, if there is one.
    pub fn next_font(&self) -> (r: Option<String>)
        requires
            strip_ok(self@),
        ensures
            match r {
                Some(s) => self@.next < self@.fonts.len() && s@ == base64_text(
                    self@.fonts[self@.next].data,
                ),
                None => self@.next == self@.fonts.len(),
            },
    {
        if self.next < self.fonts.len() {
            assert(self@.fonts[self@.next] == self.fonts@[self.next as int]@);
            Some(base64_of(self.fonts[self.next].data.as_slice()))
        } else {
            None
        }
    }

    fn add_drawings(&mut self, entries: &Vec<DrawTableEntry>)
        ensures
            final(self)@ == (StripView {
                drawings: with_drawings(
                    old(self)@.drawings,
                    entries@,
                    entries@.len() as int,
                ),
                ..old(self)@
            }),
    {
        let ghost before = self@;
        let mut i: usize = 0;
        while i < entries.len()
            invariant
                i <= entries@.len(),
                self@ == (StripView {
                    drawings: with_drawings(before.drawings, entries@, i as int),
                    ..before
                }),
            decreases entries@.len() - i,
        {
            let e = &entries[i];
            self.drawings.insert(
                e.ch.clone(),
                DrawRestoreEntry { data: e.data.clone(), ch: e.ch.clone(), flags: e.flags },
            );
            i = i + 1;
        }
    }

    /// Takes what was learned of the next font.
    pub fn report(&mut self, report: FontReport)
        requires
            strip_ok(old(self)@),
            old(self)@.next < old(self)@.fonts.len(),
        ensures
            strip_ok(final(self)@),
            final(self)@ == strip_step(old(self)@, report),
    {
        let ghost before = self@;
        let at = self.next;
        let n = self.fonts.len();
        let font = copy_font(&self.fonts[at]);
        assert(before.fonts[before.next] == font@);
        let family = embedded_family_name(font.fontname.as_str());
        let key = normalize_lookup_name(family.as_str());
        let mut goes = self.comments.contains_key(key.as_str()) || is_draw_font(family.as_str());
        match &report {
            FontReport::Known(meta) => {
                if let Some(map) = &meta.font_subset_map {
                    let k = normalize_lookup_name(map.subset.as_str());
                    self.names.insert(k, map.original.clone());
                    goes = true;
                }
                if meta.draw_entries.len() > 0 {
                    goes = true;
                }
                self.add_drawings(&meta.draw_entries);
            },
            FontReport::Unknown(why) => {
                let mut w: Vec<char> = to_chars("kept ");
                push_text(&mut w, font.fontname.as_str());
                push_text(&mut w, ": ");
                push_text(&mut w, why.as_str());
                let ghost had = texts(self.warnings@);
                let ghost wv = w@;
                self.warnings.push(to_text(w.as_slice()));
                assert(texts(self.warnings@) =~= had.push(wv));
            },
        }
        if goes {
            self.removed = self.removed + 1;
        } else {
            let ghost had = blocks(self.kept@);
            let ghost fv = font@;
            self.kept.push(font);
            assert(blocks(self.kept@) =~= had.push(fv));
        }
        self.next = self.next + 1;
    }
}

// ---------------------------------------------------------------------------
// The outcome
// ---------------------------------------------------------------------------
/// The text that a restoration writes.
pub open spec fn strip_text(v: StripView) -> Seq<char> {
    stripped_file(
        v.text,
        v.newline,
        StripPlan {
            names: v.names,
            fonts: section_text(v.kept, v.newline),
            drawings: v.drawings,
        },
    )
}

/// The bytes that a restoration leaves.
pub open spec fn strip_output(v: StripView, bytes: Seq<u8>) -> Seq<u8> {
    if strip_text(v) == v.text {
        bytes
    } else {
        encoded(strip_text(v), v.bom)
    }
}

/// What a restoration says of itself.
pub open spec fn strip_message(removed: int, names: int, warnings: int) -> Seq<char> {
    if warnings == 0 {
        "清理完成：移除 "@ + decimal(removed as nat) + " 个字体，还原 "@ + decimal(names as nat)
            + " 个名称"@
    } else {
        "部分完成：移除 "@ + decimal(removed as nat) + " 个字体，保留 "@ + decimal(warnings as nat)
            + " 个需检查字体"@
    }
}

fn strip_message_of(removed: usize, names: usize, warnings: usize) -> (r: String)
    ensures
        r@ == strip_message(removed as int, names as int, warnings as int),
{
    let a = decimal_chars(removed as u64);
    let mut out: Vec<char> = Vec::new();
    if warnings == 0 {
        let b = decimal_chars(names as u64);
        push_text(&mut out, "清理完成：移除 ");
        push_all(&mut out, a.as_slice());
        push_text(&mut out, " 个字体，还原 ");
        push_all(&mut out, b.as_slice());
        push_text(&mut out, " 个名称");
    } else {
        let b = decimal_chars(warnings as u64);
        push_text(&mut out, "部分完成：移除 ");
        push_all(&mut out, a.as_slice());
        push_text(&mut out, " 个字体，保留 ");
        push_all(&mut out, b.as_slice());
        push_text(&mut out, " 个需检查字体");
    }
    assert(out@ =~= strip_message(removed as int, names as int, warnings as int));
    to_text(out.as_slice())
}

impl StripJob {
    /// Writes the subtitle, once every font has been handled.
    pub fn finish(&self, bytes: &[u8]) -> (r: JobOutcome)
        ensures
            r.changed == (strip_text(self@) != self@.text),
            r.output@ == strip_output(self@, bytes@),
            r.status@ == status_text(self@.warnings.len() == 0),
            r.message@ == strip_message(
                self@.removed,
                self@.names.len() as int,
                self@.warnings.len() as int,
            ),
            texts(r.problems@) == self@.warnings,
            r.stats.embedded_count == self@.fonts.len(),
            r.stats.missing_count == self@.warnings.len(),
            r.stats.drawing_count == self@.drawing_count,
            r.stats.embedded_removed_count == self@.removed,
            r.stats.random_names_restored == self@.names.len(),
            r.stats.drawings_restored == self@.drawings.len(),
            r.stats.draw_fonts_created == 0,
            r.stats.original_size == bytes@.len(),
            r.stats.output_size == strip_output(self@, bytes@).len(),
    {
        let written = rewrite_strip_embedded(
            self.text.as_str(),
            self.newline.as_str(),
            &self.names,
            self.kept.as_slice(),
            &self.drawings,
        );
        let changed = !same_text(written.as_str(), self.text.as_str());
        let output = if changed {
            encode_subtitle(written.as_str(), &self.bom)
        } else {
            slice_to_vec(bytes)
        };
        let w = self.warnings.len();
        let stats = ProcessStats {
            embedded_count: self.fonts.len(),
            missing_count: w,
            drawing_count: self.drawing_count,
            embedded_removed_count: self.removed,
            random_names_restored: self.names.len(),
            drawings_restored: self.drawings.len(),
            draw_fonts_created: 0,
            original_size: bytes.len() as u64,
            output_size: output.len() as u64,
        };
        JobOutcome {
            changed,
            output,
            status: status_of(w == 0),
            message: strip_message_of(self.removed, self.names.len(), w),
            problems: copy_texts(&self.warnings),
            stats,
        }
    }
}

// ---------------------------------------------------------------------------
// Laws
// ---------------------------------------------------------------------------
/// Every font is either taken out or kept.
pub proof fn law_removed_or_kept(v: StripView, r: FontReport)
    requires
        strip_ok(v),
        v.next < v.fonts.len(),
    ensures
        strip_ok(strip_step(v, r)),
        strip_step(v, r).fonts == v.fonts,
{
}

/// A font that could not be read stays where its name does not say that it is a
/// subset.
pub proof fn law_unreadable_fonts_stay(v: StripView, why: String)
    requires
        strip_ok(v),
        v.next < v.fonts.len(),
        !named_subset(v, v.fonts[v.next]),
    ensures
        strip_step(v, FontReport::Unknown(why)).kept == v.kept.push(v.fonts[v.next]),
{
}

/// A font that says of itself what it is a subset of, or which drawings it holds,
/// is taken out; one that says neither stays, unless its name tells.
pub proof fn law_subsets_taken_out(v: StripView, meta: EmbeddedFontMetadata)
    requires
        strip_ok(v),
        v.next < v.fonts.len(),
    ensures
        meta.font_subset_map is Some || meta.draw_entries@.len() > 0 ==> {
            &&& strip_step(v, FontReport::Known(meta)).kept == v.kept
            &&& strip_step(v, FontReport::Known(meta)).removed == v.removed + 1
        },
        meta.font_subset_map is None && meta.draw_entries@.len() == 0 && !named_subset(
            v,
            v.fonts[v.next],
        ) ==> {
            &&& strip_step(v, FontReport::Known(meta)).kept == v.kept.push(v.fonts[v.next])
            &&& strip_step(v, FontReport::Known(meta)).removed == v.removed
        },
        strip_step(v, FontReport::Known(meta)).warnings == v.warnings,
{
}

/// A font that goes by the name under which a subset was embedded is taken out
/// where a comment knows that name, whatever the font says of itself.
pub proof fn law_commented_subsets_taken_out(
    v: StripView,
    name: Seq<char>,
    slot: FontSlot,
    r: FontReport,
)
    requires
        strip_ok(v),
        v.next < v.fonts.len(),
        v.fonts[v.next].fontname == name + slot.suffix_text(),
        name.len() > 0,
        !is_white(name[0]),
        lookup(v.comments, lookup_name(name)) is Some,
    ensures
        strip_step(v, r).kept == v.kept,
        strip_step(v, r).removed == v.removed + 1,
{
    law_family_of_embedded(name, slot);
}

/// After a font has told its original name, that name is found under the name of
/// the subset, and every other name is found as before.
pub proof fn law_told_names_found(v: StripView, meta: EmbeddedFontMetadata, other: Seq<char>)
    ensures
        meta.font_subset_map matches Some(map) ==> {
            let names = strip_step(v, FontReport::Known(meta)).names;
            &&& lookup(names, lookup_name(map.subset@)) == Some(map.original@)
            &&& other != lookup_name(map.subset@) ==> lookup(names, other) == lookup(v.names, other)
        },
        meta.font_subset_map is None ==> strip_step(v, FontReport::Known(meta)).names == v.names,
{
    if let Some(map) = meta.font_subset_map {
        law_lookup_put(v.names, lookup_name(map.subset@), map.original@, lookup_name(map.subset@));
        law_lookup_put(v.names, lookup_name(map.subset@), map.original@, other);
    }
}

/// After a font has told its drawings, each of its characters stands for the
/// drawing of the last entry with that character, and every character of no
/// entry stands for what it stood for before.
pub proof fn law_told_drawings_found(v: StripView, meta: EmbeddedFontMetadata, ch: Seq<char>)
    ensures
        forall|i: int|
            #![trigger meta.draw_entries@[i]]
            0 <= i < meta.draw_entries@.len() && meta.draw_entries@[i].ch@ == ch && (forall|j: int|
                i < j < meta.draw_entries@.len() ==> (#[trigger] meta.draw_entries@[j]).ch@ != ch)
                ==> {
                &&& lookup(strip_step(v, FontReport::Known(meta)).drawings, ch) matches Some(e)
                &&& e.data == meta.draw_entries@[i].data@
                &&& e.ch == ch
                &&& e.flags == meta.draw_entries@[i].flags
            },
        (forall|i: int|
            0 <= i < meta.draw_entries@.len() ==> (#[trigger] meta.draw_entries@[i]).ch@ != ch)
            ==> lookup(strip_step(v, FontReport::Known(meta)).drawings, ch) == lookup(
            v.drawings,
            ch,
        ),
{
    let es = meta.draw_entries@;
    let n = es.len() as int;
    if forall|i: int| 0 <= i < n ==> (#[trigger] es[i]).ch@ != ch {
        lemma_drawings_kept(v.drawings, es, 0, n, ch);
    }
    assert forall|i: int|
        #![trigger es[i]]
        0 <= i < n && es[i].ch@ == ch && (forall|j: int| i < j < n ==> (#[trigger] es[j]).ch@ != ch)
        implies lookup(with_drawings(v.drawings, es, n), ch) == Some(
        DrawEntryView { data: es[i].data@, ch, flags: es[i].flags },
    ) by {
        lemma_drawings_kept(v.drawings, es, i + 1, n, ch);
        law_lookup_put(
            with_drawings(v.drawings, es, i),
            ch,
            DrawEntryView { data: es[i].data@, ch, flags: es[i].flags },
            ch,
        );
    }
}

/// Fonts that hold different drawings under different characters bring every one
/// of them back.
pub proof fn law_all_drawings_found(v: StripView, meta: EmbeddedFontMetadata, i: int)
    requires
        0 <= i < meta.draw_entries@.len(),
        forall|a: int, b: int|
            0 <= a < b < meta.draw_entries@.len() ==> (#[trigger] meta.draw_entries@[a]).ch@ != (
            #[trigger] meta.draw_entries@[b]).ch@,
    ensures
        lookup(
            strip_step(v, FontReport::Known(meta)).drawings,
            meta.draw_entries@[i].ch@,
        ) matches Some(e) && e.data == meta.draw_entries@[i].data@ && e.flags
            == meta.draw_entries@[i].flags,
        v.drawings.len() == 0 ==> strip_step(v, FontReport::Known(meta)).drawings.len()
            == meta.draw_entries@.len(),
{
    law_told_drawings_found(v, meta, meta.draw_entries@[i].ch@);
    if v.drawings.len() == 0 {
        lemma_drawings_counted(v.drawings, meta.draw_entries@, meta.draw_entries@.len() as int);
    }
}

/// Entries with other characters change nothing about a character.
proof fn lemma_drawings_kept(
    m: Seq<(Seq<char>, DrawEntryView)>,
    v: Seq<DrawTableEntry>,
    k: int,
    n: int,
    ch: Seq<char>,
)
    requires
        0 <= k <= n,
        forall|i: int| k <= i < n ==> (#[trigger] v[i]).ch@ != ch,
    ensures
        lookup(with_drawings(m, v, n), ch) == lookup(with_drawings(m, v, k), ch),
    decreases n - k,
{
    if k < n {
        lemma_drawings_kept(m, v, k, n - 1, ch);
        law_lookup_put(
            with_drawings(m, v, n - 1),
            v[n - 1].ch@,
            DrawEntryView { data: v[n - 1].data@, ch: v[n - 1].ch@, flags: v[n - 1].flags },
            ch,
        );
    }
}

/// The characters of the first entries, one after the other.
proof fn lemma_drawings_counted(
    m: Seq<(Seq<char>, DrawEntryView)>,
    v: Seq<DrawTableEntry>,
    n: int,
)
    requires
        m.len() == 0,
        0 <= n <= v.len(),
        forall|a: int, b: int|
            0 <= a < b < v.len() ==> (#[trigger] v[a]).ch@ != (#[trigger] v[b]).ch@,
    ensures
        with_drawings(m, v, n).len() == n,
        forall|i: int| 0 <= i < n ==> (#[trigger] with_drawings(m, v, n)[i]).0 == v[i].ch@,
    decreases n,
{
    if n > 0 {
        lemma_drawings_counted(m, v, n - 1);
        let had = with_drawings(m, v, n - 1);
        lemma_place(had, v[n - 1].ch@, 0);
        let p = place(had, v[n - 1].ch@);
        if p < had.len() {
            assert(had[p].0 == v[p].ch@);
        }
    }
}

/// A font that could not be read is named among the problems, with the reason, and
/// neither names nor drawings are learned from it.
pub proof fn law_unreadable_reported(v: StripView, why: String)
    requires
        strip_ok(v),
        v.next < v.fonts.len(),
    ensures
        strip_step(v, FontReport::Unknown(why)).warnings == v.warnings.push(
            "kept "@ + v.fonts[v.next].fontname + ": "@ + why@,
        ),
        strip_step(v, FontReport::Unknown(why)).names == v.names,
        strip_step(v, FontReport::Unknown(why)).drawings == v.drawings,
{
}

/// The file that a restoration writes carries the fonts that were kept.
pub proof fn law_written_kept_fonts(v: StripView, bytes: Seq<u8>)
    requires
        is_newline(v.newline),
        names_on_one_line(v.names),
        drawings_tagged(v.drawings),
        all_readable(v.kept),
        v.bom == BomKind::Absent && strip_text(v).len() > 0 ==> strip_text(v)[0] != '\u{FEFF}',
        decoded(bytes) == Ok::<Seq<char>, DecodeError>(v.text),
        mark_of(bytes) == v.bom,
    ensures
        decoded(strip_output(v, bytes)) == Ok::<Seq<char>, DecodeError>(strip_text(v)),
        mark_of(strip_output(v, bytes)) == v.bom,
        fonts_of(strip_text(v)) == all_as_read(v.kept),
{
    law_decode_encode(strip_text(v), v.bom);
    law_kept_fonts_read_back(v.text, v.newline, v.names, v.kept, v.drawings);
}

/// A restoration starts with every font that the text carries and with the names
/// that its comments tell, and with nothing taken out.
pub proof fn law_restoration_starts(s: Seq<char>, bom: BomKind)
    ensures
        ({
            let job = strip_start(s, bom);
            &&& job.text == s && job.bom == bom
            &&& job.fonts == fonts_of(s)
            &&& job.comments == comments_of(s) && job.names == comments_of(s)
            &&& job.next == 0 && job.removed == 0
            &&& job.drawings.len() == 0 && job.kept.len() == 0 && job.warnings.len() == 0
        }),
{
}

/// A restoration tells how many fonts it took out and how many names it put back,
/// or how many fonts it kept because they have to be looked at.
pub proof fn law_restoration_told(removed: nat, names: nat, warnings: nat)
    requires
        warnings > 0,
    ensures
        strip_message(removed as int, names as int, 0) == "清理完成：移除 "@ + decimal(removed)
            + " 个字体，还原 "@ + decimal(names) + " 个名称"@,
        strip_message(removed as int, names as int, warnings as int) == "部分完成：移除 "@ + decimal(
            removed,
        ) + " 个字体，保留 "@ + decimal(warnings) + " 个需检查字体"@,
{
}

} // verus!
