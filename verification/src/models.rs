//! The values that the parts of the service hand to each other.
use vstd::prelude::*;

use crate::text::same_text;

verus! {

/// One face of a font file.
#[derive(Clone, Debug)]
pub struct FontFaceInfo {
    pub ttc_index: i32,
    pub family: Option<String>,
    pub full_name: Option<String>,
    pub postscript_name: Option<String>,
    pub subfamily: Option<String>,
    pub version: Option<String>,
    pub weight: i32,
    pub italic: bool,
    pub names: Vec<FontNameInfo>,
}

/// A name of a face, and which name it is.
#[derive(Clone, Debug)]
pub struct FontNameInfo {
    pub name: String,
    pub kind: String,
}

/// An indexed face that may stand for a font of a subtitle.
#[derive(Clone, Debug)]
pub struct FontCandidate {
    pub file_id: i64,
    pub path: String,
    pub full_hash: String,
    pub ttc_index: i32,
    pub weight: i32,
    pub italic: bool,
}

/// The face of a family that a run of text asks for.
#[derive(Clone, Copy, Debug, PartialEq, Eq, Hash, Structural)]
pub enum FontSlot {
    Normal,
    Bold,
    Italic,
    BoldItalic,
}

impl FontSlot {
    /// What the name of an embedded font ends with.
    pub open spec fn suffix_text(self) -> Seq<char> {
        match self {
            FontSlot::Normal => "_0.ttf"@,
            FontSlot::Bold => "_B0.ttf"@,
            FontSlot::Italic => "_I0.ttf"@,
            FontSlot::BoldItalic => "_BI0.ttf"@,
        }
    }

    pub open spec fn name_text(self) -> Seq<char> {
        match self {
            FontSlot::Normal => "normal"@,
            FontSlot::Bold => "bold"@,
            FontSlot::Italic => "italic"@,
            FontSlot::BoldItalic => "boldItalic"@,
        }
    }

    pub open spec fn is_bold(self) -> bool {
        self is Bold || self is BoldItalic
    }

    pub open spec fn is_italic(self) -> bool {
        self is Italic || self is BoldItalic
    }

    pub open spec fn target_weight(self) -> int {
        if self.is_bold() {
            700
        } else {
            400
        }
    }

    pub fn suffix(self) -> (r: &'static str)
        ensures
            r@ == self.suffix_text(),
    {
        match self {
            FontSlot::Normal => "_0.ttf",
            FontSlot::Bold => "_B0.ttf",
            FontSlot::Italic => "_I0.ttf",
            FontSlot::BoldItalic => "_BI0.ttf",
        }
    }

    /// The weight and the slant that the slot asks for.
    pub fn target(self) -> (r: (i32, bool))
        ensures
            r.0 == self.target_weight(),
            r.1 == self.is_italic(),
    {
        match self {
            FontSlot::Normal => (400, false),
            FontSlot::Bold => (700, false),
            FontSlot::Italic => (400, true),
            FontSlot::BoldItalic => (700, true),
        }
    }

    pub fn as_str(self) -> (r: &'static str)
        ensures
            r@ == self.name_text(),
    {
        match self {
            FontSlot::Normal => "normal",
            FontSlot::Bold => "bold",
            FontSlot::Italic => "italic",
            FontSlot::BoldItalic => "boldItalic",
        }
    }
}

/// A font to be written into a subtitle.
#[derive(Clone, Debug)]
pub struct EmbeddedFont {
    pub original_name: String,
    pub embedded_name: String,
    pub slot: FontSlot,
    pub data: Vec<u8>,
}

#[verifier::ext_equal]
pub struct EmbeddedFontView {
    pub original_name: Seq<char>,
    pub embedded_name: Seq<char>,
    pub slot: FontSlot,
    pub data: Seq<u8>,
}

impl View for EmbeddedFont {
    type V = EmbeddedFontView;

    open spec fn view(&self) -> EmbeddedFontView {
        EmbeddedFontView {
            original_name: self.original_name@,
            embedded_name: self.embedded_name@,
            slot: self.slot,
            data: self.data@,
        }
    }
}

pub open spec fn embedded_views(v: Seq<EmbeddedFont>) -> Seq<EmbeddedFontView> {
    Seq::new(v.len(), |i: int| v[i]@)
}

/// What a job does with a subtitle.
#[derive(Clone, Copy, Debug, PartialEq, Eq, Structural)]
pub enum JobMode {
    Subset,
    StripEmbedded,
}

impl JobMode {
    pub open spec fn text(self) -> Seq<char> {
        match self {
            JobMode::Subset => "subset"@,
            JobMode::StripEmbedded => "strip_embedded"@,
        }
    }

    /// The mode that a stored text names; every text but one names `Subset`.
    pub open spec fn of_text(s: Seq<char>) -> JobMode {
        if s == "strip_embedded"@ {
            JobMode::StripEmbedded
        } else {
            JobMode::Subset
        }
    }

    pub fn as_str(self) -> (r: &'static str)
        ensures
            r@ == self.text(),
    {
        match self {
            JobMode::Subset => "subset",
            JobMode::StripEmbedded => "strip_embedded",
        }
    }

    pub fn from_db(value: &str) -> (r: JobMode)
        ensures
            r == JobMode::of_text(value@),
    {
        if same_text(value, "strip_embedded") {
            JobMode::StripEmbedded
        } else {
            JobMode::Subset
        }
    }
}

/// A mode is read back as it was stored.
pub proof fn law_job_mode_round_trip(m: JobMode)
    ensures
        JobMode::of_text(m.text()) == m,
{
    reveal_strlit("subset");
    reveal_strlit("strip_embedded");
    assert("subset"@.len() != "strip_embedded"@.len());
}

/// Different slots give an embedded font different names.
pub proof fn law_suffixes_differ(a: FontSlot, b: FontSlot)
    requires
        a != b,
    ensures
        a.suffix_text() != b.suffix_text(),
{
    reveal_strlit("_0.ttf");
    reveal_strlit("_B0.ttf");
    reveal_strlit("_I0.ttf");
    reveal_strlit("_BI0.ttf");
    assert("_0.ttf"@.len() == 6 && "_B0.ttf"@.len() == 7 && "_I0.ttf"@.len() == 7
        && "_BI0.ttf"@.len() == 8);
    assert("_B0.ttf"@[1] == 'B' && "_I0.ttf"@[1] == 'I');
}

/// The slots as they are stored, as fonts end with them, and what they ask for.
pub proof fn law_slots_spelled()
    ensures
        FontSlot::Normal.name_text() == "normal"@,
        FontSlot::Bold.name_text() == "bold"@,
        FontSlot::Italic.name_text() == "italic"@,
        FontSlot::BoldItalic.name_text() == "boldItalic"@,
        FontSlot::Normal.target_weight() == 400 && !FontSlot::Normal.is_italic(),
        FontSlot::Bold.target_weight() == 700 && !FontSlot::Bold.is_italic(),
        FontSlot::Italic.target_weight() == 400 && FontSlot::Italic.is_italic(),
        FontSlot::BoldItalic.target_weight() == 700 && FontSlot::BoldItalic.is_italic(),
{
}

} // verus!
