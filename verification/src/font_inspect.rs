//! Reading the names and the style of the faces in a font file.
use vstd::prelude::*;
use vstd::slice::slice_subrange;

use crate::models::{FontFaceInfo, FontNameInfo};
use crate::number::{decimal, decimal_chars};
use crate::text::{
    contains_text, has_part, lower_chars, lowered, push_all, same_text, to_chars, to_text, trim,
    trim_chars,
};
use crate::utf16::{decode_units, units_text, words, words_of};

verus! {

/// Why a file is no readable font.
#[derive(Clone, Copy, Debug, PartialEq, Eq, Structural)]
pub enum InspectError {
    OffsetOverflow,
    OutOfBounds,
    BadFaceCount(u32),
    UnknownVersion,
    BadTableCount(u16),
    NoNameTable,
    NoNames,
    BadNameLength(u32),
    BadNameFormat(u16),
    CorruptNames,
}

impl InspectError {
    pub open spec fn text(self) -> Seq<char> {
        match self {
            InspectError::OffsetOverflow => "font table offset overflow"@,
            InspectError::OutOfBounds => "font table out of bounds"@,
            InspectError::BadFaceCount(n) => "invalid TTC face count: "@ + decimal(n as nat),
            InspectError::UnknownVersion => "unrecognized sfnt version"@,
            InspectError::BadTableCount(n) => "invalid sfnt table count: "@ + decimal(n as nat),
            InspectError::NoNameTable => "font has no name table"@,
            InspectError::NoNames => "font has no usable name records"@,
            InspectError::BadNameLength(n) => "invalid name table length: "@ + decimal(n as nat),
            InspectError::BadNameFormat(n) => "unsupported name table format: "@ + decimal(
                n as nat,
            ),
            InspectError::CorruptNames => "corrupt name table"@,
        }
    }

    pub fn message(self) -> (r: String)
        ensures
            r@ == self.text(),
    {
        match self {
            InspectError::OffsetOverflow => "font table offset overflow".to_string(),
            InspectError::OutOfBounds => "font table out of bounds".to_string(),
            InspectError::BadFaceCount(n) => with_number("invalid TTC face count: ", n),
            InspectError::UnknownVersion => "unrecognized sfnt version".to_string(),
            InspectError::BadTableCount(n) => with_number("invalid sfnt table count: ", n as u32),
            InspectError::NoNameTable => "font has no name table".to_string(),
            InspectError::NoNames => "font has no usable name records".to_string(),
            InspectError::BadNameLength(n) => with_number("invalid name table length: ", n),
            InspectError::BadNameFormat(n) => with_number(
                "unsupported name table format: ",
                n as u32,
            ),
            InspectError::CorruptNames => "corrupt name table".to_string(),
        }
    }
}

fn with_number(text: &str, n: u32) -> (r: String)
    ensures
        r@ == text@ + decimal(n as nat),
{
    let mut out = to_chars(text);
    let d = decimal_chars(n as u64);
    push_all(&mut out, d.as_slice());
    to_text(out.as_slice())
}

// ---------------------------------------------------------------------------
// Numbers and slices
// ---------------------------------------------------------------------------
/// A big-endian 16-bit number.
pub open spec fn be16(b: Seq<u8>, i: int) -> int {
    256 * b[i] + b[i + 1]
}

/// A big-endian 32-bit number.
pub open spec fn be32(b: Seq<u8>, i: int) -> int {
    16777216 * b[i] + 65536 * b[i + 1] + 256 * b[i + 2] + b[i + 3]
}

pub fn be_u16(b: &[u8], i: usize) -> (r: u16)
    requires
        i + 2 <= b@.len(),
    ensures
        r == be16(b@, i as int),
{
    256u16 * (b[i] as u16) + b[i + 1] as u16
}

pub fn be_u32(b: &[u8], i: usize) -> (r: u32)
    requires
        i + 4 <= b@.len(),
    ensures
        r == be32(b@, i as int),
{
    16777216u32 * (b[i] as u32) + 65536u32 * (b[i + 1] as u32) + 256u32 * (b[i + 2] as u32) + b[i
        + 3] as u32
}

/// Part of the file, if it lies within the file.
pub open spec fn part(b: Seq<u8>, offset: int, len: int) -> Result<Seq<u8>, InspectError> {
    if offset + len > usize::MAX {
        Err(InspectError::OffsetOverflow)
    } else if offset + len > b.len() {
        Err(InspectError::OutOfBounds)
    } else {
        Ok(b.subrange(offset, offset + len))
    }
}

pub open spec fn part_of(r: Result<&[u8], InspectError>) -> Result<Seq<u8>, InspectError> {
    match r {
        Ok(s) => Ok(s@),
        Err(e) => Err(e),
    }
}

pub fn slice_at<'a>(buf: &'a [u8], offset: usize, len: usize) -> (r: Result<&'a [u8], InspectError>)
    ensures
        part_of(r) == part(buf@, offset as int, len as int),
{
    if offset > usize::MAX - len {
        return Err(InspectError::OffsetOverflow);
    }
    if offset + len > buf.len() {
        return Err(InspectError::OutOfBounds);
    }
    Ok(slice_subrange(buf, offset, offset + len))
}

/// Whether four bytes are the tag.
pub open spec fn tag_at(b: Seq<u8>, i: int, tag: (u8, u8, u8, u8)) -> bool {
    b[i] == tag.0 && b[i + 1] == tag.1 && b[i + 2] == tag.2 && b[i + 3] == tag.3
}

fn has_tag(b: &[u8], i: usize, tag: (u8, u8, u8, u8)) -> (r: bool)
    requires
        i + 4 <= b@.len(),
    ensures
        r == tag_at(b@, i as int, tag),
{
    b[i] == tag.0 && b[i + 1] == tag.1 && b[i + 2] == tag.2 && b[i + 3] == tag.3
}

// ---------------------------------------------------------------------------
// Names
// ---------------------------------------------------------------------------
/// One record of the name table.
pub struct NameRecord {
    pub name_id: u16,
    pub platform_id: u16,
    pub lang_id: u16,
    pub value: String,
}

#[verifier::ext_equal]
pub struct NameView {
    pub name_id: u16,
    pub platform_id: u16,
    pub lang_id: u16,
    pub value: Seq<char>,
}

impl View for NameRecord {
    type V = NameView;

    open spec fn view(&self) -> NameView {
        NameView {
            name_id: self.name_id,
            platform_id: self.platform_id,
            lang_id: self.lang_id,
            value: self.value@,
        }
    }
}

pub open spec fn name_views(v: Seq<NameRecord>) -> Seq<NameView> {
    Seq::new(v.len(), |i: int| v[i]@)
}

/// The names that are of use.
pub open spec fn is_name_id(id: int) -> bool {
    id == 1 || id == 2 || id == 4 || id == 5 || id == 6 || id == 16 || id == 17 || id == 18 || id
        == 20 || id == 21 || id == 22 || id == 25
}

/// A byte of plain ASCII text.
pub open spec fn is_plain_byte(b: u8) -> bool {
    b == 0x09 || b == 0x0a || b == 0x0d || 0x20 <= b <= 0x7e
}

/// The text of a name: UTF-16 for the Unicode and Windows platforms, plain
/// ASCII for the others.
pub open spec fn name_text(platform_id: int, b: Seq<u8>) -> Option<Seq<char>> {
    if platform_id == 0 || platform_id == 3 {
        if b.len() % 2 != 0 {
            None
        } else {
            units_text(words(b, false))
        }
    } else if forall|i: int| 0 <= i < b.len() ==> is_plain_byte(#[trigger] b[i]) {
        Some(Seq::new(b.len(), |i: int| b[i] as char))
    } else {
        None
    }
}

pub fn decode_name(platform_id: u16, bytes: &[u8]) -> (r: Option<Vec<char>>)
    ensures
        crate::utf16::text_option(r) == name_text(platform_id as int, bytes@),
{
    if platform_id == 0 || platform_id == 3 {
        if bytes.len() % 2 != 0 {
            return None;
        }
        let w = words_of(bytes, false);
        return decode_units(w.as_slice());
    }
    let mut out: Vec<char> = Vec::new();
    let mut i: usize = 0;
    while i < bytes.len()
        invariant
            i <= bytes@.len(),
            platform_id != 0 && platform_id != 3,
            out@.len() == i,
            forall|j: int| 0 <= j < i ==> is_plain_byte(#[trigger] bytes@[j]),
            forall|j: int| 0 <= j < i ==> out@[j] == bytes@[j] as char,
        decreases bytes@.len() - i,
    {
        let b: u8 = bytes[i];
        if !(b == 0x09 || b == 0x0a || b == 0x0d || (0x20 <= b && b <= 0x7e)) {
            assert(!is_plain_byte(bytes@[i as int]));
            return None;
        }
        out.push(b as char);
        i = i + 1;
    }
    assert(out@ =~= Seq::new(bytes@.len(), |i: int| bytes@[i] as char));
    Some(out)
}

/// The `i`th record of a name table, if it is of use: a wanted name on a wanted
/// platform, within the table, with a text that is not empty.
pub open spec fn name_at(buf: Seq<u8>, i: int) -> Option<NameView> {
    let off = 6 + 12 * i;
    let platform = be16(buf, off);
    let id = be16(buf, off + 6);
    let start = be16(buf, 4) + be16(buf, off + 10);
    let end = start + be16(buf, off + 8);
    if (platform == 0 || platform == 3) && is_name_id(id) && end <= buf.len() {
        match name_text(platform, buf.subrange(start, end)) {
            Some(t) => if trim(t).len() > 0 {
                Some(
                    NameView {
                        name_id: id as u16,
                        platform_id: platform as u16,
                        lang_id: be16(buf, off + 4) as u16,
                        value: trim(t),
                    },
                )
            } else {
                None
            },
            None => None,
        }
    } else {
        None
    }
}

/// The useful records among the first `n`.
pub open spec fn names_upto(buf: Seq<u8>, n: int) -> Seq<NameView>
    decreases n,
{
    if n <= 0 {
        seq![]
    } else {
        match name_at(buf, n - 1) {
            Some(v) => names_upto(buf, n - 1).push(v),
            None => names_upto(buf, n - 1),
        }
    }
}

/// The useful records of a name table.
pub open spec fn name_table(data: Seq<u8>, offset: int, len: int) -> Result<
    Seq<NameView>,
    InspectError,
> {
    if len < 6 || len > 16777216 {
        Err(InspectError::BadNameLength(len as u32))
    } else {
        match part(data, offset, len) {
            Err(e) => Err(e),
            Ok(buf) => {
                let format = be16(buf, 0);
                let count = be16(buf, 2);
                if format > 1 {
                    Err(InspectError::BadNameFormat(format as u16))
                } else if 6 + count * 12 > buf.len() || be16(buf, 4) > buf.len() {
                    Err(InspectError::CorruptNames)
                } else {
                    Ok(names_upto(buf, count))
                }
            },
        }
    }
}

pub open spec fn names_result(r: Result<Vec<NameRecord>, InspectError>) -> Result<
    Seq<NameView>,
    InspectError,
> {
    match r {
        Ok(v) => Ok(name_views(v@)),
        Err(e) => Err(e),
    }
}

fn name_id_wanted(id: u16) -> (r: bool)
    ensures
        r == is_name_id(id as int),
{
    id == 1 || id == 2 || id == 4 || id == 5 || id == 6 || id == 16 || id == 17 || id == 18 || id
        == 20 || id == 21 || id == 22 || id == 25
}

fn read_name(buf: &[u8], i: usize) -> (r: Option<NameRecord>)
    requires
        6 + 12 * i + 12 <= buf@.len(),
    ensures
        match r {
            Some(v) => name_at(buf@, i as int) == Some(v@),
            None => name_at(buf@, i as int) is None,
        },
{
    let n = buf.len();
    let off: usize = 6 + 12 * i;
    let platform_id = be_u16(buf, off);
    let lang_id = be_u16(buf, off + 4);
    let name_id = be_u16(buf, off + 6);
    if !(platform_id == 0 || platform_id == 3) {
        return None;
    }
    if !name_id_wanted(name_id) {
        return None;
    }
    let length: usize = be_u16(buf, off + 8) as usize;
    let start: usize = be_u16(buf, 4) as usize + be_u16(buf, off + 10) as usize;
    let end: usize = start + length;
    if end > n {
        return None;
    }
    let raw = slice_subrange(buf, start, end);
    match decode_name(platform_id, raw) {
        Some(t) => {
            let v = trim_chars(t.as_slice());
            if v.len() == 0 {
                return None;
            }
            Some(NameRecord { name_id, platform_id, lang_id, value: to_text(v) })
        },
        None => None,
    }
}

/// Reads the useful records of a name table.
pub fn parse_name_table(data: &[u8], offset: u32, length: u32) -> (r: Result<
    Vec<NameRecord>,
    InspectError,
>)
    ensures
        names_result(r) == name_table(data@, offset as int, length as int),
{
    if length < 6 || length > 16777216 {
        return Err(InspectError::BadNameLength(length));
    }
    let buf = match slice_at(data, offset as usize, length as usize) {
        Ok(b) => b,
        Err(e) => {
            return Err(e);
        },
    };
    let format = be_u16(buf, 0);
    if format > 1 {
        return Err(InspectError::BadNameFormat(format));
    }
    let count: usize = be_u16(buf, 2) as usize;
    let strings: usize = be_u16(buf, 4) as usize;
    if 6 + count * 12 > buf.len() || strings > buf.len() {
        return Err(InspectError::CorruptNames);
    }
    let mut out: Vec<NameRecord> = Vec::new();
    let mut i: usize = 0;
    assert(name_views(out@) =~= seq![]);
    while i < count
        invariant
            i <= count,
            6 + count * 12 <= buf@.len(),
            name_views(out@) == names_upto(buf@, i as int),
        decreases count - i,
    {
        let ghost had = name_views(out@);
        if let Some(v) = read_name(buf, i) {
            let ghost nv = v@;
            out.push(v);
            assert(name_views(out@) =~= had.push(nv));
        }
        i = i + 1;
    }
    Ok(out)
}

/// A name in English or in no language.
pub open spec fn preferred(v: NameView) -> bool {
    (v.platform_id == 3 && (v.lang_id == 0x0409 || v.lang_id == 0)) || (v.platform_id == 0
        && v.lang_id == 0)
}

pub fn is_preferred_lang(record: &NameRecord) -> (r: bool)
    ensures
        r == preferred(record@),
{
    (record.platform_id == 3 && (record.lang_id == 0x0409 || record.lang_id == 0)) || (
    record.platform_id == 0 && record.lang_id == 0)
}

/// The first record from `i` on with the name, in a preferred language if that
/// is asked for.
pub open spec fn first_name(v: Seq<NameView>, id: u16, strict: bool, i: int) -> Option<Seq<char>>
    decreases v.len() - i,
{
    if !(0 <= i < v.len()) {
        None
    } else if v[i].name_id == id && (!strict || preferred(v[i])) {
        Some(v[i].value)
    } else {
        first_name(v, id, strict, i + 1)
    }
}

/// The best value of the names from the `k`th on: each is tried in a preferred
/// language and then in any.
pub open spec fn best_from(v: Seq<NameView>, ids: Seq<u16>, k: int) -> Option<Seq<char>>
    decreases ids.len() - k,
{
    if !(0 <= k < ids.len()) {
        None
    } else {
        match (first_name(v, ids[k], true, 0), first_name(v, ids[k], false, 0)) {
            (Some(t), _) => Some(t),
            (None, Some(t)) => Some(t),
            _ => best_from(v, ids, k + 1),
        }
    }
}

pub open spec fn best(v: Seq<NameView>, ids: Seq<u16>) -> Option<Seq<char>> {
    best_from(v, ids, 0)
}

pub open spec fn string_of(r: Option<String>) -> Option<Seq<char>> {
    match r {
        Some(s) => Some(s@),
        None => None,
    }
}

fn first_of(records: &Vec<NameRecord>, id: u16, strict: bool) -> (r: Option<String>)
    ensures
        string_of(r) == first_name(name_views(records@), id, strict, 0),
{
    let ghost v = name_views(records@);
    let mut i: usize = 0;
    while i < records.len()
        invariant
            i <= records@.len(),
            v == name_views(records@),
            first_name(v, id, strict, 0) == first_name(v, id, strict, i as int),
        decreases records@.len() - i,
    {
        assert(v[i as int] == records@[i as int]@);
        if records[i].name_id == id && (!strict || is_preferred_lang(&records[i])) {
            return Some(records[i].value.clone());
        }
        i = i + 1;
    }
    None
}

pub fn best_name(records: &Vec<NameRecord>, ids: &Vec<u16>) -> (r: Option<String>)
    ensures
        string_of(r) == best(name_views(records@), ids@),
{
    let ghost v = name_views(records@);
    let mut k: usize = 0;
    while k < ids.len()
        invariant
            k <= ids@.len(),
            v == name_views(records@),
            best(v, ids@) == best_from(v, ids@, k as int),
        decreases ids@.len() - k,
    {
        if let Some(t) = first_of(records, ids[k], true) {
            return Some(t);
        }
        if let Some(t) = first_of(records, ids[k], false) {
            return Some(t);
        }
        k = k + 1;
    }
    None
}

/// What a name is called in the index.
pub open spec fn kind_text(id: int) -> Option<Seq<char>> {
    if id == 1 {
        Some("family"@)
    } else if id == 4 {
        Some("full"@)
    } else if id == 6 {
        Some("postscript"@)
    } else if id == 16 {
        Some("typographic_family"@)
    } else if id == 18 {
        Some("compatible_full"@)
    } else if id == 20 {
        Some("postscript_cid"@)
    } else if id == 21 {
        Some("wws_family"@)
    } else if id == 25 {
        Some("variations_postscript_prefix"@)
    } else {
        None
    }
}

pub fn name_kind(id: u16) -> (r: Option<&'static str>)
    ensures
        match r {
            Some(s) => kind_text(id as int) == Some(s@),
            None => kind_text(id as int) is None,
        },
{
    if id == 1 {
        Some("family")
    } else if id == 4 {
        Some("full")
    } else if id == 6 {
        Some("postscript")
    } else if id == 16 {
        Some("typographic_family")
    } else if id == 18 {
        Some("compatible_full")
    } else if id == 20 {
        Some("postscript_cid")
    } else if id == 21 {
        Some("wws_family")
    } else if id == 25 {
        Some("variations_postscript_prefix")
    } else {
        None
    }
}

/// A name and its kind.
pub open spec fn info_views(v: Seq<FontNameInfo>) -> Seq<(Seq<char>, Seq<char>)> {
    Seq::new(v.len(), |i: int| (v[i].name@, v[i].kind@))
}

/// Whether a name of the kind is in the list, up to the case of ASCII letters.
pub open spec fn has_info(v: Seq<(Seq<char>, Seq<char>)>, name: Seq<char>, kind: Seq<char>) -> bool {
    exists|i: int|
        0 <= i < v.len() && lowered((#[trigger] v[i]).0) == lowered(name) && v[i].1 == kind
}

/// The names for the index among the first `n` records, each once.
pub open spec fn infos_upto(v: Seq<NameView>, n: int) -> Seq<(Seq<char>, Seq<char>)>
    decreases n,
{
    if n <= 0 {
        seq![]
    } else {
        let had = infos_upto(v, n - 1);
        match kind_text(v[n - 1].name_id as int) {
            Some(kind) => if has_info(had, v[n - 1].value, kind) {
                had
            } else {
                had.push((v[n - 1].value, kind))
            },
            None => had,
        }
    }
}

fn holds_info(v: &Vec<FontNameInfo>, name: &str, kind: &str) -> (r: bool)
    ensures
        r == has_info(info_views(v@), name@, kind@),
{
    let low = crate::text::lower_text(name);
    let ghost w = info_views(v@);
    let mut i: usize = 0;
    while i < v.len()
        invariant
            i <= v@.len(),
            w == info_views(v@),
            low@ == lowered(name@),
            forall|j: int|
                0 <= j < i ==> !(lowered((#[trigger] w[j]).0) == lowered(name@) && w[j].1 == kind@),
        decreases v@.len() - i,
    {
        let other = crate::text::lower_text(v[i].name.as_str());
        assert(w[i as int] == (v@[i as int].name@, v@[i as int].kind@));
        if same_text(other.as_str(), low.as_str()) && same_text(v[i].kind.as_str(), kind) {
            return true;
        }
        i = i + 1;
    }
    false
}

pub fn all_interesting_names(records: &Vec<NameRecord>) -> (r: Vec<FontNameInfo>)
    ensures
        info_views(r@) == infos_upto(name_views(records@), records@.len() as int),
{
    let ghost v = name_views(records@);
    let mut out: Vec<FontNameInfo> = Vec::new();
    let mut i: usize = 0;
    assert(info_views(out@) =~= seq![]);
    while i < records.len()
        invariant
            i <= records@.len(),
            v == name_views(records@),
            info_views(out@) == infos_upto(v, i as int),
        decreases records@.len() - i,
    {
        let record = &records[i];
        assert(v[i as int] == record@);
        let ghost had = info_views(out@);
        if let Some(kind) = name_kind(record.name_id) {
            if !holds_info(&out, record.value.as_str(), kind) {
                out.push(FontNameInfo { name: record.value.clone(), kind: kind.to_string() });
                assert(info_views(out@) =~= had.push((record.value@, kind@)));
            }
        }
        i = i + 1;
    }
    out
}

// ---------------------------------------------------------------------------
// Style
// ---------------------------------------------------------------------------
/// The weight that a subfamily name in lower case speaks of.
pub open spec fn named_weight(low: Seq<char>) -> int {
    if has_part(low, "thin"@) || has_part(low, "hairline"@) {
        100
    } else if has_part(low, "extra light"@) || has_part(low, "extralight"@) || has_part(
        low,
        "ultra light"@,
    ) || has_part(low, "ultralight"@) {
        200
    } else if has_part(low, "light"@) {
        300
    } else if has_part(low, "medium"@) {
        500
    } else if has_part(low, "semi bold"@) || has_part(low, "semibold"@) || has_part(
        low,
        "demi bold"@,
    ) || has_part(low, "demibold"@) {
        600
    } else if has_part(low, "extra bold"@) || has_part(low, "extrabold"@) || has_part(
        low,
        "ultra bold"@,
    ) || has_part(low, "ultrabold"@) {
        800
    } else if has_part(low, "black"@) || has_part(low, "heavy"@) {
        900
    } else if has_part(low, "bold"@) {
        700
    } else {
        400
    }
}

/// The weight of a face: only the default gives way to the name.
pub open spec fn inferred_weight(subfamily: Seq<char>, weight: int) -> int {
    if weight == 400 {
        named_weight(lowered(subfamily))
    } else {
        weight
    }
}

pub open spec fn inferred_italic(subfamily: Seq<char>, italic: bool) -> bool {
    italic || has_part(lowered(subfamily), "italic"@) || has_part(lowered(subfamily), "oblique"@)
}

pub fn infer_style_from_subfamily(subfamily: &str, weight: &mut i32, italic: &mut bool)
    ensures
        *final(weight) == inferred_weight(subfamily@, *old(weight) as int),
        *final(italic) == inferred_italic(subfamily@, *old(italic)),
{
    let c = to_chars(subfamily);
    let lowv = lower_chars(c.as_slice());
    let low = lowv.as_slice();
    if *weight == 400 {
        if contains_text(low, "thin") || contains_text(low, "hairline") {
            *weight = 100;
        } else if contains_text(low, "extra light") || contains_text(low, "extralight")
            || contains_text(low, "ultra light") || contains_text(low, "ultralight") {
            *weight = 200;
        } else if contains_text(low, "light") {
            *weight = 300;
        } else if contains_text(low, "medium") {
            *weight = 500;
        } else if contains_text(low, "semi bold") || contains_text(low, "semibold")
            || contains_text(low, "demi bold") || contains_text(low, "demibold") {
            *weight = 600;
        } else if contains_text(low, "extra bold") || contains_text(low, "extrabold")
            || contains_text(low, "ultra bold") || contains_text(low, "ultrabold") {
            *weight = 800;
        } else if contains_text(low, "black") || contains_text(low, "heavy") {
            *weight = 900;
        } else if contains_text(low, "bold") {
            *weight = 700;
        }
    }
    *italic = *italic || contains_text(low, "italic") || contains_text(low, "oblique");
}

// ---------------------------------------------------------------------------
// Faces
// ---------------------------------------------------------------------------
/// Where a table lies.
#[derive(Clone, Copy)]
pub struct TableRecord {
    pub offset: u32,
    pub length: u32,
}

/// The last table with the tag among the first `n`, as offset and length.
pub open spec fn table_upto(dir: Seq<u8>, n: int, tag: (u8, u8, u8, u8)) -> Option<(int, int)>
    decreases n,
{
    if n <= 0 {
        None
    } else if tag_at(dir, 16 * (n - 1), tag) {
        Some((be32(dir, 16 * (n - 1) + 8), be32(dir, 16 * (n - 1) + 12)))
    } else {
        table_upto(dir, n - 1, tag)
    }
}

pub open spec fn table_of(r: Option<TableRecord>) -> Option<(int, int)> {
    match r {
        Some(t) => Some((t.offset as int, t.length as int)),
        None => None,
    }
}

fn find_table(dir: &[u8], count: usize, tag: (u8, u8, u8, u8)) -> (r: Option<TableRecord>)
    requires
        16 * count == dir@.len(),
    ensures
        table_of(r) == table_upto(dir@, count as int, tag),
{
    let n = dir.len();
    let mut i: usize = count;
    while i > 0
        invariant
            i <= count,
            n == dir@.len(),
            16 * count == dir@.len(),
            table_upto(dir@, count as int, tag) == table_upto(dir@, i as int, tag),
        decreases i,
    {
        let off: usize = 16 * (i - 1);
        if has_tag(dir, off, tag) {
            return Some(
                TableRecord { offset: be_u32(dir, off + 8), length: be_u32(dir, off + 12) },
            );
        }
        i = i - 1;
    }
    None
}

/// The start of a table, or nothing where it does not lie within the file.
pub open spec fn table_start(data: Seq<u8>, t: Option<(int, int)>, max: int) -> Option<Seq<u8>> {
    match t {
        Some((offset, length)) => match part(
            data,
            offset,
            if length < max {
                length
            } else {
                max
            },
        ) {
            Ok(b) => Some(b),
            Err(_) => None,
        },
        None => None,
    }
}

pub fn read_table_prefix<'a>(data: &'a [u8], record: Option<TableRecord>, max_len: u32) -> (r:
    Option<&'a [u8]>)
    ensures
        match r {
            Some(b) => table_start(data@, table_of(record), max_len as int) == Some(b@),
            None => table_start(data@, table_of(record), max_len as int) is None,
        },
{
    match record {
        Some(t) => {
            let len: u32 = if t.length < max_len { t.length } else { max_len };
            match slice_at(data, t.offset as usize, len as usize) {
                Ok(b) => Some(b),
                Err(_) => None,
            }
        },
        None => None,
    }
}

/// The weight that the `OS/2` table gives.
pub open spec fn os2_weight(b: Option<Seq<u8>>) -> int {
    match b {
        Some(b) => if b.len() >= 6 {
            be16(b, 4)
        } else {
            400
        },
        None => 400,
    }
}

/// Whether the `OS/2` table says italic.
pub open spec fn os2_italic(b: Option<Seq<u8>>) -> bool {
    match b {
        Some(b) => b.len() >= 64 && be16(b, 62) % 2 == 1,
        None => false,
    }
}

/// Whether the `head` table says italic.
pub open spec fn head_italic(b: Option<Seq<u8>>) -> bool {
    match b {
        Some(b) => b.len() >= 46 && be16(b, 44) / 2 % 2 == 1,
        None => false,
    }
}

#[verifier::ext_equal]
pub struct FaceView {
    pub ttc_index: int,
    pub family: Option<Seq<char>>,
    pub full_name: Option<Seq<char>>,
    pub postscript_name: Option<Seq<char>>,
    pub subfamily: Option<Seq<char>>,
    pub version: Option<Seq<char>>,
    pub weight: int,
    pub italic: bool,
    pub names: Seq<(Seq<char>, Seq<char>)>,
}

impl View for FontFaceInfo {
    type V = FaceView;

    open spec fn view(&self) -> FaceView {
        FaceView {
            ttc_index: self.ttc_index as int,
            family: string_of(self.family),
            full_name: string_of(self.full_name),
            postscript_name: string_of(self.postscript_name),
            subfamily: string_of(self.subfamily),
            version: string_of(self.version),
            weight: self.weight as int,
            italic: self.italic,
            names: info_views(self.names@),
        }
    }
}

pub open spec fn face_views(v: Seq<FontFaceInfo>) -> Seq<FaceView> {
    Seq::new(v.len(), |i: int| v[i]@)
}

/// A face made of its names and the starts of its style tables.
pub open spec fn face_from(
    ttc_index: int,
    names: Seq<NameView>,
    os2: Option<Seq<u8>>,
    head: Option<Seq<u8>>,
) -> FaceView {
    let sub = match best(names, seq![17u16, 2]) {
        Some(s) => s,
        None => seq![],
    };
    FaceView {
        ttc_index,
        family: best(names, seq![16u16, 21, 1]),
        full_name: best(names, seq![4u16, 18]),
        postscript_name: best(names, seq![6u16, 20]),
        subfamily: if sub.len() == 0 {
            None
        } else {
            Some(sub)
        },
        version: best(names, seq![5u16]),
        weight: inferred_weight(sub, os2_weight(os2)),
        italic: inferred_italic(sub, os2_italic(os2) || head_italic(head)),
        names: infos_upto(names, names.len() as int),
    }
}

/// The first four bytes of a font: OpenType, TrueType or Type 1.
pub open spec fn sfnt_version(b: Seq<u8>) -> bool {
    ||| tag_at(b, 0, (79, 84, 84, 79))
    ||| tag_at(b, 0, (116, 114, 117, 101))
    ||| tag_at(b, 0, (116, 121, 112, 49))
    ||| tag_at(b, 0, (0, 1, 0, 0))
}

/// The face that starts at `base`.
pub open spec fn face_at(data: Seq<u8>, base: int, ttc_index: int) -> Result<FaceView, InspectError> {
    match part(data, base, 12) {
        Err(e) => Err(e),
        Ok(head) => {
            let count = be16(head, 4);
            if !sfnt_version(head) {
                Err(InspectError::UnknownVersion)
            } else if count == 0 || count > 4096 {
                Err(InspectError::BadTableCount(count as u16))
            } else {
                match part(data, base + 12, count * 16) {
                    Err(e) => Err(e),
                    Ok(dir) => match table_upto(dir, count, (110, 97, 109, 101)) {
                        None => Err(InspectError::NoNameTable),
                        Some((offset, length)) => match name_table(data, offset, length) {
                            Err(e) => Err(e),
                            Ok(names) => if names.len() == 0 {
                                Err(InspectError::NoNames)
                            } else {
                                Ok(
                                    face_from(
                                        ttc_index,
                                        names,
                                        table_start(
                                            data,
                                            table_upto(dir, count, (79, 83, 47, 50)),
                                            64,
                                        ),
                                        table_start(
                                            data,
                                            table_upto(dir, count, (104, 101, 97, 100)),
                                            46,
                                        ),
                                    ),
                                )
                            },
                        },
                    },
                }
            }
        },
    }
}

pub open spec fn face_result(r: Result<FontFaceInfo, InspectError>) -> Result<
    FaceView,
    InspectError,
> {
    match r {
        Ok(f) => Ok(f@),
        Err(e) => Err(e),
    }
}

pub open spec fn bytes_option(r: Option<&[u8]>) -> Option<Seq<u8>> {
    match r {
        Some(b) => Some(b@),
        None => None,
    }
}

/// Makes a face of its names and the starts of its style tables.
pub fn face_of(
    ttc_index: i32,
    names: &Vec<NameRecord>,
    os2: Option<&[u8]>,
    head: Option<&[u8]>,
) -> (r: FontFaceInfo)
    ensures
        r@ == face_from(ttc_index as int, name_views(names@), bytes_option(os2), bytes_option(head)),
{
    let subfamily_ids: Vec<u16> = vec![17, 2];
    assert(subfamily_ids@ =~= seq![17u16, 2]);
    let subfamily = match best_name(names, &subfamily_ids) {
        Some(s) => s,
        None => String::new(),
    };
    let mut weight: i32 = match os2 {
        Some(b) => if b.len() >= 6 {
            be_u16(b, 4) as i32
        } else {
            400
        },
        None => 400,
    };
    let mut italic = match os2 {
        Some(b) => b.len() >= 64 && be_u16(b, 62) % 2 == 1,
        None => false,
    };
    italic = italic || match head {
        Some(b) => b.len() >= 46 && be_u16(b, 44) / 2 % 2 == 1,
        None => false,
    };
    infer_style_from_subfamily(subfamily.as_str(), &mut weight, &mut italic);
    let family_ids: Vec<u16> = vec![16, 21, 1];
    let full_ids: Vec<u16> = vec![4, 18];
    let postscript_ids: Vec<u16> = vec![6, 20];
    let version_ids: Vec<u16> = vec![5];
    assert(family_ids@ =~= seq![16u16, 21, 1]);
    assert(full_ids@ =~= seq![4u16, 18]);
    assert(postscript_ids@ =~= seq![6u16, 20]);
    assert(version_ids@ =~= seq![5u16]);
    let family = best_name(names, &family_ids);
    let full_name = best_name(names, &full_ids);
    let postscript_name = best_name(names, &postscript_ids);
    let version = best_name(names, &version_ids);
    let all = all_interesting_names(names);
    let ghost sub = subfamily@;
    assert(sub == match best(name_views(names@), seq![17u16, 2]) {
        Some(s) => s,
        None => seq![],
    });
    FontFaceInfo {
        ttc_index,
        family,
        full_name,
        postscript_name,
        subfamily: if subfamily.as_str().is_empty() {
            None
        } else {
            Some(subfamily)
        },
        version,
        weight,
        italic,
        names: all,
    }
}

fn known_version(head: &[u8]) -> (r: bool)
    requires
        head@.len() == 12,
    ensures
        r == sfnt_version(head@),
{
    has_tag(head, 0, (79, 84, 84, 79)) || has_tag(head, 0, (116, 114, 117, 101)) || has_tag(
        head,
        0,
        (116, 121, 112, 49),
    ) || has_tag(head, 0, (0, 1, 0, 0))
}

/// Reads the face that starts at `base`.
pub fn parse_face(data: &[u8], base: u32, ttc_index: i32) -> (r: Result<FontFaceInfo, InspectError>)
    ensures
        face_result(r) == face_at(data@, base as int, ttc_index as int),
{
    let base: usize = base as usize;
    let head = match slice_at(data, base, 12) {
        Ok(h) => h,
        Err(e) => {
            return Err(e);
        },
    };
    if !known_version(head) {
        return Err(InspectError::UnknownVersion);
    }
    let count = be_u16(head, 4);
    if count == 0 || count > 4096 {
        return Err(InspectError::BadTableCount(count));
    }
    let count: usize = count as usize;
    let len = data.len();
    let dir = match slice_at(data, base + 12, count * 16) {
        Ok(d) => d,
        Err(e) => {
            return Err(e);
        },
    };
    let name = match find_table(dir, count, (110, 97, 109, 101)) {
        Some(t) => t,
        None => {
            return Err(InspectError::NoNameTable);
        },
    };
    let names = match parse_name_table(data, name.offset, name.length) {
        Ok(v) => v,
        Err(e) => {
            return Err(e);
        },
    };
    if names.len() == 0 {
        return Err(InspectError::NoNames);
    }
    let os2 = read_table_prefix(data, find_table(dir, count, (79, 83, 47, 50)), 64);
    let head_table = read_table_prefix(data, find_table(dir, count, (104, 101, 97, 100)), 46);
    Ok(face_of(ttc_index, &names, os2, head_table))
}

/// The first `n` faces of a collection.
pub open spec fn faces_upto(data: Seq<u8>, offsets: Seq<u8>, n: int) -> Result<
    Seq<FaceView>,
    InspectError,
>
    decreases n,
{
    if n <= 0 {
        Ok(seq![])
    } else {
        match faces_upto(data, offsets, n - 1) {
            Err(e) => Err(e),
            Ok(v) => match face_at(data, be32(offsets, 4 * (n - 1)), n - 1) {
                Err(e) => Err(e),
                Ok(f) => Ok(v.push(f)),
            },
        }
    }
}

/// The faces of a file: one, or those of a collection.
pub open spec fn faces(data: Seq<u8>) -> Result<Seq<FaceView>, InspectError> {
    match part(data, 0, 12) {
        Err(e) => Err(e),
        Ok(head) => if tag_at(head, 0, (116, 116, 99, 102)) {
            let count = be32(head, 8);
            if count == 0 || count > 4096 {
                Err(InspectError::BadFaceCount(count as u32))
            } else {
                match part(data, 12, count * 4) {
                    Err(e) => Err(e),
                    Ok(offsets) => faces_upto(data, offsets, count),
                }
            }
        } else {
            match face_at(data, 0, -1) {
                Err(e) => Err(e),
                Ok(f) => Ok(seq![f]),
            }
        },
    }
}

pub open spec fn faces_result(r: Result<Vec<FontFaceInfo>, InspectError>) -> Result<
    Seq<FaceView>,
    InspectError,
> {
    match r {
        Ok(v) => Ok(face_views(v@)),
        Err(e) => Err(e),
    }
}

/// The first face that cannot be read is the error of the file.
pub proof fn lemma_faces_error(data: Seq<u8>, offsets: Seq<u8>, k: int, n: int)
    requires
        0 <= k <= n,
        faces_upto(data, offsets, k) is Err,
    ensures
        faces_upto(data, offsets, n) == faces_upto(data, offsets, k),
    decreases n - k,
{
    if k < n {
        lemma_faces_error(data, offsets, k, n - 1);
    }
}

/// Reads every face of a font file.
pub fn inspect_font(data: &[u8]) -> (r: Result<Vec<FontFaceInfo>, InspectError>)
    ensures
        faces_result(r) == faces(data@),
{
    let head = match slice_at(data, 0, 12) {
        Ok(h) => h,
        Err(e) => {
            return Err(e);
        },
    };
    let mut out: Vec<FontFaceInfo> = Vec::new();
    if has_tag(head, 0, (116, 116, 99, 102)) {
        let count = be_u32(head, 8);
        if count == 0 || count > 4096 {
            return Err(InspectError::BadFaceCount(count));
        }
        let offsets = match slice_at(data, 12, count as usize * 4) {
            Ok(o) => o,
            Err(e) => {
                return Err(e);
            },
        };
        let n: usize = count as usize;
        let mut i: usize = 0;
        assert(face_views(out@) =~= seq![]);
        while i < n
            invariant
                i <= n <= 4096,
                offsets@.len() == 4 * n,
                faces_upto(data@, offsets@, i as int) == Ok::<Seq<FaceView>, InspectError>(
                    face_views(out@),
                ),
                faces(data@) == faces_upto(data@, offsets@, n as int),
            decreases n - i,
        {
            let ghost had = face_views(out@);
            match parse_face(data, be_u32(offsets, 4 * i), i as i32) {
                Ok(f) => {
                    let ghost fv = f@;
                    out.push(f);
                    assert(face_views(out@) =~= had.push(fv));
                },
                Err(e) => {
                    proof {
                        lemma_faces_error(data@, offsets@, i + 1, n as int);
                    }
                    return Err(e);
                },
            }
            i = i + 1;
        }
    } else {
        match parse_face(data, 0, -1) {
            Ok(f) => {
                let ghost fv = f@;
                out.push(f);
                assert(face_views(out@) =~= seq![fv]);
            },
            Err(e) => {
                return Err(e);
            },
        }
    }
    Ok(out)
}

// ---------------------------------------------------------------------------
// Laws
// ---------------------------------------------------------------------------
/// A readable file has at least one face.
pub proof fn law_some_face(data: Seq<u8>)
    requires
        faces(data) is Ok,
    ensures
        faces(data)->Ok_0.len() > 0,
{
    if part(data, 0, 12) is Ok && tag_at(part(data, 0, 12)->Ok_0, 0, (116, 116, 99, 102)) {
        let count = be32(part(data, 0, 12)->Ok_0, 8);
        lemma_faces_len(data, part(data, 12, count * 4)->Ok_0, count);
    }
}

proof fn lemma_faces_len(data: Seq<u8>, offsets: Seq<u8>, n: int)
    requires
        0 <= n,
        faces_upto(data, offsets, n) is Ok,
    ensures
        faces_upto(data, offsets, n)->Ok_0.len() == n,
    decreases n,
{
    if n > 0 {
        lemma_faces_len(data, offsets, n - 1);
    }
}

/// No two names of a face are the same name of the same kind.
pub proof fn law_names_once(v: Seq<NameView>, n: int, i: int, j: int)
    requires
        0 <= n <= v.len(),
        0 <= i < j < infos_upto(v, n).len(),
    ensures
        !(lowered(infos_upto(v, n)[i].0) == lowered(infos_upto(v, n)[j].0) && infos_upto(v, n)[i].1
            == infos_upto(v, n)[j].1),
    decreases n,
{
    let all = infos_upto(v, n);
    let had = infos_upto(v, n - 1);
    if j < had.len() {
        law_names_once(v, n - 1, i, j);
    } else {
        assert(had[i] == all[i]);
    }
}

} // verus!
