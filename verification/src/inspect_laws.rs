//! Where the names and the style of a face stand in a font file, byte by byte.
use vstd::prelude::*;

use crate::font_inspect::{
    be16, be32, best, best_from, face_at, face_from, faces, faces_upto, first_name, has_info,
    infos_upto, name_at, name_table, name_text, named_weight, names_upto, part, preferred, table_start,
    table_upto, FaceView, InspectError, NameView,
};
use crate::text::{has_part, lowered, trim};
use crate::utf16::{law_units_round_trip, law_words_of_bytes, units, word_bytes};

verus! {

/// Two bytes as a number, the higher one first.
pub open spec fn two_bytes(b: Seq<u8>, i: int) -> int {
    b[i] * 256 + b[i + 1]
}

/// Four bytes as a number, the highest one first.
pub open spec fn four_bytes(b: Seq<u8>, i: int) -> int {
    two_bytes(b, i) * 65536 + two_bytes(b, i + 2)
}

/// The `i`th entry of the table directory of the face at `base` is the last one
/// with the tag, and says that the table lies at `offset`.
pub open spec fn listed(
    data: Seq<u8>,
    base: int,
    i: int,
    tag: (u8, u8, u8, u8),
    offset: int,
    length: int,
) -> bool {
    let at = base + 12 + 16 * i;
    &&& 0 <= i < two_bytes(data, base + 4)
    &&& data[at] == tag.0 && data[at + 1] == tag.1 && data[at + 2] == tag.2 && data[at + 3]
        == tag.3
    &&& offset == four_bytes(data, at + 8)
    &&& length == four_bytes(data, at + 12)
    &&& forall|j: int|
        i < j < two_bytes(data, base + 4) ==> !((#[trigger] data[base + 12 + 16 * j]) == tag.0
            && data[base + 12 + 16 * j + 1] == tag.1 && data[base + 12 + 16 * j + 2] == tag.2
            && data[base + 12 + 16 * j + 3] == tag.3)
}

/// No entry of the table directory of the face at `base` has the tag.
pub open spec fn unlisted(data: Seq<u8>, base: int, tag: (u8, u8, u8, u8)) -> bool {
    forall|j: int|
        0 <= j < two_bytes(data, base + 4) ==> !((#[trigger] data[base + 12 + 16 * j]) == tag.0
            && data[base + 12 + 16 * j + 1] == tag.1 && data[base + 12 + 16 * j + 2] == tag.2
            && data[base + 12 + 16 * j + 3] == tag.3)
}

proof fn lemma_listed(
    data: Seq<u8>,
    base: int,
    n: int,
    i: int,
    tag: (u8, u8, u8, u8),
    offset: int,
    length: int,
)
    requires
        0 <= base,
        listed(data, base, i, tag, offset, length),
        i < n <= two_bytes(data, base + 4),
        base + 12 + 16 * two_bytes(data, base + 4) <= data.len(),
    ensures
        table_upto(
            data.subrange(base + 12, base + 12 + 16 * two_bytes(data, base + 4)),
            n,
            tag,
        ) == Some((offset, length)),
    decreases n,
{
    let count = two_bytes(data, base + 4);
    let dir = data.subrange(base + 12, base + 12 + 16 * count);
    let k = 16 * (n - 1);
    assert(forall|x: int| 0 <= x < 16 ==> #[trigger] dir[k + x] == data[base + 12 + k + x]);
    assert(dir[k + 0] == data[base + 12 + k] && dir[k + 1] == data[base + 12 + k + 1] && dir[k + 2]
        == data[base + 12 + k + 2] && dir[k + 3] == data[base + 12 + k + 3]);
    if n - 1 == i {
        assert(dir[k + 8] == data[base + 12 + k + 8] && dir[k + 9] == data[base + 12 + k + 9]
            && dir[k + 10] == data[base + 12 + k + 10] && dir[k + 11] == data[base + 12 + k + 11]);
        assert(dir[k + 12] == data[base + 12 + k + 12] && dir[k + 13] == data[base + 12 + k + 13]
            && dir[k + 14] == data[base + 12 + k + 14] && dir[k + 15] == data[base + 12 + k + 15]);
    } else {
        let j = n - 1;
        assert(data[base + 12 + 16 * j] == dir[k]);
        lemma_listed(data, base, n - 1, i, tag, offset, length);
    }
}

proof fn lemma_unlisted(data: Seq<u8>, base: int, n: int, tag: (u8, u8, u8, u8))
    requires
        0 <= base,
        unlisted(data, base, tag),
        0 <= n <= two_bytes(data, base + 4),
        base + 12 + 16 * two_bytes(data, base + 4) <= data.len(),
    ensures
        table_upto(
            data.subrange(base + 12, base + 12 + 16 * two_bytes(data, base + 4)),
            n,
            tag,
        ) is None,
    decreases n,
{
    if n > 0 {
        let count = two_bytes(data, base + 4);
        let dir = data.subrange(base + 12, base + 12 + 16 * count);
        let k = 16 * (n - 1);
        let j = n - 1;
        assert(data[base + 12 + 16 * j] == dir[k]);
        assert(dir[k + 1] == data[base + 12 + k + 1] && dir[k + 2] == data[base + 12 + k + 2]
            && dir[k + 3] == data[base + 12 + k + 3]);
        lemma_unlisted(data, base, n - 1, tag);
    }
}

/// A face that can be read: its directory lies within the file, and its name
/// table gives its names.
proof fn lemma_readable_face(data: Seq<u8>, base: int, index: int) -> (r: (
    Seq<NameView>,
    Option<Seq<u8>>,
    Option<Seq<u8>>,
))
    requires
        0 <= base,
        face_at(data, base, index) is Ok,
    ensures
        base + 12 + 16 * two_bytes(data, base + 4) <= data.len(),
        face_at(data, base, index) == Ok::<FaceView, InspectError>(
            face_from(index, r.0, r.1, r.2),
        ),
        r.0.len() > 0,
        ({
            let count = two_bytes(data, base + 4);
            let dir = data.subrange(base + 12, base + 12 + 16 * count);
            &&& table_upto(dir, count, (110, 97, 109, 101)) matches Some(t) && name_table(
                data,
                t.0,
                t.1,
            ) == Ok::<Seq<NameView>, InspectError>(r.0)
            &&& r.1 == table_start(data, table_upto(dir, count, (79, 83, 47, 50)), 64)
            &&& r.2 == table_start(data, table_upto(dir, count, (104, 101, 97, 100)), 46)
        }),
{
    let head = data.subrange(base, base + 12);
    assert(part(data, base, 12) is Ok);
    assert(head[4] == data[base + 4] && head[5] == data[base + 5]);
    let count = two_bytes(data, base + 4);
    assert(be16(head, 4) == count);
    let dir = data.subrange(base + 12, base + 12 + 16 * count);
    assert(part(data, base + 12, count * 16) == Ok::<Seq<u8>, InspectError>(dir));
    let t = table_upto(dir, count, (110, 97, 109, 101))->0;
    let names = name_table(data, t.0, t.1)->Ok_0;
    (
        names,
        table_start(data, table_upto(dir, count, (79, 83, 47, 50)), 64),
        table_start(data, table_upto(dir, count, (104, 101, 97, 100)), 46),
    )
}

// ---------------------------------------------------------------------------
// Laws
// ---------------------------------------------------------------------------
/// The weight of a face is the weight class in the fifth and sixth byte of its
/// `OS/2` table, whatever the other bytes are, unless it is the 400 of a table
/// that leaves the weight to the name of the style.
pub proof fn law_weight_class_read(
    data: Seq<u8>,
    base: int,
    index: int,
    i: int,
    offset: int,
    length: int,
)
    requires
        0 <= base,
        face_at(data, base, index) is Ok,
        listed(data, base, i, (79, 83, 47, 50), offset, length),
        length >= 6,
        offset + length <= data.len() <= usize::MAX,
    ensures
        data[offset + 4] * 256 + data[offset + 5] != 400 ==> face_at(data, base, index)->Ok_0.weight
            == data[offset + 4] * 256 + data[offset + 5],
        data[offset + 4] * 256 + data[offset + 5] == 400 && face_at(
            data,
            base,
            index,
        )->Ok_0.subfamily is None ==> face_at(data, base, index)->Ok_0.weight == 400,
{
    let (names, os2, head) = lemma_readable_face(data, base, index);
    lemma_listed(data, base, two_bytes(data, base + 4), i, (79, 83, 47, 50), offset, length);
    let n = if length < 64 { length } else { 64 };
    let b = data.subrange(offset, offset + n);
    assert(os2 == Some(b));
    assert(b[4] == data[offset + 4] && b[5] == data[offset + 5]);
    lemma_no_style_word();
    let sub = match best(names, seq![17u16, 2]) {
        Some(s) => s,
        None => seq![],
    };
    assert(sub.len() == 0 ==> sub =~= seq![]);
}

/// The empty name speaks of no weight and no slant.
proof fn lemma_no_style_word()
    ensures
        named_weight(lowered(seq![])) == 400,
        !has_part(lowered(seq![]), "italic"@),
        !has_part(lowered(seq![]), "oblique"@),
{
    reveal_strlit("thin");
    reveal_strlit("hairline");
    reveal_strlit("extra light");
    reveal_strlit("extralight");
    reveal_strlit("ultra light");
    reveal_strlit("ultralight");
    reveal_strlit("light");
    reveal_strlit("medium");
    reveal_strlit("semi bold");
    reveal_strlit("semibold");
    reveal_strlit("demi bold");
    reveal_strlit("demibold");
    reveal_strlit("extra bold");
    reveal_strlit("extrabold");
    reveal_strlit("ultra bold");
    reveal_strlit("ultrabold");
    reveal_strlit("black");
    reveal_strlit("heavy");
    reveal_strlit("bold");
    reveal_strlit("italic");
    reveal_strlit("oblique");
    assert(lowered(seq![]).len() == 0);
}

/// The slant of a face with both tables.
proof fn lemma_italic_of(index: int, names: Seq<NameView>, b: Seq<u8>, h: Seq<u8>)
    requires
        b.len() == 64,
        h.len() == 46,
    ensures
        face_from(index, names, Some(b), Some(h)).italic <==> {
            ||| b[63] % 2 == 1
            ||| h[45] / 2 % 2 == 1
            ||| face_from(index, names, Some(b), Some(h)).subfamily matches Some(s) && (has_part(
                lowered(s),
                "italic"@,
            ) || has_part(lowered(s), "oblique"@))
        },
{
    let (x, y) = (b[62] as int, b[63] as int);
    assert((256 * x + y) % 2 == y % 2);
    let (p, q) = (h[44] as int, h[45] as int);
    assert((256 * p + q) / 2 == 128 * p + q / 2);
    assert((128 * p + q / 2) % 2 == q / 2 % 2);
    lemma_no_style_word();
    let sub = match best(names, seq![17u16, 2]) {
        Some(s) => s,
        None => seq![],
    };
    assert(sub.len() == 0 ==> sub =~= seq![]);
}

/// A face is italic exactly where the lowest bit of the 64th byte of its `OS/2`
/// table is set, or the second lowest bit of the 46th byte of its `head` table, or
/// where the name of its style says italic or oblique.
pub proof fn law_italic_read(
    data: Seq<u8>,
    base: int,
    index: int,
    i: int,
    offset: int,
    length: int,
    j: int,
    head_offset: int,
    head_length: int,
)
    requires
        0 <= base,
        face_at(data, base, index) is Ok,
        listed(data, base, i, (79, 83, 47, 50), offset, length),
        listed(data, base, j, (104, 101, 97, 100), head_offset, head_length),
        length >= 64,
        head_length >= 46,
        offset + length <= data.len() <= usize::MAX,
        head_offset + head_length <= data.len(),
    ensures
        face_at(data, base, index)->Ok_0.italic <==> {
            ||| data[offset + 63] % 2 == 1
            ||| data[head_offset + 45] / 2 % 2 == 1
            ||| face_at(data, base, index)->Ok_0.subfamily matches Some(s) && (has_part(
                lowered(s),
                "italic"@,
            ) || has_part(lowered(s), "oblique"@))
        },
{
    let (names, os2, head) = lemma_readable_face(data, base, index);
    let count = two_bytes(data, base + 4);
    lemma_listed(data, base, count, i, (79, 83, 47, 50), offset, length);
    lemma_listed(data, base, count, j, (104, 101, 97, 100), head_offset, head_length);
    let b = data.subrange(offset, offset + 64);
    let h = data.subrange(head_offset, head_offset + 46);
    assert(os2 == Some(b));
    assert(head == Some(h));
    assert(b[63] == data[offset + 63]);
    assert(h[45] == data[head_offset + 45]);
    lemma_italic_of(index, names, b, h);
}

/// A face without an `OS/2` table has the weight that the name of its style
/// speaks of, and 400 where it has no such name.
pub proof fn law_weight_without_table(data: Seq<u8>, base: int, index: int)
    requires
        0 <= base,
        face_at(data, base, index) is Ok,
        unlisted(data, base, (79, 83, 47, 50)),
        face_at(data, base, index)->Ok_0.subfamily is None,
    ensures
        face_at(data, base, index)->Ok_0.weight == 400,
{
    let (names, os2, head) = lemma_readable_face(data, base, index);
    lemma_unlisted(data, base, two_bytes(data, base + 4), (79, 83, 47, 50));
    lemma_no_style_word();
    let sub = match best(names, seq![17u16, 2]) {
        Some(s) => s,
        None => seq![],
    };
    assert(sub.len() == 0 ==> sub =~= seq![]);
}

// ---------------------------------------------------------------------------
// Files
// ---------------------------------------------------------------------------
/// A file that is no collection has one face, the one at its start, and a
/// collection has the faces at the offsets that follow its count, in their order
/// and with their places as indices.
pub proof fn law_faces_of_file(data: Seq<u8>, i: int)
    requires
        faces(data) is Ok,
        0 <= i < faces(data)->Ok_0.len(),
    ensures
        data.len() >= 12,
        !(data[0] == 116 && data[1] == 116 && data[2] == 99 && data[3] == 102) ==> {
            &&& faces(data)->Ok_0.len() == 1
            &&& face_at(data, 0, -1) == Ok::<FaceView, InspectError>(faces(data)->Ok_0[0])
            &&& faces(data)->Ok_0[0].ttc_index == -1
        },
        data[0] == 116 && data[1] == 116 && data[2] == 99 && data[3] == 102 ==> {
            &&& faces(data)->Ok_0.len() == four_bytes(data, 8)
            &&& face_at(data, four_bytes(data, 12 + 4 * i), i) == Ok::<FaceView, InspectError>(
                faces(data)->Ok_0[i],
            )
            &&& faces(data)->Ok_0[i].ttc_index == i
        },
{
    let head = data.subrange(0, 12);
    assert(part(data, 0, 12) == Ok::<Seq<u8>, InspectError>(head));
    assert(head[0] == data[0] && head[1] == data[1] && head[2] == data[2] && head[3] == data[3]);
    assert(head[8] == data[8] && head[9] == data[9] && head[10] == data[10] && head[11]
        == data[11]);
    if data[0] == 116 && data[1] == 116 && data[2] == 99 && data[3] == 102 {
        let count = be32(head, 8);
        assert(count == four_bytes(data, 8));
        let offsets = data.subrange(12, 12 + count * 4);
        assert(part(data, 12, count * 4) == Ok::<Seq<u8>, InspectError>(offsets));
        lemma_collection(data, offsets, count, i);
        assert(offsets[4 * i] == data[12 + 4 * i] && offsets[4 * i + 1] == data[12 + 4 * i + 1]
            && offsets[4 * i + 2] == data[12 + 4 * i + 2] && offsets[4 * i + 3] == data[12 + 4 * i
            + 3]);
    }
}

proof fn lemma_collection(data: Seq<u8>, offsets: Seq<u8>, n: int, i: int)
    requires
        0 <= n,
        faces_upto(data, offsets, n) is Ok,
    ensures
        faces_upto(data, offsets, n)->Ok_0.len() == n,
        0 <= i < n ==> face_at(data, be32(offsets, 4 * i), i) == Ok::<FaceView, InspectError>(
            faces_upto(data, offsets, n)->Ok_0[i],
        ),
        0 <= i < n ==> faces_upto(data, offsets, n)->Ok_0[i].ttc_index == i,
    decreases n,
{
    if n > 0 {
        lemma_collection(data, offsets, n - 1, i);
    }
}

// ---------------------------------------------------------------------------
// Names
// ---------------------------------------------------------------------------
/// A record of the name table in English or in no language.
pub open spec fn in_english(v: NameView) -> bool {
    match v.platform_id {
        3 => v.lang_id == 1033 || v.lang_id == 0,
        0 => v.lang_id == 0,
        _ => false,
    }
}

/// The first record with the name, in English where that is asked for.
proof fn lemma_first_name(v: Seq<NameView>, id: u16, strict: bool, i: int, k: int)
    requires
        0 <= i <= k < v.len(),
        v[k].name_id == id,
        !strict || preferred(v[k]),
    ensures
        exists|m: int|
            #![trigger v[m]]
            i <= m <= k && v[m].name_id == id && (!strict || preferred(v[m])) && first_name(
                v,
                id,
                strict,
                i,
            ) == Some(v[m].value) && forall|x: int|
                i <= x < m ==> !((#[trigger] v[x]).name_id == id && (!strict || preferred(v[x]))),
    decreases k - i,
{
    if v[i].name_id == id && (!strict || preferred(v[i])) {
        assert(first_name(v, id, strict, i) == Some(v[i].value));
    } else {
        lemma_first_name(v, id, strict, i + 1, k);
    }
}

proof fn lemma_no_name(v: Seq<NameView>, id: u16, strict: bool, i: int)
    requires
        0 <= i <= v.len(),
        forall|x: int|
            i <= x < v.len() ==> !((#[trigger] v[x]).name_id == id && (!strict || preferred(v[x]))),
    ensures
        first_name(v, id, strict, i) is None,
    decreases v.len() - i,
{
    if i < v.len() {
        lemma_no_name(v, id, strict, i + 1);
    }
}

/// Of the names that may serve, the first kind that the font has is taken: in
/// English where there is such a record, else the first record of that kind.
pub proof fn law_best_name_taken(v: Seq<NameView>, ids: Seq<u16>, k: int, i: int)
    requires
        0 <= k < ids.len(),
        0 <= i < v.len(),
        v[i].name_id == ids[k],
        forall|j: int, x: int|
            0 <= j < k && 0 <= x < v.len() ==> (#[trigger] v[x]).name_id != #[trigger] ids[j],
    ensures
        exists|m: int|
            #![trigger v[m]]
            0 <= m < v.len() && v[m].name_id == ids[k] && best(v, ids) == Some(v[m].value) && (
            in_english(v[i]) ==> in_english(v[m])) && (in_english(v[m]) == in_english(v[i]) ==> m
                <= i),
{
    lemma_best_from(v, ids, 0, k);
    let id = ids[k];
    if exists|x: int| 0 <= x < v.len() && (#[trigger] v[x]).name_id == id && preferred(v[x]) {
        let x = choose|x: int|
            0 <= x < v.len() && (#[trigger] v[x]).name_id == id && preferred(v[x]);
        lemma_first_name(v, id, true, 0, x);
        let m = choose|m: int|
            #![trigger v[m]]
            0 <= m <= x && v[m].name_id == id && preferred(v[m]) && first_name(v, id, true, 0)
                == Some(v[m].value) && forall|y: int|
                0 <= y < m ==> !((#[trigger] v[y]).name_id == id && preferred(v[y]));
        assert(in_english(v[m]) == preferred(v[m]));
        assert(in_english(v[i]) == preferred(v[i]));
        assert(best(v, ids) == Some(v[m].value));
    } else {
        lemma_no_name(v, id, true, 0);
        lemma_first_name(v, id, false, 0, i);
        let m = choose|m: int|
            #![trigger v[m]]
            0 <= m <= i && v[m].name_id == id && first_name(v, id, false, 0) == Some(v[m].value);
        assert(in_english(v[m]) == preferred(v[m]));
        assert(in_english(v[i]) == preferred(v[i]));
        assert(best(v, ids) == Some(v[m].value));
    }
}

proof fn lemma_best_from(v: Seq<NameView>, ids: Seq<u16>, j: int, k: int)
    requires
        0 <= j <= k < ids.len(),
        forall|y: int, x: int|
            0 <= y < k && 0 <= x < v.len() ==> (#[trigger] v[x]).name_id != #[trigger] ids[y],
    ensures
        best_from(v, ids, j) == best_from(v, ids, k),
    decreases k - j,
{
    if j < k {
        let id = ids[j];
        lemma_no_name(v, id, true, 0);
        lemma_no_name(v, id, false, 0);
        lemma_best_from(v, ids, j + 1, k);
    }
}

/// Whether a list of names has one of that kind.
pub open spec fn has_kind(v: Seq<NameView>, id: u16) -> bool {
    exists|i: int| 0 <= i < v.len() && (#[trigger] v[i]).name_id == id
}

/// Whether a text is one of the names of that kind.
pub open spec fn one_of_kind(t: Option<Seq<char>>, v: Seq<NameView>, id: u16) -> bool {
    exists|i: int|
        0 <= i < v.len() && (#[trigger] v[i]).name_id == id && t == Some(v[i].value)
}

proof fn lemma_kind_taken(v: Seq<NameView>, ids: Seq<u16>, k: int)
    requires
        0 <= k < ids.len(),
        has_kind(v, ids[k]),
        forall|j: int| 0 <= j < k ==> !has_kind(v, #[trigger] ids[j]),
    ensures
        one_of_kind(best(v, ids), v, ids[k]),
{
    let i = choose|i: int| 0 <= i < v.len() && (#[trigger] v[i]).name_id == ids[k];
    assert forall|j: int, x: int| 0 <= j < k && 0 <= x < v.len() implies (#[trigger] v[x]).name_id
        != #[trigger] ids[j] by {
        assert(!has_kind(v, ids[j]));
    }
    law_best_name_taken(v, ids, k, i);
}

/// The family of a face is its typographic family, else its family among weights,
/// widths and slopes, else its plain family; the full name, the PostScript name,
/// the style and the version are those of their own kinds, with the kinds that
/// stand in for them.
pub proof fn law_names_of_face(
    index: int,
    v: Seq<NameView>,
    os2: Option<Seq<u8>>,
    head: Option<Seq<u8>>,
)
    ensures
        ({
            let f = face_from(index, v, os2, head);
            &&& has_kind(v, 16) ==> one_of_kind(f.family, v, 16)
            &&& !has_kind(v, 16) && has_kind(v, 21) ==> one_of_kind(f.family, v, 21)
            &&& !has_kind(v, 16) && !has_kind(v, 21) && has_kind(v, 1) ==> one_of_kind(
                f.family,
                v,
                1,
            )
            &&& has_kind(v, 4) ==> one_of_kind(f.full_name, v, 4)
            &&& !has_kind(v, 4) && has_kind(v, 18) ==> one_of_kind(f.full_name, v, 18)
            &&& has_kind(v, 6) ==> one_of_kind(f.postscript_name, v, 6)
            &&& !has_kind(v, 6) && has_kind(v, 20) ==> one_of_kind(f.postscript_name, v, 20)
            &&& has_kind(v, 5) ==> one_of_kind(f.version, v, 5)
            &&& has_kind(v, 17) ==> f.subfamily is None || one_of_kind(f.subfamily, v, 17)
            &&& !has_kind(v, 17) && has_kind(v, 2) ==> f.subfamily is None || one_of_kind(
                f.subfamily,
                v,
                2,
            )
        }),
{
    let family = seq![16u16, 21, 1];
    let full = seq![4u16, 18];
    let postscript = seq![6u16, 20];
    let style = seq![17u16, 2];
    let version = seq![5u16];
    assert(family[0] == 16 && family[1] == 21 && family[2] == 1);
    if has_kind(v, 16) {
        lemma_kind_taken(v, family, 0);
    } else if has_kind(v, 21) {
        lemma_kind_taken(v, family, 1);
    } else if has_kind(v, 1) {
        lemma_kind_taken(v, family, 2);
    }
    if has_kind(v, 4) {
        lemma_kind_taken(v, full, 0);
    } else if has_kind(v, 18) {
        lemma_kind_taken(v, full, 1);
    }
    if has_kind(v, 6) {
        lemma_kind_taken(v, postscript, 0);
    } else if has_kind(v, 20) {
        lemma_kind_taken(v, postscript, 1);
    }
    if has_kind(v, 17) {
        lemma_kind_taken(v, style, 0);
    } else if has_kind(v, 2) {
        lemma_kind_taken(v, style, 1);
    }
    if has_kind(v, 5) {
        lemma_kind_taken(v, version, 0);
    }
}

/// A record of the name table that is of use is among the names of the face, with
/// the text that its bytes spell.
pub proof fn law_name_record_read(data: Seq<u8>, offset: int, length: int, i: int)
    requires
        0 <= offset,
        6 <= length <= 16777216,
        offset + length <= data.len() <= usize::MAX,
        two_bytes(data, offset) <= 1,
        6 + 12 * two_bytes(data, offset + 2) <= length,
        two_bytes(data, offset + 4) <= length,
        0 <= i < two_bytes(data, offset + 2),
    ensures
        ({
            let at = offset + 6 + 12 * i;
            let start = offset + two_bytes(data, offset + 4) + two_bytes(data, at + 10);
            let end = start + two_bytes(data, at + 8);
            let platform = two_bytes(data, at);
            let id = two_bytes(data, at + 6);
            name_table(data, offset, length) matches Ok(names) && ((platform == 0 || platform == 3)
                && (id == 1 || id == 2 || id == 4 || id == 5 || id == 6 || id == 16 || id == 17
                || id == 18 || id == 20 || id == 21 || id == 22 || id == 25) && end <= offset
                + length && (name_text(platform, data.subrange(start, end)) matches Some(t) && trim(
                t,
            ).len() > 0) ==> names.contains(
                NameView {
                    name_id: id as u16,
                    platform_id: platform as u16,
                    lang_id: two_bytes(data, at + 4) as u16,
                    value: trim(name_text(platform, data.subrange(start, end))->0),
                },
            ))
        }),
{
    let buf = data.subrange(offset, offset + length);
    assert(part(data, offset, length) == Ok::<Seq<u8>, InspectError>(buf));
    assert(buf[0] == data[offset] && buf[1] == data[offset + 1]);
    assert(buf[2] == data[offset + 2] && buf[3] == data[offset + 3]);
    assert(buf[4] == data[offset + 4] && buf[5] == data[offset + 5]);
    let count = two_bytes(data, offset + 2);
    let k = 6 + 12 * i;
    let at = offset + k;
    assert(buf[k] == data[at] && buf[k + 1] == data[at + 1] && buf[k + 4] == data[at + 4] && buf[k
        + 5] == data[at + 5] && buf[k + 6] == data[at + 6] && buf[k + 7] == data[at + 7] && buf[k
        + 8] == data[at + 8] && buf[k + 9] == data[at + 9] && buf[k + 10] == data[at + 10] && buf[k
        + 11] == data[at + 11]);
    let start = two_bytes(data, offset + 4) + two_bytes(data, at + 10);
    let end = start + two_bytes(data, at + 8);
    if end <= length {
        assert(buf.subrange(start, end) =~= data.subrange(offset + start, offset + end));
    }
    if let Some(v) = name_at(buf, i) {
        lemma_name_kept(buf, count, i, v);
    }
}

/// A name in big-endian UTF-16 is read back.
pub proof fn law_name_text_read(platform: int, s: Seq<char>)
    requires
        platform == 0 || platform == 3,
    ensures
        name_text(platform, word_bytes(units(s), false)) == Some(s),
{
    law_words_of_bytes(units(s), false);
    law_units_round_trip(s);
}

proof fn lemma_name_kept(buf: Seq<u8>, n: int, i: int, v: NameView)
    requires
        0 <= i < n,
        name_at(buf, i) == Some(v),
    ensures
        names_upto(buf, n).contains(v),
    decreases n,
{
    let all = names_upto(buf, n);
    if i == n - 1 {
        assert(all[all.len() - 1] == v);
    } else {
        lemma_name_kept(buf, n - 1, i, v);
        let had = names_upto(buf, n - 1);
        let k = choose|k: int| 0 <= k < had.len() && had[k] == v;
        assert(all[k] == v);
    }
}

/// Every name under which a face may be asked for is in its list, under its kind,
/// up to the case of letters; the names of styles and versions are not.
pub proof fn law_names_listed(v: Seq<NameView>, n: int, i: int)
    requires
        0 <= i < n <= v.len(),
    ensures
        ({
            let id = v[i].name_id;
            let name = v[i].value;
            let all = infos_upto(v, n);
            &&& id == 1 ==> has_info(all, name, "family"@)
            &&& id == 4 ==> has_info(all, name, "full"@)
            &&& id == 6 ==> has_info(all, name, "postscript"@)
            &&& id == 16 ==> has_info(all, name, "typographic_family"@)
            &&& id == 18 ==> has_info(all, name, "compatible_full"@)
            &&& id == 20 ==> has_info(all, name, "postscript_cid"@)
            &&& id == 21 ==> has_info(all, name, "wws_family"@)
            &&& id == 25 ==> has_info(all, name, "variations_postscript_prefix"@)
        }),
    decreases n,
{
    let all = infos_upto(v, n);
    let had = infos_upto(v, n - 1);
    if i == n - 1 {
        let kind = crate::font_inspect::kind_text(v[i].name_id as int);
        if let Some(kind) = kind {
            if !has_info(had, v[i].value, kind) {
                let e = all[all.len() - 1];
                assert(lowered(e.0) == lowered(v[i].value) && e.1 == kind);
            }
        }
    } else {
        law_names_listed(v, n - 1, i);
        assert forall|name: Seq<char>, kind: Seq<char>| has_info(had, name, kind) implies has_info(
            all,
            name,
            kind,
        ) by {
            let k = choose|k: int|
                0 <= k < had.len() && lowered((#[trigger] had[k]).0) == lowered(name) && had[k].1
                    == kind;
            assert(all[k] == had[k]);
        }
    }
}

/// The word that a style is named with gives the weight: the longer words count
/// before those that they hold, and a name without such a word is regular.
pub proof fn law_style_words_weigh(low: Seq<char>)
    ensures
        ({
            let w = named_weight(low);
            let thin = has_part(low, "thin"@) || has_part(low, "hairline"@);
            let very_light = has_part(low, "extra light"@) || has_part(low, "extralight"@)
                || has_part(low, "ultra light"@) || has_part(low, "ultralight"@);
            let half_bold = has_part(low, "semi bold"@) || has_part(low, "semibold"@) || has_part(
                low,
                "demi bold"@,
            ) || has_part(low, "demibold"@);
            let very_bold = has_part(low, "extra bold"@) || has_part(low, "extrabold"@) || has_part(
                low,
                "ultra bold"@,
            ) || has_part(low, "ultrabold"@);
            &&& thin <==> w == 100
            &&& w == 200 ==> very_light
            &&& very_light ==> w <= 200
            &&& w == 300 ==> has_part(low, "light"@)
            &&& has_part(low, "light"@) ==> w <= 300
            &&& w == 500 ==> has_part(low, "medium"@)
            &&& has_part(low, "medium"@) ==> w <= 300 || w == 500
            &&& w == 600 ==> half_bold
            &&& half_bold ==> w <= 300 || w == 500 || w == 600
            &&& w == 800 ==> very_bold
            &&& very_bold ==> w != 400 && w != 700 && w != 900
            &&& w == 900 ==> has_part(low, "black"@) || has_part(low, "heavy"@)
            &&& has_part(low, "black"@) || has_part(low, "heavy"@) ==> w != 400 && w != 700
            &&& w == 700 ==> has_part(low, "bold"@)
            &&& has_part(low, "bold"@) ==> w != 400
            &&& w == 100 || w == 200 || w == 300 || w == 400 || w == 500 || w == 600 || w == 700
                || w == 800 || w == 900
        }),
{
}

// ---------------------------------------------------------------------------
// Which files can be read
// ---------------------------------------------------------------------------
/// The first four bytes of a face: `OTTO`, `true`, `typ1` or the version 1.0.
pub open spec fn known_version(data: Seq<u8>, base: int) -> bool {
    let (a, b, c, d) = (data[base], data[base + 1], data[base + 2], data[base + 3]);
    ||| a == 79 && b == 84 && c == 84 && d == 79
    ||| a == 116 && b == 114 && c == 117 && d == 101
    ||| a == 116 && b == 121 && c == 112 && d == 49
    ||| a == 0 && b == 1 && c == 0 && d == 0
}

/// A face is read where it has a known version and one to 4096 tables, all listed
/// within the file, and a name table with a name of use.
pub proof fn law_face_accepted(
    data: Seq<u8>,
    base: int,
    index: int,
    i: int,
    offset: int,
    length: int,
)
    requires
        0 <= base,
        base + 12 + 16 * two_bytes(data, base + 4) <= data.len() <= usize::MAX,
        known_version(data, base),
        1 <= two_bytes(data, base + 4) <= 4096,
        listed(data, base, i, (110, 97, 109, 101), offset, length),
        name_table(data, offset, length) matches Ok(names) && names.len() > 0,
    ensures
        face_at(data, base, index) is Ok,
        face_at(data, base, index)->Ok_0.ttc_index == index,
{
    let count = two_bytes(data, base + 4);
    let head = data.subrange(base, base + 12);
    assert(head[0] == data[base] && head[1] == data[base + 1] && head[2] == data[base + 2] && head[3]
        == data[base + 3] && head[4] == data[base + 4] && head[5] == data[base + 5]);
    assert(be16(head, 4) == count);
    lemma_listed(data, base, count, i, (110, 97, 109, 101), offset, length);
}

/// A face is refused with what is wrong with it: its version, the number of its
/// tables, where they are listed, or the want of a name table.
pub proof fn law_face_refused(data: Seq<u8>, base: int, index: int)
    requires
        0 <= base,
        data.len() <= usize::MAX,
        base + 12 <= usize::MAX,
    ensures
        base + 12 > data.len() ==> face_at(data, base, index) == Err::<FaceView, InspectError>(
            InspectError::OutOfBounds,
        ),
        base + 12 <= data.len() ==> {
            let count = two_bytes(data, base + 4);
            &&& !known_version(data, base) ==> face_at(data, base, index) == Err::<
                FaceView,
                InspectError,
            >(InspectError::UnknownVersion)
            &&& known_version(data, base) && (count == 0 || count > 4096) ==> face_at(
                data,
                base,
                index,
            ) == Err::<FaceView, InspectError>(InspectError::BadTableCount(count as u16))
            &&& known_version(data, base) && 1 <= count <= 4096 && base + 12 + 16 * count
                <= data.len() && unlisted(data, base, (110, 97, 109, 101)) ==> face_at(
                data,
                base,
                index,
            ) == Err::<FaceView, InspectError>(InspectError::NoNameTable)
        },
{
    if base + 12 <= data.len() {
        let count = two_bytes(data, base + 4);
        let head = data.subrange(base, base + 12);
        assert(head[0] == data[base] && head[1] == data[base + 1] && head[2] == data[base + 2]
            && head[3] == data[base + 3] && head[4] == data[base + 4] && head[5] == data[base + 5]);
        assert(be16(head, 4) == count);
        if base + 12 + 16 * count <= data.len() && unlisted(data, base, (110, 97, 109, 101)) {
            lemma_unlisted(data, base, count, (110, 97, 109, 101));
        }
    }
}

/// A name table is refused where it is shorter than its head or longer than 16 MiB,
/// of an unknown format, or too short for its records or for where its texts start.
pub proof fn law_name_table_refused(data: Seq<u8>, offset: int, length: int)
    requires
        0 <= offset,
        0 <= length <= u32::MAX,
        offset + length <= data.len() <= usize::MAX,
    ensures
        length < 6 || length > 16 * 1024 * 1024 ==> name_table(data, offset, length) == Err::<
            Seq<NameView>,
            InspectError,
        >(InspectError::BadNameLength(length as u32)),
        6 <= length <= 16 * 1024 * 1024 ==> {
            let format = two_bytes(data, offset);
            let count = two_bytes(data, offset + 2);
            let texts = two_bytes(data, offset + 4);
            &&& format > 1 ==> name_table(data, offset, length) == Err::<
                Seq<NameView>,
                InspectError,
            >(InspectError::BadNameFormat(format as u16))
            &&& format <= 1 && (6 + 12 * count > length || texts > length) ==> name_table(
                data,
                offset,
                length,
            ) == Err::<Seq<NameView>, InspectError>(InspectError::CorruptNames)
            &&& format <= 1 && 6 + 12 * count <= length && texts <= length ==> name_table(
                data,
                offset,
                length,
            ) is Ok
        },
{
    if 6 <= length {
        let buf = data.subrange(offset, offset + length);
        assert(buf[0] == data[offset] && buf[1] == data[offset + 1] && buf[2] == data[offset + 2]
            && buf[3] == data[offset + 3] && buf[4] == data[offset + 4] && buf[5] == data[offset
            + 5]);
    }
}

proof fn lemma_all_faces(data: Seq<u8>, count: int, n: int)
    requires
        0 <= n <= count,
        12 + 4 * count <= data.len(),
        forall|i: int|
            0 <= i < count ==> (#[trigger] face_at(data, four_bytes(data, 12 + 4 * i), i)) is Ok,
    ensures
        faces_upto(data, data.subrange(12, 12 + 4 * count), n) is Ok,
    decreases n,
{
    if n > 0 {
        lemma_all_faces(data, count, n - 1);
        let offsets = data.subrange(12, 12 + 4 * count);
        let k = 4 * (n - 1);
        assert(offsets[k] == data[12 + k] && offsets[k + 1] == data[12 + k + 1] && offsets[k + 2]
            == data[12 + k + 2] && offsets[k + 3] == data[12 + k + 3]);
        assert(be32(offsets, k) == four_bytes(data, 12 + 4 * (n - 1)));
        assert(face_at(data, four_bytes(data, 12 + 4 * (n - 1)), n - 1) is Ok);
    }
}

/// A file that is no collection is read where its face is, and a collection of one
/// to 4096 faces where all of them are.
pub proof fn law_file_accepted(data: Seq<u8>)
    requires
        12 <= data.len() <= usize::MAX,
    ensures
        !(data[0] == 116 && data[1] == 116 && data[2] == 99 && data[3] == 102) ==> (faces(data) is Ok
            <==> face_at(data, 0, -1) is Ok),
        data[0] == 116 && data[1] == 116 && data[2] == 99 && data[3] == 102 && 1 <= four_bytes(
            data,
            8,
        ) <= 4096 && 12 + 4 * four_bytes(data, 8) <= data.len() && (forall|i: int|
            0 <= i < four_bytes(data, 8) ==> (#[trigger] face_at(
                data,
                four_bytes(data, 12 + 4 * i),
                i,
            )) is Ok) ==> faces(data) is Ok,
        data[0] == 116 && data[1] == 116 && data[2] == 99 && data[3] == 102 && (four_bytes(data, 8)
            == 0 || four_bytes(data, 8) > 4096) ==> faces(data) == Err::<
            Seq<FaceView>,
            InspectError,
        >(InspectError::BadFaceCount(four_bytes(data, 8) as u32)),
{
    let head = data.subrange(0, 12);
    assert(head[0] == data[0] && head[1] == data[1] && head[2] == data[2] && head[3] == data[3]);
    assert(head[8] == data[8] && head[9] == data[9] && head[10] == data[10] && head[11] == data[11]);
    let count = four_bytes(data, 8);
    assert(be32(head, 8) == count);
    if 1 <= count <= 4096 && 12 + 4 * count <= data.len() && (forall|i: int|
        0 <= i < count ==> (#[trigger] face_at(data, four_bytes(data, 12 + 4 * i), i)) is Ok) {
        lemma_all_faces(data, count, count);
    }
}

/// A name of another platform is read as plain ASCII, or not at all.
pub proof fn law_plain_name_read(platform: int, b: Seq<u8>, i: int)
    requires
        platform != 0,
        platform != 3,
        0 <= i < b.len(),
    ensures
        name_text(platform, b) matches Some(t) ==> t.len() == b.len() && t[i] as int == b[i],
        b[i] < 0x20 && b[i] != 0x09 && b[i] != 0x0a && b[i] != 0x0d || b[i] >= 0x7f ==> name_text(
            platform,
            b,
        ) is None,
        (forall|j: int| 0 <= j < b.len() ==> 0x20 <= #[trigger] b[j] <= 0x7e) ==> name_text(
            platform,
            b,
        ) is Some,
{
}

/// Only records of use give names: those of the platforms that write UTF-16, of a
/// kind that is asked for, whose text lies within the table and is not blank.
pub proof fn law_only_useful_names(buf: Seq<u8>, n: int, k: int)
    requires
        0 <= n,
        0 <= k < names_upto(buf, n).len(),
    ensures
        exists|i: int|
            #![trigger name_at(buf, i)]
            {
                let at = 6 + 12 * i;
                let id = two_bytes(buf, at + 6);
                let start = two_bytes(buf, 4) + two_bytes(buf, at + 10);
                &&& 0 <= i < n
                &&& name_at(buf, i) == Some(names_upto(buf, n)[k])
                &&& two_bytes(buf, at) == 0 || two_bytes(buf, at) == 3
                &&& id == 1 || id == 2 || id == 4 || id == 5 || id == 6 || id == 16 || id == 17 || id
                    == 18 || id == 20 || id == 21 || id == 22 || id == 25
                &&& start + two_bytes(buf, at + 8) <= buf.len()
                &&& names_upto(buf, n)[k].value.len() > 0
            },
    decreases n,
{
    if n > 0 {
        let had = names_upto(buf, n - 1);
        if k < had.len() {
            law_only_useful_names(buf, n - 1, k);
            let i = choose|i: int|
                #![trigger name_at(buf, i)]
                {
                    let at = 6 + 12 * i;
                    let id = two_bytes(buf, at + 6);
                    let start = two_bytes(buf, 4) + two_bytes(buf, at + 10);
                    &&& 0 <= i < n - 1
                    &&& name_at(buf, i) == Some(names_upto(buf, n - 1)[k])
                    &&& two_bytes(buf, at) == 0 || two_bytes(buf, at) == 3
                    &&& id == 1 || id == 2 || id == 4 || id == 5 || id == 6 || id == 16 || id == 17
                        || id == 18 || id == 20 || id == 21 || id == 22 || id == 25
                    &&& start + two_bytes(buf, at + 8) <= buf.len()
                    &&& names_upto(buf, n - 1)[k].value.len() > 0
                };
            assert(names_upto(buf, n)[k] == had[k]);
            assert(name_at(buf, i) == Some(names_upto(buf, n)[k]));
        } else {
            assert(name_at(buf, n - 1) is Some);
            assert(name_at(buf, n - 1) == Some(names_upto(buf, n)[k]));
        }
    }
}

} // verus!
