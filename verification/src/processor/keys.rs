//! The names of generated fonts and cache files.
use vstd::prelude::*;

use vstd::utf8::{encode_utf8, encode_utf8_decode_utf8};

use crate::ass::draw::{entry_views, DrawEntryView, DrawRestoreEntry};
use crate::config::ProcessingOptions;
use crate::digest::{
    hex_text, hex_upper, law_hex_injective, le32, push_bytes, push_le32, sha256, sha256_hex,
    sha256_of, sha256_text,
};
use crate::models::{FontCandidate, FontSlot};
use crate::text::{push_all, same_text, texts, to_chars, to_text};

verus! {

// ---------------------------------------------------------------------------
// Stable font names
// ---------------------------------------------------------------------------
/// What the digest of a stable name is taken of.
pub open spec fn name_bytes(normalized: Seq<char>, salt: int) -> Seq<u8> {
    encode_utf8("stable-font-name-v1"@) + encode_utf8(normalized) + le32(salt)
}

/// The name that a font is given, with a salt: two letters and ten digits of a
/// digest.
pub open spec fn stable_name(normalized: Seq<char>, salt: int) -> Seq<char> {
    "AS"@ + hex_text(sha256(name_bytes(normalized, salt)), true).take(10)
}

/// The first salt from `salt` on that gives a name not in use.
pub open spec fn free_salt(normalized: Seq<char>, used: Seq<Seq<char>>, salt: int) -> Option<int>
    decreases 0x1_0000_0000 - salt,
{
    if salt < 0 || salt >= 0x1_0000_0000 {
        None
    } else if used.contains(stable_name(normalized, salt)) {
        free_salt(normalized, used, salt + 1)
    } else {
        Some(salt)
    }
}

fn stable_name_of(normalized: &str, salt: u32) -> (r: String)
    ensures
        r@ == stable_name(normalized@, salt as int),
        r@.len() == 12,
{
    let mut data: Vec<u8> = Vec::new();
    push_bytes(&mut data, "stable-font-name-v1".as_bytes());
    push_bytes(&mut data, normalized.as_bytes());
    push_le32(&mut data, salt);
    assert(data@ =~= name_bytes(normalized@, salt as int));
    let digest = sha256_of(data.as_slice());
    let text = hex_upper(digest.as_slice());
    let c = to_chars(text.as_str());
    let mut out: Vec<char> = to_chars("AS");
    push_all(&mut out, vstd::slice::slice_subrange(c.as_slice(), 0, 10));
    assert(c@.subrange(0, 10) =~= c@.take(10));
    assert("AS"@.len() == 2) by {
        reveal_strlit("AS");
    }
    to_text(out.as_slice())
}

/// Whether a list holds a text.
pub fn holds_text(v: &Vec<String>, s: &str) -> (r: bool)
    ensures
        r == texts(v@).contains(s@),
{
    let mut i: usize = 0;
    while i < v.len()
        invariant
            i <= v@.len(),
            forall|j: int| 0 <= j < i ==> texts(v@)[j] != s@,
        decreases v@.len() - i,
    {
        if same_text(v[i].as_str(), s) {
            assert(texts(v@)[i as int] == s@);
            return true;
        }
        i = i + 1;
    }
    false
}

fn find_salt(normalized: &str, used: &Vec<String>) -> (r: Option<u32>)
    ensures
        match r {
            Some(s) => free_salt(normalized@, texts(used@), 0) == Some(s as int),
            None => free_salt(normalized@, texts(used@), 0) is None,
        },
{
    let mut salt: u64 = 0;
    while salt < 0x1_0000_0000
        invariant
            salt <= 0x1_0000_0000,
            free_salt(normalized@, texts(used@), 0) == free_salt(
                normalized@,
                texts(used@),
                salt as int,
            ),
        decreases 0x1_0000_0000 - salt,
    {
        let name = stable_name_of(normalized, salt as u32);
        if !holds_text(used, name.as_str()) {
            return Some(salt as u32);
        }
        salt = salt + 1;
    }
    None
}

/// Gives a font a name that no other has, and takes it. Some salt has to give a
/// name that is free.
pub fn stable_font_name(normalized_name: &str, used: &mut Vec<String>) -> (r: String)
    requires
        free_salt(normalized_name@, texts(old(used)@), 0) is Some,
    ensures
        r@ == stable_name(normalized_name@, free_salt(normalized_name@, texts(old(used)@), 0)->0),
        r@.len() == 12,
        !texts(old(used)@).contains(r@),
        texts(final(used)@) == texts(old(used)@).push(r@),
{
    let ghost had = texts(used@);
    let salt: u32 = match find_salt(normalized_name, used) {
        Some(s) => s,
        None => 0,
    };
    proof {
        lemma_free_salt(normalized_name@, had, 0);
    }
    let name = stable_name_of(normalized_name, salt);
    used.push(name.clone());
    assert(texts(used@) =~= had.push(name@));
    name
}

/// Gives a font a name that no other has, if any is free.
pub fn try_stable_font_name(normalized_name: &str, used: &mut Vec<String>) -> (r: Option<String>)
    ensures
        match r {
            Some(n) => {
                &&& free_salt(normalized_name@, texts(old(used)@), 0) is Some
                &&& n@ == stable_name(
                    normalized_name@,
                    free_salt(normalized_name@, texts(old(used)@), 0)->0,
                )
                &&& n@.len() == 12
                &&& !texts(old(used)@).contains(n@)
                &&& texts(final(used)@) == texts(old(used)@).push(n@)
            },
            None => {
                &&& free_salt(normalized_name@, texts(old(used)@), 0) is None
                &&& final(used)@ == old(used)@
            },
        },
{
    match find_salt(normalized_name, used) {
        Some(_) => Some(stable_font_name(normalized_name, used)),
        None => None,
    }
}

// ---------------------------------------------------------------------------
// Cache keys
// ---------------------------------------------------------------------------
pub open spec fn bool_byte(b: bool) -> u8 {
    if b {
        1
    } else {
        0
    }
}

fn byte_of(b: bool) -> (r: u8)
    ensures
        r == bool_byte(b),
{
    if b {
        1
    } else {
        0
    }
}

/// The bytes of the first `n` code points.
pub open spec fn codepoint_bytes(v: Seq<u32>, n: int) -> Seq<u8>
    decreases n,
{
    if n <= 0 {
        seq![]
    } else {
        codepoint_bytes(v, n - 1) + le32(v[n - 1] as int)
    }
}

/// A signed 32-bit number as an unsigned one with the same bits.
pub open spec fn unsigned_bits(n: int) -> int {
    if n < 0 {
        n + 0x1_0000_0000
    } else {
        n
    }
}

/// What the key of a subset is taken of: the font file and the face, the slot,
/// the options that change the font, the name and the code points.
pub open spec fn subset_key_bytes(
    embedded_name: Seq<char>,
    slot: FontSlot,
    codepoints: Seq<u32>,
    ttc_index: int,
    font_hash: Seq<char>,
    o: ProcessingOptions,
) -> Seq<u8> {
    encode_utf8("font-cache-v3"@) + encode_utf8(font_hash) + le32(unsigned_bits(ttc_index))
        + encode_utf8(slot.name_text()) + seq![
        bool_byte(o.include_ascii),
        bool_byte(o.full_font_embed),
        bool_byte(o.fallback_full_font_embed),
        bool_byte(o.variable_fonts),
    ] + encode_utf8(embedded_name) + codepoint_bytes(codepoints, codepoints.len() as int)
}

/// The key of a subset in the cache.
pub fn subset_cache_key(
    embedded_name: &str,
    slot: FontSlot,
    codepoints: &[u32],
    candidate: &FontCandidate,
    font_hash: &str,
    options: &ProcessingOptions,
) -> (r: String)
    ensures
        r@ == sha256_text(
            subset_key_bytes(
                embedded_name@,
                slot,
                codepoints@,
                candidate.ttc_index as int,
                font_hash@,
                *options,
            ),
        ),
        r@.len() == 64,
{
    let mut data: Vec<u8> = Vec::new();
    push_bytes(&mut data, "font-cache-v3".as_bytes());
    push_bytes(&mut data, font_hash.as_bytes());
    let index: u32 = if candidate.ttc_index < 0 {
        (candidate.ttc_index as i64 + 0x1_0000_0000) as u32
    } else {
        candidate.ttc_index as u32
    };
    push_le32(&mut data, index);
    push_bytes(&mut data, slot.as_str().as_bytes());
    let ghost before = data@;
    data.push(byte_of(options.include_ascii));
    data.push(byte_of(options.full_font_embed));
    data.push(byte_of(options.fallback_full_font_embed));
    data.push(byte_of(options.variable_fonts));
    assert(data@ =~= before + seq![
        bool_byte(options.include_ascii),
        bool_byte(options.full_font_embed),
        bool_byte(options.fallback_full_font_embed),
        bool_byte(options.variable_fonts),
    ]);
    push_bytes(&mut data, embedded_name.as_bytes());
    let ghost head = data@;
    let mut i: usize = 0;
    assert(data@ =~= head + codepoint_bytes(codepoints@, 0));
    while i < codepoints.len()
        invariant
            i <= codepoints@.len(),
            data@ == head + codepoint_bytes(codepoints@, i as int),
        decreases codepoints@.len() - i,
    {
        push_le32(&mut data, codepoints[i]);
        assert(data@ =~= head + codepoint_bytes(codepoints@, i + 1));
        i = i + 1;
    }
    assert(data@ =~= subset_key_bytes(
        embedded_name@,
        slot,
        codepoints@,
        candidate.ttc_index as int,
        font_hash@,
        *options,
    ));
    sha256_hex(data.as_slice())
}

/// What the key of a font of drawings is taken of, up to the `n`th drawing.
pub open spec fn draw_key_bytes(v: Seq<DrawEntryView>, n: int) -> Seq<u8>
    decreases n,
{
    if n <= 0 {
        encode_utf8("draw-cache-v3"@)
    } else {
        draw_key_bytes(v, n - 1) + encode_utf8(v[n - 1].data) + encode_utf8(v[n - 1].ch) + seq![
            v[n - 1].flags,
        ]
    }
}

/// The key of a font of drawings in the cache.
pub fn draw_cache_key(entries: &[DrawRestoreEntry]) -> (r: String)
    ensures
        r@ == sha256_text(draw_key_bytes(entry_views(entries@), entries@.len() as int)),
        r@.len() == 64,
{
    let ghost v = entry_views(entries@);
    let mut data: Vec<u8> = Vec::new();
    push_bytes(&mut data, "draw-cache-v3".as_bytes());
    assert(data@ =~= draw_key_bytes(v, 0));
    let mut i: usize = 0;
    while i < entries.len()
        invariant
            i <= entries@.len(),
            v == entry_views(entries@),
            data@ == draw_key_bytes(v, i as int),
        decreases entries@.len() - i,
    {
        let e = &entries[i];
        assert(v[i as int] == e@);
        push_bytes(&mut data, e.data.as_str().as_bytes());
        push_bytes(&mut data, e.ch.as_str().as_bytes());
        data.push(e.flags);
        assert(data@ =~= draw_key_bytes(v, i + 1));
        i = i + 1;
    }
    sha256_hex(data.as_slice())
}

// ---------------------------------------------------------------------------
// Laws
// ---------------------------------------------------------------------------
pub proof fn lemma_free_salt(normalized: Seq<char>, used: Seq<Seq<char>>, salt: int)
    requires
        0 <= salt <= 0x1_0000_0000,
    ensures
        match free_salt(normalized, used, salt) {
            Some(s) => {
                &&& salt <= s < 0x1_0000_0000
                &&& !used.contains(stable_name(normalized, s))
                &&& forall|t: int|
                    salt <= t < s ==> used.contains(#[trigger] stable_name(normalized, t))
            },
            None => forall|t: int|
                salt <= t < 0x1_0000_0000 ==> used.contains(#[trigger] stable_name(normalized, t)),
        },
    decreases 0x1_0000_0000 - salt,
{
    if salt < 0x1_0000_0000 && used.contains(stable_name(normalized, salt)) {
        lemma_free_salt(normalized, used, salt + 1);
    }
}

/// A font gets the same name wherever the same names are in use before, and its
/// first choice where none is.
pub proof fn law_stable_name_repeatable(normalized: Seq<char>)
    ensures
        free_salt(normalized, seq![], 0) == Some(0int),
{
}

/// The key of a subset depends on no option that leaves the font as it is: what it
/// is taken of is the same, and so is the key.
pub proof fn law_key_ignores_other_options(
    embedded_name: Seq<char>,
    slot: FontSlot,
    codepoints: Seq<u32>,
    ttc_index: int,
    font_hash: Seq<char>,
    a: ProcessingOptions,
    b: ProcessingOptions,
)
    requires
        a.include_ascii == b.include_ascii,
        a.full_font_embed == b.full_font_embed,
        a.fallback_full_font_embed == b.fallback_full_font_embed,
        a.variable_fonts == b.variable_fonts,
    ensures
        subset_key_bytes(embedded_name, slot, codepoints, ttc_index, font_hash, a)
            == subset_key_bytes(embedded_name, slot, codepoints, ttc_index, font_hash, b),
        sha256_text(subset_key_bytes(embedded_name, slot, codepoints, ttc_index, font_hash, a))
            == sha256_text(subset_key_bytes(embedded_name, slot, codepoints, ttc_index, font_hash, b)),
{
}

/// What the key is taken of changes with every option that changes the font. The
/// keys differ too, unless SHA-256 has one digest for both.
pub proof fn law_key_sees_font_options(
    embedded_name: Seq<char>,
    slot: FontSlot,
    codepoints: Seq<u32>,
    ttc_index: int,
    font_hash: Seq<char>,
    a: ProcessingOptions,
    b: ProcessingOptions,
)
    requires
        a.include_ascii != b.include_ascii || a.full_font_embed != b.full_font_embed
            || a.fallback_full_font_embed != b.fallback_full_font_embed || a.variable_fonts
            != b.variable_fonts,
    ensures
        ({
            let x = subset_key_bytes(embedded_name, slot, codepoints, ttc_index, font_hash, a);
            let y = subset_key_bytes(embedded_name, slot, codepoints, ttc_index, font_hash, b);
            &&& x != y
            &&& sha256(x) != sha256(y) ==> sha256_text(x) != sha256_text(y)
        }),
{
    let x = subset_key_bytes(embedded_name, slot, codepoints, ttc_index, font_hash, a);
    let y = subset_key_bytes(embedded_name, slot, codepoints, ttc_index, font_hash, b);
    let n = (encode_utf8("font-cache-v3"@) + encode_utf8(font_hash) + le32(
        unsigned_bits(ttc_index),
    ) + encode_utf8(slot.name_text())).len() as int;
    assert(x[n] == bool_byte(a.include_ascii) && y[n] == bool_byte(b.include_ascii));
    assert(x[n + 1] == bool_byte(a.full_font_embed) && y[n + 1] == bool_byte(b.full_font_embed));
    assert(x[n + 2] == bool_byte(a.fallback_full_font_embed) && y[n + 2] == bool_byte(
        b.fallback_full_font_embed,
    ));
    assert(x[n + 3] == bool_byte(a.variable_fonts) && y[n + 3] == bool_byte(b.variable_fonts));
    if sha256_text(x) == sha256_text(y) {
        law_hex_injective(sha256(x), sha256(y), false);
    }
}

/// Numbers of 32 bits have different bytes where they differ.
proof fn lemma_le32_differ(a: int, b: int)
    requires
        0 <= a < 0x1_0000_0000,
        0 <= b < 0x1_0000_0000,
        a != b,
    ensures
        le32(a) != le32(b),
{
    if le32(a) == le32(b) {
        assert(le32(a)[0] == le32(b)[0] && le32(a)[1] == le32(b)[1] && le32(a)[2] == le32(b)[2]
            && le32(a)[3] == le32(b)[3]);
        assert(a % 256 == b % 256);
        assert(a / 256 % 256 == b / 256 % 256);
        assert(a / 65536 % 256 == b / 65536 % 256);
        assert(a / 16777216 % 256 == b / 16777216 % 256);
    }
}

proof fn lemma_codepoint_bytes(v: Seq<u32>, n: int)
    requires
        0 <= n <= v.len(),
    ensures
        codepoint_bytes(v, n).len() == 4 * n,
        forall|i: int|
            0 <= i < n ==> codepoint_bytes(v, n).subrange(4 * i, 4 * i + 4) == le32(
                (#[trigger] v[i]) as int,
            ),
    decreases n,
{
    if n > 0 {
        lemma_codepoint_bytes(v, n - 1);
        let had = codepoint_bytes(v, n - 1);
        let all = codepoint_bytes(v, n);
        assert forall|i: int| 0 <= i < n implies all.subrange(4 * i, 4 * i + 4) == le32(
            (#[trigger] v[i]) as int,
        ) by {
            if i < n - 1 {
                assert(all.subrange(4 * i, 4 * i + 4) =~= had.subrange(4 * i, 4 * i + 4));
            } else {
                assert(all.subrange(4 * i, 4 * i + 4) =~= le32(v[i] as int));
            }
        }
    }
}

/// What the key of a subset is taken of changes with the code points that the
/// subset holds, whichever of them differ.
pub proof fn law_key_sees_codepoints(
    embedded_name: Seq<char>,
    slot: FontSlot,
    a: Seq<u32>,
    b: Seq<u32>,
    ttc_index: int,
    font_hash: Seq<char>,
    o: ProcessingOptions,
)
    requires
        a != b,
    ensures
        subset_key_bytes(embedded_name, slot, a, ttc_index, font_hash, o) != subset_key_bytes(
            embedded_name,
            slot,
            b,
            ttc_index,
            font_hash,
            o,
        ),
{
    let x = subset_key_bytes(embedded_name, slot, a, ttc_index, font_hash, o);
    let y = subset_key_bytes(embedded_name, slot, b, ttc_index, font_hash, o);
    let none: Seq<u32> = seq![];
    let head = subset_key_bytes(embedded_name, slot, none, ttc_index, font_hash, o);
    let (p, q) = (codepoint_bytes(a, a.len() as int), codepoint_bytes(b, b.len() as int));
    lemma_codepoint_bytes(a, a.len() as int);
    lemma_codepoint_bytes(b, b.len() as int);
    assert(x =~= head + p);
    assert(y =~= head + q);
    if x == y {
        assert(p =~= x.skip(head.len() as int));
        assert(q =~= y.skip(head.len() as int));
        assert(a.len() == b.len());
        assert forall|i: int| 0 <= i < a.len() implies a[i] == b[i] by {
            assert(p.subrange(4 * i, 4 * i + 4) == le32(a[i] as int));
            assert(q.subrange(4 * i, 4 * i + 4) == le32(b[i] as int));
            if a[i] != b[i] {
                lemma_le32_differ(a[i] as int, b[i] as int);
            }
        }
        assert(a =~= b);
    }
}

/// What the key of a subset is taken of changes with the face of a collection that
/// the subset is made of.
pub proof fn law_key_sees_face(
    embedded_name: Seq<char>,
    slot: FontSlot,
    codepoints: Seq<u32>,
    a: i32,
    b: i32,
    font_hash: Seq<char>,
    o: ProcessingOptions,
)
    requires
        a != b,
    ensures
        subset_key_bytes(embedded_name, slot, codepoints, a as int, font_hash, o)
            != subset_key_bytes(embedded_name, slot, codepoints, b as int, font_hash, o),
{
    let x = subset_key_bytes(embedded_name, slot, codepoints, a as int, font_hash, o);
    let y = subset_key_bytes(embedded_name, slot, codepoints, b as int, font_hash, o);
    let n = (encode_utf8("font-cache-v3"@) + encode_utf8(font_hash)).len() as int;
    assert(x.subrange(n, n + 4) =~= le32(unsigned_bits(a as int)));
    assert(y.subrange(n, n + 4) =~= le32(unsigned_bits(b as int)));
    lemma_le32_differ(unsigned_bits(a as int), unsigned_bits(b as int));
}

/// What the key of a subset is taken of changes with the font file, as long as the
/// digests are of one length.
pub proof fn law_key_sees_font(
    embedded_name: Seq<char>,
    slot: FontSlot,
    codepoints: Seq<u32>,
    ttc_index: int,
    a: Seq<char>,
    b: Seq<char>,
    o: ProcessingOptions,
)
    requires
        a != b,
        encode_utf8(a).len() == encode_utf8(b).len(),
    ensures
        subset_key_bytes(embedded_name, slot, codepoints, ttc_index, a, o) != subset_key_bytes(
            embedded_name,
            slot,
            codepoints,
            ttc_index,
            b,
            o,
        ),
{
    let x = subset_key_bytes(embedded_name, slot, codepoints, ttc_index, a, o);
    let y = subset_key_bytes(embedded_name, slot, codepoints, ttc_index, b, o);
    let n = encode_utf8("font-cache-v3"@).len() as int;
    let m = encode_utf8(a).len() as int;
    assert(x.subrange(n, n + m) =~= encode_utf8(a));
    assert(y.subrange(n, n + m) =~= encode_utf8(b));
    encode_utf8_decode_utf8(a);
    encode_utf8_decode_utf8(b);
}

/// What the key of a subset is taken of changes with the name that the subset has
/// inside the file.
pub proof fn law_key_sees_name(
    slot: FontSlot,
    codepoints: Seq<u32>,
    ttc_index: int,
    font_hash: Seq<char>,
    a: Seq<char>,
    b: Seq<char>,
    o: ProcessingOptions,
)
    requires
        a != b,
    ensures
        subset_key_bytes(a, slot, codepoints, ttc_index, font_hash, o) != subset_key_bytes(
            b,
            slot,
            codepoints,
            ttc_index,
            font_hash,
            o,
        ),
{
    let x = subset_key_bytes(a, slot, codepoints, ttc_index, font_hash, o);
    let y = subset_key_bytes(b, slot, codepoints, ttc_index, font_hash, o);
    let none: Seq<char> = seq![];
    let head = encode_utf8("font-cache-v3"@) + encode_utf8(font_hash) + le32(
        unsigned_bits(ttc_index),
    ) + encode_utf8(slot.name_text()) + seq![
        bool_byte(o.include_ascii),
        bool_byte(o.full_font_embed),
        bool_byte(o.fallback_full_font_embed),
        bool_byte(o.variable_fonts),
    ];
    let tail = codepoint_bytes(codepoints, codepoints.len() as int);
    let (p, q) = (encode_utf8(a), encode_utf8(b));
    assert(x =~= head + p + tail);
    assert(y =~= head + q + tail);
    if x == y {
        assert(p.len() == q.len());
        let n = head.len() as int;
        assert(x.subrange(n, n + p.len()) =~= p);
        assert(y.subrange(n, n + q.len()) =~= q);
        encode_utf8_decode_utf8(a);
        encode_utf8_decode_utf8(b);
    }
}

/// A generated name is two letters and ten hexadecimal digits in capitals, and what
/// it is taken of changes with the font and with the salt.
pub proof fn law_stable_name_shape(a: Seq<char>, b: Seq<char>, s: u32, t: u32)
    requires
        sha256(name_bytes(a, s as int)).len() == 32,
    ensures
        stable_name(a, s as int).len() == 12,
        stable_name(a, s as int)[0] == 'A',
        stable_name(a, s as int)[1] == 'S',
        forall|i: int|
            2 <= i < 12 ==> '0' <= (#[trigger] stable_name(a, s as int)[i]) <= '9' || 'A'
                <= stable_name(a, s as int)[i] <= 'F',
        a != b ==> name_bytes(a, s as int) != name_bytes(b, s as int),
        s != t ==> name_bytes(a, s as int) != name_bytes(a, t as int),
{
    reveal_strlit("AS");
    let name = stable_name(a, s as int);
    let digits = hex_text(sha256(name_bytes(a, s as int)), true);
    assert forall|i: int| 2 <= i < 12 implies '0' <= (#[trigger] name[i]) <= '9' || 'A' <= name[i]
        <= 'F' by {
        assert(name[i] == digits[i - 2]);
    }
    let head = encode_utf8("stable-font-name-v1"@);
    let (x, y) = (name_bytes(a, s as int), name_bytes(b, s as int));
    if a != b && x == y {
        let (p, q) = (encode_utf8(a), encode_utf8(b));
        let n = head.len() as int;
        assert(x.len() == n + p.len() + 4 && y.len() == n + q.len() + 4);
        assert(x.subrange(n, n + p.len()) =~= p);
        assert(y.subrange(n, n + q.len()) =~= q);
        encode_utf8_decode_utf8(a);
        encode_utf8_decode_utf8(b);
    }
    let z = name_bytes(a, t as int);
    if s != t && x == z {
        let n = (head + encode_utf8(a)).len() as int;
        assert(x.subrange(n, n + 4) =~= le32(s as int));
        assert(z.subrange(n, n + 4) =~= le32(t as int));
        lemma_le32_differ(s as int, t as int);
    }
}

proof fn lemma_draw_key(v: Seq<DrawEntryView>, w: Seq<DrawEntryView>, i: int, n: int)
    requires
        0 <= i <= v.len(),
        v.len() == w.len(),
        0 <= n <= v.len(),
        forall|k: int| 0 <= k < v.len() && k != i ==> v[k] == w[k],
        i < v.len() ==> encode_utf8(v[i].data).len() == encode_utf8(w[i].data).len() && v[i].ch
            == w[i].ch,
    ensures
        draw_key_bytes(v, n).len() == draw_key_bytes(w, n).len(),
        n <= i ==> draw_key_bytes(v, n) == draw_key_bytes(w, n),
        i < n && draw_key_bytes(v, n) == draw_key_bytes(w, n) ==> encode_utf8(v[i].data)
            == encode_utf8(w[i].data) && v[i].flags == w[i].flags,
    decreases n,
{
    if n > 0 {
        lemma_draw_key(v, w, i, n - 1);
        let (a, b) = (draw_key_bytes(v, n - 1), draw_key_bytes(w, n - 1));
        let (x, y) = (draw_key_bytes(v, n), draw_key_bytes(w, n));
        let (p, q) = (encode_utf8(v[n - 1].data), encode_utf8(w[n - 1].data));
        let c = encode_utf8(v[n - 1].ch);
        assert(x == a + p + c + seq![v[n - 1].flags]);
        assert(y == b + q + encode_utf8(w[n - 1].ch) + seq![w[n - 1].flags]);
        if i < n && x == y {
            assert(a =~= b) by {
                assert forall|k: int| 0 <= k < a.len() implies a[k] == b[k] by {
                    assert(x[k] == a[k] && y[k] == b[k]);
                }
            }
            if n - 1 == i {
                assert forall|k: int| 0 <= k < p.len() implies p[k] == q[k] by {
                    assert(x[a.len() + k] == p[k]);
                    assert(y[b.len() + k] == q[k]);
                }
                assert(p =~= q);
                let z = (a.len() + p.len() + c.len()) as int;
                assert(x[z] == v[i].flags);
                assert(y[z] == w[i].flags);
            }
        }
    }
}

/// The key of a font of drawings is taken of every drawing and its level: another
/// drawing of the same length, or another level, gives other bytes, and so does one
/// drawing more.
pub proof fn law_draw_key_sees_drawings(v: Seq<DrawEntryView>, i: int, e: DrawEntryView)
    requires
        0 <= i < v.len(),
        e.ch == v[i].ch,
        encode_utf8(e.data).len() == encode_utf8(v[i].data).len(),
        e.data != v[i].data || e.flags != v[i].flags,
    ensures
        draw_key_bytes(v.update(i, e), v.len() as int) != draw_key_bytes(v, v.len() as int),
        draw_key_bytes(v, v.len() as int) != draw_key_bytes(v, v.len() - 1),
{
    let n = v.len() as int;
    let w = v.update(i, e);
    lemma_draw_key(v, w, i, n);
    if draw_key_bytes(w, n) == draw_key_bytes(v, n) {
        encode_utf8_decode_utf8(e.data);
        encode_utf8_decode_utf8(v[i].data);
        assert(w[i] == e);
    }
    assert(draw_key_bytes(v, n).len() > draw_key_bytes(v, n - 1).len());
}

/// Whether bytes begin with others.
pub open spec fn begins(s: Seq<u8>, front: Seq<u8>) -> bool {
    front.len() <= s.len() && s.take(front.len() as int) == front
}

/// What names and keys are taken of begins with what it is for and its version, and
/// a switch is one or zero in it.
pub proof fn law_versions_in_keys(
    normalized: Seq<char>,
    salt: int,
    slot: FontSlot,
    codepoints: Seq<u32>,
    ttc_index: int,
    font_hash: Seq<char>,
    o: ProcessingOptions,
    v: Seq<DrawEntryView>,
    n: int,
)
    ensures
        begins(name_bytes(normalized, salt), encode_utf8("stable-font-name-v1"@)),
        begins(
            subset_key_bytes(normalized, slot, codepoints, ttc_index, font_hash, o),
            encode_utf8("font-cache-v3"@),
        ),
        begins(draw_key_bytes(v, n), encode_utf8("draw-cache-v3"@)),
        bool_byte(true) == 1,
        bool_byte(false) == 0,
    decreases n,
{
    let a = encode_utf8("stable-font-name-v1"@);
    assert(name_bytes(normalized, salt).take(a.len() as int) =~= a);
    let b = encode_utf8("font-cache-v3"@);
    let key = subset_key_bytes(normalized, slot, codepoints, ttc_index, font_hash, o);
    assert(key.take(b.len() as int) =~= b);
    let c = encode_utf8("draw-cache-v3"@);
    if n > 0 {
        law_versions_in_keys(
            normalized,
            salt,
            slot,
            codepoints,
            ttc_index,
            font_hash,
            o,
            v,
            n - 1,
        );
        let had = draw_key_bytes(v, n - 1);
        assert(draw_key_bytes(v, n).take(c.len() as int) =~= had.take(c.len() as int));
    } else {
        assert(draw_key_bytes(v, n).take(c.len() as int) =~= c);
    }
}

} // verus!
