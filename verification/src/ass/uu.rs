//! The text form of binary data in the `[Fonts]` section: six bits to a
//! character, starting at `!`.
use vstd::arithmetic::div_mod::lemma_fundamental_div_mod_converse;
use vstd::prelude::*;

use crate::text::{code, is_white, to_chars, to_text, white};

verus! {

/// Why embedded data cannot be decoded.
#[derive(Clone, Copy, Debug, PartialEq, Eq, Structural)]
pub enum UuError {
    /// A character outside `!` to `` ` ``.
    InvalidCharacter,
    /// A last group of one character.
    Truncated,
}

/// The character that stands for six bits.
pub open spec fn uu_char(x: int) -> char {
    (33 + x) as char
}

/// The characters of the first three bytes, or of what is left of them.
#[verifier::opaque]
pub open spec fn uu_group(b: Seq<u8>) -> Seq<char> {
    let b0 = b[0] as int;
    let b1 = if b.len() > 1 { b[1] as int } else { 0 };
    let b2 = if b.len() > 2 { b[2] as int } else { 0 };
    let v = b0 * 65536 + b1 * 256 + b2;
    let c0 = uu_char(v / 262144);
    let c1 = uu_char(v / 4096 % 64);
    let c2 = uu_char(v / 64 % 64);
    let c3 = uu_char(v % 64);
    if b.len() > 2 {
        seq![c0, c1, c2, c3]
    } else if b.len() > 1 {
        seq![c0, c1, c2]
    } else {
        seq![c0, c1]
    }
}

/// The text form of the bytes.
pub open spec fn uu_text(b: Seq<u8>) -> Seq<char>
    decreases b.len(),
{
    if b.len() == 0 {
        seq![]
    } else if b.len() <= 3 {
        uu_group(b)
    } else {
        uu_group(b) + uu_text(b.skip(3))
    }
}

/// The text without its white space.
pub open spec fn unspaced(s: Seq<char>, n: int) -> Seq<char>
    decreases n,
{
    if n <= 0 {
        seq![]
    } else if is_white(s[n - 1]) {
        unspaced(s, n - 1)
    } else {
        unspaced(s, n - 1).push(s[n - 1])
    }
}

pub open spec fn is_uu_char(c: char) -> bool {
    33 <= c as int <= 96
}

/// The bytes of the first four characters, or of what is left of them.
#[verifier::opaque]
pub open spec fn uu_group_bytes(s: Seq<char>) -> Seq<u8> {
    let x0 = s[0] as int - 33;
    let x1 = s[1] as int - 33;
    let x2 = if s.len() > 2 { s[2] as int - 33 } else { 0 };
    let x3 = if s.len() > 3 { s[3] as int - 33 } else { 0 };
    let v = x0 * 262144 + x1 * 4096 + x2 * 64 + x3;
    let y0 = (v / 65536 % 256) as u8;
    let y1 = (v / 256 % 256) as u8;
    let y2 = (v % 256) as u8;
    if s.len() > 3 {
        seq![y0, y1, y2]
    } else if s.len() > 2 {
        seq![y0, y1]
    } else {
        seq![y0]
    }
}

/// The bytes of characters that all stand for six bits.
pub open spec fn uu_bytes(s: Seq<char>) -> Seq<u8>
    decreases s.len(),
{
    if s.len() < 2 {
        seq![]
    } else if s.len() <= 4 {
        uu_group_bytes(s)
    } else {
        uu_group_bytes(s) + uu_bytes(s.skip(4))
    }
}

/// What a text decodes to.
pub open spec fn uu_decoded(s: Seq<char>) -> Result<Seq<u8>, UuError> {
    let kept = unspaced(s, s.len() as int);
    if exists|i: int| 0 <= i < kept.len() && !is_uu_char(#[trigger] kept[i]) {
        Err(UuError::InvalidCharacter)
    } else if kept.len() % 4 == 1 {
        Err(UuError::Truncated)
    } else {
        Ok(uu_bytes(kept))
    }
}

pub open spec fn bytes_of(r: Result<Vec<u8>, UuError>) -> Result<Seq<u8>, UuError> {
    match r {
        Ok(v) => Ok(v@),
        Err(e) => Err(e),
    }
}

fn uu_char_of(x: u32) -> (r: char)
    requires
        x < 64,
    ensures
        r == uu_char(x as int),
{
    (33u8 + x as u8) as char
}

pub fn uu_encode_chars(bytes: &[u8]) -> (r: Vec<char>)
    ensures
        r@ == uu_text(bytes@),
{
    let mut out: Vec<char> = Vec::new();
    let n = bytes.len();
    let mut i: usize = 0;
    assert(bytes@.skip(0) =~= bytes@);
    assert(out@ + uu_text(bytes@.skip(0)) =~= uu_text(bytes@));
    while i < n
        invariant
            i <= n == bytes@.len(),
            out@ + uu_text(bytes@.skip(i as int)) == uu_text(bytes@),
        decreases n - i,
    {
        let rem: usize = n - i;
        let b0: u32 = bytes[i] as u32;
        let b1: u32 = if rem > 1 { bytes[i + 1] as u32 } else { 0 };
        let b2: u32 = if rem > 2 { bytes[i + 2] as u32 } else { 0 };
        let v: u32 = b0 * 65536 + b1 * 256 + b2;
        let ghost before = out@;
        let ghost here = bytes@.skip(i as int);
        out.push(uu_char_of(v / 262144));
        out.push(uu_char_of(v / 4096 % 64));
        if rem > 1 {
            out.push(uu_char_of(v / 64 % 64));
        }
        if rem > 2 {
            out.push(uu_char_of(v % 64));
        }
        assert(out@ =~= before + uu_group(here)) by {
            reveal(uu_group);
        }
        if rem <= 3 {
            i = n;
            assert(bytes@.skip(n as int).len() == 0);
            assert(out@ + uu_text(bytes@.skip(n as int)) =~= before + uu_text(here));
        } else {
            i = i + 3;
            assert(here.skip(3) =~= bytes@.skip(i as int));
            assert(out@ + uu_text(bytes@.skip(i as int)) =~= before + uu_text(here));
        }
    }
    assert(bytes@.skip(i as int).len() == 0);
    assert(out@ + uu_text(bytes@.skip(i as int)) =~= out@);
    out
}

/// Writes bytes in the text form of the `[Fonts]` section.
pub fn ass_uu_encode(bytes: &[u8]) -> (r: String)
    ensures
        r@ == uu_text(bytes@),
{
    let v = uu_encode_chars(bytes);
    to_text(v.as_slice())
}

pub fn uu_decode_chars(s: &[char]) -> (r: Result<Vec<u8>, UuError>)
    ensures
        bytes_of(r) == uu_decoded(s@),
{
    let mut kept: Vec<char> = Vec::new();
    let mut i: usize = 0;
    while i < s.len()
        invariant
            i <= s@.len(),
            kept@ == unspaced(s@, i as int),
        decreases s@.len() - i,
    {
        if !white(s[i]) {
            kept.push(s[i]);
        }
        i = i + 1;
    }
    let n = kept.len();
    let mut k: usize = 0;
    while k < n
        invariant
            k <= n == kept@.len(),
            kept@ == unspaced(s@, s@.len() as int),
            forall|j: int| 0 <= j < k ==> is_uu_char(#[trigger] kept@[j]),
        decreases n - k,
    {
        let u: u32 = code(kept[k]);
        if u < 33 || u > 96 {
            assert(!is_uu_char(kept@[k as int]));
            return Err(UuError::InvalidCharacter);
        }
        assert(is_uu_char(kept@[k as int]));
        k = k + 1;
    }
    if n % 4 == 1 {
        return Err(UuError::Truncated);
    }
    let mut out: Vec<u8> = Vec::new();
    let mut p: usize = 0;
    assert(kept@.skip(0) =~= kept@);
    assert(out@ + uu_bytes(kept@.skip(0)) =~= uu_bytes(kept@));
    while p < n
        invariant
            p <= n == kept@.len(),
            (n - p) % 4 != 1,
            forall|j: int| 0 <= j < n ==> is_uu_char(#[trigger] kept@[j]),
            out@ + uu_bytes(kept@.skip(p as int)) == uu_bytes(kept@),
        decreases n - p,
    {
        let rem: usize = n - p;
        let ghost here = kept@.skip(p as int);
        let ghost before = out@;
        assert(is_uu_char(kept@[p as int]) && is_uu_char(kept@[p + 1]));
        let x0: u32 = kept[p] as u32 - 33;
        let x1: u32 = kept[p + 1] as u32 - 33;
        assert(rem > 2 ==> is_uu_char(kept@[p + 2]));
        assert(rem > 3 ==> is_uu_char(kept@[p + 3]));
        let x2: u32 = if rem > 2 { kept[p + 2] as u32 - 33 } else { 0 };
        let x3: u32 = if rem > 3 { kept[p + 3] as u32 - 33 } else { 0 };
        let v: u32 = x0 * 262144 + x1 * 4096 + x2 * 64 + x3;
        out.push((v / 65536 % 256) as u8);
        if rem > 2 {
            out.push((v / 256 % 256) as u8);
        }
        if rem > 3 {
            out.push((v % 256) as u8);
        }
        assert(out@ =~= before + uu_group_bytes(here)) by {
            reveal(uu_group_bytes);
        }
        if rem > 4 {
            p = p + 4;
            assert(here.skip(4) =~= kept@.skip(p as int));
            assert(out@ + uu_bytes(kept@.skip(p as int)) =~= before + uu_bytes(here));
        } else {
            p = n;
            assert(kept@.skip(n as int).len() == 0);
            assert(out@ + uu_bytes(kept@.skip(n as int)) =~= before + uu_bytes(here));
        }
    }
    assert(kept@.skip(p as int).len() == 0);
    assert(out@ + uu_bytes(kept@.skip(p as int)) =~= out@);
    Ok(out)
}

/// Reads bytes back from their text form, ignoring white space.
pub fn ass_uu_decode(s: &str) -> (r: Result<Vec<u8>, UuError>)
    ensures
        bytes_of(r) == uu_decoded(s@),
{
    let v = to_chars(s);
    uu_decode_chars(v.as_slice())
}

// ---------------------------------------------------------------------------
// Laws
// ---------------------------------------------------------------------------
pub proof fn lemma_uu_group_chars(b: Seq<u8>)
    requires
        b.len() > 0,
    ensures
        forall|i: int| 0 <= i < uu_group(b).len() ==> is_uu_char(#[trigger] uu_group(b)[i]),
        b.len() > 2 ==> uu_group(b).len() == 4,
        b.len() <= 2 ==> uu_group(b).len() == b.len() + 1,
{
    reveal(uu_group);
}

proof fn lemma_six_bits(b0: int, b1: int, b2: int)
    requires
        0 <= b0 < 256,
        0 <= b1 < 256,
        0 <= b2 < 256,
    ensures
        ({
            let v = b0 * 65536 + b1 * 256 + b2;
            &&& (v / 262144) * 262144 + (v / 4096 % 64) * 4096 + (v / 64 % 64) * 64 + v % 64 == v
            &&& v / 65536 % 256 == b0
            &&& v / 256 % 256 == b1
            &&& v % 256 == b2
            &&& 0 <= v / 262144 < 64
            &&& b2 == 0 ==> v % 64 == 0
            &&& b1 == 0 && b2 == 0 ==> v / 64 % 64 == 0
        }),
{
    let v = b0 * 65536 + b1 * 256 + b2;
    let (h0, l0) = (b0 / 4, b0 % 4);
    let (h1, l1) = (b1 / 16, b1 % 16);
    let (h2, l2) = (b2 / 64, b2 % 64);
    let x1 = 16 * l0 + h1;
    let x2 = 4 * l1 + h2;
    lemma_fundamental_div_mod_converse(v, 262144, h0, 4096 * x1 + 64 * x2 + l2);
    lemma_fundamental_div_mod_converse(v, 4096, 64 * h0 + x1, 64 * x2 + l2);
    lemma_fundamental_div_mod_converse(64 * h0 + x1, 64, h0, x1);
    lemma_fundamental_div_mod_converse(v, 64, 4096 * h0 + 64 * x1 + x2, l2);
    lemma_fundamental_div_mod_converse(4096 * h0 + 64 * x1 + x2, 64, 64 * h0 + x1, x2);
    lemma_fundamental_div_mod_converse(v, 65536, b0, b1 * 256 + b2);
    lemma_fundamental_div_mod_converse(b0, 256, 0, b0);
    lemma_fundamental_div_mod_converse(v, 256, b0 * 256 + b1, b2);
    lemma_fundamental_div_mod_converse(b0 * 256 + b1, 256, b0, b1);
}

/// Encoded text holds only characters of the code.
pub proof fn lemma_uu_text_chars(b: Seq<u8>)
    ensures
        forall|i: int| 0 <= i < uu_text(b).len() ==> is_uu_char(#[trigger] uu_text(b)[i]),
        uu_text(b).len() % 4 != 1,
    decreases b.len(),
{
    if b.len() > 0 {
        lemma_uu_group_chars(b);
        if b.len() > 3 {
            lemma_uu_text_chars(b.skip(3));
            assert forall|i: int| 0 <= i < uu_text(b).len() implies is_uu_char(
                #[trigger] uu_text(b)[i],
            ) by {
                if i < 4 {
                    assert(uu_text(b)[i] == uu_group(b)[i]);
                } else {
                    assert(uu_text(b)[i] == uu_text(b.skip(3))[i - 4]);
                }
            }
        }
    }
}

/// A text without white space stays as it is.
pub proof fn lemma_unspaced(s: Seq<char>, n: int)
    requires
        0 <= n <= s.len(),
        forall|i: int| 0 <= i < n ==> !is_white(#[trigger] s[i]),
    ensures
        unspaced(s, n) == s.take(n),
    decreases n,
{
    if n > 0 {
        lemma_unspaced(s, n - 1);
        assert(s.take(n) =~= s.take(n - 1).push(s[n - 1]));
    } else {
        assert(s.take(0) =~= seq![]);
    }
}

/// White space between the characters does not change what is kept.
pub proof fn lemma_unspaced_add(a: Seq<char>, b: Seq<char>, n: int)
    requires
        0 <= n <= b.len(),
    ensures
        unspaced(a + b, a.len() + n) == unspaced(a, a.len() as int) + unspaced(b, n),
    decreases n,
{
    if n == 0 {
        lemma_unspaced_prefix(a, a + b, a.len() as int);
        assert(unspaced(a, a.len() as int) + unspaced(b, 0) =~= unspaced(a, a.len() as int));
    } else {
        lemma_unspaced_add(a, b, n - 1);
        assert((a + b)[a.len() + n - 1] == b[n - 1]);
        assert(unspaced(a + b, a.len() + n) =~= unspaced(a, a.len() as int) + unspaced(b, n));
    }
}

pub proof fn lemma_unspaced_prefix(a: Seq<char>, b: Seq<char>, n: int)
    requires
        0 <= n <= a.len() <= b.len(),
        forall|i: int| 0 <= i < n ==> a[i] == b[i],
    ensures
        unspaced(a, n) == unspaced(b, n),
    decreases n,
{
    if n > 0 {
        lemma_unspaced_prefix(a, b, n - 1);
    }
}

proof fn lemma_uu_group_back(b: Seq<u8>)
    requires
        0 < b.len(),
    ensures
        b.len() >= 3 ==> uu_bytes(uu_group(b)) == seq![b[0], b[1], b[2]],
        b.len() < 3 ==> uu_bytes(uu_group(b)) == b,
{
    let g = uu_group(b);
    let b0 = b[0] as int;
    let b1 = if b.len() > 1 { b[1] as int } else { 0 };
    let b2 = if b.len() > 2 { b[2] as int } else { 0 };
    let v = b0 * 65536 + b1 * 256 + b2;
    lemma_six_bits(b0, b1, b2);
    reveal(uu_group);
    reveal(uu_group_bytes);
    if b.len() > 2 {
        assert(uu_bytes(g) =~= seq![b[0], b[1], b[2]]);
    } else if b.len() == 2 {
        assert(uu_bytes(g) =~= b);
    } else {
        assert(uu_bytes(g) =~= b);
    }
}

proof fn lemma_uu_bytes_add(g: Seq<char>, t: Seq<char>)
    requires
        g.len() == 4,
    ensures
        uu_bytes(g + t) == uu_bytes(g) + uu_bytes(t),
{
    reveal(uu_group_bytes);
    assert((g + t).skip(4) =~= t);
    if t.len() == 0 {
        assert(g + t =~= g);
    }
    assert(uu_bytes(g + t) =~= uu_bytes(g) + uu_bytes(t));
}

proof fn lemma_uu_bytes_text(b: Seq<u8>)
    ensures
        uu_bytes(uu_text(b)) == b,
    decreases b.len(),
{
    if b.len() == 0 {
        assert(uu_bytes(uu_text(b)) =~= b);
    } else {
        lemma_uu_group_back(b);
        if b.len() > 3 {
            lemma_uu_group_chars(b);
            lemma_uu_bytes_text(b.skip(3));
            lemma_uu_bytes_add(uu_group(b), uu_text(b.skip(3)));
            assert(b =~= seq![b[0], b[1], b[2]] + b.skip(3));
        } else if b.len() == 3 {
            assert(b =~= seq![b[0], b[1], b[2]]);
        }
    }
}

/// Decoding gives back what was encoded.
pub proof fn law_uu_round_trip(b: Seq<u8>)
    ensures
        uu_decoded(uu_text(b)) == Ok::<Seq<u8>, UuError>(b),
{
    let s = uu_text(b);
    lemma_uu_text_chars(b);
    assert forall|i: int| 0 <= i < s.len() implies !is_white(#[trigger] s[i]) by {
        assert(is_uu_char(s[i]));
    }
    lemma_unspaced(s, s.len() as int);
    assert(s.take(s.len() as int) =~= s);
    lemma_uu_bytes_text(b);
}

/// Decoding does not depend on how the text is broken into lines.
pub proof fn law_uu_ignores_space(a: Seq<char>, w: Seq<char>, b: Seq<char>)
    requires
        forall|i: int| 0 <= i < w.len() ==> is_white(#[trigger] w[i]),
    ensures
        uu_decoded(a + w + b) == uu_decoded(a + b),
{
    lemma_unspaced_add(a + w, b, b.len() as int);
    lemma_unspaced_add(a, w, w.len() as int);
    lemma_unspaced_add(a, b, b.len() as int);
    lemma_unspaced_white(w, w.len() as int);
    assert((a + w).len() == a.len() + w.len());
    assert(unspaced(a, a.len() as int) + seq![] =~= unspaced(a, a.len() as int));
}

proof fn lemma_unspaced_white(w: Seq<char>, n: int)
    requires
        0 <= n <= w.len(),
        forall|i: int| 0 <= i < w.len() ==> is_white(#[trigger] w[i]),
    ensures
        unspaced(w, n) == Seq::<char>::empty(),
    decreases n,
{
    if n > 0 {
        lemma_unspaced_white(w, n - 1);
        assert(is_white(w[n - 1]));
    }
}

/// Three bytes are written as four characters of six bits each, the highest bits
/// first, counted from `!`; what follows is written behind them.
pub proof fn law_three_bytes_written(b: Seq<u8>)
    requires
        b.len() >= 3,
    ensures
        uu_text(b).len() == 4 + uu_text(b.skip(3)).len(),
        uu_text(b)[0] as int == 33 + b[0] / 4,
        uu_text(b)[1] as int == 33 + b[0] % 4 * 16 + b[1] / 16,
        uu_text(b)[2] as int == 33 + b[1] % 16 * 4 + b[2] / 64,
        uu_text(b)[3] as int == 33 + b[2] % 64,
        uu_text(b).skip(4) == uu_text(b.skip(3)),
{
    lemma_sextets(b[0] as int, b[1] as int, b[2] as int);
    reveal(uu_group);
    let g = uu_group(b);
    assert(g.len() == 4);
    assert(uu_text(b) =~= g + uu_text(b.skip(3))) by {
        if b.len() == 3 {
            assert(uu_text(b.skip(3)) =~= seq![]);
        }
    }
    assert(uu_text(b).skip(4) =~= uu_text(b.skip(3)));
}

/// One byte that is left over is written as two characters, and two bytes as three.
pub proof fn law_last_bytes_written(b: Seq<u8>)
    requires
        1 <= b.len() <= 2,
    ensures
        uu_text(b).len() == b.len() + 1,
        uu_text(b)[0] as int == 33 + b[0] / 4,
        b.len() == 1 ==> uu_text(b)[1] as int == 33 + b[0] % 4 * 16,
        b.len() == 2 ==> uu_text(b)[1] as int == 33 + b[0] % 4 * 16 + b[1] / 16,
        b.len() == 2 ==> uu_text(b)[2] as int == 33 + b[1] % 16 * 4,
{
    let b1 = if b.len() > 1 { b[1] as int } else { 0 };
    lemma_sextets(b[0] as int, b1, 0);
    reveal(uu_group);
}

proof fn lemma_sextets(x: int, y: int, z: int)
    requires
        0 <= x < 256,
        0 <= y < 256,
        0 <= z < 256,
    ensures
        ({
            let v = x * 65536 + y * 256 + z;
            &&& v / 262144 == x / 4
            &&& v / 4096 % 64 == x % 4 * 16 + y / 16
            &&& v / 64 % 64 == y % 16 * 4 + z / 64
            &&& v % 64 == z % 64
        }),
{
    let v = x * 65536 + y * 256 + z;
    assert(v / 262144 == x / 4);
    assert(v / 4096 == x * 16 + y / 16);
    assert((x * 16 + y / 16) % 64 == x % 4 * 16 + y / 16);
    assert(v / 64 == x * 1024 + y * 4 + z / 64);
    assert((x * 1024 + y * 4 + z / 64) % 64 == y % 16 * 4 + z / 64);
}

} // verus!
