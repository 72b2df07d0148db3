//! SHA-256 and the text forms of bytes.
use base64::Engine;
use sha2::{Digest, Sha256};
use vstd::prelude::*;

verus! {

/// The SHA-256 digest of the data.
pub uninterp spec fn sha256(data: Seq<u8>) -> Seq<u8>;

/// `Sha256::new`, `update` and `finalize` of the `sha2` crate: the SHA-256
/// digest of the data, 32 bytes that depend on the data alone.
#[verifier::external_body]
pub(crate) fn sha256_of(data: &[u8]) -> (r: Vec<u8>)
    ensures
        r@ == sha256(data@),
        r@.len() == 32,
{
    let mut h = Sha256::new();
    h.update(data);
    h.finalize().to_vec()
}

/// A hexadecimal digit.
pub open spec fn hex_char(n: int, upper: bool) -> char {
    if n < 10 {
        ('0' as int + n) as char
    } else if upper {
        ('A' as int + n - 10) as char
    } else {
        ('a' as int + n - 10) as char
    }
}

/// Bytes in hexadecimal, two digits each, the high one first.
pub open spec fn hex_text(b: Seq<u8>, upper: bool) -> Seq<char> {
    Seq::new(
        2 * b.len(),
        |i: int|
            if i % 2 == 0 {
                hex_char(b[i / 2] as int / 16, upper)
            } else {
                hex_char(b[i / 2] as int % 16, upper)
            },
    )
}

/// `hex::encode`: the bytes in hexadecimal with small letters.
#[verifier::external_body]
pub(crate) fn hex_lower(b: &[u8]) -> (r: String)
    ensures
        r@ == hex_text(b@, false),
{
    hex::encode(b)
}

/// `hex::encode_upper`: the bytes in hexadecimal with capital letters.
#[verifier::external_body]
pub(crate) fn hex_upper(b: &[u8]) -> (r: String)
    ensures
        r@ == hex_text(b@, true),
{
    hex::encode_upper(b)
}

/// The digest of the data in hexadecimal.
pub open spec fn sha256_text(data: Seq<u8>) -> Seq<char> {
    hex_text(sha256(data), false)
}

/// The digest of the data as 64 hexadecimal digits.
pub fn sha256_hex(data: &[u8]) -> (r: String)
    ensures
        r@ == sha256_text(data@),
        r@.len() == 64,
{
    let d = sha256_of(data);
    hex_lower(d.as_slice())
}

/// The standard Base64 alphabet.
pub open spec fn base64_char(n: int) -> char {
    if n < 26 {
        ('A' as int + n) as char
    } else if n < 52 {
        ('a' as int + n - 26) as char
    } else if n < 62 {
        ('0' as int + n - 52) as char
    } else if n == 62 {
        '+'
    } else {
        '/'
    }
}

/// Bytes in Base64: three bytes to four characters, padded with `=`.
pub open spec fn base64_text(b: Seq<u8>) -> Seq<char>
    decreases b.len(),
{
    if b.len() == 0 {
        seq![]
    } else {
        let b1 = if b.len() > 1 { b[1] as int } else { 0 };
        let b2 = if b.len() > 2 { b[2] as int } else { 0 };
        let v = b[0] * 65536 + b1 * 256 + b2;
        let c0 = base64_char(v / 262144);
        let c1 = base64_char(v / 4096 % 64);
        let c2 = if b.len() > 1 { base64_char(v / 64 % 64) } else { '=' };
        let c3 = if b.len() > 2 { base64_char(v % 64) } else { '=' };
        if b.len() <= 3 {
            seq![c0, c1, c2, c3]
        } else {
            seq![c0, c1, c2, c3] + base64_text(b.skip(3))
        }
    }
}

/// `Engine::encode` of `base64::engine::general_purpose::STANDARD`: the bytes in
/// the standard alphabet, padded with `=`.
#[verifier::external_body]
pub(crate) fn base64_of(b: &[u8]) -> (r: String)
    ensures
        r@ == base64_text(b@),
{
    base64::engine::general_purpose::STANDARD.encode(b)
}

/// A 32-bit number as four bytes, the lowest first.
pub open spec fn le32(n: int) -> Seq<u8> {
    seq![
        (n % 256) as u8,
        (n / 256 % 256) as u8,
        (n / 65536 % 256) as u8,
        (n / 16777216 % 256) as u8,
    ]
}

pub fn push_le32(out: &mut Vec<u8>, n: u32)
    ensures
        final(out)@ == old(out)@ + le32(n as int),
{
    let ghost before = out@;
    out.push((n % 256) as u8);
    out.push((n / 256 % 256) as u8);
    out.push((n / 65536 % 256) as u8);
    out.push((n / 16777216 % 256) as u8);
    assert(out@ =~= before + le32(n as int));
}

/// Appends bytes to a list of bytes.
pub fn push_bytes(out: &mut Vec<u8>, b: &[u8])
    ensures
        final(out)@ == old(out)@ + b@,
{
    let ghost before = out@;
    let mut i: usize = 0;
    while i < b.len()
        invariant
            i <= b@.len(),
            out@ == before + b@.take(i as int),
        decreases b@.len() - i,
    {
        out.push(b[i]);
        assert(before + b@.take(i + 1) =~= (before + b@.take(i as int)).push(b@[i as int]));
        i = i + 1;
    }
    assert(b@.take(b@.len() as int) =~= b@);
}

// ---------------------------------------------------------------------------
// Laws
// ---------------------------------------------------------------------------
/// Different bytes have different hexadecimal texts.
pub proof fn law_hex_injective(a: Seq<u8>, b: Seq<u8>, upper: bool)
    requires
        hex_text(a, upper) == hex_text(b, upper),
    ensures
        a == b,
{
    assert(2 * a.len() == hex_text(a, upper).len() == hex_text(b, upper).len() == 2 * b.len());
    assert forall|i: int| 0 <= i < a.len() implies a[i] == b[i] by {
        let (x, y) = (a[i], b[i]);
        assert(hex_text(a, upper)[2 * i] == hex_char(x as int / 16, upper));
        assert(hex_text(b, upper)[2 * i] == hex_char(y as int / 16, upper));
        assert(hex_text(a, upper)[2 * i + 1] == hex_char(x as int % 16, upper));
        assert(hex_text(b, upper)[2 * i + 1] == hex_char(y as int % 16, upper));
        lemma_hex_digit(x as int / 16, y as int / 16, upper);
        lemma_hex_digit(x as int % 16, y as int % 16, upper);
    }
    assert(a =~= b);
}

proof fn lemma_hex_digit(m: int, n: int, upper: bool)
    requires
        0 <= m < 16,
        0 <= n < 16,
        hex_char(m, upper) == hex_char(n, upper),
    ensures
        m == n,
{
}

/// A byte is written as two digits, the higher one first, in small or capital
/// letters.
pub proof fn law_hex_digits(b: Seq<u8>, i: int)
    requires
        0 <= i < b.len(),
    ensures
        hex_text(b, false).len() == 2 * b.len(),
        ({
            let (x, y) = (b[i] as int / 16, b[i] as int % 16);
            &&& hex_text(b, false)[2 * i] as int == if x < 10 {
                48 + x
            } else {
                87 + x
            }
            &&& hex_text(b, false)[2 * i + 1] as int == if y < 10 {
                48 + y
            } else {
                87 + y
            }
            &&& hex_text(b, true)[2 * i] as int == if x < 10 {
                48 + x
            } else {
                55 + x
            }
            &&& hex_text(b, true)[2 * i + 1] as int == if y < 10 {
                48 + y
            } else {
                55 + y
            }
        }),
{
}

/// The four bytes of a number, the lowest first, give the number back.
pub proof fn law_four_bytes(n: u32)
    ensures
        le32(n as int).len() == 4,
        le32(n as int)[0] + le32(n as int)[1] * 256 + le32(n as int)[2] * 65536 + le32(n as int)[3]
            * 16777216 == n,
{
    let n = n as int;
    assert(n == n / 256 * 256 + n % 256);
    assert(n / 256 == n / 65536 * 256 + n / 256 % 256);
    assert(n / 65536 == n / 16777216 * 256 + n / 65536 % 256);
}

} // verus!
