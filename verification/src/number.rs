//! Decimal numbers as text.
use vstd::prelude::*;
use vstd::slice::slice_subrange;

use crate::text::{is_digit, to_chars};

verus! {

/// The value of the first `n` decimal digits.
pub open spec fn digits_upto(s: Seq<char>, n: int) -> int
    decreases n,
{
    if n <= 0 {
        0
    } else {
        digits_upto(s, n - 1) * 10 + (s[n - 1] as int - '0' as int)
    }
}

/// One or more decimal digits and nothing else.
pub open spec fn all_digits(s: Seq<char>) -> bool {
    s.len() > 0 && forall|i: int| 0 <= i < s.len() ==> is_digit(#[trigger] s[i])
}

pub open spec fn digits(s: Seq<char>) -> int {
    digits_upto(s, s.len() as int)
}

/// A text without one leading plus sign.
pub open spec fn after_plus(s: Seq<char>) -> Seq<char> {
    if s.len() > 0 && s[0] == '+' {
        s.skip(1)
    } else {
        s
    }
}

/// The unsigned number that the text writes in decimal, if it is at most `max`.
pub open spec fn unsigned(s: Seq<char>, max: int) -> Option<int> {
    let d = after_plus(s);
    if all_digits(d) && digits(d) <= max {
        Some(digits(d))
    } else {
        None
    }
}

/// The 32-bit signed number that the text writes in decimal.
pub open spec fn signed(s: Seq<char>) -> Option<int> {
    if s.len() > 0 && s[0] == '-' {
        let d = s.skip(1);
        if all_digits(d) && digits(d) <= 0x8000_0000 {
            Some(-digits(d))
        } else {
            None
        }
    } else {
        unsigned(s, 0x7fff_ffff)
    }
}

pub proof fn lemma_digits_grow(s: Seq<char>, n: int, m: int)
    requires
        0 <= n <= m <= s.len(),
        forall|i: int| 0 <= i < m ==> is_digit(#[trigger] s[i]),
    ensures
        0 <= digits_upto(s, n) <= digits_upto(s, m),
    decreases m,
{
    if n < m {
        lemma_digits_grow(s, n, m - 1);
        assert(is_digit(s[m - 1]));
    } else if m > 0 {
        lemma_digits_grow(s, m - 1, m - 1);
        assert(is_digit(s[m - 1]));
    }
}

fn parse_digits(s: &[char], max: u64) -> (r: Option<u64>)
    ensures
        match r {
            Some(v) => all_digits(s@) && v == digits(s@) && v <= max,
            None => !all_digits(s@) || digits(s@) > max,
        },
{
    if s.len() == 0 {
        return None;
    }
    let mut acc: u64 = 0;
    let mut over = false;
    let mut i: usize = 0;
    while i < s.len()
        invariant
            i <= s@.len(),
            s@.len() > 0,
            forall|j: int| 0 <= j < i ==> is_digit(#[trigger] s@[j]),
            !over ==> acc == digits_upto(s@, i as int) && acc <= max,
            over ==> digits_upto(s@, i as int) > max,
        decreases s@.len() - i,
    {
        let c = s[i];
        if !('0' <= c && c <= '9') {
            assert(!is_digit(s@[i as int]));
            return None;
        }
        let d: u64 = (c as u32 - '0' as u32) as u64;
        if !over {
            if acc as u128 * 10u128 + d as u128 > max as u128 {
                over = true;
            } else {
                acc = acc * 10 + d;
            }
        }
        proof {
            assert(is_digit(s@[i as int]));
            lemma_digits_grow(s@, i as int, i + 1);
        }
        i = i + 1;
    }
    if over {
        None
    } else {
        Some(acc)
    }
}

pub open spec fn u64_of(r: Option<u64>) -> Option<int> {
    match r {
        Some(v) => Some(v as int),
        None => None,
    }
}

pub open spec fn i32_of(r: Option<i32>) -> Option<int> {
    match r {
        Some(v) => Some(v as int),
        None => None,
    }
}

pub fn parse_unsigned(s: &[char], max: u64) -> (r: Option<u64>)
    ensures
        u64_of(r) == unsigned(s@, max as int),
{
    if s.len() > 0 && s[0] == '+' {
        let d = slice_subrange(s, 1, s.len());
        assert(d@ =~= s@.skip(1));
        parse_digits(d, max)
    } else {
        parse_digits(s, max)
    }
}

pub fn parse_unsigned_text(s: &str, max: u64) -> (r: Option<u64>)
    ensures
        u64_of(r) == unsigned(s@, max as int),
{
    let v = to_chars(s);
    parse_unsigned(v.as_slice(), max)
}

pub fn parse_signed(s: &[char]) -> (r: Option<i32>)
    ensures
        i32_of(r) == signed(s@),
{
    if s.len() > 0 && s[0] == '-' {
        let d = slice_subrange(s, 1, s.len());
        assert(d@ =~= s@.skip(1));
        match parse_digits(d, 0x8000_0000) {
            Some(v) => {
                let m: i64 = 0 - (v as i64);
                Some(m as i32)
            },
            None => None,
        }
    } else {
        match parse_unsigned(s, 0x7fff_ffff) {
            Some(v) => Some(v as i32),
            None => None,
        }
    }
}

/// The decimal digits of a number.
pub open spec fn decimal(n: nat) -> Seq<char>
    decreases n,
{
    if n < 10 {
        seq![('0' as u32 + n) as char]
    } else {
        decimal(n / 10).push(('0' as u32 + n % 10) as char)
    }
}

/// A signed number in decimal.
pub open spec fn signed_decimal(n: int) -> Seq<char> {
    if n < 0 {
        seq!['-'] + decimal((-n) as nat)
    } else {
        decimal(n as nat)
    }
}

pub fn decimal_chars(n: u64) -> (r: Vec<char>)
    ensures
        r@ == decimal(n as nat),
    decreases n,
{
    if n < 10 {
        let mut v: Vec<char> = Vec::new();
        v.push((48u8 + n as u8) as char);
        assert(v@ =~= decimal(n as nat));
        v
    } else {
        let mut v = decimal_chars(n / 10);
        v.push((48u8 + (n % 10) as u8) as char);
        v
    }
}

pub fn signed_decimal_chars(n: i64) -> (r: Vec<char>)
    ensures
        r@ == signed_decimal(n as int),
{
    if n < 0 {
        let m: i128 = 0 - (n as i128);
        let d = decimal_chars(m as u64);
        let mut v: Vec<char> = Vec::new();
        v.push('-');
        crate::text::push_all(&mut v, d.as_slice());
        assert(v@ =~= signed_decimal(n as int));
        v
    } else {
        decimal_chars(n as u64)
    }
}

pub proof fn lemma_decimal(n: nat)
    ensures
        all_digits(decimal(n)),
        digits(decimal(n)) == n,
    decreases n,
{
    if n >= 10 {
        lemma_decimal(n / 10);
        let d = decimal(n / 10);
        let c = ('0' as u32 + n % 10) as char;
        let t = d.push(c);
        assert forall|i: int| 0 <= i < t.len() implies is_digit(#[trigger] t[i]) by {
            if i < d.len() {
                assert(is_digit(d[i]));
            }
        }
        lemma_digits_same(d, t, d.len() as int);
        assert(digits_upto(t, t.len() as int) == digits_upto(t, t.len() - 1) * 10 + n % 10);
    } else {
        let t = decimal(n);
        assert(is_digit(t[0]));
        assert(digits_upto(t, 1) == digits_upto(t, 0) * 10 + n);
    }
}

proof fn lemma_digits_same(a: Seq<char>, b: Seq<char>, n: int)
    requires
        0 <= n <= a.len(),
        n <= b.len(),
        forall|i: int| 0 <= i < n ==> a[i] == b[i],
    ensures
        digits_upto(a, n) == digits_upto(b, n),
    decreases n,
{
    if n > 0 {
        lemma_digits_same(a, b, n - 1);
    }
}

/// A number in decimal is read back.
pub proof fn law_decimal_read_back(n: nat, max: int)
    requires
        n <= max,
    ensures
        unsigned(decimal(n), max) == Some(n as int),
{
    lemma_decimal(n);
    assert(is_digit(decimal(n)[0]));
}

} // verus!
