//! Decimal and hexadecimal rendering and the FNV-1a content fingerprint.

use vstd::prelude::*;
use crate::text::{chars_of, extend_all, string_of};
use vstd::string::StringSliceAdditionalSpecFns;

verus! {

/// The character of a digit below 16 (lowercase for 10..15).
pub open spec fn digit_char(d: int) -> char {
    if d < 10 {
        ((48 + d) as u8) as char
    } else {
        ((87 + d) as u8) as char
    }
}

/// Decimal rendering of `n` (`format!("{n}")`).
pub open spec fn dec_digits(n: nat) -> Seq<char>
    decreases n,
{
    if n < 10 {
        seq![digit_char(n as int)]
    } else {
        dec_digits(n / 10).push(digit_char((n % 10) as int))
    }
}

/// Lowercase hexadecimal rendering of `n` on exactly `width` digits.
pub open spec fn hex_fixed(n: nat, width: nat) -> Seq<char>
    decreases width,
{
    if width == 0 {
        seq![]
    } else {
        hex_fixed(n / 16, (width - 1) as nat).push(digit_char((n % 16) as int))
    }
}

/// Decimal rendering left-padded with zeros to `width` digits (`{:0width$}`).
pub open spec fn dec_padded(n: nat, width: nat) -> Seq<char> {
    if dec_digits(n).len() >= width {
        dec_digits(n)
    } else {
        Seq::new((width - dec_digits(n).len()) as nat, |i: int| '0') + dec_digits(n)
    }
}

fn digit(d: u64) -> (c: char)
    requires
        d < 16,
    ensures
        c == digit_char(d as int),
{
    if d < 10 {
        ((48 + d) as u8) as char
    } else {
        ((87 + d) as u8) as char
    }
}

/// The decimal digits of `n`.
pub fn dec_vec(n: usize) -> (r: Vec<char>)
    ensures
        r@ == dec_digits(n as nat),
    decreases n,
{
    if n < 10 {
        let mut v: Vec<char> = Vec::new();
        v.push(digit(n as u64));
        v
    } else {
        let mut v = dec_vec(n / 10);
        v.push(digit((n % 10) as u64));
        v
    }
}

/// `format!("{n}")`.
pub fn dec_string(n: usize) -> (r: String)
    ensures
        r@ == dec_digits(n as nat),
{
    let v = dec_vec(n);
    string_of(&v)
}

/// The decimal digits of `n`, zero-padded to `width`.
pub fn dec_padded_vec(n: usize, width: usize) -> (r: Vec<char>)
    ensures
        r@ == dec_padded(n as nat, width as nat),
{
    let d = dec_vec(n);
    if d.len() >= width {
        return d;
    }
    let mut out: Vec<char> = Vec::new();
    let pad = width - d.len();
    let mut i: usize = 0;
    while i < pad
        invariant
            i <= pad,
            pad == width - d@.len(),
            out@ == Seq::new(i as nat, |j: int| '0'),
        decreases pad - i,
    {
        out.push('0');
        assert(out@ =~= Seq::new((i + 1) as nat, |j: int| '0'));
        i += 1;
    }
    extend_all(&mut out, &d);
    out
}

/// `format!("{n:0width$x}")` for a value that fits in `width` digits.
pub fn hex_fixed_vec(n: u64, width: usize) -> (r: Vec<char>)
    ensures
        r@ == hex_fixed(n as nat, width as nat),
    decreases width,
{
    if width == 0 {
        Vec::new()
    } else {
        let mut v = hex_fixed_vec(n / 16, width - 1);
        v.push(digit(n % 16));
        v
    }
}

/// The 64-bit FNV-1a hash of a byte sequence.
pub open spec fn fnv1a64(bytes: Seq<u8>) -> u64
    decreases bytes.len(),
{
    if bytes.len() == 0 {
        0xcbf29ce484222325u64
    } else {
        (fnv1a64(bytes.drop_last()) ^ (bytes.last() as u64)).wrapping_mul(0x100000001b3u64)
    }
}

/// `"fnv1a64-"` followed by the 16 lowercase hex digits of the hash.
pub open spec fn fnv_fingerprint(bytes: Seq<u8>) -> Seq<char> {
    "fnv1a64-"@ + hex_fixed(fnv1a64(bytes) as nat, 16)
}

/// The FNV-1a hash of a byte slice.
pub fn fnv1a64_exec(bytes: &[u8]) -> (h: u64)
    ensures
        h == fnv1a64(bytes@),
{
    let mut hash: u64 = 0xcbf29ce484222325u64;
    let mut i: usize = 0;
    while i < bytes.len()
        invariant
            i <= bytes.len(),
            hash == fnv1a64(bytes@.take(i as int)),
        decreases bytes.len() - i,
    {
        assert(bytes@.take(i + 1).drop_last() =~= bytes@.take(i as int));
        hash = (hash ^ (bytes[i] as u64)).wrapping_mul(0x100000001b3u64);
        i += 1;
    }
    assert(bytes@.take(bytes@.len() as int) =~= bytes@);
    hash
}

/// The FNV-1a fingerprint of a byte slice, as `fnv1a64-<16 hex digits>`.
pub fn fingerprint(bytes: &[u8]) -> (r: String)
    ensures
        r@ == fnv_fingerprint(bytes@),
{
    let h = fnv1a64_exec(bytes);
    let mut out = chars_of("fnv1a64-");
    let hex = hex_fixed_vec(h, 16);
    extend_all(&mut out, &hex);
    string_of(&out)
}

/// The FNV-1a fingerprint of the UTF-8 bytes of a text.
pub fn source_fingerprint(text: &str) -> (r: String)
    ensures
        r@ == fnv_fingerprint(text.spec_bytes()),
{
    fingerprint(text.as_bytes())
}

/// An ASCII decimal digit.
pub open spec fn is_digit(c: char) -> bool {
    '0' <= c && c <= '9'
}

/// The value of a string of decimal digits.
pub open spec fn digits_value(d: Seq<char>) -> nat
    decreases d.len(),
{
    if d.len() == 0 {
        0
    } else {
        digits_value(d.drop_last()) * 10 + ((d.last() as u32) - 48) as nat
    }
}

/// The digits part of an unsigned number: the text after an optional `+`.
pub open spec fn unsigned_digits(s: Seq<char>) -> Seq<char> {
    if s.len() > 0 && s[0] == '+' {
        s.drop_first()
    } else {
        s
    }
}

/// One or more ASCII digits.
pub open spec fn all_digits(d: Seq<char>) -> bool {
    d.len() > 0 && forall|k: int| 0 <= k < d.len() ==> is_digit(#[trigger] d[k])
}

/// What `str::parse::<usize>` accepts: an optional `+`, then one or more ASCII
/// digits whose value fits in `usize`.
pub open spec fn parse_usize_spec(s: Seq<char>) -> Option<nat> {
    if all_digits(unsigned_digits(s)) && digits_value(unsigned_digits(s)) <= usize::MAX {
        Some(digits_value(unsigned_digits(s)))
    } else {
        None
    }
}

/// Decimal rendering reads back as the number: all digits, worth `n`.
pub proof fn lemma_dec_digits_value(n: nat)
    ensures
        all_digits(dec_digits(n)),
        digits_value(dec_digits(n)) == n,
        dec_digits(n)[0] != '+',
    decreases n,
{
    if n < 10 {
        let c = digit_char(n as int);
        assert(c as u32 == 48 + n);
        let d = dec_digits(n);
        assert(d.drop_last() =~= Seq::<char>::empty());
        assert(d.last() == c);
        assert(digits_value(d) == digits_value(d.drop_last()) * 10 + ((d.last() as u32) - 48) as nat);
    } else {
        lemma_dec_digits_value(n / 10);
        let c = digit_char((n % 10) as int);
        assert(c as u32 == 48 + n % 10);
        let d = dec_digits(n);
        assert(d.drop_last() =~= dec_digits(n / 10));
        assert(d[0] == dec_digits(n / 10)[0]);
        assert((n / 10) * 10 + n % 10 == n) by (nonlinear_arith);
        assert(d.last() == c);
        assert(digits_value(d) == digits_value(d.drop_last()) * 10 + ((d.last() as u32) - 48) as nat);
        assert forall|k: int| 0 <= k < d.len() implies is_digit(#[trigger] d[k]) by {
            if k < d.len() - 1 {
                assert(d[k] == dec_digits(n / 10)[k]);
            }
        }
    }
}

/// A longer digit string is worth at least as much as its prefix.
pub proof fn lemma_digits_value_prefix(d: Seq<char>, i: int)
    requires
        0 <= i <= d.len(),
        forall|k: int| 0 <= k < d.len() ==> is_digit(#[trigger] d[k]),
    ensures
        digits_value(d.take(i)) <= digits_value(d),
    decreases d.len() - i,
{
    if i < d.len() {
        lemma_digits_value_prefix(d, i + 1);
        assert(d.take(i + 1).drop_last() =~= d.take(i));
        assert(is_digit(d[i]));
    } else {
        assert(d.take(i) =~= d);
    }
}

/// Parses a decimal `usize` as `str::parse::<usize>` does.
pub fn parse_usize(s: &Vec<char>) -> (r: Option<usize>)
    ensures
        match r {
            Some(v) => parse_usize_spec(s@) == Some(v as nat),
            None => parse_usize_spec(s@) is None,
        },
{
    let start: usize = if s.len() > 0 && s[0] == '+' {
        1
    } else {
        0
    };
    let ghost d = unsigned_digits(s@);
    assert(d =~= s@.skip(start as int));
    if start >= s.len() {
        return None;
    }
    let mut value: usize = 0;
    let mut i: usize = start;
    while i < s.len()
        invariant
            start <= i <= s.len(),
            start < s.len(),
            d == s@.skip(start as int),
            d == unsigned_digits(s@),
            value == digits_value(d.take(i - start)),
            forall|k: int| 0 <= k < i - start ==> is_digit(#[trigger] d[k]),
        decreases s.len() - i,
    {
        let c = s[i];
        if !('0' <= c && c <= '9') {
            assert(!is_digit(d[i - start]));
            assert(!all_digits(d));
            return None;
        }
        assert(d.take(i - start + 1).drop_last() =~= d.take(i - start));
        let dv = (c as u32 - 48) as usize;
        if value > (usize::MAX - dv) / 10 {
            assert(digits_value(d.take(i - start + 1)) > usize::MAX) by (nonlinear_arith)
                requires
                    value > (usize::MAX - dv) / 10,
                    digits_value(d.take(i - start + 1)) == value * 10 + dv,
                    dv <= 9,
            ;
            proof {
                if all_digits(d) {
                    lemma_digits_value_prefix(d, i - start + 1);
                }
            }
            return None;
        }
        assert(value * 10 + dv <= usize::MAX) by (nonlinear_arith)
            requires
                value <= (usize::MAX - dv) / 10,
                dv <= 9,
        ;
        value = value * 10 + dv;
        i += 1;
    }
    assert(d.take(d.len() as int) =~= d);
    Some(value)
}

} // verus!
