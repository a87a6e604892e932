//! Numeric literals: `0x` and hexadecimal digits, `0d` and a decimal number,
//! or nothing at all for zero.

use vstd::prelude::*;
use vstd::arithmetic::div_mod::lemma_mod_mod;
use vstd::string::is_ascii_spec_bytes;
use vstd::utf8::is_ascii_chars;
use crate::error::AsmError;
use crate::error::AsmErrorView;
use crate::error::UnsupportedFeature;
use crate::error::literal_format_error;
use crate::error::result_view;
use crate::hex::hex_body;
use crate::hex::hex_decode;
use crate::hex::hex_decode_spec;
use crate::hex::hex_value;
use crate::text::to_chars;
use crate::text::trim;
use crate::text::trim_range;

verus! {

/// Whether the text begins with the two given characters.
pub open spec fn has_prefix(s: Seq<char>, first: char, second: char) -> bool {
    s.len() >= 2 && s[0] == first && s[1] == second
}

/// The bytes of text that is all ASCII.
pub open spec fn ascii_bytes(s: Seq<char>) -> Seq<u8> {
    Seq::new(s.len(), |i: int| s[i] as u8)
}

/// The number that a decimal digit stands for, if the character is one.
pub open spec fn dec_digit_value(c: char) -> Option<nat> {
    if '0' <= c <= '9' {
        Some((c as u32 - 0x30) as nat)
    } else {
        None
    }
}

/// Whether every character is a decimal digit.
pub open spec fn all_dec_digits(s: Seq<char>) -> bool {
    forall|i: int| 0 <= i < s.len() ==> dec_digit_value(#[trigger] s[i]) is Some
}

/// The number written by a run of decimal digits.
pub open spec fn dec_value(s: Seq<char>) -> nat
    decreases s.len(),
{
    if s.len() == 0 {
        0
    } else {
        dec_value(s.drop_last()) * 10 + dec_digit_value(s.last()).unwrap_or(0)
    }
}

/// The digits of a decimal number: what follows a leading `+`, or the whole
/// text where there is none.
pub open spec fn dec_body(s: Seq<char>) -> Seq<char> {
    if s.len() > 0 && s[0] == '+' {
        s.drop_first()
    } else {
        s
    }
}

/// What a decimal number reads as: an optional `+`, then one digit or more,
/// the number no greater than the largest word.
pub open spec fn parse_decimal_spec(s: Seq<char>) -> Option<u32> {
    let d = dec_body(s);
    if d.len() > 0 && all_dec_digits(d) && dec_value(d) <= u32::MAX {
        Some(dec_value(d) as u32)
    } else {
        None
    }
}

/// What hexadecimal text after `0x` reads as: the number written by the
/// digits, reduced to 32 bits. Nothing but ASCII hexadecimal digits may
/// follow the prefix; no digit at all gives zero.
pub open spec fn parse_hex_spec(s: Seq<char>) -> Option<u32>
    recommends
        has_prefix(s, '0', 'x'),
{
    if is_ascii_chars(s) && hex_decode_spec(ascii_bytes(s)) is Ok {
        Some((hex_value(hex_body(ascii_bytes(s))) % 0x1_0000_0000) as u32)
    } else {
        None
    }
}

/// What a literal reads as.
pub open spec fn parse_value_spec(s: Seq<char>) -> Result<u32, AsmErrorView> {
    if has_prefix(s, '0', 'x') {
        match parse_hex_spec(s) {
            Some(v) => Ok(v),
            None => Err(literal_format_error()),
        }
    } else if has_prefix(s, '0', 'd') {
        match parse_decimal_spec(s.subrange(2, s.len() as int)) {
            Some(v) => Ok(v),
            None => Err(literal_format_error()),
        }
    } else if trim(s).len() == 0 {
        Ok(0u32)
    } else {
        Err(literal_format_error())
    }
}

/// A run of digits is worth no less than any of its beginnings.
proof fn lemma_dec_value_prefix(s: Seq<char>, k: int)
    requires
        0 <= k <= s.len(),
    ensures
        dec_value(s.subrange(0, k)) <= dec_value(s),
    decreases s.len() - k,
{
    if k == s.len() {
        assert(s.subrange(0, k) =~= s);
    } else {
        lemma_dec_value_prefix(s.drop_last(), k);
        assert(s.drop_last().subrange(0, k) =~= s.subrange(0, k));
    }
}

/// Reads the decimal number in `v[start..]`.
fn parse_decimal(v: &Vec<char>, start: usize) -> (res: Option<u32>)
    requires
        start <= v.len(),
    ensures
        res == parse_decimal_spec(v@.subrange(start as int, v.len() as int)),
{
    let n = v.len();
    let ghost text = v@.subrange(start as int, n as int);
    let first: usize = if start < n && v[start] == '+' {
        start + 1
    } else {
        start
    };
    let ghost body = dec_body(text);
    assert(body =~= v@.subrange(first as int, n as int));
    if first == n {
        return None;
    }
    let mut acc: u64 = 0;
    let mut i: usize = first;
    while i < n
        invariant
            first <= i <= n,
            start <= n == v.len(),
            body == dec_body(v@.subrange(start as int, n as int)),
            body == v@.subrange(first as int, n as int),
            all_dec_digits(body.subrange(0, i - first)),
            acc == dec_value(body.subrange(0, i - first)),
            acc <= u32::MAX,
        decreases n - i,
    {
        let c: char = v[i];
        if !('0' <= c && c <= '9') {
            assert(dec_digit_value(body[i - first]) is None);
            return None;
        }
        let d: u64 = (c as u32 - 0x30) as u64;
        let next: u64 = acc * 10 + d;
        proof {
            let prev = body.subrange(0, i - first);
            let cur = body.subrange(0, i - first + 1);
            assert(cur.drop_last() =~= prev);
            assert(cur.last() == c);
            assert(next == dec_value(cur));
        }
        if next > 0xffff_ffff {
            proof {
                lemma_dec_value_prefix(body, i - first + 1);
            }
            return None;
        }
        acc = next;
        i += 1;
    }
    assert(body.subrange(0, n - first) =~= body);
    Some(acc as u32)
}

/// Reads a literal: `0x` and hexadecimal digits in either case, `0d` and a
/// decimal number, or blank text for zero.
pub fn parse_value(src: &str) -> (res: Result<u32, AsmError>)
    ensures
        result_view(res) == parse_value_spec(src@),
{
    let v = to_chars(src);
    let n = v.len();
    if n >= 2 && v[0] == '0' && v[1] == 'x' {
        if !src.is_ascii() {
            return Err(AsmError::UnsupportedFeature(UnsupportedFeature::LiteralFormat));
        }
        let bytes = src.as_bytes();
        proof {
            is_ascii_spec_bytes(src);
            assert(bytes@ =~= ascii_bytes(src@));
        }
        match hex_decode(bytes) {
            Ok(x) => {
                let wide: u64 = x as u64;
                let low: u64 = wide & 0xffff_ffff;
                proof {
                    assert(wide & 0xffff_ffff == wide % 0x1_0000_0000) by (bit_vector);
                    let h = hex_value(hex_body(bytes@)) as int;
                    if usize::MAX == 0xffff_ffff {
                        lemma_mod_mod(h, 0x1_0000_0000, 1);
                    } else {
                        lemma_mod_mod(h, 0x1_0000_0000, 0x1_0000_0000);
                    }
                }
                Ok(low as u32)
            },
            Err(_) => Err(AsmError::UnsupportedFeature(UnsupportedFeature::LiteralFormat)),
        }
    } else if n >= 2 && v[0] == '0' && v[1] == 'd' {
        match parse_decimal(&v, 2) {
            Some(x) => Ok(x),
            None => Err(AsmError::UnsupportedFeature(UnsupportedFeature::LiteralFormat)),
        }
    } else {
        let (a, b) = trim_range(&v, 0, n);
        assert(v@.subrange(0, n as int) =~= v@);
        if a == b {
            Ok(0)
        } else {
            Err(AsmError::UnsupportedFeature(UnsupportedFeature::LiteralFormat))
        }
    }
}

} // verus!
