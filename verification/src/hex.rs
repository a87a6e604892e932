//! Hexadecimal text: eight digits for a word, and the value of a run of
//! digits.

use vstd::prelude::*;
use vstd::arithmetic::div_mod::lemma_fundamental_div_mod_converse;
use vstd::arithmetic::div_mod::lemma_mul_mod_noop_left;
use vstd::arithmetic::div_mod::lemma_add_mod_noop;
use vstd::arithmetic::div_mod::lemma_small_mod;

verus! {

/// The upper-case hexadecimal digit for a number below sixteen.
pub open spec fn hex_digit(n: nat) -> u8 {
    if n < 10 {
        (0x30 + n) as u8
    } else {
        (0x37 + n) as u8
    }
}

/// The low `n` hexadecimal digits of `v`, the most significant first.
pub open spec fn hex_digits(v: nat, n: nat) -> Seq<u8>
    decreases n,
{
    if n == 0 {
        Seq::empty()
    } else {
        hex_digits(v / 16, (n - 1) as nat).push(hex_digit(v % 16))
    }
}

/// The eight hexadecimal digits of a word, the most significant first.
pub open spec fn hex_encode_spec(v: u32) -> Seq<u8> {
    hex_digits(v as nat, 8)
}

/// `v` divided by sixteen `n` times.
pub open spec fn drop_digits(v: nat, n: nat) -> nat
    decreases n,
{
    if n == 0 {
        v
    } else {
        drop_digits(v / 16, (n - 1) as nat)
    }
}

/// Dividing once more is dividing the result by sixteen.
proof fn lemma_drop_digits_step(v: nat, n: nat)
    ensures
        drop_digits(v, n + 1) == drop_digits(v, n) / 16,
    decreases n,
{
    reveal_with_fuel(drop_digits, 2);
    if n > 0 {
        lemma_drop_digits_step(v / 16, (n - 1) as nat);
    }
}

/// One digit more is one digit in front: that of the next four bits.
proof fn lemma_hex_digits_front(v: nat, n: nat)
    ensures
        hex_digits(v, n + 1) == seq![hex_digit(drop_digits(v, n) % 16)] + hex_digits(v, n),
    decreases n,
{
    if n == 0 {
        assert(hex_digits(v / 16, 0) =~= Seq::<u8>::empty());
        assert(hex_digits(v, 1) =~= seq![hex_digit(v % 16)] + hex_digits(v, 0));
    } else {
        lemma_hex_digits_front(v / 16, (n - 1) as nat);
        assert(hex_digits(v, n + 1) =~= seq![hex_digit(drop_digits(v, n) % 16)] + hex_digits(
            v,
            n,
        ));
    }
}

/// Each of the digits written for a number is that of one group of four
/// bits: the digit at `at` of `n` stands for the number divided by sixteen
/// `n - 1 - at` times, modulo sixteen.
pub proof fn lemma_hex_digits_index(v: nat, n: nat, at: int)
    requires
        0 <= at < n,
    ensures
        hex_digits(v, n).len() == n,
        hex_digits(v, n)[at] == hex_digit(drop_digits(v, (n - 1 - at) as nat) % 16),
    decreases n,
{
    lemma_hex_digits_front(v, (n - 1) as nat);
    if n > 1 {
        lemma_hex_digits_index(v, (n - 1) as nat, if at > 0 { at - 1 } else { 0 });
    } else {
        assert(hex_digits(v, 0).len() == 0);
    }
}

/// Renders a word as eight upper-case hexadecimal digits, the most
/// significant first.
pub fn hex_encode(src: u32) -> (res: Vec<u8>)
    ensures
        res@ == hex_encode_spec(src),
        res@.len() == 8,
{
    let mut res: Vec<u8> = Vec::new();
    let mut k: usize = 0;
    while k < 8
        invariant
            k <= 8,
            res@ == Seq::new(k as nat, |j: int| 0u8),
        decreases 8 - k,
    {
        res.push(0u8);
        k += 1;
        assert(res@ =~= Seq::new(k as nat, |j: int| 0u8));
    }
    let mut cur: u32 = src;
    let mut i: usize = 0;
    while i < 8
        invariant
            i <= 8,
            res@.len() == 8,
            cur == drop_digits(src as nat, i as nat),
            res@.subrange(8 - i, 8) == hex_digits(src as nat, i as nat),
        decreases 8 - i,
    {
        let low: u32 = cur & 15;
        assert(cur & 15 == cur % 16) by (bit_vector);
        assert(cur >> 4u32 == cur / 16) by (bit_vector);
        let byte: u8 = if low < 10 {
            (0x30 + low) as u8
        } else {
            (0x37 + low) as u8
        };
        proof {
            lemma_hex_digits_front(src as nat, i as nat);
            lemma_drop_digits_step(src as nat, i as nat);
        }
        let ghost before = res@;
        res.set(7 - i, byte);
        cur = cur >> 4;
        assert(res@.subrange(8 - (i + 1), 8) =~= seq![byte] + before.subrange(8 - i, 8));
        i += 1;
    }
    assert(res@ =~= res@.subrange(0, 8));
    res
}

/// The number that a hexadecimal digit stands for, if the byte is one.
pub open spec fn hex_digit_value(b: u8) -> Option<nat> {
    if 0x30 <= b <= 0x39 {
        Some((b - 0x30) as nat)
    } else if 0x41 <= b <= 0x46 {
        Some((b - 0x37) as nat)
    } else if 0x61 <= b <= 0x66 {
        Some((b - 0x57) as nat)
    } else {
        None
    }
}

/// Whether every byte is a hexadecimal digit.
pub open spec fn all_hex_digits(s: Seq<u8>) -> bool {
    forall|i: int| 0 <= i < s.len() ==> hex_digit_value(#[trigger] s[i]) is Some
}

/// The number written by a run of hexadecimal digits.
pub open spec fn hex_value(s: Seq<u8>) -> nat
    decreases s.len(),
{
    if s.len() == 0 {
        0
    } else {
        hex_value(s.drop_last()) * 16 + hex_digit_value(s.last()).unwrap_or(0)
    }
}

/// Whether the bytes begin with `0x`.
pub open spec fn has_hex_prefix(s: Seq<u8>) -> bool {
    s.len() >= 2 && s[0] == 0x30 && s[1] == 0x78
}

/// The digits of the text: what follows the prefix `0x`, or the whole text
/// where there is none.
pub open spec fn hex_body(s: Seq<u8>) -> Seq<u8> {
    if has_hex_prefix(s) {
        s.subrange(2, s.len() as int)
    } else {
        s
    }
}

/// What decoding gives: an error for empty text and for text in which
/// anything but a hexadecimal digit follows the optional prefix, else the
/// number written, reduced to the width of `usize`.
pub open spec fn hex_decode_spec(s: Seq<u8>) -> Result<usize, ()> {
    if s.len() == 0 || !all_hex_digits(hex_body(s)) {
        Err(())
    } else {
        Ok((hex_value(hex_body(s)) % (usize::MAX + 1) as nat) as usize)
    }
}

/// Appending a digit to a number that was reduced to the width of `usize`,
/// by wrapping arithmetic, gives the longer number reduced to that width.
proof fn lemma_append_digit_mod(h: nat, r: usize, d: nat)
    requires
        r == h % (usize::MAX + 1) as nat,
        d < 16,
    ensures
        (r.wrapping_mul(16).wrapping_add(d as usize)) as nat == (h * 16 + d) % (usize::MAX
            + 1) as nat,
{
    let m = (usize::MAX + 1) as int;
    let hi = h as int;
    let di = d as int;
    let a = r.wrapping_mul(16);
    lemma_mul_mod_noop_left(hi, 16, m);
    assert(a as int == (hi * 16) % m);
    let b = a.wrapping_add(d as usize);
    assert(b as int == a + di || b as int == a + di - m);
    lemma_add_mod_noop(hi * 16, di, m);
    lemma_small_mod(d, m as nat);
    assert((a + di) % m == (hi * 16 + di) % m);
    if b as int == a + di {
        lemma_small_mod(b as nat, m as nat);
    } else {
        lemma_fundamental_div_mod_converse(a + di, m, 1, b as int);
    }
}

/// Reads hexadecimal text, with or without the prefix `0x`, in upper or lower
/// case. Digits beyond the width of `usize` are lost at the top.
pub fn hex_decode(src: &[u8]) -> (res: Result<usize, ()>)
    ensures
        res == hex_decode_spec(src@),
{
    let n = src.len();
    if n == 0 {
        return Err(());
    }
    let start: usize = if n >= 2 && src[0] == 0x30 && src[1] == 0x78 {
        2
    } else {
        0
    };
    let ghost body = hex_body(src@);
    proof {
        assert(body =~= src@.subrange(start as int, n as int));
        lemma_small_mod(0, (usize::MAX + 1) as nat);
    }
    let mut res: usize = 0;
    let mut i: usize = start;
    while i < n
        invariant
            start <= i <= n,
            n == src@.len(),
            body == hex_body(src@),
            body == src@.subrange(start as int, n as int),
            all_hex_digits(body.subrange(0, i - start)),
            res == hex_value(body.subrange(0, i - start)) % (usize::MAX + 1) as nat,
        decreases n - i,
    {
        let b: u8 = src[i];
        let d: usize = if 0x30 <= b && b <= 0x39 {
            (b - 0x30) as usize
        } else if 0x41 <= b && b <= 0x46 {
            (b - 0x37) as usize
        } else if 0x61 <= b && b <= 0x66 {
            (b - 0x57) as usize
        } else {
            assert(hex_digit_value(body[i - start]) is None);
            return Err(());
        };
        proof {
            let prev = body.subrange(0, i - start);
            let next = body.subrange(0, i - start + 1);
            assert(next.drop_last() =~= prev);
            assert(next.last() == b);
            lemma_append_digit_mod(hex_value(prev), res, d as nat);
        }
        res = res.wrapping_mul(16).wrapping_add(d);
        i += 1;
    }
    assert(body.subrange(0, n - start) =~= body);
    Ok(res)
}

/// The digits written for a number read back give the number, as far as the
/// digits reach.
proof fn lemma_hex_digits_value(v: nat, n: nat)
    ensures
        all_hex_digits(hex_digits(v, n)),
        hex_digits(v, n).len() == n,
        forall|i: int| 0 <= i < n ==> #[trigger] hex_digits(v, n)[i] != 0x78,
        drop_digits(v, n) == 0 ==> hex_value(hex_digits(v, n)) == v,
    decreases n,
{
    if n > 0 {
        lemma_hex_digits_value(v / 16, (n - 1) as nat);
        let s = hex_digits(v, n);
        assert(s.drop_last() =~= hex_digits(v / 16, (n - 1) as nat));
    }
}

/// Decoding the eight digits that encode a word gives the word back.
pub proof fn lemma_hex_round_trip(v: u32)
    ensures
        hex_decode_spec(hex_encode_spec(v)) == Ok::<usize, ()>(v as usize),
{
    lemma_hex_digits_value(v as nat, 8);
    assert(drop_digits(v as nat, 8) == 0) by {
        reveal_with_fuel(drop_digits, 9);
    }
    let s = hex_encode_spec(v);
    assert(s[1] != 0x78);
    assert(hex_body(s) == s);
    lemma_small_mod(v as nat, (usize::MAX + 1) as nat);
}

} // verus!
