//! Writing text as bytes: decimal numbers, runs of a byte, and appending.
use vstd::prelude::*;

use crate::cval::integer::{digit_value, scan_decimal};

verus! {

/// The decimal digits of `n`, most significant first, without leading
/// zeros (`0` is written `0`).
pub open spec fn decimal_text(n: nat) -> Seq<u8>
    decreases n,
{
    if n < 10 {
        seq![(48 + n) as u8]
    } else {
        decimal_text(n / 10).push((48 + n % 10) as u8)
    }
}

/// A signed integer in decimal, with `-` before a negative one.
pub open spec fn signed_text(n: int) -> Seq<u8> {
    if n < 0 {
        seq![45u8] + decimal_text((-n) as nat)
    } else {
        decimal_text(n as nat)
    }
}

/// Appends the UTF-8 encoding of `s` to `out`.
pub fn push_str(out: &mut Vec<u8>, s: &str)
    ensures
        final(out)@ == old(out)@ + vstd::utf8::encode_utf8(s@),
{
    push_all(out, s.as_bytes());
}

/// Appends the bytes of `s` to `out`.
pub fn push_all(out: &mut Vec<u8>, s: &[u8])
    ensures
        final(out)@ == old(out)@ + s@,
{
    let ghost start = out@;
    let mut i: usize = 0;
    while i < s.len()
        invariant
            i <= s@.len(),
            out@ == start + s@.take(i as int),
        decreases s@.len() - i,
    {
        out.push(s[i]);
        proof {
            assert(s@.take(i + 1) =~= s@.take(i as int).push(s@[i as int]));
        }
        i = i + 1;
    }
    proof {
        assert(s@.take(s@.len() as int) =~= s@);
    }
}

/// `n` bytes `b`.
pub open spec fn repeat_byte(b: u8, n: nat) -> Seq<u8> {
    Seq::new(n, |i: int| b)
}

/// `n` copies of the byte `b`.
pub fn repeat(b: u8, n: usize) -> (res: Vec<u8>)
    ensures
        res@ == repeat_byte(b, n as nat),
{
    let mut out: Vec<u8> = Vec::new();
    let mut i: usize = 0;
    while i < n
        invariant
            i <= n,
            out@ == repeat_byte(b, i as nat),
        decreases n - i,
    {
        out.push(b);
        proof {
            assert(out@ =~= repeat_byte(b, (i + 1) as nat));
        }
        i = i + 1;
    }
    out
}

/// Appends the decimal digits of `n` to `out`.
pub fn push_decimal(out: &mut Vec<u8>, n: u128)
    ensures
        final(out)@ == old(out)@ + decimal_text(n as nat),
    decreases n,
{
    if n < 10 {
        out.push((48 + n) as u8);
        proof {
            assert(final(out)@ =~= old(out)@ + decimal_text(n as nat));
        }
    } else {
        push_decimal(out, n / 10);
        out.push((48 + n % 10) as u8);
        proof {
            assert(final(out)@ =~= old(out)@ + decimal_text(n as nat));
        }
    }
}

/// The decimal digits of `n`.
pub fn render_unsigned(n: u128) -> (res: Vec<u8>)
    ensures
        res@ == decimal_text(n as nat),
{
    let mut out: Vec<u8> = Vec::new();
    push_decimal(&mut out, n);
    proof {
        assert(out@ =~= decimal_text(n as nat));
    }
    out
}

/// `n` in decimal, with `-` before a negative number.
pub fn render_signed(n: i128) -> (res: Vec<u8>)
    ensures
        res@ == signed_text(n as int),
{
    let mut out: Vec<u8> = Vec::new();
    if n < 0 {
        out.push(45u8);
        let magnitude: u128 = if n == i128::MIN {
            0x8000_0000_0000_0000_0000_0000_0000_0000u128
        } else {
            (-n) as u128
        };
        push_decimal(&mut out, magnitude);
        proof {
            assert(out@ =~= seq![45u8] + decimal_text((-n) as nat));
        }
    } else {
        push_decimal(&mut out, n as u128);
        proof {
            assert(out@ =~= decimal_text(n as nat));
        }
    }
    out
}

/// Decimal text reads back as the number it was written from.
pub proof fn lemma_decimal_round_trip(n: nat, bound: int)
    requires
        n <= bound,
    ensures
        scan_decimal(decimal_text(n), bound) == Ok::<int, crate::errors::IntErrorKind>(n as int),
    decreases n,
{
    let s = decimal_text(n);
    if n < 10 {
        assert(s.drop_last() =~= Seq::<u8>::empty());
        assert(scan_decimal(s.drop_last(), bound) == Ok::<int, crate::errors::IntErrorKind>(0));
        assert(s.last() == (48 + n) as u8);
        assert(digit_value(s.last()) == n);
    } else {
        assert(n / 10 <= n) by (nonlinear_arith) requires n >= 10;
        lemma_decimal_round_trip(n / 10, bound);
        assert(s.drop_last() =~= decimal_text(n / 10));
        assert(s.last() == (48 + n % 10) as u8);
        assert(digit_value(s.last()) == n % 10);
        assert(10 * (n / 10) + n % 10 == n) by (nonlinear_arith);
    }
}

} // verus!
