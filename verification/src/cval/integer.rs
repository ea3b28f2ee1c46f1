//! Integer values, read as decimal text: an optional `+` (or `-` for signed
//! types) followed by ASCII digits, read left to right; the first byte that
//! is no digit, or the first digit that takes the value out of the type's
//! range, decides the error.
use vstd::prelude::*;
use vstd::utf8::valid_utf8;

use crate::cval::{str_from_utf8, ICval};
use crate::errors::{ConfigParseEntryError, IntErrorKind, ReprParseConfigEntryError};

verus! {

pub open spec fn is_ascii_digit(b: u8) -> bool {
    48 <= b <= 57
}

pub open spec fn digit_value(b: u8) -> int {
    b - 48
}

/// Reads the digits of `s` left to right, failing at the first byte that is
/// no digit or at the first digit that takes the value above `bound`.
pub open spec fn scan_decimal(s: Seq<u8>, bound: int) -> Result<int, IntErrorKind>
    decreases s.len(),
{
    if s.len() == 0 {
        Ok(0)
    } else {
        match scan_decimal(s.drop_last(), bound) {
            Err(e) => Err(e),
            Ok(v) => if !is_ascii_digit(s.last()) {
                Err(IntErrorKind::InvalidDigit)
            } else if 10 * v + digit_value(s.last()) > bound {
                Err(IntErrorKind::PosOverflow)
            } else {
                Ok(10 * v + digit_value(s.last()))
            },
        }
    }
}

/// The integer in `lo..=hi` that the decimal text `s` stands for, or why
/// there is none. A leading `-` is a sign only where `lo < 0`.
pub open spec fn parse_integer(s: Seq<u8>, lo: int, hi: int) -> Result<int, IntErrorKind> {
    if s.len() == 0 {
        Err(IntErrorKind::Empty)
    } else if (s[0] == 43 || s[0] == 45) && s.len() == 1 {
        Err(IntErrorKind::InvalidDigit)
    } else if s[0] == 43 {
        scan_decimal(s.drop_first(), hi)
    } else if s[0] == 45 && lo < 0 {
        match scan_decimal(s.drop_first(), -lo) {
            Ok(v) => Ok(-v),
            Err(IntErrorKind::PosOverflow) => Err(IntErrorKind::NegOverflow),
            Err(e) => Err(e),
        }
    } else {
        scan_decimal(s, hi)
    }
}

/// A successful scan stays within `0..=bound`.
pub proof fn lemma_scan_decimal_range(s: Seq<u8>, bound: int)
    requires
        bound >= 0,
    ensures
        scan_decimal(s, bound) matches Ok(v) ==> 0 <= v <= bound,
    decreases s.len(),
{
    if s.len() > 0 {
        lemma_scan_decimal_range(s.drop_last(), bound);
    }
}

/// The decimal text of a number starts with a digit.
proof fn lemma_decimal_text_starts_with_digit(n: nat)
    ensures
        crate::ext::text::decimal_text(n).len() > 0,
        is_ascii_digit(crate::ext::text::decimal_text(n)[0]),
    decreases n,
{
    if n >= 10 {
        lemma_decimal_text_starts_with_digit(n / 10);
        assert(crate::ext::text::decimal_text(n)[0] == crate::ext::text::decimal_text(n / 10)[0]);
    }
}

/// An integer written in decimal reads back as itself, for every range that
/// holds it and zero.
pub proof fn lemma_integer_round_trip(v: int, lo: int, hi: int)
    requires
        lo <= 0 <= hi,
        lo <= v <= hi,
    ensures
        parse_integer(crate::ext::text::signed_text(v), lo, hi) == Ok::<int, IntErrorKind>(v),
{
    if v < 0 {
        let m = (-v) as nat;
        let t = crate::ext::text::decimal_text(m);
        lemma_decimal_text_starts_with_digit(m);
        crate::ext::text::lemma_decimal_round_trip(m, -lo);
        let s = seq![45u8] + t;
        assert(s.drop_first() =~= t);
        assert(s[0] == 45u8);
    } else {
        let t = crate::ext::text::decimal_text(v as nat);
        lemma_decimal_text_starts_with_digit(v as nat);
        crate::ext::text::lemma_decimal_round_trip(v as nat, hi);
    }
}

/// Bytes below 128 are valid UTF-8.
proof fn lemma_ascii_valid_utf8(s: Seq<u8>)
    requires
        forall|i: int| 0 <= i < s.len() ==> s[i] < 128,
    ensures
        vstd::utf8::valid_utf8(s),
    decreases s.len(),
{
    if s.len() > 0 {
        let b = s[0];
        assert((b & 0x7F) as u32 <= 0x7f) by (bit_vector);
        assert(vstd::utf8::pop_first_scalar(s) =~= s.drop_first());
        lemma_ascii_valid_utf8(s.drop_first());
    }
}

pub(crate) proof fn lemma_decimal_text_ascii(n: nat)
    ensures
        forall|i: int| 0 <= i < crate::ext::text::decimal_text(n).len() ==> is_ascii_digit(
            #[trigger] crate::ext::text::decimal_text(n)[i],
        ),
    decreases n,
{
    let t = crate::ext::text::decimal_text(n);
    if n >= 10 {
        lemma_decimal_text_ascii(n / 10);
        let h = crate::ext::text::decimal_text(n / 10);
        assert(t == h.push((48 + n % 10) as u8));
        assert forall|i: int| 0 <= i < t.len() implies is_ascii_digit(#[trigger] t[i]) by {
            if i < h.len() {
                assert(t[i] == h[i]);
            }
        }
    }
}

/// A number written with a leading `+` reads back as itself, for signed and
/// unsigned types alike: for every range that holds zero and the number.
pub proof fn lemma_plus_sign_round_trip(n: nat, lo: int, hi: int)
    requires
        lo <= 0,
        n <= hi,
    ensures
        parse_integer(seq![43u8] + crate::ext::text::decimal_text(n), lo, hi) == Ok::<int, IntErrorKind>(n as int),
        integer_parses_to(seq![43u8] + crate::ext::text::decimal_text(n), lo, hi) == Some(n as int),
{
    let t = crate::ext::text::decimal_text(n);
    lemma_decimal_text_starts_with_digit(n);
    crate::ext::text::lemma_decimal_round_trip(n, hi);
    let s = seq![43u8] + t;
    assert(s.drop_first() =~= t);
    assert(s[0] == 43u8);
    lemma_decimal_text_ascii(n);
    assert forall|i: int| 0 <= i < s.len() implies s[i] < 128 by {
        if i > 0 {
            assert(s[i] == t[i - 1]);
        }
    }
    lemma_ascii_valid_utf8(s);
}

/// Every signed integer type reads a non-negative value written with a
/// leading `+`, as it reads the value without it.
pub proof fn lemma_signed_plus_sign(n: nat)
    ensures
        n <= i8::MAX ==> <i8 as ICval>::parses_to(seq![43u8] + crate::ext::text::decimal_text(n)) == Some(n as i8),
        n <= i16::MAX ==> <i16 as ICval>::parses_to(seq![43u8] + crate::ext::text::decimal_text(n)) == Some(n as i16),
        n <= i32::MAX ==> <i32 as ICval>::parses_to(seq![43u8] + crate::ext::text::decimal_text(n)) == Some(n as i32),
        n <= i64::MAX ==> <i64 as ICval>::parses_to(seq![43u8] + crate::ext::text::decimal_text(n)) == Some(n as i64),
        n <= i128::MAX ==> <i128 as ICval>::parses_to(seq![43u8] + crate::ext::text::decimal_text(n)) == Some(n as i128),
        n <= isize::MAX ==> <isize as ICval>::parses_to(seq![43u8] + crate::ext::text::decimal_text(n)) == Some(n as isize),
{
    if n <= i8::MAX {
        lemma_plus_sign_round_trip(n, i8::MIN as int, i8::MAX as int);
    }
    if n <= i16::MAX {
        lemma_plus_sign_round_trip(n, i16::MIN as int, i16::MAX as int);
    }
    if n <= i32::MAX {
        lemma_plus_sign_round_trip(n, i32::MIN as int, i32::MAX as int);
    }
    if n <= i64::MAX {
        lemma_plus_sign_round_trip(n, i64::MIN as int, i64::MAX as int);
    }
    if n <= i128::MAX {
        lemma_plus_sign_round_trip(n, i128::MIN as int, i128::MAX as int);
    }
    if n <= isize::MAX {
        lemma_plus_sign_round_trip(n, isize::MIN as int, isize::MAX as int);
    }
}

/// Scans `bytes[start..]` as digits with values up to `bound`.
pub fn scan_decimal_exec(bytes: &[u8], start: usize, bound: u128) -> (res: Result<u128, IntErrorKind>)
    requires
        start <= bytes@.len(),
    ensures
        match res {
            Ok(v) => scan_decimal(bytes@.subrange(start as int, bytes@.len() as int), bound as int)
                == Ok::<int, IntErrorKind>(v as int),
            Err(e) => scan_decimal(bytes@.subrange(start as int, bytes@.len() as int), bound as int)
                == Err::<int, IntErrorKind>(e),
        },
{
    let mut acc: u128 = 0;
    let mut i: usize = start;
    while i < bytes.len()
        invariant
            start <= i <= bytes@.len(),
            acc <= bound,
            scan_decimal(bytes@.subrange(start as int, i as int), bound as int) == Ok::<
                int,
                IntErrorKind,
            >(acc as int),
        decreases bytes@.len() - i,
    {
        let ghost prefix = bytes@.subrange(start as int, i + 1);
        proof {
            assert(prefix.drop_last() =~= bytes@.subrange(start as int, i as int));
            assert(prefix.last() == bytes@[i as int]);
        }
        let b = bytes[i];
        if b < 48 || b > 57 {
            proof {
                assert(bytes@.subrange(start as int, bytes@.len() as int).take((i - start) as int + 1) =~= prefix);
                lemma_scan_prefix_error(bytes@.subrange(start as int, bytes@.len() as int), (i - start) as int + 1, bound as int);
            }
            return Err(IntErrorKind::InvalidDigit);
        }
        let d: u128 = (b - 48) as u128;
        if acc > bound / 10 || d > bound || acc * 10 > bound - d {
            proof {
                if acc > bound / 10 {
                    assert(acc * 10 > bound) by (nonlinear_arith)
                        requires acc > bound / 10;
                }
                assert(bytes@.subrange(start as int, bytes@.len() as int).take((i - start) as int + 1) =~= prefix);
                lemma_scan_prefix_error(bytes@.subrange(start as int, bytes@.len() as int), (i - start) as int + 1, bound as int);
            }
            return Err(IntErrorKind::PosOverflow);
        }
        proof {
            assert(acc * 10 <= bound) by (nonlinear_arith)
                requires acc <= bound / 10;
        }
        acc = acc * 10 + d;
        i = i + 1;
    }
    Ok(acc)
}

/// Once a prefix of `s` fails to scan, `s` fails with the same error.
pub proof fn lemma_scan_prefix_error(s: Seq<u8>, k: int, bound: int)
    requires
        0 <= k <= s.len(),
        scan_decimal(s.take(k), bound) is Err,
    ensures
        scan_decimal(s, bound) == scan_decimal(s.take(k), bound),
    decreases s.len() - k,
{
    if k < s.len() {
        assert(s.take(k + 1).drop_last() =~= s.take(k));
        lemma_scan_prefix_error(s, k + 1, bound);
    } else {
        assert(s.take(k) =~= s);
    }
}

/// Reads decimal text as an integer in `0..=hi`.
pub fn parse_unsigned(bytes: &[u8], hi: u128) -> (res: Result<u128, IntErrorKind>)
    ensures
        res matches Ok(v) ==> v <= hi,
        match res {
            Ok(v) => parse_integer(bytes@, 0, hi as int) == Ok::<int, IntErrorKind>(v as int),
            Err(e) => parse_integer(bytes@, 0, hi as int) == Err::<int, IntErrorKind>(e),
        },
{
    if bytes.len() == 0 {
        return Err(IntErrorKind::Empty);
    }
    if (bytes[0] == 43 || bytes[0] == 45) && bytes.len() == 1 {
        return Err(IntErrorKind::InvalidDigit);
    }
    if bytes[0] == 43 {
        proof {
            assert(bytes@.subrange(1, bytes@.len() as int) =~= bytes@.drop_first());
        }
        let r = scan_decimal_exec(bytes, 1, hi);
        proof {
            lemma_scan_decimal_range(bytes@.drop_first(), hi as int);
        }
        r
    } else {
        proof {
            assert(bytes@.subrange(0, bytes@.len() as int) =~= bytes@);
        }
        let r = scan_decimal_exec(bytes, 0, hi);
        proof {
            lemma_scan_decimal_range(bytes@, hi as int);
        }
        r
    }
}

/// Reads decimal text as an integer in `lo..=hi`, where `lo < 0 <= hi`.
pub fn parse_signed(bytes: &[u8], lo: i128, hi: i128) -> (res: Result<i128, IntErrorKind>)
    requires
        lo < 0 <= hi,
    ensures
        res matches Ok(v) ==> lo <= v <= hi,
        match res {
            Ok(v) => parse_integer(bytes@, lo as int, hi as int) == Ok::<int, IntErrorKind>(v as int),
            Err(e) => parse_integer(bytes@, lo as int, hi as int) == Err::<int, IntErrorKind>(e),
        },
{
    if bytes.len() == 0 {
        return Err(IntErrorKind::Empty);
    }
    if (bytes[0] == 43 || bytes[0] == 45) && bytes.len() == 1 {
        return Err(IntErrorKind::InvalidDigit);
    }
    if bytes[0] == 45 {
        proof {
            assert(bytes@.subrange(1, bytes@.len() as int) =~= bytes@.drop_first());
        }
        let magnitude_bound: u128 = ((-(lo + 1)) as u128) + 1;
        match scan_decimal_exec(bytes, 1, magnitude_bound) {
            Ok(m) => {
                proof {
                    lemma_scan_decimal_range(bytes@.drop_first(), magnitude_bound as int);
                }
                if m == 0 {
                    Ok(0)
                } else {
                    Ok(-(((m - 1) as i128)) - 1)
                }
            },
            Err(IntErrorKind::PosOverflow) => Err(IntErrorKind::NegOverflow),
            Err(e) => Err(e),
        }
    } else {
        let start: usize = if bytes[0] == 43 { 1 } else { 0 };
        proof {
            if start == 1 {
                assert(bytes@.subrange(1, bytes@.len() as int) =~= bytes@.drop_first());
            } else {
                assert(bytes@.subrange(0, bytes@.len() as int) =~= bytes@);
            }
        }
        match scan_decimal_exec(bytes, start, hi as u128) {
            Ok(v) => {
                proof {
                    lemma_scan_decimal_range(bytes@.subrange(start as int, bytes@.len() as int), hi as int);
                }
                Ok(v as i128)
            },
            Err(e) => Err(e),
        }
    }
}

/// Whether `bytes` are valid UTF-8.
pub fn is_utf8(bytes: &[u8]) -> (res: bool)
    ensures
        res == valid_utf8(bytes@),
{
    match str_from_utf8(bytes) {
        Ok(_) => true,
        Err(_) => false,
    }
}

/// What the bytes of an entry stand for as an integer in `lo..=hi`.
pub open spec fn integer_parses_to(bytes: Seq<u8>, lo: int, hi: int) -> Option<int> {
    if valid_utf8(bytes) {
        match parse_integer(bytes, lo, hi) {
            Ok(v) => Some(v),
            Err(_) => None,
        }
    } else {
        None
    }
}

/// The error reading an integer in `lo..=hi` from `bytes` gives, where it
/// fails: invalid UTF-8 first, then the first failure of the decimal text.
pub open spec fn integer_error(bytes: Seq<u8>, lo: int, hi: int) -> ConfigParseEntryError {
    if !valid_utf8(bytes) {
        ConfigParseEntryError(ReprParseConfigEntryError::ParseUtf8)
    } else {
        match parse_integer(bytes, lo, hi) {
            Err(e) => ConfigParseEntryError(ReprParseConfigEntryError::ParseInteger(e)),
            Ok(_) => ConfigParseEntryError(ReprParseConfigEntryError::ParseUtf8),
        }
    }
}

/// Reads an unsigned integer in `0..=hi` from the bytes of an entry.
pub fn read_unsigned_entry(bytes: &[u8], hi: u128) -> (res: Result<u128, ConfigParseEntryError>)
    ensures
        res matches Ok(v) ==> v <= hi,
        match res {
            Ok(v) => integer_parses_to(bytes@, 0, hi as int) == Some(v as int),
            Err(e) => integer_parses_to(bytes@, 0, hi as int) is None && e == integer_error(
                bytes@,
                0,
                hi as int,
            ),
        },
{
    if !is_utf8(bytes) {
        return Err(ConfigParseEntryError(ReprParseConfigEntryError::ParseUtf8));
    }
    match parse_unsigned(bytes, hi) {
        Ok(v) => Ok(v),
        Err(e) => Err(ConfigParseEntryError(ReprParseConfigEntryError::ParseInteger(e))),
    }
}

/// Reads a signed integer in `lo..=hi`, where `lo < 0 <= hi`, from the bytes
/// of an entry.
pub fn read_signed_entry(bytes: &[u8], lo: i128, hi: i128) -> (res: Result<i128, ConfigParseEntryError>)
    requires
        lo < 0 <= hi,
    ensures
        res matches Ok(v) ==> lo <= v <= hi,
        match res {
            Ok(v) => integer_parses_to(bytes@, lo as int, hi as int) == Some(v as int),
            Err(e) => integer_parses_to(bytes@, lo as int, hi as int) is None && e == integer_error(
                bytes@,
                lo as int,
                hi as int,
            ),
        },
{
    if !is_utf8(bytes) {
        return Err(ConfigParseEntryError(ReprParseConfigEntryError::ParseUtf8));
    }
    match parse_signed(bytes, lo, hi) {
        Ok(v) => Ok(v),
        Err(e) => Err(ConfigParseEntryError(ReprParseConfigEntryError::ParseInteger(e))),
    }
}


impl ICval for u8 {
    type Repr = u8;

    open spec fn parses_to(bytes: Seq<u8>) -> Option<u8> {
        match integer_parses_to(bytes, 0, u8::MAX as int) {
            Some(v) => Some(v as u8),
            None => None,
        }
    }

    open spec fn refused_with(bytes: Seq<u8>, e: ConfigParseEntryError) -> bool {
        e == integer_error(bytes, 0, u8::MAX as int)
    }

    fn parse_bytes(bytes: Vec<u8>) -> (res: Result<u8, ConfigParseEntryError>)
        ensures
            res matches Err(e) ==> e == integer_error(bytes@, 0, u8::MAX as int),
    {
        match read_unsigned_entry(bytes.as_slice(), 255u128) {
            Ok(v) => Ok(v as u8),
            Err(e) => Err(e),
        }
    }

    fn repr_eq(a: &u8, b: &u8) -> (res: bool) {
        *a == *b
    }

    fn repr_clone(a: &u8) -> (res: u8) {
        *a
    }

    open spec fn default_view() -> u8 {
        0
    }

    fn default_repr() -> (res: u8) {
        0
    }

    open spec fn render_spec(v: u8) -> Seq<u8> {
        crate::ext::text::decimal_text(v as nat)
    }

    fn render(a: &u8) -> (res: Vec<u8>) {
        crate::ext::text::render_unsigned(*a as u128)
    }
}

impl ICval for u16 {
    type Repr = u16;

    open spec fn parses_to(bytes: Seq<u8>) -> Option<u16> {
        match integer_parses_to(bytes, 0, u16::MAX as int) {
            Some(v) => Some(v as u16),
            None => None,
        }
    }

    open spec fn refused_with(bytes: Seq<u8>, e: ConfigParseEntryError) -> bool {
        e == integer_error(bytes, 0, u16::MAX as int)
    }

    fn parse_bytes(bytes: Vec<u8>) -> (res: Result<u16, ConfigParseEntryError>)
        ensures
            res matches Err(e) ==> e == integer_error(bytes@, 0, u16::MAX as int),
    {
        match read_unsigned_entry(bytes.as_slice(), 65535u128) {
            Ok(v) => Ok(v as u16),
            Err(e) => Err(e),
        }
    }

    fn repr_eq(a: &u16, b: &u16) -> (res: bool) {
        *a == *b
    }

    fn repr_clone(a: &u16) -> (res: u16) {
        *a
    }

    open spec fn default_view() -> u16 {
        0
    }

    fn default_repr() -> (res: u16) {
        0
    }

    open spec fn render_spec(v: u16) -> Seq<u8> {
        crate::ext::text::decimal_text(v as nat)
    }

    fn render(a: &u16) -> (res: Vec<u8>) {
        crate::ext::text::render_unsigned(*a as u128)
    }
}

impl ICval for u32 {
    type Repr = u32;

    open spec fn parses_to(bytes: Seq<u8>) -> Option<u32> {
        match integer_parses_to(bytes, 0, u32::MAX as int) {
            Some(v) => Some(v as u32),
            None => None,
        }
    }

    open spec fn refused_with(bytes: Seq<u8>, e: ConfigParseEntryError) -> bool {
        e == integer_error(bytes, 0, u32::MAX as int)
    }

    fn parse_bytes(bytes: Vec<u8>) -> (res: Result<u32, ConfigParseEntryError>)
        ensures
            res matches Err(e) ==> e == integer_error(bytes@, 0, u32::MAX as int),
    {
        match read_unsigned_entry(bytes.as_slice(), 4294967295u128) {
            Ok(v) => Ok(v as u32),
            Err(e) => Err(e),
        }
    }

    fn repr_eq(a: &u32, b: &u32) -> (res: bool) {
        *a == *b
    }

    fn repr_clone(a: &u32) -> (res: u32) {
        *a
    }

    open spec fn default_view() -> u32 {
        0
    }

    fn default_repr() -> (res: u32) {
        0
    }

    open spec fn render_spec(v: u32) -> Seq<u8> {
        crate::ext::text::decimal_text(v as nat)
    }

    fn render(a: &u32) -> (res: Vec<u8>) {
        crate::ext::text::render_unsigned(*a as u128)
    }
}

impl ICval for u64 {
    type Repr = u64;

    open spec fn parses_to(bytes: Seq<u8>) -> Option<u64> {
        match integer_parses_to(bytes, 0, u64::MAX as int) {
            Some(v) => Some(v as u64),
            None => None,
        }
    }

    open spec fn refused_with(bytes: Seq<u8>, e: ConfigParseEntryError) -> bool {
        e == integer_error(bytes, 0, u64::MAX as int)
    }

    fn parse_bytes(bytes: Vec<u8>) -> (res: Result<u64, ConfigParseEntryError>)
        ensures
            res matches Err(e) ==> e == integer_error(bytes@, 0, u64::MAX as int),
    {
        match read_unsigned_entry(bytes.as_slice(), 18446744073709551615u128) {
            Ok(v) => Ok(v as u64),
            Err(e) => Err(e),
        }
    }

    fn repr_eq(a: &u64, b: &u64) -> (res: bool) {
        *a == *b
    }

    fn repr_clone(a: &u64) -> (res: u64) {
        *a
    }

    open spec fn default_view() -> u64 {
        0
    }

    fn default_repr() -> (res: u64) {
        0
    }

    open spec fn render_spec(v: u64) -> Seq<u8> {
        crate::ext::text::decimal_text(v as nat)
    }

    fn render(a: &u64) -> (res: Vec<u8>) {
        crate::ext::text::render_unsigned(*a as u128)
    }
}

impl ICval for u128 {
    type Repr = u128;

    open spec fn parses_to(bytes: Seq<u8>) -> Option<u128> {
        match integer_parses_to(bytes, 0, u128::MAX as int) {
            Some(v) => Some(v as u128),
            None => None,
        }
    }

    open spec fn refused_with(bytes: Seq<u8>, e: ConfigParseEntryError) -> bool {
        e == integer_error(bytes, 0, u128::MAX as int)
    }

    fn parse_bytes(bytes: Vec<u8>) -> (res: Result<u128, ConfigParseEntryError>)
        ensures
            res matches Err(e) ==> e == integer_error(bytes@, 0, u128::MAX as int),
    {
        match read_unsigned_entry(bytes.as_slice(), u128::MAX) {
            Ok(v) => Ok(v as u128),
            Err(e) => Err(e),
        }
    }

    fn repr_eq(a: &u128, b: &u128) -> (res: bool) {
        *a == *b
    }

    fn repr_clone(a: &u128) -> (res: u128) {
        *a
    }

    open spec fn default_view() -> u128 {
        0
    }

    fn default_repr() -> (res: u128) {
        0
    }

    open spec fn render_spec(v: u128) -> Seq<u8> {
        crate::ext::text::decimal_text(v as nat)
    }

    fn render(a: &u128) -> (res: Vec<u8>) {
        crate::ext::text::render_unsigned(*a as u128)
    }
}

impl ICval for usize {
    type Repr = usize;

    open spec fn parses_to(bytes: Seq<u8>) -> Option<usize> {
        match integer_parses_to(bytes, 0, usize::MAX as int) {
            Some(v) => Some(v as usize),
            None => None,
        }
    }

    open spec fn refused_with(bytes: Seq<u8>, e: ConfigParseEntryError) -> bool {
        e == integer_error(bytes, 0, usize::MAX as int)
    }

    fn parse_bytes(bytes: Vec<u8>) -> (res: Result<usize, ConfigParseEntryError>)
        ensures
            res matches Err(e) ==> e == integer_error(bytes@, 0, usize::MAX as int),
    {
        match read_unsigned_entry(bytes.as_slice(), usize::MAX as u128) {
            Ok(v) => Ok(v as usize),
            Err(e) => Err(e),
        }
    }

    fn repr_eq(a: &usize, b: &usize) -> (res: bool) {
        *a == *b
    }

    fn repr_clone(a: &usize) -> (res: usize) {
        *a
    }

    open spec fn default_view() -> usize {
        0
    }

    fn default_repr() -> (res: usize) {
        0
    }

    open spec fn render_spec(v: usize) -> Seq<u8> {
        crate::ext::text::decimal_text(v as nat)
    }

    fn render(a: &usize) -> (res: Vec<u8>) {
        crate::ext::text::render_unsigned(*a as u128)
    }
}

impl ICval for i8 {
    type Repr = i8;

    open spec fn parses_to(bytes: Seq<u8>) -> Option<i8> {
        match integer_parses_to(bytes, i8::MIN as int, i8::MAX as int) {
            Some(v) => Some(v as i8),
            None => None,
        }
    }

    open spec fn refused_with(bytes: Seq<u8>, e: ConfigParseEntryError) -> bool {
        e == integer_error(bytes, i8::MIN as int, i8::MAX as int)
    }

    fn parse_bytes(bytes: Vec<u8>) -> (res: Result<i8, ConfigParseEntryError>)
        ensures
            res matches Err(e) ==> e == integer_error(bytes@, i8::MIN as int, i8::MAX as int),
    {
        match read_signed_entry(bytes.as_slice(), -128i128, 127i128) {
            Ok(v) => Ok(v as i8),
            Err(e) => Err(e),
        }
    }

    fn repr_eq(a: &i8, b: &i8) -> (res: bool) {
        *a == *b
    }

    fn repr_clone(a: &i8) -> (res: i8) {
        *a
    }

    open spec fn default_view() -> i8 {
        0
    }

    fn default_repr() -> (res: i8) {
        0
    }

    open spec fn render_spec(v: i8) -> Seq<u8> {
        crate::ext::text::signed_text(v as int)
    }

    fn render(a: &i8) -> (res: Vec<u8>) {
        crate::ext::text::render_signed(*a as i128)
    }
}

impl ICval for i16 {
    type Repr = i16;

    open spec fn parses_to(bytes: Seq<u8>) -> Option<i16> {
        match integer_parses_to(bytes, i16::MIN as int, i16::MAX as int) {
            Some(v) => Some(v as i16),
            None => None,
        }
    }

    open spec fn refused_with(bytes: Seq<u8>, e: ConfigParseEntryError) -> bool {
        e == integer_error(bytes, i16::MIN as int, i16::MAX as int)
    }

    fn parse_bytes(bytes: Vec<u8>) -> (res: Result<i16, ConfigParseEntryError>)
        ensures
            res matches Err(e) ==> e == integer_error(bytes@, i16::MIN as int, i16::MAX as int),
    {
        match read_signed_entry(bytes.as_slice(), -32768i128, 32767i128) {
            Ok(v) => Ok(v as i16),
            Err(e) => Err(e),
        }
    }

    fn repr_eq(a: &i16, b: &i16) -> (res: bool) {
        *a == *b
    }

    fn repr_clone(a: &i16) -> (res: i16) {
        *a
    }

    open spec fn default_view() -> i16 {
        0
    }

    fn default_repr() -> (res: i16) {
        0
    }

    open spec fn render_spec(v: i16) -> Seq<u8> {
        crate::ext::text::signed_text(v as int)
    }

    fn render(a: &i16) -> (res: Vec<u8>) {
        crate::ext::text::render_signed(*a as i128)
    }
}

impl ICval for i32 {
    type Repr = i32;

    open spec fn parses_to(bytes: Seq<u8>) -> Option<i32> {
        match integer_parses_to(bytes, i32::MIN as int, i32::MAX as int) {
            Some(v) => Some(v as i32),
            None => None,
        }
    }

    open spec fn refused_with(bytes: Seq<u8>, e: ConfigParseEntryError) -> bool {
        e == integer_error(bytes, i32::MIN as int, i32::MAX as int)
    }

    fn parse_bytes(bytes: Vec<u8>) -> (res: Result<i32, ConfigParseEntryError>)
        ensures
            res matches Err(e) ==> e == integer_error(bytes@, i32::MIN as int, i32::MAX as int),
    {
        match read_signed_entry(bytes.as_slice(), -2147483648i128, 2147483647i128) {
            Ok(v) => Ok(v as i32),
            Err(e) => Err(e),
        }
    }

    fn repr_eq(a: &i32, b: &i32) -> (res: bool) {
        *a == *b
    }

    fn repr_clone(a: &i32) -> (res: i32) {
        *a
    }

    open spec fn default_view() -> i32 {
        0
    }

    fn default_repr() -> (res: i32) {
        0
    }

    open spec fn render_spec(v: i32) -> Seq<u8> {
        crate::ext::text::signed_text(v as int)
    }

    fn render(a: &i32) -> (res: Vec<u8>) {
        crate::ext::text::render_signed(*a as i128)
    }
}

impl ICval for i64 {
    type Repr = i64;

    open spec fn parses_to(bytes: Seq<u8>) -> Option<i64> {
        match integer_parses_to(bytes, i64::MIN as int, i64::MAX as int) {
            Some(v) => Some(v as i64),
            None => None,
        }
    }

    open spec fn refused_with(bytes: Seq<u8>, e: ConfigParseEntryError) -> bool {
        e == integer_error(bytes, i64::MIN as int, i64::MAX as int)
    }

    fn parse_bytes(bytes: Vec<u8>) -> (res: Result<i64, ConfigParseEntryError>)
        ensures
            res matches Err(e) ==> e == integer_error(bytes@, i64::MIN as int, i64::MAX as int),
    {
        match read_signed_entry(bytes.as_slice(), -9223372036854775808i128, 9223372036854775807i128) {
            Ok(v) => Ok(v as i64),
            Err(e) => Err(e),
        }
    }

    fn repr_eq(a: &i64, b: &i64) -> (res: bool) {
        *a == *b
    }

    fn repr_clone(a: &i64) -> (res: i64) {
        *a
    }

    open spec fn default_view() -> i64 {
        0
    }

    fn default_repr() -> (res: i64) {
        0
    }

    open spec fn render_spec(v: i64) -> Seq<u8> {
        crate::ext::text::signed_text(v as int)
    }

    fn render(a: &i64) -> (res: Vec<u8>) {
        crate::ext::text::render_signed(*a as i128)
    }
}

impl ICval for i128 {
    type Repr = i128;

    open spec fn parses_to(bytes: Seq<u8>) -> Option<i128> {
        match integer_parses_to(bytes, i128::MIN as int, i128::MAX as int) {
            Some(v) => Some(v as i128),
            None => None,
        }
    }

    open spec fn refused_with(bytes: Seq<u8>, e: ConfigParseEntryError) -> bool {
        e == integer_error(bytes, i128::MIN as int, i128::MAX as int)
    }

    fn parse_bytes(bytes: Vec<u8>) -> (res: Result<i128, ConfigParseEntryError>)
        ensures
            res matches Err(e) ==> e == integer_error(bytes@, i128::MIN as int, i128::MAX as int),
    {
        match read_signed_entry(bytes.as_slice(), i128::MIN, i128::MAX) {
            Ok(v) => Ok(v as i128),
            Err(e) => Err(e),
        }
    }

    fn repr_eq(a: &i128, b: &i128) -> (res: bool) {
        *a == *b
    }

    fn repr_clone(a: &i128) -> (res: i128) {
        *a
    }

    open spec fn default_view() -> i128 {
        0
    }

    fn default_repr() -> (res: i128) {
        0
    }

    open spec fn render_spec(v: i128) -> Seq<u8> {
        crate::ext::text::signed_text(v as int)
    }

    fn render(a: &i128) -> (res: Vec<u8>) {
        crate::ext::text::render_signed(*a as i128)
    }
}

impl ICval for isize {
    type Repr = isize;

    open spec fn parses_to(bytes: Seq<u8>) -> Option<isize> {
        match integer_parses_to(bytes, isize::MIN as int, isize::MAX as int) {
            Some(v) => Some(v as isize),
            None => None,
        }
    }

    open spec fn refused_with(bytes: Seq<u8>, e: ConfigParseEntryError) -> bool {
        e == integer_error(bytes, isize::MIN as int, isize::MAX as int)
    }

    fn parse_bytes(bytes: Vec<u8>) -> (res: Result<isize, ConfigParseEntryError>)
        ensures
            res matches Err(e) ==> e == integer_error(bytes@, isize::MIN as int, isize::MAX as int),
    {
        match read_signed_entry(bytes.as_slice(), isize::MIN as i128, isize::MAX as i128) {
            Ok(v) => Ok(v as isize),
            Err(e) => Err(e),
        }
    }

    fn repr_eq(a: &isize, b: &isize) -> (res: bool) {
        *a == *b
    }

    fn repr_clone(a: &isize) -> (res: isize) {
        *a
    }

    open spec fn default_view() -> isize {
        0
    }

    fn default_repr() -> (res: isize) {
        0
    }

    open spec fn render_spec(v: isize) -> Seq<u8> {
        crate::ext::text::signed_text(v as int)
    }

    fn render(a: &isize) -> (res: Vec<u8>) {
        crate::ext::text::render_signed(*a as i128)
    }
}

} // verus!
