//! Duration values, written `[[[dd:]hh:]mm:]ss[.nn]`: colon-separated days,
//! hours, minutes and seconds, each a non-empty run of ASCII digits, and an
//! optional count of nanoseconds after a dot. Fields are not bounded by the
//! next unit (`1:61` is 121 seconds); nanoseconds beyond a second carry into
//! seconds.
use vstd::prelude::*;

use crate::cval::integer::{is_ascii_digit, scan_decimal, scan_decimal_exec};
use crate::cval::ICval;
use crate::ext::text::{decimal_text, push_decimal};
use crate::errors::{
    ConfigParseEntryError, DurationField, IntErrorKind, ParseDurationError,
    ReprParseConfigEntryError,
};

verus! {

pub const SECONDS_IN_MINUTE: u64 = 60;

pub const SECONDS_IN_HOUR: u64 = 3600;

pub const SECONDS_IN_DAY: u64 = 86400;

pub const NANOSECONDS_IN_SECOND: u64 = 1000000000;

/// A span of time: whole seconds and the nanoseconds beyond them, fewer than
/// a second's worth.
#[derive(Debug, Clone, Copy, PartialEq, Eq, Hash)]
pub struct DurationValue {
    pub secs: u64,
    pub subsec_nanos: u32,
}

impl View for DurationValue {
    type V = (int, int);

    open spec fn view(&self) -> (int, int) {
        (self.secs as int, self.subsec_nanos as int)
    }
}

/// What went wrong reading a duration, with the bytes each error carries.
pub enum DurationFault {
    Format,
    FieldInt(DurationField, Seq<u8>, IntErrorKind),
    Overflows(Seq<u8>),
}

impl ParseDurationError {
    pub open spec fn fault(self) -> DurationFault {
        match self {
            ParseDurationError::Format => DurationFault::Format,
            ParseDurationError::ParseFieldInt(f, b, k) => DurationFault::FieldInt(f, b@, k),
            ParseDurationError::FieldOverflows(b) => DurationFault::Overflows(b@),
        }
    }
}

/// The index of the first `c` in `s`, or `s.len()` where there is none.
pub open spec fn find_byte(s: Seq<u8>, c: u8) -> int
    decreases s.len(),
{
    if s.len() == 0 {
        0
    } else if s[0] == c {
        0
    } else {
        1 + find_byte(s.drop_first(), c)
    }
}

/// The pieces of `s` between colons, in order (one piece where there is no
/// colon).
pub open spec fn split_colons(s: Seq<u8>) -> Seq<Seq<u8>>
    decreases s.len(),
{
    if s.len() == 0 {
        seq![Seq::<u8>::empty()]
    } else {
        let r = split_colons(s.drop_last());
        if s.last() == 58 {
            r.push(Seq::<u8>::empty())
        } else {
            r.update(r.len() - 1, r.last().push(s.last()))
        }
    }
}

pub open spec fn all_digits(s: Seq<u8>) -> bool {
    s.len() > 0 && forall|i: int| 0 <= i < s.len() ==> is_ascii_digit(#[trigger] s[i])
}

pub open spec fn u64_max() -> int {
    0xffff_ffff_ffff_ffff
}

pub open spec fn u128_max() -> int {
    0xffff_ffff_ffff_ffff_ffff_ffff_ffff_ffff
}

/// The fields of `s`, from days to seconds.
pub open spec fn duration_fields(s: Seq<u8>) -> Seq<Seq<u8>> {
    split_colons(s.take(find_byte(s, 46)))
}

/// `s` has the form `[[[dd:]hh:]mm:]ss[.nn]`: one to four colon-separated
/// fields before the dot, if there is one, every field and the part after the
/// dot a non-empty run of digits.
pub open spec fn duration_format_ok(s: Seq<u8>) -> bool {
    let d = find_byte(s, 46);
    let fields = duration_fields(s);
    &&& fields.len() <= 4
    &&& forall|k: int| 0 <= k < fields.len() ==> all_digits(#[trigger] fields[k])
    &&& d < s.len() ==> all_digits(s.skip(d + 1))
}

/// Adds `field` counted in `unit` seconds to a partial result.
pub open spec fn add_field(
    acc: Result<(int, int), DurationFault>,
    field: Seq<u8>,
    which: DurationField,
    unit: int,
    whole: Seq<u8>,
) -> Result<(int, int), DurationFault> {
    match acc {
        Err(e) => Err(e),
        Ok((secs, nanos)) => match scan_decimal(field, u64_max()) {
            Err(k) => Err(DurationFault::FieldInt(which, field, k)),
            Ok(v) => if secs + v * unit > u64_max() {
                Err(DurationFault::Overflows(whole))
            } else {
                Ok((secs + v * unit, nanos))
            },
        },
    }
}

/// The seconds and nanoseconds from the seconds field and the nanoseconds
/// after the dot of `t`, if there is one; `whole` is the text read.
pub open spec fn seconds_part(t: Seq<u8>, seconds: Seq<u8>, whole: Seq<u8>) -> Result<
    (int, int),
    DurationFault,
> {
    let d = find_byte(t, 46);
    match scan_decimal(seconds, u64_max()) {
        Err(k) => Err(DurationFault::FieldInt(DurationField::Seconds, seconds, k)),
        Ok(secs) => if d < t.len() {
            match scan_decimal(t.skip(d + 1), u128_max()) {
                Err(k) => Err(DurationFault::FieldInt(DurationField::Nanoseconds, t.skip(d + 1), k)),
                Ok(nn) => if secs + nn / 1000000000 > u64_max() {
                    Err(DurationFault::Overflows(whole))
                } else {
                    Ok((secs + nn / 1000000000, nn % 1000000000))
                },
            }
        } else {
            Ok((secs, 0))
        },
    }
}

/// The duration that the text `s` stands for, as seconds and nanoseconds,
/// or the error reading it gives. Fields are read from seconds outwards.
pub open spec fn parse_duration(s: Seq<u8>) -> Result<(int, int), DurationFault> {
    if !duration_format_ok(s) {
        Err(DurationFault::Format)
    } else {
        let fields = duration_fields(s);
        let n = fields.len();
        let base = seconds_part(s, fields[n - 1], s);
        let m = if n >= 2 {
            add_field(base, fields[n - 2], DurationField::Minutes, 60, s)
        } else {
            base
        };
        let h = if n >= 3 {
            add_field(m, fields[n - 3], DurationField::Hours, 3600, s)
        } else {
            m
        };
        if n >= 4 {
            add_field(h, fields[n - 4], DurationField::Days, 86400, s)
        } else {
            h
        }
    }
}

/// Splitting at colons gives at least one piece.
pub proof fn lemma_split_colons_nonempty(s: Seq<u8>)
    ensures
        split_colons(s).len() >= 1,
    decreases s.len(),
{
    if s.len() > 0 {
        lemma_split_colons_nonempty(s.drop_last());
    }
}

proof fn lemma_find_byte(s: Seq<u8>, c: u8, i: int)
    requires
        0 <= i <= s.len(),
        forall|j: int| 0 <= j < i ==> s[j] != c,
        i == s.len() || s[i] == c,
    ensures
        find_byte(s, c) == i,
    decreases i,
{
    if i > 0 {
        lemma_find_byte(s.drop_first(), c, i - 1);
    }
}

/// A successful result has fewer than a second's worth of nanoseconds and
/// seconds that fit a `u64`.
pub proof fn lemma_parse_duration_range(s: Seq<u8>)
    ensures
        parse_duration(s) matches Ok((secs, nanos)) ==> 0 <= secs <= u64_max() && 0 <= nanos
            < 1000000000,
{
    if duration_format_ok(s) {
        let t = s;
        let fields = duration_fields(s);
        lemma_split_colons_nonempty(t.take(find_byte(t, 46)));
        let n = fields.len();
        crate::cval::integer::lemma_scan_decimal_range(fields[n - 1], u64_max());
        let d = find_byte(t, 46);
        if d < t.len() {
            crate::cval::integer::lemma_scan_decimal_range(t.skip(d + 1), u128_max());
        }
        if n >= 2 {
            crate::cval::integer::lemma_scan_decimal_range(fields[n - 2], u64_max());
        }
        if n >= 3 {
            crate::cval::integer::lemma_scan_decimal_range(fields[n - 3], u64_max());
        }
        if n >= 4 {
            crate::cval::integer::lemma_scan_decimal_range(fields[n - 4], u64_max());
        }
    }
}

/// Whether every byte of `s` is an ASCII digit and there is at least one.
pub fn all_digits_exec(s: &[u8]) -> (res: bool)
    ensures
        res == all_digits(s@),
{
    if s.len() == 0 {
        return false;
    }
    let mut i: usize = 0;
    while i < s.len()
        invariant
            i <= s@.len(),
            forall|j: int| 0 <= j < i ==> is_ascii_digit(#[trigger] s@[j]),
        decreases s@.len() - i,
    {
        if s[i] < 48 || s[i] > 57 {
            return false;
        }
        i = i + 1;
    }
    true
}

/// The index of the first `c` in `s`, or `s.len()`.
pub fn find_byte_exec(s: &[u8], c: u8) -> (res: usize)
    ensures
        res == find_byte(s@, c),
        res <= s@.len(),
{
    let mut i: usize = 0;
    while i < s.len() && s[i] != c
        invariant
            i <= s@.len(),
            forall|j: int| 0 <= j < i ==> s@[j] != c,
        decreases s@.len() - i,
    {
        i = i + 1;
    }
    proof {
        lemma_find_byte(s@, c, i as int);
    }
    i
}

pub open spec fn views(v: Seq<Vec<u8>>) -> Seq<Seq<u8>> {
    v.map_values(|x: Vec<u8>| x@)
}

/// The pieces of `s[..end]` between colons.
pub fn split_colons_exec(s: &[u8], end: usize) -> (res: Vec<Vec<u8>>)
    requires
        end <= s@.len(),
    ensures
        views(res@) == split_colons(s@.take(end as int)),
{
    let mut done: Vec<Vec<u8>> = Vec::new();
    let mut cur: Vec<u8> = Vec::new();
    let mut i: usize = 0;
    proof {
        assert(s@.take(0) =~= Seq::<u8>::empty());
        assert(views(done@).push(cur@) =~= seq![Seq::<u8>::empty()]);
    }
    while i < end
        invariant
            i <= end <= s@.len(),
            views(done@).push(cur@) == split_colons(s@.take(i as int)),
        decreases end - i,
    {
        let b = s[i];
        proof {
            assert(s@.take(i + 1).drop_last() =~= s@.take(i as int));
            assert(s@.take(i + 1).last() == b);
        }
        if b == 58 {
            let ghost old_done = views(done@);
            let finished = cur;
            done.push(finished);
            cur = Vec::new();
            proof {
                assert(views(done@) =~= old_done.push(finished@));
                assert(views(done@).push(cur@) =~= split_colons(s@.take(i + 1)));
            }
        } else {
            let ghost old_cur = cur@;
            cur.push(b);
            proof {
                let r = split_colons(s@.take(i as int));
                assert(r.last() == old_cur);
                assert(views(done@).push(cur@) =~= r.update(r.len() - 1, r.last().push(b)));
            }
        }
        i = i + 1;
    }
    let ghost before = views(done@);
    done.push(cur);
    proof {
        assert(views(done@) =~= before.push(cur@));
    }
    done
}

fn field_error(which: DurationField, field: &Vec<u8>, kind: IntErrorKind) -> (res: ParseDurationError)
    ensures
        res.fault() == DurationFault::FieldInt(which, field@, kind),
{
    let copy = vstd::slice::slice_to_vec(field.as_slice());
    ParseDurationError::ParseFieldInt(which, copy, kind)
}

fn overflow_error(whole: &[u8]) -> (res: ParseDurationError)
    ensures
        res.fault() == DurationFault::Overflows(whole@),
{
    ParseDurationError::FieldOverflows(vstd::slice::slice_to_vec(whole))
}

/// Adds `field` counted in `unit` seconds to `secs`.
fn add_field_exec(
    secs: u64,
    nanos: u32,
    field: &Vec<u8>,
    which: DurationField,
    unit: u64,
    whole: &[u8],
) -> (res: Result<u64, ParseDurationError>)
    requires
        unit <= 86400,
    ensures
        match res {
            Ok(v) => add_field(
                Ok((secs as int, nanos as int)),
                field@,
                which,
                unit as int,
                whole@,
            ) == Ok::<(int, int), DurationFault>((v as int, nanos as int)),
            Err(e) => add_field(Ok((secs as int, nanos as int)), field@, which, unit as int, whole@)
                == Err::<(int, int), DurationFault>(e.fault()),
        },
{
    proof {
        assert(field@.subrange(0, field@.len() as int) =~= field@);
    }
    match scan_decimal_exec(field.as_slice(), 0, 0xffff_ffff_ffff_ffffu128) {
        Err(k) => Err(field_error(which, field, k)),
        Ok(v) => {
            proof {
                crate::cval::integer::lemma_scan_decimal_range(field@, u64_max());
                assert(v * unit <= 0xffff_ffff_ffff_ffffu128 * 86400) by (nonlinear_arith)
                    requires
                        v <= 0xffff_ffff_ffff_ffffu128,
                        unit <= 86400,
                ;
            }
            let t: u128 = v * (unit as u128);
            if t > (0xffff_ffff_ffff_ffffu64 - secs) as u128 {
                Err(overflow_error(whole))
            } else {
                Ok(secs + (t as u64))
            }
        },
    }
}

/// Reads a duration from the text `bytes`.
pub fn parse_duration_bytes(bytes: &[u8]) -> (res: Result<DurationValue, ParseDurationError>)
    ensures
        match res {
            Ok(d) => parse_duration(bytes@) == Ok::<(int, int), DurationFault>(d@),
            Err(e) => parse_duration(bytes@) == Err::<(int, int), DurationFault>(e.fault()),
        },
{
    let t: &[u8] = bytes;
    let d = find_byte_exec(t, 46);
    let fields = split_colons_exec(t, d);
    proof {
        lemma_split_colons_nonempty(t@.take(d as int));
    }
    let n = fields.len();
    if n > 4 {
        return Err(ParseDurationError::Format);
    }
    let mut k: usize = 0;
    while k < n
        invariant
            n == fields@.len(),
            t@ == bytes@,
            d == find_byte(t@, 46),
            views(fields@) == duration_fields(bytes@),
            k <= n,
            forall|j: int| 0 <= j < k ==> all_digits(#[trigger] views(fields@)[j]),
        decreases n - k,
    {
        if !all_digits_exec(fields[k].as_slice()) {
            proof {
                assert(views(fields@)[k as int] == fields@[k as int]@);
                let fs = duration_fields(bytes@);
                assert(fs.len() == views(fields@).len());
                assert(!all_digits(fs[k as int]));
                assert(!duration_format_ok(bytes@));
            }
            return Err(ParseDurationError::Format);
        }
        proof {
            assert(views(fields@)[k as int] == fields@[k as int]@);
        }
        k = k + 1;
    }
    let has_frac = d < t.len();
    let frac: &[u8] = if has_frac {
        vstd::slice::slice_subrange(t, d + 1, t.len())
    } else {
        vstd::slice::slice_subrange(t, t.len(), t.len())
    };
    proof {
        if has_frac {
            assert(frac@ =~= t@.skip(d + 1));
        }
    }
    if has_frac && !all_digits_exec(frac) {
        return Err(ParseDurationError::Format);
    }
    proof {
        assert(duration_format_ok(bytes@));
    }
    let ghost fs = duration_fields(bytes@);
    // seconds and the nanoseconds after the dot
    let sec_field = &fields[n - 1];
    proof {
        assert(sec_field@ == fs[n - 1]);
        assert(sec_field@.subrange(0, sec_field@.len() as int) =~= sec_field@);
    }
    let mut secs: u64 = match scan_decimal_exec(sec_field.as_slice(), 0, 0xffff_ffff_ffff_ffffu128) {
        Err(k) => {
            return Err(field_error(DurationField::Seconds, sec_field, k));
        },
        Ok(v) => {
            proof {
                crate::cval::integer::lemma_scan_decimal_range(sec_field@, u64_max());
            }
            v as u64
        },
    };
    let mut nanos: u32 = 0;
    if has_frac {
        proof {
            assert(frac@.subrange(0, frac@.len() as int) =~= frac@);
        }
        match scan_decimal_exec(frac, 0, u128::MAX) {
            Err(k) => {
                let copy = vstd::slice::slice_to_vec(frac);
                return Err(ParseDurationError::ParseFieldInt(DurationField::Nanoseconds, copy, k));
            },
            Ok(nn) => {
                let add = nn / 1000000000u128;
                if add > (0xffff_ffff_ffff_ffffu64 - secs) as u128 {
                    return Err(overflow_error(bytes));
                }
                secs = secs + (add as u64);
                nanos = (nn % 1000000000u128) as u32;
            },
        }
    }
    assert(seconds_part(t@, fs[n - 1], bytes@) == Ok::<(int, int), DurationFault>(
        (secs as int, nanos as int),
    ));
    if n >= 2 {
        proof {
            assert(fields@[n - 2]@ == fs[n - 2]);
        }
        match add_field_exec(secs, nanos, &fields[n - 2], DurationField::Minutes, SECONDS_IN_MINUTE, bytes) {
            Ok(v) => {
                secs = v;
            },
            Err(e) => {
                return Err(e);
            },
        }
    }
    if n >= 3 {
        proof {
            assert(fields@[n - 3]@ == fs[n - 3]);
        }
        match add_field_exec(secs, nanos, &fields[n - 3], DurationField::Hours, SECONDS_IN_HOUR, bytes) {
            Ok(v) => {
                secs = v;
            },
            Err(e) => {
                return Err(e);
            },
        }
    }
    if n >= 4 {
        proof {
            assert(fields@[n - 4]@ == fs[n - 4]);
        }
        match add_field_exec(secs, nanos, &fields[n - 4], DurationField::Days, SECONDS_IN_DAY, bytes) {
            Ok(v) => {
                secs = v;
            },
            Err(e) => {
                return Err(e);
            },
        }
    }
    Ok(DurationValue { secs, subsec_nanos: nanos })
}

/// The text a duration is written as: seconds, then minutes, hours and days
/// before them where they are not zero, and nanoseconds after a dot where
/// they are not zero. The minutes field is the seconds within the hour, the
/// hours field the seconds within the day.
pub open spec fn duration_text(secs: int, nanos: int) -> Seq<u8> {
    let s = decimal_text((secs % 60) as nat);
    let mv = secs % 3600;
    let hv = secs % 86400;
    let dv = secs / 86400;
    let m = decimal_text(mv as nat);
    let h = decimal_text(hv as nat);
    let d = decimal_text(dv as nat);
    let n = decimal_text(nanos as nat);
    let colon = seq![58u8];
    let dot = seq![46u8];
    if nanos == 0 && mv == 0 && hv == 0 && dv == 0 {
        s
    } else if nanos == 0 && hv == 0 && dv == 0 {
        m + colon + s
    } else if nanos == 0 && dv == 0 {
        h + colon + m + colon + s
    } else if mv == 0 && hv == 0 && dv == 0 {
        s + dot + n
    } else if hv == 0 && dv == 0 {
        m + colon + s + dot + n
    } else if dv == 0 {
        h + colon + m + colon + s + dot + n
    } else {
        d + colon + h + colon + m + colon + s + dot + n
    }
}

/// The text `d` is written as.
pub fn render_duration(d: &DurationValue) -> (res: Vec<u8>)
    ensures
        res@ == duration_text(d.secs as int, d.subsec_nanos as int),
{
    let secs = d.secs;
    let nanos = d.subsec_nanos;
    let sv = secs % 60;
    let mv = secs % 3600;
    let hv = secs % 86400;
    let dv = secs / 86400;
    let mut out: Vec<u8> = Vec::new();
    if nanos == 0 && mv == 0 && hv == 0 && dv == 0 {
        push_decimal(&mut out, sv as u128);
    } else if nanos == 0 && hv == 0 && dv == 0 {
        push_decimal(&mut out, mv as u128);
        out.push(58u8);
        push_decimal(&mut out, sv as u128);
    } else if nanos == 0 && dv == 0 {
        push_decimal(&mut out, hv as u128);
        out.push(58u8);
        push_decimal(&mut out, mv as u128);
        out.push(58u8);
        push_decimal(&mut out, sv as u128);
    } else if mv == 0 && hv == 0 && dv == 0 {
        push_decimal(&mut out, sv as u128);
        out.push(46u8);
        push_decimal(&mut out, nanos as u128);
    } else if hv == 0 && dv == 0 {
        push_decimal(&mut out, mv as u128);
        out.push(58u8);
        push_decimal(&mut out, sv as u128);
        out.push(46u8);
        push_decimal(&mut out, nanos as u128);
    } else if dv == 0 {
        push_decimal(&mut out, hv as u128);
        out.push(58u8);
        push_decimal(&mut out, mv as u128);
        out.push(58u8);
        push_decimal(&mut out, sv as u128);
        out.push(46u8);
        push_decimal(&mut out, nanos as u128);
    } else {
        push_decimal(&mut out, dv as u128);
        out.push(58u8);
        push_decimal(&mut out, hv as u128);
        out.push(58u8);
        push_decimal(&mut out, mv as u128);
        out.push(58u8);
        push_decimal(&mut out, sv as u128);
        out.push(46u8);
        push_decimal(&mut out, nanos as u128);
    }
    proof {
        assert(out@ =~= duration_text(secs as int, nanos as int));
    }
    out
}

/// A duration with nanoseconds is written with them: its text ends with a
/// dot and the nanoseconds in decimal, whatever its seconds are.
pub proof fn lemma_duration_text_keeps_nanos(secs: nat, nanos: nat)
    requires
        nanos > 0,
    ensures
        ({
            let t = duration_text(secs as int, nanos as int);
            let n = decimal_text(nanos);
            t.len() > n.len() && t.subrange(t.len() - n.len() - 1, t.len() as int) == seq![46u8] + n
        }),
{
    let t = duration_text(secs as int, nanos as int);
    let n = decimal_text(nanos);
    let dot = seq![46u8];
    let tail = dot + n;
    let front = t.subrange(0, t.len() - tail.len());
    assert(t =~= front + tail);
    assert(t.subrange(t.len() - n.len() - 1, t.len() as int) =~= tail);
}

/// A duration under a second is written as `0.` and its nanoseconds (or `0`
/// where it has none), and that text reads back as the same duration.
pub proof fn lemma_subsecond_duration_reads_back(nanos: nat)
    requires
        nanos < 1000000000,
    ensures
        parse_duration(duration_text(0, nanos as int)) == Ok::<(int, int), DurationFault>((0, nanos as int)),
{
    let t = duration_text(0, nanos as int);
    let zero = seq![48u8];
    assert(decimal_text(0) == zero);
    assert(split_colons(Seq::<u8>::empty()) == seq![Seq::<u8>::empty()]);
    assert(zero.drop_last() =~= Seq::<u8>::empty());
    assert(split_colons(zero) =~= seq![zero]);
    assert(all_digits(zero));
    crate::ext::text::lemma_decimal_round_trip(0, u64_max());
    if nanos == 0 {
        assert(t == zero);
        lemma_find_byte(t, 46, 1);
        assert(t.take(1) =~= zero);
    } else {
        let n = decimal_text(nanos);
        assert(t == zero + seq![46u8] + n);
        lemma_find_byte(t, 46, 1);
        assert(t.take(1) =~= zero);
        assert(t.skip(2) =~= n);
        crate::cval::integer::lemma_decimal_text_ascii(nanos);
        assert(n.len() > 0) by {
            if nanos >= 10 {
                assert(n.len() == decimal_text(nanos / 10).len() + 1);
            }
        }
        assert(all_digits(n));
        crate::ext::text::lemma_decimal_round_trip(nanos, u128_max());
        assert(nanos / 1000000000 == 0);
        assert(nanos % 1000000000 == nanos);
    }
}

proof fn lemma_split_colons_plain(s: Seq<u8>)
    requires
        forall|i: int| 0 <= i < s.len() ==> s[i] != 58,
    ensures
        split_colons(s) == seq![s],
    decreases s.len(),
{
    if s.len() > 0 {
        lemma_split_colons_plain(s.drop_last());
        assert(s.drop_last().push(s.last()) =~= s);
    } else {
        assert(s =~= Seq::<u8>::empty());
    }
}

proof fn lemma_split_colons_append(a: Seq<u8>, b: Seq<u8>)
    requires
        forall|i: int| 0 <= i < b.len() ==> b[i] != 58,
    ensures
        split_colons(a + seq![58u8] + b) == split_colons(a).push(b),
    decreases b.len(),
{
    if b.len() == 0 {
        let s = a + seq![58u8] + b;
        assert(s.drop_last() =~= a);
        assert(s.last() == 58);
        assert(b =~= Seq::<u8>::empty());
    } else {
        lemma_split_colons_append(a, b.drop_last());
        let s = a + seq![58u8] + b;
        assert(s.drop_last() =~= a + seq![58u8] + b.drop_last());
        assert(s.last() == b.last());
        assert(b.drop_last().push(b.last()) =~= b);
    }
}

proof fn lemma_digits_plain(n: nat)
    ensures
        decimal_text(n).len() > 0,
        all_digits(decimal_text(n)),
        forall|i: int| 0 <= i < decimal_text(n).len() ==> decimal_text(n)[i] != 58 && decimal_text(n)[i] != 46,
    decreases n,
{
    crate::cval::integer::lemma_decimal_text_ascii(n);
    if n >= 10 {
        lemma_digits_plain(n / 10);
    }
}

/// A whole number of days, with any nanoseconds, is written
/// `days:0:0:0.nanos`, and that text reads back as the same duration.
pub proof fn lemma_whole_days_read_back(days: nat, nanos: nat)
    requires
        days >= 1,
        86400 * days <= u64_max(),
        nanos < 1000000000,
    ensures
        parse_duration(duration_text((86400 * days) as int, nanos as int)) == Ok::<(int, int), DurationFault>(
            ((86400 * days) as int, nanos as int),
        ),
{
    let secs: int = (86400 * days) as int;
    assert(secs % 60 == 0 && secs % 3600 == 0 && secs % 86400 == 0 && secs / 86400 == days) by (nonlinear_arith)
        requires secs == 86400 * days;
    let t = duration_text(secs, nanos as int);
    let d = decimal_text(days);
    let z = decimal_text(0);
    let n = decimal_text(nanos);
    let c = seq![58u8];
    let head = d + c + z + c + z + c + z;
    assert(t =~= head + seq![46u8] + n);
    lemma_digits_plain(days);
    lemma_digits_plain(0);
    lemma_digits_plain(nanos);
    assert(z == seq![48u8]);
    // where the dot is
    assert forall|i: int| 0 <= i < head.len() implies head[i] != 46 by {}
    lemma_find_byte(t, 46, head.len() as int);
    assert(t.take(head.len() as int) =~= head);
    assert(t.skip(head.len() as int + 1) =~= n);
    // the fields
    lemma_split_colons_plain(d);
    lemma_split_colons_append(d, z);
    assert(d + c + z == d + seq![58u8] + z);
    lemma_split_colons_append(d + c + z, z);
    assert(d + c + z + c + z == (d + c + z) + seq![58u8] + z);
    lemma_split_colons_append(d + c + z + c + z, z);
    assert(head == (d + c + z + c + z) + seq![58u8] + z);
    let fields = duration_fields(t);
    assert(fields =~= seq![d, z, z, z]);
    assert(duration_format_ok(t));
    crate::ext::text::lemma_decimal_round_trip(0, u64_max());
    crate::ext::text::lemma_decimal_round_trip(nanos, u128_max());
    crate::ext::text::lemma_decimal_round_trip(days, u64_max());
    assert(nanos / 1000000000 == 0);
    assert(nanos % 1000000000 == nanos);
}

impl ICval for core::time::Duration {
    type Repr = DurationValue;

    open spec fn parses_to(bytes: Seq<u8>) -> Option<(int, int)> {
        match parse_duration(bytes) {
            Ok(v) => Some(v),
            Err(_) => None,
        }
    }

    open spec fn refused_with(bytes: Seq<u8>, e: ConfigParseEntryError) -> bool {
        e.0 matches ReprParseConfigEntryError::ParseDuration(de) && parse_duration(bytes) == Err::<
            (int, int),
            DurationFault,
        >(de.fault())
    }

    fn parse_bytes(bytes: Vec<u8>) -> (res: Result<DurationValue, ConfigParseEntryError>)
        ensures
            res matches Err(e) ==> (e.0 matches ReprParseConfigEntryError::ParseDuration(de)
                && parse_duration(bytes@) == Err::<(int, int), DurationFault>(de.fault())),
    {
        match parse_duration_bytes(bytes.as_slice()) {
            Ok(d) => Ok(d),
            Err(e) => Err(ConfigParseEntryError(ReprParseConfigEntryError::ParseDuration(e))),
        }
    }

    fn repr_eq(a: &DurationValue, b: &DurationValue) -> (res: bool) {
        a.secs == b.secs && a.subsec_nanos == b.subsec_nanos
    }

    fn repr_clone(a: &DurationValue) -> (res: DurationValue) {
        *a
    }

    open spec fn default_view() -> (int, int) {
        (0, 0)
    }

    fn default_repr() -> (res: DurationValue) {
        DurationValue { secs: 0, subsec_nanos: 0 }
    }

    open spec fn render_spec(v: (int, int)) -> Seq<u8> {
        duration_text(v.0, v.1)
    }

    fn render(a: &DurationValue) -> (res: Vec<u8>) {
        render_duration(a)
    }
}

} // verus!
