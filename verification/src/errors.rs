//! The errors of reading configuration values and entries.
use vstd::prelude::*;

use vstd::utf8::encode_utf8;

use crate::ext::lossy::{lossy_text, utf8_lossy};
use crate::ext::text::{push_all, push_str};
use crate::parse::ParseError;
use crate::parse::RawEntry;

verus! {

/// Why a decimal integer could not be read.
#[derive(Debug, Clone, Copy, PartialEq, Eq, Hash)]
pub enum IntErrorKind {
    Empty,
    InvalidDigit,
    PosOverflow,
    NegOverflow,
}

/// The fields of a duration `[[[dd:]hh:]mm:]ss[.nn]`.
#[derive(Debug, Clone, Copy, PartialEq, Eq, Hash)]
pub enum DurationField {
    Days,
    Hours,
    Minutes,
    Seconds,
    Nanoseconds,
}

/// Why a duration could not be read.
#[derive(Debug, Clone, PartialEq, Eq)]
pub enum ParseDurationError {
    /// The text does not have the form `[[[dd:]hh:]mm:]ss[.nn]`.
    Format,
    /// A field does not fit its integer type.
    ParseFieldInt(DurationField, Vec<u8>, IntErrorKind),
    /// The total does not fit a duration.
    FieldOverflows(Vec<u8>),
}

#[derive(Debug, Clone, PartialEq, Eq)]
pub enum ReprParseConfigEntryError {
    ParseInteger(IntErrorKind),
    ParseUtf8,
    ParseBoolean,
    ParseChar,
    ParseDuration(ParseDurationError),
}

/// The bytes of an entry do not stand for a value of the entry's type.
#[derive(Debug, Clone, PartialEq, Eq)]
pub struct ConfigParseEntryError(pub ReprParseConfigEntryError);

/// An entry could not be applied to a configuration.
#[derive(Debug)]
pub enum ConfigParseError {
    UnknownKey(RawEntry),
    UnknownGroupKey(RawEntry),
    UnknownOperationKey(RawEntry),
    Group(ConfigParseGroupError),
    Entry(ConfigParseEntryError),
}

/// An entry inside a group could not be applied.
#[derive(Debug)]
pub enum ConfigParseGroupError {
    UnknownKey { group: Vec<u8>, entry: RawEntry },
    UnknownGroupKey { group: Vec<u8>, entry: RawEntry },
    UnknownOperationKey { group: Vec<u8>, entry: RawEntry },
    Group { group: Vec<u8>, error: Box<ConfigParseGroupError> },
    Entry { group: Vec<u8>, error: ConfigParseEntryError },
}

/// Reading configuration text failed: it is malformed, or an entry could not
/// be applied.
#[derive(Debug)]
pub enum ConfigParseBytesError {
    Parse(ParseError),
    Config(ConfigParseError),
}

// ---------------------------------------------------------------------------
// Messages

/// Why an integer could not be read, as the message says it.
pub open spec fn int_error_text(k: IntErrorKind) -> Seq<char> {
    match k {
        IntErrorKind::Empty => "cannot parse integer from empty string"@,
        IntErrorKind::InvalidDigit => "invalid digit found in string"@,
        IntErrorKind::PosOverflow => "number too large to fit in target type"@,
        IntErrorKind::NegOverflow => "number too small to fit in target type"@,
    }
}

/// The name of a duration field, as the message says it.
pub open spec fn field_name(f: DurationField) -> Seq<char> {
    match f {
        DurationField::Days => "days"@,
        DurationField::Hours => "hours"@,
        DurationField::Minutes => "minutes"@,
        DurationField::Seconds => "seconds"@,
        DurationField::Nanoseconds => "nanoseconds"@,
    }
}

pub open spec fn duration_format_text() -> Seq<char> {
    "duration must follow the format [[hh:]mm:]ss[.NN]"@
}

/// The message of a duration error, as UTF-8 text; the bytes it carries
/// are written as `String::from_utf8_lossy` writes them.
pub open spec fn duration_error_text(e: ParseDurationError) -> Seq<u8> {
    match e {
        ParseDurationError::Format => encode_utf8(duration_format_text()),
        ParseDurationError::ParseFieldInt(f, b, k) => encode_utf8(duration_format_text())
            + encode_utf8(" but "@) + encode_utf8(field_name(f)) + encode_utf8(" field ('"@)
            + utf8_lossy(b@) + encode_utf8("') failed to parse: "@) + encode_utf8(int_error_text(k)),
        ParseDurationError::FieldOverflows(b) => encode_utf8("duration '"@) + utf8_lossy(b@)
            + encode_utf8("' exceeds the maximum duration of 18446744073709551615.999999999 seconds"@),
    }
}

/// The message of an error reading a value, as UTF-8 text. A value that is
/// not UTF-8 is reported without the position of the first bad byte.
pub open spec fn entry_error_text(e: ConfigParseEntryError) -> Seq<u8> {
    match e.0 {
        ReprParseConfigEntryError::ParseInteger(k) => encode_utf8(int_error_text(k)),
        ReprParseConfigEntryError::ParseUtf8 => encode_utf8("invalid utf-8 sequence"@),
        ReprParseConfigEntryError::ParseBoolean => encode_utf8("invalid boolean value"@),
        ReprParseConfigEntryError::ParseChar => encode_utf8(
            "char must be represented by exactly one character"@,
        ),
        ReprParseConfigEntryError::ParseDuration(d) => duration_error_text(d),
    }
}

fn int_error_str(k: IntErrorKind) -> (res: &'static str)
    ensures
        res@ == int_error_text(k),
{
    match k {
        IntErrorKind::Empty => "cannot parse integer from empty string",
        IntErrorKind::InvalidDigit => "invalid digit found in string",
        IntErrorKind::PosOverflow => "number too large to fit in target type",
        IntErrorKind::NegOverflow => "number too small to fit in target type",
    }
}

fn field_name_str(f: DurationField) -> (res: &'static str)
    ensures
        res@ == field_name(f),
{
    match f {
        DurationField::Days => "days",
        DurationField::Hours => "hours",
        DurationField::Minutes => "minutes",
        DurationField::Seconds => "seconds",
        DurationField::Nanoseconds => "nanoseconds",
    }
}

impl ParseDurationError {
    /// The message of this error, as UTF-8 text.
    pub fn message(&self) -> (res: Vec<u8>)
        ensures
            res@ == duration_error_text(*self),
    {
        let mut out: Vec<u8> = Vec::new();
        match self {
            ParseDurationError::Format => {
                push_str(&mut out, "duration must follow the format [[hh:]mm:]ss[.NN]");
            },
            ParseDurationError::ParseFieldInt(f, b, k) => {
                push_str(&mut out, "duration must follow the format [[hh:]mm:]ss[.NN]");
                push_str(&mut out, " but ");
                push_str(&mut out, field_name_str(*f));
                push_str(&mut out, " field ('");
                let text = lossy_text(b.as_slice());
                push_all(&mut out, text.as_slice());
                push_str(&mut out, "') failed to parse: ");
                push_str(&mut out, int_error_str(*k));
            },
            ParseDurationError::FieldOverflows(b) => {
                push_str(&mut out, "duration '");
                let text = lossy_text(b.as_slice());
                push_all(&mut out, text.as_slice());
                push_str(&mut out, "' exceeds the maximum duration of 18446744073709551615.999999999 seconds");
            },
        }
        proof {
            assert(out@ =~= duration_error_text(*self));
        }
        out
    }
}

impl ConfigParseEntryError {
    /// The message of this error, as UTF-8 text.
    pub fn message(&self) -> (res: Vec<u8>)
        ensures
            res@ == entry_error_text(*self),
    {
        let mut out: Vec<u8> = Vec::new();
        match &self.0 {
            ReprParseConfigEntryError::ParseInteger(k) => push_str(&mut out, int_error_str(*k)),
            ReprParseConfigEntryError::ParseUtf8 => push_str(&mut out, "invalid utf-8 sequence"),
            ReprParseConfigEntryError::ParseBoolean => push_str(&mut out, "invalid boolean value"),
            ReprParseConfigEntryError::ParseChar => push_str(
                &mut out,
                "char must be represented by exactly one character",
            ),
            ReprParseConfigEntryError::ParseDuration(d) => {
                out = d.message();
            },
        }
        proof {
            assert(out@ =~= entry_error_text(*self));
        }
        out
    }
}

} // verus!
