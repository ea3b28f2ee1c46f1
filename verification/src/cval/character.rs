//! Character values, written as their UTF-8 encoding. Text stands for a
//! character when it is valid UTF-8 and holds exactly that one character.
use vstd::prelude::*;
use vstd::utf8::{decode_utf8, valid_utf8};

use crate::cval::{str_from_utf8, ICval};
use crate::errors::{ConfigParseEntryError, ReprParseConfigEntryError};

verus! {

/// The UTF-8 encoding of `c`.
pub fn encode_char(c: char) -> (res: Vec<u8>)
    ensures
        res@ == vstd::utf8::encode_scalar(c as u32),
{
    let scalar = c as u32;
    let mut out: Vec<u8> = Vec::new();
    if scalar <= 0x7F {
        out.push((scalar & 0x7F) as u8);
    } else if scalar <= 0x7FF {
        out.push(0xC0 | ((scalar >> 6) & 0x1F) as u8);
        out.push(0x80 | (scalar & 0x3F) as u8);
    } else if scalar <= 0xFFFF {
        out.push(0xE0 | ((scalar >> 12) & 0x0F) as u8);
        out.push(0x80 | ((scalar >> 6) & 0x3F) as u8);
        out.push(0x80 | (scalar & 0x3F) as u8);
    } else {
        out.push(0xF0 | ((scalar >> 18) & 0x7) as u8);
        out.push(0x80 | ((scalar >> 12) & 0x3F) as u8);
        out.push(0x80 | ((scalar >> 6) & 0x3F) as u8);
        out.push(0x80 | (scalar & 0x3F) as u8);
    }
    proof {
        vstd::utf8::char_is_scalar(c);
        assert(out@ =~= vstd::utf8::encode_scalar(c as u32));
    }
    out
}

impl ICval for char {
    type Repr = char;

    open spec fn parses_to(bytes: Seq<u8>) -> Option<char> {
        if valid_utf8(bytes) && decode_utf8(bytes).len() == 1 {
            Some(decode_utf8(bytes)[0])
        } else {
            None
        }
    }

    open spec fn refused_with(bytes: Seq<u8>, e: ConfigParseEntryError) -> bool {
        e == if valid_utf8(bytes) {
            ConfigParseEntryError(ReprParseConfigEntryError::ParseChar)
        } else {
            ConfigParseEntryError(ReprParseConfigEntryError::ParseUtf8)
        }
    }

    fn parse_bytes(bytes: Vec<u8>) -> (res: Result<char, ConfigParseEntryError>)
        ensures
            !valid_utf8(bytes@) ==> res == Err::<char, ConfigParseEntryError>(
                ConfigParseEntryError(ReprParseConfigEntryError::ParseUtf8),
            ),
            valid_utf8(bytes@) && decode_utf8(bytes@).len() != 1 ==> res == Err::<
                char,
                ConfigParseEntryError,
            >(ConfigParseEntryError(ReprParseConfigEntryError::ParseChar)),
    {
        match str_from_utf8(bytes.as_slice()) {
            Err(_) => Err(ConfigParseEntryError(ReprParseConfigEntryError::ParseUtf8)),
            Ok(s) => {
                if s.unicode_len() == 1 {
                    Ok(s.get_char(0))
                } else {
                    Err(ConfigParseEntryError(ReprParseConfigEntryError::ParseChar))
                }
            },
        }
    }

    fn repr_eq(a: &char, b: &char) -> (res: bool) {
        *a == *b
    }

    fn repr_clone(a: &char) -> (res: char) {
        *a
    }

    open spec fn default_view() -> char {
        '\0'
    }

    fn default_repr() -> (res: char) {
        '\0'
    }

    open spec fn render_spec(v: char) -> Seq<u8> {
        vstd::utf8::encode_scalar(v as u32)
    }

    fn render(a: &char) -> (res: Vec<u8>) {
        encode_char(*a)
    }
}

} // verus!
