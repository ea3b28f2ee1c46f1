//! Byte-string values: UTF-8 strings, OS strings and paths, all held as the
//! bytes of the entry. OS strings and paths are written out as text, any
//! invalid UTF-8 replaced.
use vstd::prelude::*;
use vstd::utf8::valid_utf8;

use crate::cval::{bytes_eq, str_from_utf8, ICval};
use crate::ext::lossy::{lossy_text, utf8_lossy};
use crate::errors::{ConfigParseEntryError, ReprParseConfigEntryError};

verus! {

/// Values of the platform's own string type (`OsStr` on the host), held as
/// the bytes of the entry: on Unix any byte string is one.
pub struct OsStrValue;

#[verifier::external_type_specification]
#[verifier::external_body]
pub struct ExPath(std::path::Path);

/// A copy of a byte string.
pub fn copy_bytes(a: &Vec<u8>) -> (res: Vec<u8>)
    ensures res@ == a@,
{
    let mut out: Vec<u8> = Vec::new();
    let mut i: usize = 0;
    while i < a.len()
        invariant
            i <= a@.len(),
            out@ == a@.subrange(0, i as int),
        decreases a@.len() - i,
    {
        out.push(a[i]);
        proof {
            assert(out@ =~= a@.subrange(0, i + 1));
        }
        i = i + 1;
    }
    proof {
        assert(a@.subrange(0, a@.len() as int) =~= a@);
    }
    out
}

impl ICval for str {
    type Repr = Vec<u8>;

    /// Any valid UTF-8 text.
    open spec fn parses_to(bytes: Seq<u8>) -> Option<Seq<u8>> {
        if valid_utf8(bytes) {
            Some(bytes)
        } else {
            None
        }
    }

    open spec fn refused_with(bytes: Seq<u8>, e: ConfigParseEntryError) -> bool {
        e == ConfigParseEntryError(ReprParseConfigEntryError::ParseUtf8)
    }

    fn parse_bytes(bytes: Vec<u8>) -> (res: Result<Vec<u8>, ConfigParseEntryError>)
        ensures
            res is Err ==> res == Err::<Vec<u8>, ConfigParseEntryError>(
                ConfigParseEntryError(ReprParseConfigEntryError::ParseUtf8),
            ),
    {
        let ok = match str_from_utf8(bytes.as_slice()) {
            Ok(_) => true,
            Err(_) => false,
        };
        if ok {
            Ok(bytes)
        } else {
            Err(ConfigParseEntryError(ReprParseConfigEntryError::ParseUtf8))
        }
    }

    fn repr_eq(a: &Vec<u8>, b: &Vec<u8>) -> (res: bool) {
        bytes_eq(a.as_slice(), b.as_slice())
    }

    fn repr_clone(a: &Vec<u8>) -> (res: Vec<u8>) {
        copy_bytes(a)
    }

    open spec fn default_view() -> Seq<u8> {
        Seq::empty()
    }

    fn default_repr() -> (res: Vec<u8>) {
        Vec::new()
    }

    open spec fn render_spec(v: Seq<u8>) -> Seq<u8> {
        v
    }

    fn render(a: &Vec<u8>) -> (res: Vec<u8>) {
        copy_bytes(a)
    }
}

impl ICval for OsStrValue {
    type Repr = Vec<u8>;

    /// Any bytes.
    open spec fn parses_to(bytes: Seq<u8>) -> Option<Seq<u8>> {
        Some(bytes)
    }

    open spec fn refused_with(bytes: Seq<u8>, e: ConfigParseEntryError) -> bool {
        false
    }

    fn parse_bytes(bytes: Vec<u8>) -> (res: Result<Vec<u8>, ConfigParseEntryError>) {
        Ok(bytes)
    }

    fn repr_eq(a: &Vec<u8>, b: &Vec<u8>) -> (res: bool) {
        bytes_eq(a.as_slice(), b.as_slice())
    }

    fn repr_clone(a: &Vec<u8>) -> (res: Vec<u8>) {
        copy_bytes(a)
    }

    open spec fn default_view() -> Seq<u8> {
        Seq::empty()
    }

    fn default_repr() -> (res: Vec<u8>) {
        Vec::new()
    }

    /// Written as text: invalid UTF-8 replaced.
    open spec fn render_spec(v: Seq<u8>) -> Seq<u8> {
        utf8_lossy(v)
    }

    fn render(a: &Vec<u8>) -> (res: Vec<u8>) {
        lossy_text(a.as_slice())
    }
}

impl ICval for std::path::Path {
    type Repr = Vec<u8>;

    /// Any bytes.
    open spec fn parses_to(bytes: Seq<u8>) -> Option<Seq<u8>> {
        Some(bytes)
    }

    open spec fn refused_with(bytes: Seq<u8>, e: ConfigParseEntryError) -> bool {
        false
    }

    fn parse_bytes(bytes: Vec<u8>) -> (res: Result<Vec<u8>, ConfigParseEntryError>) {
        Ok(bytes)
    }

    fn repr_eq(a: &Vec<u8>, b: &Vec<u8>) -> (res: bool) {
        bytes_eq(a.as_slice(), b.as_slice())
    }

    fn repr_clone(a: &Vec<u8>) -> (res: Vec<u8>) {
        copy_bytes(a)
    }

    open spec fn default_view() -> Seq<u8> {
        Seq::empty()
    }

    fn default_repr() -> (res: Vec<u8>) {
        Vec::new()
    }

    /// Written as text: invalid UTF-8 replaced.
    open spec fn render_spec(v: Seq<u8>) -> Seq<u8> {
        utf8_lossy(v)
    }

    fn render(a: &Vec<u8>) -> (res: Vec<u8>) {
        lossy_text(a.as_slice())
    }
}

} // verus!
