//! Bytes written as text: valid UTF-8 as it is, anything else with each
//! invalid sequence replaced by U+FFFD, as OS strings and paths are shown.
use vstd::prelude::*;
use vstd::utf8::valid_utf8;

verus! {

/// The text `String::from_utf8_lossy` gives for `bytes`, as bytes.
pub uninterp spec fn utf8_lossy(bytes: Seq<u8>) -> Seq<u8>;

/// Calls `String::from_utf8_lossy`, which on Unix writes bytes as
/// `OsStr::display` and `Path::display` do. The contract names the result
/// and says that valid UTF-8 comes back unchanged, as the function's
/// documentation says; how each invalid sequence is replaced is left unsaid.
#[verifier::external_body]
pub(crate) fn lossy_text(bytes: &[u8]) -> (res: Vec<u8>)
    ensures
        res@ == utf8_lossy(bytes@),
        valid_utf8(bytes@) ==> res@ == bytes@,
{
    String::from_utf8_lossy(bytes).into_owned().into_bytes()
}

} // verus!
