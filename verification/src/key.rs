//! The key that names a configuration entry: a byte string, as written in
//! the configuration text.
use vstd::prelude::*;

verus! {

#[derive(Debug)]
pub struct Key {
    bytes: Vec<u8>,
}

impl View for Key {
    type V = Seq<u8>;

    closed spec fn view(&self) -> Seq<u8> {
        self.bytes@
    }
}

impl Key {
    /// A key with the given bytes.
    pub fn from_static(string: &'static [u8]) -> (res: Self)
        ensures
            res@ == string@,
    {
        Key { bytes: vstd::slice::slice_to_vec(string) }
    }

    /// A key with the given bytes.
    pub fn from_bytes(bytes: Vec<u8>) -> (res: Self)
        ensures
            res@ == bytes@,
    {
        Key { bytes }
    }

    /// A key with the bytes of `string`.
    pub fn from_slice(string: &[u8]) -> (res: Self)
        ensures
            res@ == string@,
    {
        Key { bytes: vstd::slice::slice_to_vec(string) }
    }

    pub fn as_bytes(&self) -> (res: &[u8])
        ensures
            res@ == self@,
    {
        self.bytes.as_slice()
    }

    pub fn into_bytes(self) -> (res: Vec<u8>)
        ensures
            res@ == self@,
    {
        self.bytes
    }

    /// A copy of this key.
    pub fn duplicate(&self) -> (res: Self)
        ensures
            res@ == self@,
    {
        Key { bytes: vstd::slice::slice_to_vec(self.bytes.as_slice()) }
    }

    /// Whether this key has the same bytes as `other`.
    pub fn same(&self, other: &Key) -> (res: bool)
        ensures
            res == (self@ == other@),
    {
        crate::cval::bytes_eq(self.bytes.as_slice(), other.bytes.as_slice())
    }
}

} // verus!
