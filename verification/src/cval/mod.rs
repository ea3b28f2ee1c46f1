//! Configuration values: the types a configuration entry can hold, how each
//! is read from the bytes of an entry, and how values are compared.
use vstd::prelude::*;
use vstd::utf8::{decode_utf8, valid_utf8};

use crate::errors::ConfigParseEntryError;

pub mod boolean;
pub mod character;
pub mod duration;
pub mod integer;
pub mod optional;
pub mod strings;

verus! {

/// A type that configuration values can have. `Repr` is how a value of the
/// type is held; its view is what contracts speak of.
pub trait ICval {
    type Repr: View;

    /// What the bytes of an entry stand for as a value of this type, if they
    /// stand for one.
    spec fn parses_to(bytes: Seq<u8>) -> Option<<Self::Repr as View>::V>;

    /// Whether `e` is the error reading `bytes` gives, where they stand for no
    /// value.
    spec fn refused_with(bytes: Seq<u8>, e: ConfigParseEntryError) -> bool;

    /// Reads a value from the bytes of an entry: `Ok` exactly when the bytes
    /// stand for a value, and then with that value; otherwise the error that
    /// says why.
    fn parse_bytes(bytes: Vec<u8>) -> (res: Result<Self::Repr, ConfigParseEntryError>)
        ensures
            Self::parses_to(bytes@) matches Some(v) ==> res matches Ok(r) && r@ == v,
            Self::parses_to(bytes@) is None ==> (res matches Err(e) && Self::refused_with(bytes@, e)),
    ;

    /// Whether two held values are the same value.
    fn repr_eq(a: &Self::Repr, b: &Self::Repr) -> (res: bool)
        ensures res == (a@ == b@),
    ;

    /// A copy of a held value.
    fn repr_clone(a: &Self::Repr) -> (res: Self::Repr)
        ensures res@ == a@,
    ;

    /// The value of the type that stands where none was given.
    spec fn default_view() -> <Self::Repr as View>::V;

    fn default_repr() -> (res: Self::Repr)
        ensures res@ == Self::default_view(),
    ;

    /// The text a value is written as.
    spec fn render_spec(v: <Self::Repr as View>::V) -> Seq<u8>;

    fn render(a: &Self::Repr) -> (res: Vec<u8>)
        ensures res@ == Self::render_spec(a@),
    ;
}

/// A single configuration value of type `T`.
pub struct Cval<T: ?Sized + ICval>(pub T::Repr);

impl<T: ?Sized + ICval> View for Cval<T> {
    type V = <T::Repr as View>::V;

    open spec fn view(&self) -> Self::V {
        self.0@
    }
}

impl<T: ?Sized + ICval> Cval<T> {
    pub fn from_repr(repr: T::Repr) -> (res: Self)
        ensures res@ == repr@,
    {
        Cval(repr)
    }

    pub fn into_inner(self) -> (res: T::Repr)
        ensures res@ == self@,
    {
        self.0
    }

    pub fn as_repr(&self) -> (res: &T::Repr)
        ensures res@ == self@,
    {
        &self.0
    }

    /// A copy of this value.
    pub fn duplicate(&self) -> (res: Self)
        ensures res@ == self@,
    {
        Cval(T::repr_clone(&self.0))
    }

    /// Whether this value equals `other`.
    pub fn same(&self, other: &Self) -> (res: bool)
        ensures res == (self@ == other@),
    {
        T::repr_eq(&self.0, &other.0)
    }

    /// The text this value is written as.
    pub fn render(&self) -> (res: Vec<u8>)
        ensures res@ == T::render_spec(self@),
    {
        T::render(&self.0)
    }

    /// Reads a value of type `T` from the bytes of an entry.
    pub fn try_from_bytes(bytes: Vec<u8>) -> (res: Result<Self, ConfigParseEntryError>)
        ensures
            T::parses_to(bytes@) matches Some(v) ==> res matches Ok(c) && c@ == v,
            T::parses_to(bytes@) is None ==> (res matches Err(e) && T::refused_with(bytes@, e)),
    {
        match T::parse_bytes(bytes) {
            Ok(r) => Ok(Cval(r)),
            Err(e) => Err(e),
        }
    }
}

/// Whether two byte strings are equal.
pub fn bytes_eq(a: &[u8], b: &[u8]) -> (res: bool)
    ensures res == (a@ == b@),
{
    if a.len() != b.len() {
        return false;
    }
    let mut i: usize = 0;
    while i < a.len()
        invariant
            a@.len() == b@.len(),
            i <= a@.len(),
            forall|j: int| 0 <= j < i ==> a@[j] == b@[j],
        decreases a@.len() - i,
    {
        if a[i] != b[i] {
            return false;
        }
        i = i + 1;
    }
    assert(a@ =~= b@);
    true
}

#[verifier::external_type_specification]
#[verifier::external_body]
pub struct ExUtf8Error(core::str::Utf8Error);

/// `core::str::from_utf8`: succeeds exactly on valid UTF-8, with the string
/// those bytes encode.
#[verifier::external_body]
pub(crate) fn str_from_utf8(bytes: &[u8]) -> (res: Result<&str, core::str::Utf8Error>)
    ensures
        res is Ok <==> valid_utf8(bytes@),
        res matches Ok(s) ==> s@ == decode_utf8(bytes@),
{
    core::str::from_utf8(bytes)
}

} // verus!
