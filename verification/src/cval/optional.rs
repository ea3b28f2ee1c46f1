//! Optional values: no value until one is given. Reading the bytes of an
//! entry gives a value, read as the inner type would read it.
use vstd::prelude::*;

use crate::cval::{Cval, ICval};
use crate::errors::ConfigParseEntryError;

verus! {

/// An optional value of type `T`.
pub struct OptionalCval<T: ?Sized + ICval>(pub Option<Cval<T>>);

impl<T: ?Sized + ICval> View for OptionalCval<T> {
    type V = Option<<T::Repr as View>::V>;

    open spec fn view(&self) -> Option<<T::Repr as View>::V> {
        match self.0 {
            Some(c) => Some(c@),
            None => None,
        }
    }
}

impl<T: ?Sized + ICval> OptionalCval<T> {
    /// The value, if one was given.
    pub fn as_ref(&self) -> (res: Option<&Cval<T>>)
        ensures
            match res {
                Some(c) => self@ == Some(c@),
                None => self@ is None,
            },
    {
        match &self.0 {
            Some(c) => Some(c),
            None => None,
        }
    }
}

/// What the bytes of an entry stand for as an optional `T`: a value, where
/// they stand for one.
pub open spec fn optional_parses_to<T: ?Sized + ICval>(bytes: Seq<u8>) -> Option<
    Option<<T::Repr as View>::V>,
> {
    match T::parses_to(bytes) {
        Some(v) => Some(Some(v)),
        None => None,
    }
}

fn optional_parse<T: ?Sized + ICval>(bytes: Vec<u8>) -> (res: Result<OptionalCval<T>, ConfigParseEntryError>)
    ensures
        optional_parses_to::<T>(bytes@) matches Some(v) ==> res matches Ok(r) && r@ == v,
        optional_parses_to::<T>(bytes@) is None ==> (res matches Err(e) && T::refused_with(bytes@, e)),
{
    match Cval::<T>::try_from_bytes(bytes) {
        Ok(c) => Ok(OptionalCval(Some(c))),
        Err(e) => Err(e),
    }
}

fn optional_eq<T: ?Sized + ICval>(a: &OptionalCval<T>, b: &OptionalCval<T>) -> (res: bool)
    ensures
        res == (a@ == b@),
{
    match (&a.0, &b.0) {
        (Some(x), Some(y)) => x.same(y),
        (None, None) => true,
        _ => false,
    }
}

fn optional_clone<T: ?Sized + ICval>(a: &OptionalCval<T>) -> (res: OptionalCval<T>)
    ensures
        res@ == a@,
{
    match &a.0 {
        Some(x) => OptionalCval(Some(x.duplicate())),
        None => OptionalCval(None),
    }
}

/// The text an optional value is written as: the value's, or nothing.
pub open spec fn optional_text<T: ?Sized + ICval>(v: Option<<T::Repr as View>::V>) -> Seq<u8> {
    match v {
        Some(x) => T::render_spec(x),
        None => Seq::empty(),
    }
}

fn optional_render<T: ?Sized + ICval>(a: &OptionalCval<T>) -> (res: Vec<u8>)
    ensures
        res@ == optional_text::<T>(a@),
{
    match &a.0 {
        Some(x) => x.render(),
        None => Vec::new(),
    }
}

/// `Option<T>` for a sized value type `T`.
impl<T: ICval> ICval for Option<T> {
    type Repr = OptionalCval<T>;

    open spec fn parses_to(bytes: Seq<u8>) -> Option<Option<<T::Repr as View>::V>> {
        optional_parses_to::<T>(bytes)
    }

    open spec fn refused_with(bytes: Seq<u8>, e: ConfigParseEntryError) -> bool {
        T::refused_with(bytes, e)
    }

    fn parse_bytes(bytes: Vec<u8>) -> (res: Result<OptionalCval<T>, ConfigParseEntryError>) {
        optional_parse::<T>(bytes)
    }

    fn repr_eq(a: &OptionalCval<T>, b: &OptionalCval<T>) -> (res: bool) {
        optional_eq(a, b)
    }

    fn repr_clone(a: &OptionalCval<T>) -> (res: OptionalCval<T>) {
        optional_clone(a)
    }

    open spec fn default_view() -> Option<<T::Repr as View>::V> {
        None
    }

    fn default_repr() -> (res: OptionalCval<T>) {
        OptionalCval(None)
    }

    open spec fn render_spec(v: Option<<T::Repr as View>::V>) -> Seq<u8> {
        optional_text::<T>(v)
    }

    fn render(a: &OptionalCval<T>) -> (res: Vec<u8>) {
        optional_render(a)
    }
}

/// `Option<Cval<T>>`, for any value type `T`, unsized ones (`str`, paths)
/// included.
impl<T: ?Sized + ICval> ICval for Option<Cval<T>> {
    type Repr = OptionalCval<T>;

    open spec fn parses_to(bytes: Seq<u8>) -> Option<Option<<T::Repr as View>::V>> {
        optional_parses_to::<T>(bytes)
    }

    open spec fn refused_with(bytes: Seq<u8>, e: ConfigParseEntryError) -> bool {
        T::refused_with(bytes, e)
    }

    fn parse_bytes(bytes: Vec<u8>) -> (res: Result<OptionalCval<T>, ConfigParseEntryError>) {
        optional_parse::<T>(bytes)
    }

    fn repr_eq(a: &OptionalCval<T>, b: &OptionalCval<T>) -> (res: bool) {
        optional_eq(a, b)
    }

    fn repr_clone(a: &OptionalCval<T>) -> (res: OptionalCval<T>) {
        optional_clone(a)
    }

    open spec fn default_view() -> Option<<T::Repr as View>::V> {
        None
    }

    fn default_repr() -> (res: OptionalCval<T>) {
        OptionalCval(None)
    }

    open spec fn render_spec(v: Option<<T::Repr as View>::V>) -> Seq<u8> {
        optional_text::<T>(v)
    }

    fn render(a: &OptionalCval<T>) -> (res: Vec<u8>) {
        optional_render(a)
    }
}

} // verus!
