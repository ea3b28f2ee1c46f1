//! The description of a configuration struct that configuration code is
//! generated from: which fields are collections, groups or the group key,
//! the keys they are read under and the attributes that adjust them.
//!
//! A field's type and attributes are given as plain data, the way the Rust
//! source spells them; where an attribute's argument must be read as Rust
//! (a string literal, a boolean, an identifier, an expression) the `syn`
//! crate reads it.
use vstd::prelude::*;
use vstd::string::StringExecFns;

pub mod field;
pub mod message;
pub mod plan;

use crate::schema::field::{
    field_attributes_spec, to_uppercase_text, uppercase, ConfigFieldAttributes, FieldAttributeError,
    FieldAttributesView, FieldType,
};

verus! {

/// The parts of a path, `a::b::C<T>`.
pub struct SegmentDecl {
    pub ident: String,
    pub arguments: ArgsDecl,
}

/// The arguments after a path segment: none, `<...>` (written `::<...>`
/// where `colon2` is set) or `(...)`.
pub enum ArgsDecl {
    NoArgs,
    AngleBracketed { colon2: bool, args: Vec<GenericArgDecl> },
    Parenthesized,
}

/// One argument between angle brackets: a type, or anything else (a
/// lifetime, a constant, a binding).
pub enum GenericArgDecl {
    Type(TypeDecl),
    Other,
}

/// A path, with or without a leading `::`.
pub struct PathDecl {
    pub leading_colon: bool,
    pub segments: Vec<SegmentDecl>,
}

/// A type: a path (with `qself` set for `<T as Trait>::...`), or any other
/// kind of type.
pub enum TypeDecl {
    Path { qself: bool, path: PathDecl },
    Other,
}

/// The content of an attribute: `#[path]`, `#[path(tokens)]` or
/// `#[path = value]`.
pub enum MetaDecl {
    Path(PathDecl),
    List { path: PathDecl, tokens: String },
    NameValue(PathDecl),
}

/// An attribute: outer (`#[...]`) or inner (`#![...]`).
pub struct AttrDecl {
    pub outer: bool,
    pub meta: MetaDecl,
}

/// A field of a struct: its name (`None` for a tuple field), type and
/// attributes.
pub struct FieldDecl {
    pub ident: Option<String>,
    pub ty: TypeDecl,
    pub attrs: Vec<AttrDecl>,
}

/// Whether `s` and `t` are the same text.
pub fn text_is(s: &str, t: &str) -> (res: bool)
    ensures
        res == (s@ == t@),
{
    let n = s.unicode_len();
    if n != t.unicode_len() {
        return false;
    }
    let mut i: usize = 0;
    while i < n
        invariant
            n == s@.len(),
            n == t@.len(),
            i <= n,
            forall|j: int| 0 <= j < i ==> s@[j] == t@[j],
        decreases n - i,
    {
        if s.get_char(i) != t.get_char(i) {
            return false;
        }
        i = i + 1;
    }
    assert(s@ =~= t@);
    true
}

/// `path` is the single identifier `name`: no leading `::`, one segment,
/// no arguments (as `syn::Path::is_ident` decides).
pub open spec fn path_is_ident(path: PathDecl, name: Seq<char>) -> bool {
    &&& !path.leading_colon
    &&& path.segments@.len() == 1
    &&& path.segments@[0].arguments is NoArgs
    &&& path.segments@[0].ident@ == name
}

pub fn is_ident(path: &PathDecl, name: &str) -> (res: bool)
    ensures
        res == path_is_ident(*path, name@),
{
    if path.leading_colon || path.segments.len() != 1 {
        return false;
    }
    let seg = &path.segments[0];
    match seg.arguments {
        ArgsDecl::NoArgs => text_is(seg.ident.as_str(), name),
        _ => false,
    }
}

/// Whether a struct may only be read with every key known.
pub struct ConfigStructAttributes {
    pub exhaustive: bool,
}

/// An attribute of a configuration struct that is not `#[exhaustive]`; the
/// index says which.
#[derive(Debug, Clone, Copy, PartialEq, Eq, Structural)]
pub struct UnknownAttribute {
    pub index: usize,
}

impl ConfigStructAttributes {
    /// Reads the attributes of a configuration struct: `#[exhaustive]` is the
    /// only one known.
    pub fn parse(attrs: &Vec<AttrDecl>) -> (res: Result<Self, UnknownAttribute>)
        ensures
            match res {
                Ok(a) => (forall|i: int|
                    0 <= i < attrs@.len() ==> #[trigger] is_exhaustive_attr(attrs@[i]))
                    && a.exhaustive == (attrs@.len() > 0),
                Err(e) => e.index < attrs@.len() && !is_exhaustive_attr(attrs@[e.index as int])
                    && forall|i: int| 0 <= i < e.index ==> #[trigger] is_exhaustive_attr(attrs@[i]),
            },
    {
        let mut exhaustive = false;
        let mut i: usize = 0;
        while i < attrs.len()
            invariant
                i <= attrs@.len(),
                forall|j: int| 0 <= j < i ==> #[trigger] is_exhaustive_attr(attrs@[j]),
                exhaustive == (i > 0),
            decreases attrs@.len() - i,
        {
            let a = &attrs[i];
            let ok = a.outer && match &a.meta {
                MetaDecl::Path(p) => is_ident(p, "exhaustive"),
                _ => false,
            };
            if !ok {
                return Err(UnknownAttribute { index: i });
            }
            exhaustive = true;
            i = i + 1;
        }
        Ok(ConfigStructAttributes { exhaustive })
    }
}

pub open spec fn is_exhaustive_attr(a: AttrDecl) -> bool {
    a.outer && (a.meta matches MetaDecl::Path(p) && path_is_ident(p, "exhaustive"@))
}


/// The name of a field: its identifier, or its position in a tuple struct.
pub enum FieldIdent {
    Named(String),
    Index(usize),
}

/// A field of a configuration struct, read: its attributes, the key it is
/// read under and its name.
pub struct ConfigField {
    pub attributes: ConfigFieldAttributes,
    pub key: String,
    pub ident: FieldIdent,
    pub field_index: usize,
}

/// Why a field was refused.
#[derive(Debug, Clone, Copy, PartialEq, Eq, Structural)]
pub enum FieldError {
    Attribute(FieldAttributeError),
    /// A tuple field has no name to take its key from and no `key`
    /// attribute.
    MissingKey,
}

/// The key a field is read under: the one its `key` attribute gives, or
/// else its name in upper case.
pub open spec fn field_key_spec(field: FieldDecl, attrs: FieldAttributesView) -> Option<Seq<char>> {
    match attrs.key {
        Some(k) => Some(k),
        None => match field.ident {
            Some(name) => Some(uppercase(name@)),
            None => None,
        },
    }
}

impl ConfigField {
    /// Reads field number `field_index`: its attributes, then its key.
    pub fn parse(field: &FieldDecl, field_index: usize) -> (res: Result<ConfigField, FieldError>)
        ensures
            match field_attributes_spec(*field) {
                Err((i, k)) => res matches Err(FieldError::Attribute(e)) && e.index == i && e.kind
                    == k,
                Ok(a) => match field_key_spec(*field, a) {
                    Some(key) => res matches Ok(f) && f.attributes.view() == a && f.key@ == key
                        && f.field_index == field_index,
                    None => res matches Err(FieldError::MissingKey),
                },
            },
    {
        let attributes = match ConfigFieldAttributes::parse(field) {
            Ok(a) => a,
            Err(e) => {
                return Err(FieldError::Attribute(e));
            },
        };
        let key = match &attributes.key {
            Some(k) => String::from_str(k.as_str()),
            None => match &field.ident {
                Some(name) => to_uppercase_text(name.as_str()),
                None => {
                    return Err(FieldError::MissingKey);
                },
            },
        };
        let ident = match &field.ident {
            Some(name) => FieldIdent::Named(String::from_str(name.as_str())),
            None => FieldIdent::Index(field_index),
        };
        Ok(ConfigField { attributes, key, ident, field_index })
    }

    pub fn field_type(&self) -> (res: FieldType)
        ensures
            res == self.attributes.parser,
    {
        self.attributes.parser
    }
}

/// The kind and key of each field.
pub open spec fn field_keys(fields: Seq<ConfigField>) -> Seq<(FieldType, Seq<char>)> {
    fields.map_values(|f: ConfigField| (f.attributes.parser, f.key@))
}

/// The first index in `s` of a field of kind `ns` with key `key`.
pub open spec fn first_with(s: Seq<(FieldType, Seq<char>)>, ns: FieldType, key: Seq<char>) -> Option<int>
    decreases s.len(),
{
    if s.len() == 0 {
        None
    } else {
        match first_with(s.drop_last(), ns, key) {
            Some(i) => Some(i),
            None => if s.last().0 == ns && s.last().1 == key {
                Some(s.len() - 1)
            } else {
                None
            },
        }
    }
}

/// The first field of kind `ns` whose key an earlier field of that kind has
/// already, with that earlier field.
pub open spec fn first_duplicate(s: Seq<(FieldType, Seq<char>)>, ns: FieldType) -> Option<(int, int)>
    decreases s.len(),
{
    if s.len() == 0 {
        None
    } else {
        match first_duplicate(s.drop_last(), ns) {
            Some(p) => Some(p),
            None => if s.last().0 == ns {
                match first_with(s.drop_last(), ns, s.last().1) {
                    Some(i) => Some((s.len() - 1, i)),
                    None => None,
                }
            } else {
                None
            },
        }
    }
}

proof fn lemma_first_with_extend(s: Seq<(FieldType, Seq<char>)>, ns: FieldType, key: Seq<char>, m: int)
    requires
        0 <= m <= s.len(),
        first_with(s.take(m), ns, key) is Some,
    ensures
        first_with(s, ns, key) == first_with(s.take(m), ns, key),
    decreases s.len() - m,
{
    if m < s.len() {
        assert(s.take(m + 1).drop_last() =~= s.take(m));
        lemma_first_with_extend(s, ns, key, m + 1);
    } else {
        assert(s.take(m) =~= s);
    }
}

proof fn lemma_first_with_bound(s: Seq<(FieldType, Seq<char>)>, ns: FieldType, key: Seq<char>)
    ensures
        first_with(s, ns, key) matches Some(i) ==> 0 <= i < s.len(),
    decreases s.len(),
{
    if s.len() > 0 {
        lemma_first_with_bound(s.drop_last(), ns, key);
    }
}

/// The earlier field of a duplicate comes before it.
pub proof fn lemma_first_duplicate_order(s: Seq<(FieldType, Seq<char>)>, ns: FieldType)
    ensures
        first_duplicate(s, ns) matches Some((j, i)) ==> 0 <= i < j < s.len(),
    decreases s.len(),
{
    if s.len() > 0 {
        lemma_first_duplicate_order(s.drop_last(), ns);
        lemma_first_with_bound(s.drop_last(), ns, s.last().1);
    }
}

proof fn lemma_first_duplicate_extend(s: Seq<(FieldType, Seq<char>)>, ns: FieldType, m: int)
    requires
        0 <= m <= s.len(),
        first_duplicate(s.take(m), ns) is Some,
    ensures
        first_duplicate(s, ns) == first_duplicate(s.take(m), ns),
    decreases s.len() - m,
{
    if m < s.len() {
        assert(s.take(m + 1).drop_last() =~= s.take(m));
        lemma_first_duplicate_extend(s, ns, m + 1);
    } else {
        assert(s.take(m) =~= s);
    }
}

/// The first field of kind `ns` with the key of an earlier field of that
/// kind, and that earlier field.
pub fn find_duplicate(fields: &Vec<ConfigField>, ns: FieldType) -> (res: Option<(usize, usize)>)
    ensures
        match first_duplicate(field_keys(fields@), ns) {
            Some((j, i)) => res == Some((j as usize, i as usize)),
            None => res is None,
        },
{
    let ghost s = field_keys(fields@);
    let mut j: usize = 0;
    while j < fields.len()
        invariant
            j <= fields@.len(),
            s == field_keys(fields@),
            first_duplicate(s.take(j as int), ns) is None,
        decreases fields@.len() - j,
    {
        proof {
            assert(s.take(j + 1).drop_last() =~= s.take(j as int));
            assert(s.take(j + 1).last() == s[j as int]);
        }
        if fields[j].attributes.parser == ns {
            let mut i: usize = 0;
            while i < j
                invariant
                    i <= j < fields@.len(),
                    s == field_keys(fields@),
                    first_duplicate(s.take(j as int), ns) is None,
                    fields@[j as int].attributes.parser == ns,
                    first_with(s.take(i as int), ns, s[j as int].1) is None,
                decreases j - i,
            {
                proof {
                    assert(s.take(i + 1).drop_last() =~= s.take(i as int));
                    assert(s.take(i + 1).last() == s[i as int]);
                }
                if fields[i].attributes.parser == ns && text_is(fields[i].key.as_str(), fields[j].key.as_str()) {
                    proof {
                        let key = s[j as int].1;
                        assert(s[i as int] == (fields@[i as int].attributes.parser, fields@[i as int].key@));
                        assert(s[j as int] == (fields@[j as int].attributes.parser, fields@[j as int].key@));
                        assert(first_with(s.take(i + 1), ns, key) == Some(i as int));
                        assert(s.take(j as int).take(i + 1) =~= s.take(i + 1));
                        lemma_first_with_extend(s.take(j as int), ns, key, i + 1);
                        assert(first_with(s.take(j as int), ns, key) == Some(i as int));
                        assert(s.take(j + 1).drop_last() =~= s.take(j as int));
                        assert(s.take(j + 1).last() == s[j as int]);
                        assert(first_duplicate(s.take(j + 1), ns) == Some((j as int, i as int)));
                        lemma_first_duplicate_extend(s, ns, j + 1);
                    }
                    return Some((j, i));
                }
                i = i + 1;
            }
            proof {
                assert(s.take(j as int).take(j as int) =~= s.take(j as int));
            }
        }
        j = j + 1;
    }
    proof {
        assert(s.take(fields@.len() as int) =~= s);
    }
    None
}

/// What a configuration struct is derived from: its attributes and, if it
/// is a struct, its fields.
pub enum DataDecl {
    Struct(Vec<FieldDecl>),
    Other,
}

pub struct DeriveDecl {
    pub attrs: Vec<AttrDecl>,
    pub data: DataDecl,
}

/// Why a configuration struct was refused.
#[derive(Debug, Clone, Copy, PartialEq, Eq, Structural)]
pub enum ConfigStructError {
    /// Only structs can be configurations.
    NotStruct,
    Field { index: usize, error: FieldError },
    /// Field `index` has the key of field `previous`, of the same kind.
    DuplicateKey { index: usize, previous: usize },
    Attribute(UnknownAttribute),
}

/// A configuration struct, read: its attributes and its fields.
pub struct ConfigStruct {
    pub attributes: ConfigStructAttributes,
    pub fields: Vec<ConfigField>,
}

/// How a field reads: its settled attributes and its key, or why it is
/// refused.
pub open spec fn field_read_spec(f: FieldDecl) -> Result<(FieldAttributesView, Seq<char>), FieldError> {
    match field_attributes_spec(f) {
        Err((i, k)) => Err(FieldError::Attribute(FieldAttributeError { index: i as usize, kind: k })),
        Ok(a) => match field_key_spec(f, a) {
            Some(key) => Ok((a, key)),
            None => Err(FieldError::MissingKey),
        },
    }
}

/// The first field at or after `k` that is refused.
pub open spec fn first_bad_field(fs: Seq<FieldDecl>, k: int) -> Option<int>
    decreases fs.len() - k,
{
    if k < 0 || k >= fs.len() {
        None
    } else if field_read_spec(fs[k]) is Err {
        Some(k)
    } else {
        first_bad_field(fs, k + 1)
    }
}

/// The kind and key of each field, as the fields read.
pub open spec fn decl_keys(fs: Seq<FieldDecl>) -> Seq<(FieldType, Seq<char>)> {
    Seq::new(
        fs.len(),
        |m: int|
            match field_read_spec(fs[m]) {
                Ok((a, key)) => (a.parser, key),
                Err(_) => (FieldType::Group, seq![]),
            },
    )
}

impl ConfigStruct {
    /// Reads a configuration struct: each field in order (the first refused
    /// one is the error), then checks that no two collection fields and no
    /// two group fields share a key, then reads the struct's attributes.
    pub fn parse(data: &DeriveDecl) -> (res: Result<ConfigStruct, ConfigStructError>)
        ensures
            data.data is Other ==> res == Err::<ConfigStruct, ConfigStructError>(
                ConfigStructError::NotStruct,
            ),
            data.data matches DataDecl::Struct(fs) ==> match first_bad_field(fs@, 0) {
                Some(k) => res == Err::<ConfigStruct, ConfigStructError>(
                    ConfigStructError::Field {
                        index: k as usize,
                        error: field_read_spec(fs@[k])->Err_0,
                    },
                ),
                None => match first_duplicate(decl_keys(fs@), FieldType::Config) {
                    Some((j, i)) => res == Err::<ConfigStruct, ConfigStructError>(
                        ConfigStructError::DuplicateKey { index: j as usize, previous: i as usize },
                    ),
                    None => match first_duplicate(decl_keys(fs@), FieldType::Group) {
                        Some((j, i)) => res == Err::<ConfigStruct, ConfigStructError>(
                            ConfigStructError::DuplicateKey {
                                index: j as usize,
                                previous: i as usize,
                            },
                        ),
                        None => if forall|i: int|
                            0 <= i < data.attrs@.len() ==> #[trigger] is_exhaustive_attr(
                                data.attrs@[i],
                            ) {
                            res matches Ok(c) && c.attributes.exhaustive == (data.attrs@.len() > 0)
                                && c.fields@.len() == fs@.len() && forall|k: int|
                                0 <= k < fs@.len() ==> #[trigger] field_read_spec(fs@[k]) == Ok::<
                                    (FieldAttributesView, Seq<char>),
                                    FieldError,
                                >((c.fields@[k].attributes.view(), c.fields@[k].key@))
                        } else {
                            res matches Err(ConfigStructError::Attribute(e)) && e.index
                                < data.attrs@.len() && !is_exhaustive_attr(
                                data.attrs@[e.index as int],
                            ) && forall|i: int|
                                0 <= i < e.index ==> #[trigger] is_exhaustive_attr(data.attrs@[i])
                        },
                    },
                },
            },
    {
        let fs = match &data.data {
            DataDecl::Struct(fs) => fs,
            DataDecl::Other => {
                return Err(ConfigStructError::NotStruct);
            },
        };
        let mut fields: Vec<ConfigField> = Vec::new();
        let mut k: usize = 0;
        while k < fs.len()
            invariant
                data.data == DataDecl::Struct(*fs),
                k <= fs@.len(),
                fields@.len() == k,
                first_bad_field(fs@, 0) == first_bad_field(fs@, k as int),
                forall|m: int|
                    0 <= m < k ==> #[trigger] field_read_spec(fs@[m]) == Ok::<
                        (FieldAttributesView, Seq<char>),
                        FieldError,
                    >((fields@[m].attributes.view(), fields@[m].key@)),
            decreases fs@.len() - k,
        {
            match ConfigField::parse(&fs[k], k) {
                Ok(f) => {
                    fields.push(f);
                },
                Err(e) => {
                    proof {
                        assert(first_bad_field(fs@, k as int) == Some(k as int));
                    }
                    return Err(ConfigStructError::Field { index: k, error: e });
                },
            }
            k = k + 1;
        }
        proof {
            assert(field_keys(fields@) =~= decl_keys(fs@)) by {
                assert forall|m: int| 0 <= m < fs@.len() implies field_keys(fields@)[m] == decl_keys(
                    fs@,
                )[m] by {
                    assert(field_read_spec(fs@[m]) == Ok::<
                        (FieldAttributesView, Seq<char>),
                        FieldError,
                    >((fields@[m].attributes.view(), fields@[m].key@)));
                }
            }
            lemma_first_duplicate_order(field_keys(fields@), FieldType::Config);
            lemma_first_duplicate_order(field_keys(fields@), FieldType::Group);
        }
        match find_duplicate(&fields, FieldType::Config) {
            Some((j, i)) => {
                return Err(ConfigStructError::DuplicateKey { index: j, previous: i });
            },
            None => {},
        }
        match find_duplicate(&fields, FieldType::Group) {
            Some((j, i)) => {
                return Err(ConfigStructError::DuplicateKey { index: j, previous: i });
            },
            None => {},
        }
        let attributes = match ConfigStructAttributes::parse(&data.attrs) {
            Ok(a) => a,
            Err(e) => {
                return Err(ConfigStructError::Attribute(e));
            },
        };
        Ok(ConfigStruct { attributes, fields })
    }
}

} // verus!
