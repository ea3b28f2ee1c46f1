//! The messages of the compile errors a configuration struct's description
//! is refused with.
//!
//! Where an attribute's argument is not the Rust syntax it must be (a string
//! literal, an expression, a boolean literal, an identifier), the message
//! says what was expected; the `syn` crate's own wording for the particular
//! tokens is not kept.
use vstd::prelude::*;
use vstd::string::StringExecFns;

use crate::schema::field::{FieldAttributeError, FieldAttributeErrorKind};
use crate::schema::{field_read_spec, ConfigField, ConfigStructError, DataDecl, DeriveDecl, FieldError};

verus! {

/// The decimal digits of `n`, as text.
pub open spec fn decimal_chars(n: nat) -> Seq<char>
    decreases n,
{
    if n < 10 {
        seq![digit_char(n)]
    } else {
        decimal_chars(n / 10).push(digit_char(n % 10))
    }
}

pub open spec fn digit_char(d: nat) -> char {
    if d == 0 {
        '0'
    } else if d == 1 {
        '1'
    } else if d == 2 {
        '2'
    } else if d == 3 {
        '3'
    } else if d == 4 {
        '4'
    } else if d == 5 {
        '5'
    } else if d == 6 {
        '6'
    } else if d == 7 {
        '7'
    } else if d == 8 {
        '8'
    } else {
        '9'
    }
}

fn digit_str(d: usize) -> (res: &'static str)
    requires
        d < 10,
    ensures
        res@ == seq![digit_char(d as nat)],
{
    let s = if d == 0 {
        "0"
    } else if d == 1 {
        "1"
    } else if d == 2 {
        "2"
    } else if d == 3 {
        "3"
    } else if d == 4 {
        "4"
    } else if d == 5 {
        "5"
    } else if d == 6 {
        "6"
    } else if d == 7 {
        "7"
    } else if d == 8 {
        "8"
    } else {
        "9"
    };
    proof {
        reveal_strlit("0");
        reveal_strlit("1");
        reveal_strlit("2");
        reveal_strlit("3");
        reveal_strlit("4");
        reveal_strlit("5");
        reveal_strlit("6");
        reveal_strlit("7");
        reveal_strlit("8");
        reveal_strlit("9");
    }
    assert(s@ =~= seq![digit_char(d as nat)]);
    s
}

/// `n` written in decimal.
pub fn decimal_string(n: usize) -> (res: String)
    ensures
        res@ == decimal_chars(n as nat),
    decreases n,
{
    if n < 10 {
        String::from_str(digit_str(n))
    } else {
        let head = decimal_string(n / 10);
        let res = head.concat(digit_str(n % 10));
        proof {
            assert(res@ =~= decimal_chars(n as nat));
        }
        res
    }
}

/// The message of a refused attribute.
pub open spec fn attribute_error_text(k: FieldAttributeErrorKind) -> Seq<char> {
    match k {
        FieldAttributeErrorKind::InvalidKey => "expected string literal"@,
        FieldAttributeErrorKind::EmptyKey => "attribute key must be non-empty string"@,
        FieldAttributeErrorKind::InvalidDefault => "expected an expression"@,
        FieldAttributeErrorKind::InvalidLazyLock => "expected boolean literal"@,
        FieldAttributeErrorKind::LazyLockConflict(b) => "conflicts with earlier attribute lazy_lock("@
            + (if b {
            "true"@
        } else {
            "false"@
        }) + ")"@,
        FieldAttributeErrorKind::InvalidParse => "expected identifier"@,
        FieldAttributeErrorKind::UnknownParser =>
            "invalid ast parser. Must be 'config', 'group', 'any_group', 'flatten', 'key'"@,
        FieldAttributeErrorKind::UnknownAttribute => "unknown attribute"@,
    }
}

/// The message of a refused field.
pub open spec fn field_error_text(e: FieldError) -> Seq<char> {
    match e {
        FieldError::Attribute(a) => attribute_error_text(a.kind),
        FieldError::MissingKey => "missing attribute 'key' for unnamed field"@,
    }
}

/// How field `k` of `data` is named in a message: by its name, or by its
/// position where it has none.
pub open spec fn field_name_text(data: DeriveDecl, k: int) -> Seq<char> {
    match data.data {
        DataDecl::Struct(fs) => if 0 <= k < fs@.len() && fs@[k].ident is Some {
            fs@[k].ident->Some_0@
        } else {
            decimal_chars(k as nat)
        },
        DataDecl::Other => decimal_chars(k as nat),
    }
}

/// The key field `k` of `data` is read under (nothing where it reads none).
pub open spec fn field_key_text(data: DeriveDecl, k: int) -> Seq<char> {
    match data.data {
        DataDecl::Struct(fs) => if 0 <= k < fs@.len() {
            match field_read_spec(fs@[k]) {
                Ok((_, key)) => key,
                Err(_) => Seq::empty(),
            }
        } else {
            Seq::empty()
        },
        DataDecl::Other => Seq::empty(),
    }
}

/// The message a configuration struct described by `data` is refused with.
pub open spec fn struct_error_text(e: ConfigStructError, data: DeriveDecl) -> Seq<char> {
    match e {
        ConfigStructError::NotStruct => "only struct types can derive Config (currently)"@,
        ConfigStructError::Field { error, .. } => field_error_text(error),
        ConfigStructError::DuplicateKey { index, previous } => "field "@ + field_name_text(
            data,
            index as int,
        ) + " has the same key as "@ + field_name_text(data, previous as int) + " ("@
            + field_key_text(data, index as int) + ")"@,
        ConfigStructError::Attribute(_) => "unknown attribute"@,
    }
}

impl FieldAttributeError {
    /// The message of this error.
    pub fn message(&self) -> (res: String)
        ensures
            res@ == attribute_error_text(self.kind),
    {
        match self.kind {
            FieldAttributeErrorKind::InvalidKey => String::from_str("expected string literal"),
            FieldAttributeErrorKind::EmptyKey => String::from_str(
                "attribute key must be non-empty string",
            ),
            FieldAttributeErrorKind::InvalidDefault => String::from_str("expected an expression"),
            FieldAttributeErrorKind::InvalidLazyLock => String::from_str("expected boolean literal"),
            FieldAttributeErrorKind::LazyLockConflict(b) => {
                let text = String::from_str("conflicts with earlier attribute lazy_lock(");
                let text = text.concat(
                    if b {
                        "true"
                    } else {
                        "false"
                    },
                );
                text.concat(")")
            },
            FieldAttributeErrorKind::InvalidParse => String::from_str("expected identifier"),
            FieldAttributeErrorKind::UnknownParser => String::from_str(
                "invalid ast parser. Must be 'config', 'group', 'any_group', 'flatten', 'key'",
            ),
            FieldAttributeErrorKind::UnknownAttribute => String::from_str("unknown attribute"),
        }
    }
}

impl FieldError {
    /// The message of this error.
    pub fn message(&self) -> (res: String)
        ensures
            res@ == field_error_text(*self),
    {
        match self {
            FieldError::Attribute(a) => a.message(),
            FieldError::MissingKey => String::from_str("missing attribute 'key' for unnamed field"),
        }
    }
}

fn field_name_string(data: &DeriveDecl, k: usize) -> (res: String)
    ensures
        res@ == field_name_text(*data, k as int),
{
    match &data.data {
        DataDecl::Struct(fs) => if k < fs.len() {
            match &fs[k].ident {
                Some(name) => name.clone(),
                None => decimal_string(k),
            }
        } else {
            decimal_string(k)
        },
        DataDecl::Other => decimal_string(k),
    }
}

fn field_key_string(data: &DeriveDecl, k: usize) -> (res: String)
    ensures
        res@ == field_key_text(*data, k as int),
{
    match &data.data {
        DataDecl::Struct(fs) => if k < fs.len() {
            match ConfigField::parse(&fs[k], k) {
                Ok(f) => f.key,
                Err(_) => String::new(),
            }
        } else {
            String::new()
        },
        DataDecl::Other => String::new(),
    }
}

impl ConfigStructError {
    /// The message of this error, for the struct described by `data`.
    pub fn message(&self, data: &DeriveDecl) -> (res: String)
        ensures
            res@ == struct_error_text(*self, *data),
    {
        match self {
            ConfigStructError::NotStruct => String::from_str(
                "only struct types can derive Config (currently)",
            ),
            ConfigStructError::Field { error, .. } => error.message(),
            ConfigStructError::DuplicateKey { index, previous } => {
                let text = String::from_str("field ");
                let name = field_name_string(data, *index);
                let text = text.concat(name.as_str());
                let text = text.concat(" has the same key as ");
                let prev = field_name_string(data, *previous);
                let text = text.concat(prev.as_str());
                let text = text.concat(" (");
                let key = field_key_string(data, *index);
                let text = text.concat(key.as_str());
                text.concat(")")
            },
            ConfigStructError::Attribute(_) => String::from_str("unknown attribute"),
        }
    }
}

} // verus!
