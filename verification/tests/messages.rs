use config::errors::{ConfigParseEntryError, DurationField, IntErrorKind, ParseDurationError, ReprParseConfigEntryError};
use config::lex_token::{CatchAllError, LexEnum, LexExpr, LexPatterns, LexVariant};
use config::parse::lex::Tokenizer;
use config::parse::syn::{SyntaxError, SyntaxTreeEntry};
use config::schema::field::{FieldAttributeError, FieldAttributeErrorKind};
use config::schema::message::decimal_string;
use config::schema::{ConfigStructError, DataDecl, DeriveDecl, FieldDecl, FieldError, TypeDecl};

fn entry_error(input: &[u8]) -> String {
    let buffer = input.to_vec();
    let tokens = Tokenizer::new().tokenize_all(&buffer);
    let mut pos = 0usize;
    let error = SyntaxTreeEntry::parse(&tokens, &mut pos).err().expect("the entry is malformed");
    assert!(error.is_within(buffer.len()));
    String::from_utf8(error.message(&buffer)).unwrap()
}

#[test]
fn syntax_error_names_the_token_found() {
    assert_eq!(entry_error(b"=V"), "unexpected key string but found BinaryOp(=) at 1:1..1:2");
    assert_eq!(entry_error(b"K\n  }"), "unexpected operator after key string but found GroupingClose(}) at 2:3..2:4");
}

#[test]
fn syntax_error_at_end_of_input() {
    assert_eq!(entry_error(b"KEY"), "unexpected operator after key string but found end-of-file");
    assert_eq!(entry_error(b"KEY="), "unexpected value string after operator but found end-of-file");
    assert_eq!(entry_error(b"G:"), "unexpected group opening '{' but found end-of-file");
    assert_eq!(entry_error(b" ; "), "unexpected key string but found end-of-file");
}

#[test]
fn syntax_error_inside_a_group() {
    assert_eq!(
        entry_error(b"G:{K}"),
        "in group G, unexpected operator after key string but found GroupingClose(}) at 1:5..1:6"
    );
    assert_eq!(entry_error(b"G:{K=V"), "in group G, unexpected key string but found end-of-file");
}

#[test]
fn entry_errors_say_why_the_value_was_refused() {
    let m = |r: ReprParseConfigEntryError| String::from_utf8(ConfigParseEntryError(r).message()).unwrap();
    assert_eq!(m(ReprParseConfigEntryError::ParseChar), "char must be represented by exactly one character");
    assert_eq!(m(ReprParseConfigEntryError::ParseBoolean), "invalid boolean value");
    assert_eq!(m(ReprParseConfigEntryError::ParseInteger(IntErrorKind::InvalidDigit)), "invalid digit found in string");
    assert_eq!(m(ReprParseConfigEntryError::ParseInteger(IntErrorKind::Empty)), "cannot parse integer from empty string");
    assert_eq!(
        m(ReprParseConfigEntryError::ParseDuration(ParseDurationError::Format)),
        "duration must follow the format [[hh:]mm:]ss[.NN]"
    );
    assert_eq!(
        m(ReprParseConfigEntryError::ParseDuration(ParseDurationError::ParseFieldInt(
            DurationField::Minutes,
            b"18446744073709551616".to_vec(),
            IntErrorKind::PosOverflow
        ))),
        "duration must follow the format [[hh:]mm:]ss[.NN] but minutes field ('18446744073709551616') failed to parse: number too large to fit in target type"
    );
    assert_eq!(
        m(ReprParseConfigEntryError::ParseDuration(ParseDurationError::FieldOverflows(b"1:18446744073709551615".to_vec()))),
        "duration '1:18446744073709551615' exceeds the maximum duration of 18446744073709551615.999999999 seconds"
    );
}

#[test]
fn a_refused_char_value_reads_as_documented() {
    let e = config::cval::Cval::<char>::try_from_bytes(b"ab".to_vec()).err().unwrap();
    assert_eq!(String::from_utf8(e.message()).unwrap(), "char must be represented by exactly one character");
}

#[test]
fn attribute_errors() {
    let m = |kind| FieldAttributeError { index: 0, kind }.message();
    assert_eq!(m(FieldAttributeErrorKind::LazyLockConflict(true)), "conflicts with earlier attribute lazy_lock(true)");
    assert_eq!(m(FieldAttributeErrorKind::EmptyKey), "attribute key must be non-empty string");
    assert_eq!(m(FieldAttributeErrorKind::UnknownAttribute), "unknown attribute");
    assert_eq!(m(FieldAttributeErrorKind::InvalidKey), "expected string literal");
    assert_eq!(
        m(FieldAttributeErrorKind::UnknownParser),
        "invalid ast parser. Must be 'config', 'group', 'any_group', 'flatten', 'key'"
    );
    assert_eq!(FieldError::MissingKey.message(), "missing attribute 'key' for unnamed field");
}

fn field(name: Option<&str>, attrs: Vec<config::schema::AttrDecl>) -> FieldDecl {
    FieldDecl { ident: name.map(|n| n.to_string()), ty: TypeDecl::Other, attrs }
}

#[test]
fn struct_errors_name_the_fields() {
    let key_attr = config::schema::AttrDecl {
        outer: true,
        meta: config::schema::MetaDecl::List {
            path: config::schema::PathDecl {
                leading_colon: false,
                segments: vec![config::schema::SegmentDecl {
                    ident: "key".to_string(),
                    arguments: config::schema::ArgsDecl::NoArgs,
                }],
            },
            tokens: "\"A\"".to_string(),
        },
    };
    let data = DeriveDecl {
        attrs: vec![],
        data: DataDecl::Struct(vec![field(Some("a"), vec![]), field(Some("b"), vec![key_attr])]),
    };
    let error = config::schema::ConfigStruct::parse(&data).err().expect("the keys clash");
    assert_eq!(error, ConfigStructError::DuplicateKey { index: 1, previous: 0 });
    assert_eq!(error.message(&data), "field b has the same key as a (A)");
    let other = DeriveDecl { attrs: vec![], data: DataDecl::Other };
    assert_eq!(ConfigStructError::NotStruct.message(&other), "only struct types can derive Config (currently)");
    let unnamed = DeriveDecl { attrs: vec![], data: DataDecl::Struct(vec![field(None, vec![])]) };
    let error = config::schema::ConfigStruct::parse(&unnamed).err().unwrap();
    assert_eq!(error.message(&unnamed), "missing attribute 'key' for unnamed field");
    assert_eq!(decimal_string(1207), "1207");
}

#[test]
fn catch_all_errors_name_the_variants() {
    let v = |n: &str, p: LexPatterns| LexVariant { ident: n.to_string(), patterns: p };
    let lex = LexEnum {
        ident: "T".to_string(),
        variants: vec![
            v("A", LexPatterns::Patterns(vec![LexExpr::Matches("a".to_string())])),
            v("B", LexPatterns::Any),
            v("C", LexPatterns::Any),
        ],
    };
    let error = lex.catch_all().unwrap_err();
    assert_eq!(error, CatchAllError::Several { first: 1, second: 2 });
    assert_eq!(error.message(&lex), "can have at most one catch-all case (`Ident = _`) but two were found: B and C");
    assert_eq!(
        CatchAllError::Missing.message(&lex),
        "exhaustive pattern requires one catch-all case (`Ident = _`)"
    );
    let _ = SyntaxError::ExpectedButFoundEof { expected: config::parse::syn::Expected::KeyString };
}
