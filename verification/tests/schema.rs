use config::schema::field::{
    ConfigFieldAttributes, FieldAttributeErrorKind, FieldType, WellKnownType,
};
use config::schema::{
    ArgsDecl, AttrDecl, ConfigField, ConfigStruct, ConfigStructAttributes, ConfigStructError, DataDecl,
    DeriveDecl, FieldDecl, FieldError, GenericArgDecl, MetaDecl, PathDecl, SegmentDecl, TypeDecl,
};

fn seg(name: &str) -> SegmentDecl {
    SegmentDecl { ident: name.to_string(), arguments: ArgsDecl::NoArgs }
}

fn seg_args(name: &str, args: Vec<GenericArgDecl>) -> SegmentDecl {
    SegmentDecl { ident: name.to_string(), arguments: ArgsDecl::AngleBracketed { colon2: false, args } }
}

fn path_type(segments: Vec<SegmentDecl>) -> TypeDecl {
    TypeDecl::Path { qself: false, path: PathDecl { leading_colon: false, segments } }
}

fn simple(name: &str) -> TypeDecl {
    path_type(vec![seg(name)])
}

fn generic(name: &str, args: Vec<TypeDecl>) -> TypeDecl {
    path_type(vec![seg_args(name, args.into_iter().map(GenericArgDecl::Type).collect())])
}

fn path(name: &str) -> PathDecl {
    PathDecl { leading_colon: false, segments: vec![seg(name)] }
}

fn flag(name: &str) -> AttrDecl {
    AttrDecl { outer: true, meta: MetaDecl::Path(path(name)) }
}

fn list(name: &str, tokens: &str) -> AttrDecl {
    AttrDecl { outer: true, meta: MetaDecl::List { path: path(name), tokens: tokens.to_string() } }
}

fn field(name: Option<&str>, ty: TypeDecl, attrs: Vec<AttrDecl>) -> FieldDecl {
    FieldDecl { ident: name.map(|n| n.to_string()), ty, attrs }
}

#[test]
fn well_known_types_by_path() {
    assert_eq!(WellKnownType::parse_type(&simple("Key")), Some(WellKnownType::Key));
    assert_eq!(WellKnownType::parse_type(&generic("ConfigValue", vec![simple("u8")])), Some(WellKnownType::ConfigValue));
    assert_eq!(WellKnownType::parse_type(&generic("ConfigList", vec![simple("u8")])), Some(WellKnownType::ConfigList));
    assert_eq!(
        WellKnownType::parse_type(&path_type(vec![seg("config"), seg_args("ConfigSet", vec![GenericArgDecl::Type(simple("u8"))])])),
        Some(WellKnownType::ConfigSet)
    );
    assert_eq!(
        WellKnownType::parse_type(&path_type(vec![seg("other"), seg_args("ConfigSet", vec![GenericArgDecl::Type(simple("u8"))])])),
        None
    );
    assert_eq!(
        WellKnownType::parse_type(&path_type(vec![
            seg("std"),
            seg("collections"),
            seg_args("HashMap", vec![GenericArgDecl::Type(simple("Key")), GenericArgDecl::Type(simple("G"))])
        ])),
        Some(WellKnownType::HashMap)
    );
    assert_eq!(WellKnownType::parse_type(&generic("HashMap", vec![simple("String"), simple("G")])), None);
    assert_eq!(WellKnownType::parse_type(&simple("ConfigValue")), None);
    assert_eq!(WellKnownType::parse_type(&generic("Key", vec![simple("u8")])), None);
    assert_eq!(WellKnownType::parse_type(&simple("Other")), None);
    assert_eq!(WellKnownType::parse_type(&TypeDecl::Other), None);
}

#[test]
fn well_known_type_parsers() {
    assert_eq!(WellKnownType::Key.parser(), FieldType::GroupKey);
    assert_eq!(WellKnownType::ConfigAcl.parser(), FieldType::Config);
    assert_eq!(WellKnownType::HashMap.parser(), FieldType::AnyGroup);
    assert!(WellKnownType::ConfigList.is_config_const_new());
    assert!(!WellKnownType::ConfigValue.is_config_const_new());
    assert!(!WellKnownType::ConfigList.is_config_const_new_with_default());
}

#[test]
fn field_attributes_defaults() {
    let f = field(Some("port"), generic("ConfigValue", vec![simple("u16")]), vec![]);
    let a = ConfigFieldAttributes::parse(&f).ok().unwrap();
    assert_eq!(a.parser, FieldType::Config);
    assert!(a.lazy_lock);
    assert!(a.key.is_none());
    let g = field(Some("inner"), simple("Inner"), vec![]);
    let b = ConfigFieldAttributes::parse(&g).ok().unwrap();
    assert_eq!(b.parser, FieldType::Group);
    assert!(!b.lazy_lock);
    let l = field(Some("l"), generic("ConfigList", vec![simple("u16")]), vec![]);
    assert!(!ConfigFieldAttributes::parse(&l).ok().unwrap().lazy_lock);
}

#[test]
fn field_attributes_read() {
    let f = field(
        Some("port"),
        generic("ConfigList", vec![simple("u16")]),
        vec![list("key", "\"PORTS\""), list("default", "&[1, 2]"), list("lazy_lock", "false"), list("parse", "flatten")],
    );
    let a = ConfigFieldAttributes::parse(&f).ok().unwrap();
    assert_eq!(a.key, Some("PORTS".to_string()));
    assert_eq!(a.default, Some("&[1, 2]".to_string()));
    assert!(!a.lazy_lock);
    assert_eq!(a.parser, FieldType::Flatten);
    let g = field(Some("k"), simple("Key"), vec![flag("group_key")]);
    assert_eq!(ConfigFieldAttributes::parse(&g).ok().unwrap().parser, FieldType::GroupKey);
}

fn attr_error(attrs: Vec<AttrDecl>) -> (usize, FieldAttributeErrorKind) {
    let f = field(Some("x"), simple("X"), attrs);
    match ConfigFieldAttributes::parse(&f) {
        Err(e) => (e.index, e.kind),
        Ok(_) => panic!("attributes should be refused"),
    }
}

#[test]
fn field_attribute_errors() {
    assert_eq!(attr_error(vec![list("key", "\"\"")]), (0, FieldAttributeErrorKind::EmptyKey));
    assert_eq!(attr_error(vec![list("key", "notastring")]), (0, FieldAttributeErrorKind::InvalidKey));
    assert_eq!(attr_error(vec![list("lazy_lock", "maybe")]), (0, FieldAttributeErrorKind::InvalidLazyLock));
    assert_eq!(
        attr_error(vec![list("lazy_lock", "true"), list("lazy_lock", "false")]),
        (1, FieldAttributeErrorKind::LazyLockConflict(true))
    );
    assert_eq!(attr_error(vec![list("parse", "nonsense")]), (0, FieldAttributeErrorKind::UnknownParser));
    assert_eq!(attr_error(vec![list("parse", "\"group\"")]), (0, FieldAttributeErrorKind::InvalidParse));
    assert_eq!(attr_error(vec![list("default", "1 +")]), (0, FieldAttributeErrorKind::InvalidDefault));
    assert_eq!(attr_error(vec![flag("group_key"), flag("other")]), (1, FieldAttributeErrorKind::UnknownAttribute));
    let inner = AttrDecl { outer: false, meta: MetaDecl::Path(path("group_key")) };
    assert_eq!(attr_error(vec![inner]), (0, FieldAttributeErrorKind::UnknownAttribute));
    // a kind named earlier stands against a later unknown name
    let f = field(Some("x"), simple("X"), vec![flag("group_key"), list("parse", "nonsense")]);
    assert_eq!(ConfigFieldAttributes::parse(&f).ok().unwrap().parser, FieldType::GroupKey);
}

#[test]
fn field_keys() {
    let f = field(Some("port"), generic("ConfigValue", vec![simple("u16")]), vec![]);
    assert_eq!(ConfigField::parse(&f, 0).ok().unwrap().key, "PORT".to_string());
    let g = field(None, generic("ConfigValue", vec![simple("u16")]), vec![]);
    assert_eq!(ConfigField::parse(&g, 1).err(), Some(FieldError::MissingKey));
    let h = field(None, generic("ConfigValue", vec![simple("u16")]), vec![list("key", "\"P\"")]);
    assert_eq!(ConfigField::parse(&h, 2).ok().unwrap().key, "P".to_string());
}

#[test]
fn struct_attributes() {
    assert!(ConfigStructAttributes::parse(&vec![flag("exhaustive")]).ok().unwrap().exhaustive);
    assert!(!ConfigStructAttributes::parse(&vec![]).ok().unwrap().exhaustive);
    assert_eq!(ConfigStructAttributes::parse(&vec![flag("exhaustive"), flag("x")]).err().map(|e| e.index), Some(1));
}

#[test]
fn struct_duplicate_keys() {
    let fields = vec![
        field(Some("a"), generic("ConfigValue", vec![simple("u8")]), vec![]),
        field(Some("b"), generic("ConfigValue", vec![simple("u8")]), vec![list("key", "\"A\"")]),
    ];
    let d = DeriveDecl { attrs: vec![], data: DataDecl::Struct(fields) };
    assert_eq!(ConfigStruct::parse(&d).err(), Some(ConfigStructError::DuplicateKey { index: 1, previous: 0 }));
    let fields = vec![
        field(Some("a"), generic("ConfigValue", vec![simple("u8")]), vec![]),
        field(Some("b"), simple("Group"), vec![list("key", "\"A\"")]),
    ];
    let d = DeriveDecl { attrs: vec![flag("exhaustive")], data: DataDecl::Struct(fields) };
    let s = ConfigStruct::parse(&d).ok().unwrap();
    assert!(s.attributes.exhaustive);
    assert_eq!(s.fields.len(), 2);
    let e = DeriveDecl { attrs: vec![], data: DataDecl::Other };
    assert_eq!(ConfigStruct::parse(&e).err(), Some(ConfigStructError::NotStruct));
}

#[test]
fn struct_errors_come_in_order() {
    // A refused field is reported before duplicate keys, and duplicate keys
    // before an unknown struct attribute.
    let fields = vec![
        field(Some("a"), generic("ConfigValue", vec![simple("u8")]), vec![]),
        field(Some("b"), generic("ConfigValue", vec![simple("u8")]), vec![list("key", "\"A\"")]),
        field(None, simple("u8"), vec![]),
    ];
    let d = DeriveDecl { attrs: vec![flag("unknown")], data: DataDecl::Struct(fields) };
    assert_eq!(
        ConfigStruct::parse(&d).err(),
        Some(ConfigStructError::Field { index: 2, error: FieldError::MissingKey })
    );
    let fields = vec![
        field(Some("a"), generic("ConfigValue", vec![simple("u8")]), vec![]),
        field(Some("b"), generic("ConfigValue", vec![simple("u8")]), vec![list("key", "\"A\"")]),
    ];
    let d = DeriveDecl { attrs: vec![flag("unknown")], data: DataDecl::Struct(fields) };
    assert_eq!(
        ConfigStruct::parse(&d).err(),
        Some(ConfigStructError::DuplicateKey { index: 1, previous: 0 })
    );
    let fields = vec![field(Some("a"), generic("ConfigValue", vec![simple("u8")]), vec![])];
    let d = DeriveDecl { attrs: vec![flag("exhaustive"), flag("unknown")], data: DataDecl::Struct(fields) };
    assert!(matches!(
        ConfigStruct::parse(&d).err(),
        Some(ConfigStructError::Attribute(e)) if e.index == 1
    ));
}
