use config::errors::ConfigParseError;
use config::fmt::ConfigFmt;
use config::key::Key;
use config::parse::ast::{AstEntry, AstOperation};
use config::parse::RawEntry;
use config::schema::field::{ConfigFieldAttributes, FieldType};
use config::schema::plan::{field_fmt, passes_on, render_struct, DisplayKind, Route};
use config::schema::{ConfigField, ConfigStruct, ConfigStructAttributes, FieldIdent};

fn field(index: usize, key: &str, parser: FieldType) -> ConfigField {
    ConfigField {
        attributes: ConfigFieldAttributes { key: None, default: None, lazy_lock: false, parser },
        key: key.to_string(),
        ident: FieldIdent::Index(index),
        field_index: index,
    }
}

fn config(exhaustive: bool, fields: Vec<ConfigField>) -> ConfigStruct {
    ConfigStruct { attributes: ConfigStructAttributes { exhaustive }, fields }
}

fn sample(exhaustive: bool) -> ConfigStruct {
    config(
        exhaustive,
        vec![
            field(0, "NAME", FieldType::GroupKey),
            field(1, "PORT", FieldType::Config),
            field(2, "INNER", FieldType::Flatten),
            field(3, "SERVER", FieldType::Group),
            field(4, "HOSTS", FieldType::Config),
            field(5, "EXTRA", FieldType::Flatten),
        ],
    )
}

#[test]
fn entries_route_to_the_field_with_their_key() {
    let c = sample(false);
    assert_eq!(c.route_entry(true, &b"SERVER".to_vec()), Route::Group(3));
    assert_eq!(c.route_entry(false, &b"PORT".to_vec()), Route::Collection(1));
    assert_eq!(c.route_entry(false, &b"HOSTS".to_vec()), Route::Collection(4));
    // Keys are compared as bytes, case and all.
    assert_eq!(c.route_entry(false, &b"port".to_vec()), Route::Ignore);
    assert_eq!(c.route_entry(true, &b"PORT".to_vec()), Route::Ignore);
    assert_eq!(c.route_entry(true, &b"NAME".to_vec()), Route::Ignore);
}

#[test]
fn exhaustive_structs_refuse_unknown_keys() {
    let c = sample(true);
    assert_eq!(c.route_entry(true, &b"PORT".to_vec()), Route::UnknownGroupKey);
    assert_eq!(c.route_entry(false, &b"SERVER".to_vec()), Route::UnknownOperationKey);
    assert_eq!(c.route_entry(false, &b"OTHER".to_vec()), Route::UnknownKey);
    assert_eq!(c.route_entry(true, &b"OTHER".to_vec()), Route::UnknownKey);
    assert_eq!(c.route_entry(true, &b"SERVER".to_vec()), Route::Group(3));
}

#[test]
fn any_group_takes_every_other_group_entry() {
    let c = config(
        true,
        vec![
            field(0, "A", FieldType::Group),
            field(1, "B", FieldType::AnyGroup),
            field(2, "C", FieldType::AnyGroup),
            field(3, "D", FieldType::Config),
        ],
    );
    assert_eq!(c.route_entry(true, &b"A".to_vec()), Route::Group(0));
    assert_eq!(c.route_entry(true, &b"D".to_vec()), Route::AnyGroup(1));
    assert_eq!(c.route_entry(true, &b"Z".to_vec()), Route::AnyGroup(1));
    assert_eq!(c.route_entry(false, &b"Z".to_vec()), Route::UnknownKey);
}

#[test]
fn flattened_fields_come_first_in_order() {
    assert_eq!(sample(false).flatten_order(), vec![2, 5]);
    assert_eq!(config(false, vec![field(0, "A", FieldType::Config)]).flatten_order(), Vec::<usize>::new());
}

#[test]
fn unknown_keys_pass_on_other_errors_stop() {
    let entry = || RawEntry::Operation { key: b"K".to_vec(), body: config::parse::RawOperation(AstOperation::Reset) };
    assert!(passes_on(&ConfigParseError::UnknownKey(entry())));
    assert!(passes_on(&ConfigParseError::UnknownGroupKey(entry())));
    assert!(passes_on(&ConfigParseError::UnknownOperationKey(entry())));
    assert!(!passes_on(&ConfigParseError::Entry(config::errors::ConfigParseEntryError(
        config::errors::ReprParseConfigEntryError::ParseBoolean
    ))));
}

#[test]
fn display_plan_skips_the_group_key() {
    let plan = sample(false).display_plan();
    let steps: Vec<(usize, DisplayKind, Vec<u8>)> =
        plan.into_iter().map(|s| (s.field_index, s.kind, s.key)).collect();
    assert_eq!(
        steps,
        vec![
            (1, DisplayKind::Collection, b"PORT".to_vec()),
            (2, DisplayKind::Flatten, b"INNER".to_vec()),
            (3, DisplayKind::Group, b"SERVER".to_vec()),
            (4, DisplayKind::Collection, b"HOSTS".to_vec()),
            (5, DisplayKind::Flatten, b"EXTRA".to_vec()),
        ]
    );
}

#[test]
fn fields_are_written_one_level_down() {
    let top = ConfigFmt::new();
    let key = Key::from_static(b"SERVER");
    let child = field_fmt(&top, DisplayKind::Group, &key);
    assert_eq!(child.indent().level(), 4);
    assert!(!child.flatten());
    assert_eq!(child.key().map(|k| k.as_bytes().to_vec()), Some(b"SERVER".to_vec()));
    let flat = field_fmt(&top.with_flatten(), DisplayKind::Flatten, &key);
    assert_eq!(flat.indent().level(), 0);
    assert!(flat.flatten());
}

#[test]
fn struct_text_in_braces_under_its_key() {
    let key = Key::from_static(b"SERVER");
    let fmt = ConfigFmt::new().with_key(&key);
    let parts = vec![b"    PORT = 1;".to_vec(), b"    HOST = a;".to_vec()];
    assert_eq!(render_struct(&fmt, parts), b"SERVER: {\n    PORT = 1;\n    HOST = a;\n}".to_vec());
    assert_eq!(render_struct(&fmt, vec![]), b"SERVER: { }".to_vec());
    assert_eq!(render_struct(&fmt.with_flatten(), vec![b"A !;".to_vec()]), b"A !;".to_vec());
    assert_eq!(render_struct(&ConfigFmt::new(), vec![b"A !;".to_vec(), b"B !!;".to_vec()]), b"A !;\nB !!;".to_vec());
    assert_eq!(render_struct(&ConfigFmt::new(), vec![]), Vec::<u8>::new());
}

#[test]
fn rendered_operations_read_back() {
    let ops = vec![
        AstOperation::Assign(b"v 1".to_vec()),
        AstOperation::AssignIfUndefined(b"x".to_vec()),
        AstOperation::Add(Vec::new()),
        AstOperation::Remove(b"a;b".to_vec()),
        AstOperation::Reset,
        AstOperation::Clear,
    ];
    for op in ops {
        let e = AstEntry::Operation { key: b"a.b/c-d:e".to_vec(), operation: op.clone() };
        let text = e.render();
        let ast = config::parse::ast::AstParser::new().parse(text.clone()).unwrap();
        assert_eq!(ast.entries, vec![e], "{}", String::from_utf8_lossy(&text));
    }
}
