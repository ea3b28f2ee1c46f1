use config::parse::ast::{Ast, AstEntry, AstParser};

fn parse(input: &[u8]) -> Ast {
    let ast = AstParser::new().parse(input.to_vec());
    assert!(ast.is_ok(), "error converting input to tree: {:?}", ast);
    ast.unwrap()
}

fn concat(parts: &[&[u8]]) -> Vec<u8> {
    let mut out = Vec::new();
    for p in parts {
        out.extend_from_slice(p);
    }
    out
}

const KEYS: [(&[u8], &[u8]); 5] = [
    (b"A", b"A"),
    (b"KEY", b"KEY"),
    (b"\"KEY\"", b"KEY"),
    (
        b"ABCDEFGHIJKLMNOPQRSTUVWXYZabcdefghijklmnopqrstuvwxyz0123456789./-:_",
        b"ABCDEFGHIJKLMNOPQRSTUVWXYZabcdefghijklmnopqrstuvwxyz0123456789./-:_",
    ),
    (
        b"\"Key with \\!\\@\\#\\$\\%\\^\\&\\*\\(\\)\\-\\=\\{\\}\\[\\]\\|\\\\\\:\\;\\\"\\'\\<\\>\\,\\.\\?\\/\\~\\` \\\"escape\\\" characters\"",
        b"Key with !@#$%^&*()-={}[]|\\:;\"'<>,.?/~` \"escape\" characters",
    ),
];

const WHITESPACE: [&[u8]; 3] = [b"", b" ", b"  \t\n"];

const TERMINATORS: [&[u8]; 3] = [b"", b";", b" ;"];

#[test]
fn parse_empty_ast() {
    let cases: [&[u8]; 12] = [
        b"",
        b" ",
        b"\t",
        b"\n",
        b"#",
        b"#\n",
        b"#\r\n",
        b"\r\n",
        b" \t\n\r\n",
        b"\n# this is a comment",
        b"\n# this is a comment\n#",
        b"\n# this is a comment\n#\n",
    ];
    for input in cases {
        assert_eq!(parse(input), Ast::default());
    }
}

#[test]
fn parse_key_assign_value() {
    let values: [(&[u8], &[u8]); 5] = [
        (b"A", b"A"),
        (b"VALUE", b"VALUE"),
        (b"\"VALUE\"", b"VALUE"),
        (
            b"ABCDEFGHIJKLMNOPQRSTUVWXYZabcdefghijklmnopqrstuvwxyz0123456789./-:_",
            b"ABCDEFGHIJKLMNOPQRSTUVWXYZabcdefghijklmnopqrstuvwxyz0123456789./-:_",
        ),
        (b"\"Value with \\*\\$\\\"escape\\\" characters\"", b"Value with *$\"escape\" characters"),
    ];
    let operators: [&[u8]; 4] = [b"=", b":=", b"+=", b"-="];
    for (raw_key, ast_key) in KEYS {
        for pre in WHITESPACE {
            for op in operators {
                for post in WHITESPACE {
                    for (raw_value, ast_value) in values {
                        for terminator in TERMINATORS {
                            let k = ast_key.to_vec();
                            let v = ast_value.to_vec();
                            let expected = Ast::from_entries(vec![match op {
                                b"=" => AstEntry::new_assign(k, v),
                                b":=" => AstEntry::new_assign_if_undefined(k, v),
                                b"+=" => AstEntry::new_add(k, v),
                                _ => AstEntry::new_remove(k, v),
                            }]);
                            let input = concat(&[raw_key, pre, op, post, raw_value, terminator]);
                            assert_eq!(parse(&input), expected, "input {:?}", String::from_utf8_lossy(&input));
                        }
                    }
                }
            }
        }
    }
}

#[test]
fn parse_key_reset_value() {
    let operators: [&[u8]; 2] = [b"!", b"!!"];
    for (raw_key, ast_key) in KEYS {
        for pre in WHITESPACE {
            for op in operators {
                for post in WHITESPACE {
                    for terminator in TERMINATORS {
                        let k = ast_key.to_vec();
                        let expected = Ast::from_entries(vec![if op == b"!" {
                            AstEntry::new_reset(k)
                        } else {
                            AstEntry::new_clear(k)
                        }]);
                        let input = concat(&[raw_key, pre, op, post, terminator]);
                        assert_eq!(parse(&input), expected, "input {:?}", String::from_utf8_lossy(&input));
                    }
                }
            }
        }
    }
}

#[test]
fn parse_key_group() {
    let inner: [&[u8]; 6] = [
        b"",
        b" ",
        b"  \t\n",
        b"#\n",
        b"# comment with text\n",
        b"# comment with text\n#second comment   \n",
    ];
    for (raw_key, ast_key) in KEYS {
        for pre in WHITESPACE {
            for post in WHITESPACE {
                for body in inner {
                    for terminator in TERMINATORS {
                        let expected = Ast::from_entries(vec![AstEntry::new_group(ast_key.to_vec(), vec![])]);
                        let input = concat(&[raw_key, pre, b":", post, b"{", body, b"}", terminator]);
                        assert_eq!(parse(&input), expected, "input {:?}", String::from_utf8_lossy(&input));
                    }
                }
            }
        }
    }
}

fn assign(k: &[u8], v: &[u8]) -> AstEntry {
    AstEntry::new_assign(k.to_vec(), v.to_vec())
}

fn add(k: &[u8], v: &[u8]) -> AstEntry {
    AstEntry::new_add(k.to_vec(), v.to_vec())
}

fn remove(k: &[u8], v: &[u8]) -> AstEntry {
    AstEntry::new_remove(k.to_vec(), v.to_vec())
}

fn reset(k: &[u8]) -> AstEntry {
    AstEntry::new_reset(k.to_vec())
}

fn clear(k: &[u8]) -> AstEntry {
    AstEntry::new_clear(k.to_vec())
}

#[test]
fn parse_key_op_value() {
    let cases: Vec<(&[u8], Vec<AstEntry>)> = vec![
        (b"KEY=UNQUOTED_STRING", vec![assign(b"KEY", b"UNQUOTED_STRING")]),
        (
            b"KEY_WITH_UNDERSCORES=UNQUOTED_STRING/0123456789.",
            vec![assign(b"KEY_WITH_UNDERSCORES", b"UNQUOTED_STRING/0123456789.")],
        ),
        (b"KEY=\"QUOTED String 0123456789 \\\\ \\\"\"", vec![assign(b"KEY", b"QUOTED String 0123456789 \\ \"")]),
        (b"KEY=UNQUOTED_STRING;", vec![assign(b"KEY", b"UNQUOTED_STRING")]),
        (b"KEY = UNQUOTED_STRING ;", vec![assign(b"KEY", b"UNQUOTED_STRING")]),
        (b"KEY\n=\n\t    UNQUOTED_STRING;", vec![assign(b"KEY", b"UNQUOTED_STRING")]),
        (
            b"KEY=UNQUOTED_STRING;KEY2=\"QUOTED String @\";",
            vec![assign(b"KEY", b"UNQUOTED_STRING"), assign(b"KEY2", b"QUOTED String @")],
        ),
        (
            b"\n        KEY+=UNQUOTED_STRING\n        KEY=\"QUOTED String @\";\n        ",
            vec![add(b"KEY", b"UNQUOTED_STRING"), assign(b"KEY", b"QUOTED String @")],
        ),
        (
            b"# comment before a key-value\n        KEY+=UNQUOTED_STRING\n        KEY=\"QUOTED String @\";\n        ",
            vec![add(b"KEY", b"UNQUOTED_STRING"), assign(b"KEY", b"QUOTED String @")],
        ),
        (
            b"\n        KEY+=UNQUOTED_STRING\n        # comment between key-values\n        KEY=\"QUOTED String @\";\n        ",
            vec![add(b"KEY", b"UNQUOTED_STRING"), assign(b"KEY", b"QUOTED String @")],
        ),
        (
            b"\n        KEY+=UNQUOTED_STRING\n        KEY=\"QUOTED String @\";\n        # comment after key-value\n        ",
            vec![add(b"KEY", b"UNQUOTED_STRING"), assign(b"KEY", b"QUOTED String @")],
        ),
        (
            b"\n        KEY+=UNQUOTED_STRING # comment on same line as key-value\n        KEY=\"QUOTED String @\";# comment on same line as key-value\n        ",
            vec![add(b"KEY", b"UNQUOTED_STRING"), assign(b"KEY", b"QUOTED String @")],
        ),
        (
            b"\n        KEY+=UNQUOTED_STRING# comment on same line as key-value\n        KEY=\"QUOTED String @\"; # comment on same line as key-value\n        ",
            vec![add(b"KEY", b"UNQUOTED_STRING"), assign(b"KEY", b"QUOTED String @")],
        ),
        (b"KEY+=UNQUOTED_STRING", vec![add(b"KEY", b"UNQUOTED_STRING")]),
        (b"KEY-=UNQUOTED_STRING", vec![remove(b"KEY", b"UNQUOTED_STRING")]),
        (b"KEY:=UNQUOTED_STRING", vec![AstEntry::new_assign_if_undefined(b"KEY".to_vec(), b"UNQUOTED_STRING".to_vec())]),
        (b"KEY!", vec![reset(b"KEY")]),
        (b"KEY !", vec![reset(b"KEY")]),
        (b"KEY!\n        KEY=\"QUOTED String @\";\n        ", vec![reset(b"KEY"), assign(b"KEY", b"QUOTED String @")]),
        (b"KEY!NEXT-=VALUE", vec![reset(b"KEY"), remove(b"NEXT", b"VALUE")]),
        (b"KEY!!", vec![clear(b"KEY")]),
        (b"KEY !!", vec![clear(b"KEY")]),
        (b"KEY!!\n        KEY=\"QUOTED String @\";\n        ", vec![clear(b"KEY"), assign(b"KEY", b"QUOTED String @")]),
        (b"KEY!!NEXT-=VALUE", vec![clear(b"KEY"), remove(b"NEXT", b"VALUE")]),
    ];
    for (input, output) in cases {
        assert_eq!(parse(input), Ast::from_entries(output), "input {:?}", String::from_utf8_lossy(input));
    }
}

#[test]
fn parse_group() {
    let parts = || vec![assign(b"PART1", b"VALUE"), assign(b"PART2", b"other")];
    let cases: Vec<(&[u8], Vec<AstEntry>)> = vec![
        (b"KEY: {}", vec![AstEntry::new_group(b"KEY".to_vec(), vec![])]),
        (b"      \t_   \n: {\t     }", vec![AstEntry::new_group(b"_".to_vec(), vec![])]),
        (
            b"KEY: {\n            PART1 = VALUE;\n            PART2 = other\n        }",
            vec![AstEntry::new_group(b"KEY".to_vec(), parts())],
        ),
        (
            b"# comment ahead of a group\n        KEY: {\n            PART1 = VALUE;\n            PART2 = other\n        }",
            vec![AstEntry::new_group(b"KEY".to_vec(), parts())],
        ),
        (
            b"KEY: {\n            # comment at the start of a group\n            PART1 = VALUE;\n            PART2 = other\n        }",
            vec![AstEntry::new_group(b"KEY".to_vec(), parts())],
        ),
        (
            b"KEY: {\n            PART1 = VALUE;\n            # comment in the middle of a group\n            PART2 = other\n        }",
            vec![AstEntry::new_group(b"KEY".to_vec(), parts())],
        ),
        (
            b"KEY: {\n            PART1 = VALUE;\n            PART2 = other\n            # comment at the end of a group\n        }",
            vec![AstEntry::new_group(b"KEY".to_vec(), parts())],
        ),
        (
            b"KEY: {\n            PART1 = VALUE;\n            PART2 = other\n        }# comment after a group",
            vec![AstEntry::new_group(b"KEY".to_vec(), parts())],
        ),
    ];
    for (input, output) in cases {
        assert_eq!(parse(input), Ast::from_entries(output), "input {:?}", String::from_utf8_lossy(input));
    }
}

#[test]
fn written_document_reads_back() {
    // Entries and nested groups, with whitespace around every part, gaps of
    // whitespace and terminators between entries, and an unquoted value
    // followed directly by a quoted key.
    let input = concat(&[
        b" \n;",
        b"a = b",
        b"\"c\\\"d\" -= \"e\\\\f\" ;\n",
        b"g!!",
        b"h\t!;;",
        b"outer : {\n  inner:{x:=y}\n  z+=\"w\"\n} ;",
        b"last:{ }",
    ]);
    let expected = Ast::from_entries(vec![
        AstEntry::new_assign(b"a".to_vec(), b"b".to_vec()),
        AstEntry::new_remove(b"c\"d".to_vec(), b"e\\f".to_vec()),
        AstEntry::new_clear(b"g".to_vec()),
        AstEntry::new_reset(b"h".to_vec()),
        AstEntry::new_group(
            b"outer".to_vec(),
            vec![
                AstEntry::new_group(
                    b"inner".to_vec(),
                    vec![AstEntry::new_assign_if_undefined(b"x".to_vec(), b"y".to_vec())],
                ),
                AstEntry::new_add(b"z".to_vec(), b"w".to_vec()),
            ],
        ),
        AstEntry::new_group(b"last".to_vec(), vec![]),
    ]);
    assert_eq!(parse(&input), expected);
}

#[test]
fn raw_value_with_escapes_reads_unescaped() {
    assert_eq!(
        parse(br#"k = a\"b;"#),
        Ast::from_entries(vec![AstEntry::new_assign(b"k".to_vec(), b"a\"b".to_vec())])
    );
}

#[test]
fn entries_are_written_as_text() {
    assert_eq!(
        AstEntry::new_assign(b"k".to_vec(), b"v w".to_vec()).render(),
        b"k = \"v w\";".to_vec()
    );
    assert_eq!(
        AstEntry::new_reset(vec![0x6b, 0xff]).render(),
        vec![0x6b, 0xef, 0xbf, 0xbd, 0x20, 0x21, 0x3b]
    );
}
