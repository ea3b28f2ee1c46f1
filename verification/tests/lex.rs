use config::parse::lex::{BinaryOpKind, SuffixUnaryOpKind, Token, TokenKind, Tokenizer, ValueKind};

#[test]
fn tokenizer_compiles() {
    let _tokenizer = Tokenizer::new();
}

/// The tokens of `input`, as the tokenizer hands them out.
fn tokens(input: &[u8]) -> Vec<Token> {
    let buffer = input.to_vec();
    let tokenizer = Tokenizer::new();
    let mut iter = tokenizer.tokenize(&buffer);
    let mut out = Vec::new();
    while let Some(t) = iter.next() {
        out.push(t);
    }
    out
}

fn assert_single(input: &[u8], kind: TokenKind) {
    assert_eq!(
        tokens(input),
        vec![Token { kind, start: 0, end: input.len() }],
        "input {:?}",
        String::from_utf8_lossy(input)
    );
}

#[test]
fn tokenize_whitespace() {
    for ws in [" ", "\t", "\r", "\r\n", " \t\r\n", " \t\r\n "] {
        assert_single(ws.as_bytes(), TokenKind::Whitespace);
    }
}

#[test]
fn tokenize_value() {
    let cases = [
        r"a",
        r"A",
        r"ab",
        r"aB",
        r"Ab",
        r"AB",
        r"abc",
        r"ABC",
        r"0",
        r"01",
        r"012",
        r"0a",
        r"a0",
        r"ABCDEFGHIJKLMNOPQRSTUVWXYZabcdefghijklmnopqrstuvwxyz0123456789-_./",
        r"_",
        r".",
        r"/",
        r#""a""#,
        r#""A""#,
        r#""ab""#,
        r#""aB""#,
        r#""Ab""#,
        r#""AB""#,
        r#""abc""#,
        r#""ABC""#,
        r#""0""#,
        r#""01""#,
        r#""012""#,
        r#""0a""#,
        r#""a0""#,
        r#""ABCDEFGHIJKLMNOPQRSTUVWXYZabcdefghijklmnopqrstuvwxyz0123456789-_./""#,
        r#""_""#,
        r#"".""#,
        r#""/""#,
        r#""-""#,
        r#"":""#,
        r#""""#,
        r#"" ""#,
        r#""space separated string""#,
        "\"newline\nseparated\nstring\"",
        r"\a",
        r"\A",
        r"\a\b",
        r"\a\B",
        r"\A\b",
        r"\A\B",
        r"\a\b\c",
        r"\A\B\C",
        r"\0",
        r"\0\1",
        r"\0\1\2",
        r"\0\a",
        r"\a\0",
        r"\AB\CDEFGH\IJKLMNOPQ\RSTUVWXYZabcdefghi\\jklm\\\nopqrstuvwxyz0123456789\-\:\_\.\/",
        r"\_",
        r"\.",
        r"\&",
        r"\!",
        r"\=",
        r"\+\=",
        r"\ ",
    ];
    for value in cases {
        let buffer = value.as_bytes().to_vec();
        let ts = tokens(&buffer);
        assert_eq!(ts.len(), 1, "input {:?}", value);
        assert!(matches!(ts[0].kind, TokenKind::Value(_)), "input {:?}", value);
        assert_eq!(ts[0].as_bytes(&buffer), buffer, "input {:?}", value);
    }
}

#[test]
fn tokenize_binary_op() {
    let cases = [
        (config::parse::OPERATOR_ASSIGN, BinaryOpKind::Assign),
        (config::parse::OPERATOR_ASSIGN_IF_UNDEFINED, BinaryOpKind::AssignIfUndefined),
        (config::parse::OPERATOR_ADD, BinaryOpKind::Add),
        (config::parse::OPERATOR_REMOVE, BinaryOpKind::Remove),
        (config::parse::OPERATOR_GROUP, BinaryOpKind::Group),
    ];
    for (op, kind) in cases {
        assert_single(op.as_bytes(), TokenKind::BinaryOp(kind));
    }
}

#[test]
fn tokenize_suffix_unary_op() {
    assert_single(config::parse::OPERATOR_CLEAR.as_bytes(), TokenKind::SuffixUnaryOp(SuffixUnaryOpKind::Clear));
    assert_single(config::parse::OPERATOR_RESET.as_bytes(), TokenKind::SuffixUnaryOp(SuffixUnaryOpKind::Reset));
}

#[test]
fn tokenize_group_open() {
    assert_single(b"{", TokenKind::GroupingOpen);
}

#[test]
fn tokenize_group_close() {
    assert_single(b"}", TokenKind::GroupingClose);
}

#[test]
fn tokenize_terminator() {
    assert_single(b";", TokenKind::Terminator);
}

#[test]
fn tokenize_comment() {
    let cases = [
        "#",
        "#\n",
        "# ",
        "# \n",
        "# this is some text",
        "# this is some text\n",
        "# this is some text wit & *() strange characters \r but not a newline",
        "# this is some text wit & *() strange characters \r but not a newline\n",
        "# \"a string in a comment? oh my!\"",
        "# \"a string in a comment? oh my!\"\n",
        "# COMMENTED_OUT=KEY_VALUE_PAIR;",
        "# COMMENTED_OUT=KEY_VALUE_PAIR;\n",
        "# COMMENTED_OUT: { KEY_VALUE_PAIR=IN_A_GROUP; }; ",
        "# COMMENTED_OUT: { KEY_VALUE_PAIR=IN_A_GROUP; };\n",
    ];
    for c in cases {
        assert_single(c.as_bytes(), TokenKind::Comment);
    }
}

#[test]
fn tokenize_unknown() {
    for c in ["&", "&*@", "`", "^$<>"] {
        assert_single(c.as_bytes(), TokenKind::Unknown);
    }
}

#[test]
fn tokens_cover_the_buffer() {
    let input = b"KEY = \"v a l\"; # note\nGROUP: { X += 1 } &&";
    let ts = tokens(input);
    let mut at = 0;
    for t in &ts {
        assert_eq!(t.start, at);
        assert!(t.end > t.start);
        at = t.end;
    }
    assert_eq!(at, input.len());
}

#[test]
fn tokenize_raw_value_with_escapes() {
    // A raw string that starts with a raw-string byte and holds escapes is
    // one value token, as one that starts with an escape is.
    for input in [r"a\b", r"a\-", r"x.y\ z", r"a\b-c", r"0\;1", r"a\\"] {
        assert_single(input.as_bytes(), TokenKind::Value(ValueKind::EString));
    }
    for input in [r"a-b", r"a:b", r"a.b/c"] {
        assert_single(input.as_bytes(), TokenKind::Value(ValueKind::String));
    }
    assert_eq!(
        tokens(br"a\b=c"),
        vec![
            Token { kind: TokenKind::Value(ValueKind::EString), start: 0, end: 3 },
            Token { kind: TokenKind::BinaryOp(BinaryOpKind::Assign), start: 3, end: 4 },
            Token { kind: TokenKind::Value(ValueKind::String), start: 4, end: 5 },
        ]
    );
}

#[test]
fn written_token_stream_reads_back() {
    let input = b"#c\n a\\b:\"q\\\"x\"-={!! };";
    let t = |kind, start, end| Token { kind, start, end };
    assert_eq!(
        tokens(input),
        vec![
            t(TokenKind::Comment, 0, 3),
            t(TokenKind::Whitespace, 3, 4),
            t(TokenKind::Value(ValueKind::EString), 4, 7),
            t(TokenKind::BinaryOp(BinaryOpKind::Group), 7, 8),
            t(TokenKind::Value(ValueKind::QEString), 8, 14),
            t(TokenKind::BinaryOp(BinaryOpKind::Remove), 14, 16),
            t(TokenKind::GroupingOpen, 16, 17),
            t(TokenKind::SuffixUnaryOp(SuffixUnaryOpKind::Clear), 17, 19),
            t(TokenKind::Whitespace, 19, 20),
            t(TokenKind::GroupingClose, 20, 21),
            t(TokenKind::Terminator, 21, 22),
        ]
    );
}
