use config::lex_token::{CaptureSlots, CatchAllError, LexEnum, LexExpr, LexPatterns, LexVariant, PatternPiece};

fn text(pieces: &[PatternPiece]) -> String {
    pieces
        .iter()
        .map(|p| match p {
            PatternPiece::Text(t) => t.clone(),
            PatternPiece::Escaped(c) => format!("<{c}>"),
        })
        .collect()
}

#[test]
fn patterns_count_capture_groups() {
    assert!(matches!(LexExpr::parse_pattern("a".to_string()), Ok(LexExpr::Matches(p)) if p == "a"));
    assert!(matches!(LexExpr::parse_pattern("(a)(?:b)(c)".to_string()), Ok(LexExpr::Captures(_, 2))));
    assert!(LexExpr::parse_pattern("(".to_string()).is_err());
    let ps = LexPatterns::Patterns(vec![
        LexExpr::Captures("(a)".to_string(), 1),
        LexExpr::Matches("b".to_string()),
        LexExpr::Captures("(c)(d)".to_string(), 2),
    ]);
    assert_eq!(ps.extra_capture_count(), 3);
    assert!(ps.is_capturing());
    assert_eq!(LexPatterns::Any.extra_capture_count(), 0);
    assert!(!LexPatterns::Patterns(vec![LexExpr::Constant("X".to_string())]).is_capturing());
}

#[test]
fn names_and_tokenizer_pattern() {
    let e = LexEnum {
        ident: "Token".to_string(),
        variants: vec![
            LexVariant { ident: "Space".to_string(), patterns: LexPatterns::Patterns(vec![LexExpr::Matches(r"\s+".to_string())]) },
            LexVariant {
                ident: "Op".to_string(),
                patterns: LexPatterns::Patterns(vec![LexExpr::Constant("EQ".to_string()), LexExpr::Matches("!".to_string())]),
            },
            LexVariant { ident: "Unknown".to_string(), patterns: LexPatterns::Any },
        ],
    };
    assert_eq!(e.iter_ident(), "TokenIter".to_string());
    assert_eq!(e.variants[1].token_ident(&"Token".to_string()), "TokenOp".to_string());
    assert_eq!(text(&e.tokenizer_regex()), r"(\s+)|(<EQ>|!)".to_string());
}

fn variant(name: &str, patterns: LexPatterns) -> LexVariant {
    LexVariant { ident: name.to_string(), patterns }
}

fn caps(pattern: &str, n: usize) -> LexPatterns {
    LexPatterns::Patterns(vec![LexExpr::Captures(pattern.to_string(), n)])
}

fn plain(pattern: &str) -> LexPatterns {
    LexPatterns::Patterns(vec![LexExpr::Matches(pattern.to_string())])
}

#[test]
fn exactly_one_catch_all_variant() {
    let one = LexEnum { ident: "T".to_string(), variants: vec![variant("A", plain("a")), variant("U", LexPatterns::Any)] };
    assert_eq!(one.catch_all(), Ok(1));
    let none = LexEnum { ident: "T".to_string(), variants: vec![variant("A", plain("a"))] };
    assert_eq!(none.catch_all(), Err(CatchAllError::Missing));
    let three = LexEnum {
        ident: "T".to_string(),
        variants: vec![
            variant("U1", LexPatterns::Any),
            variant("A", plain("a")),
            variant("U2", LexPatterns::Any),
            variant("U3", LexPatterns::Any),
        ],
    };
    assert_eq!(three.catch_all(), Err(CatchAllError::Several { first: 0, second: 2 }));
}

#[test]
fn capture_slots_follow_the_whole_matches() {
    let e = LexEnum {
        ident: "T".to_string(),
        variants: vec![
            variant("A", caps("(a)(b)", 2)),
            variant("U", LexPatterns::Any),
            variant("B", plain("b")),
            variant("C", caps("(c)", 1)),
        ],
    };
    // Three variants with patterns: whole matches in slots 0..6, further
    // groups from slot 6.
    assert_eq!(
        e.capture_layout(),
        vec![
            CaptureSlots { variant: 0, whole: 0, extra: 6, count: 2 },
            CaptureSlots { variant: 2, whole: 2, extra: 10, count: 0 },
            CaptureSlots { variant: 3, whole: 4, extra: 10, count: 1 },
        ]
    );
}

#[test]
fn token_types_named_after_enum_and_variant() {
    let e = LexEnum {
        ident: "Tok".to_string(),
        variants: vec![variant("A", caps("(a)(b)", 2)), variant("U", LexPatterns::Any), variant("B", plain("b"))],
    };
    let decls: Vec<(String, usize)> = e.token_structs().into_iter().map(|d| (d.ident, d.captures)).collect();
    assert_eq!(decls, vec![("TokA".to_string(), 2), ("TokU".to_string(), 0), ("TokB".to_string(), 0)]);
}
