use config::parse::syn::SyntaxParser;

#[test]
fn parser_compiles() {
    let _ = SyntaxParser::compile();
    let _ = SyntaxParser::new();
}
