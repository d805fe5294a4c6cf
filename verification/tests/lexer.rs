use sabbahc::err::ErrorHandler;
use sabbahc::tokenizer::{Token, TokenType, TokenValue, Tokenizer};
use sabbahc::typing::TypeRegistry;

fn lex(src: &str) -> Result<Vec<Token>, sabbahc::err::Diagnostic> {
    let input = src.to_string();
    let handler = ErrorHandler::new(input.clone(), "test.sbb");
    let mut tok = Tokenizer::new(&input, "test.sbb".to_string(), &handler, TypeRegistry::new());
    tok.tokenize()
}

fn kinds(tokens: &[Token]) -> Vec<TokenType> {
    tokens.iter().map(|t| t.token_type).collect()
}

#[test]
fn function_declaration_tokens() {
    let tokens = lex("f main() { }").unwrap();
    assert_eq!(
        kinds(&tokens),
        vec![
            TokenType::FunctionKeyword,
            TokenType::FunctionIdent,
            TokenType::OpenParen,
            TokenType::CloseParen,
            TokenType::OpenCurly,
            TokenType::CloseCurly,
        ]
    );
    assert_eq!(
        tokens[1].value,
        Some(TokenValue::FunctionIdent("main".to_string()))
    );
    assert_eq!(tokens[0].line, 1);
    assert_eq!(tokens[0].column, 1);
    assert_eq!(tokens[1].column, 3);
}

#[test]
fn return_with_large_literal_still_lexes() {
    // 300 does not fit in 8 bits, but lexing only records the value; the
    // range check belongs to the parser.
    let tokens = lex("return 300;").unwrap();
    assert_eq!(
        kinds(&tokens),
        vec![TokenType::ReturnKeyword, TokenType::IntLiteral, TokenType::Semicolon]
    );
    assert_eq!(tokens[1].value, Some(TokenValue::IntLiteral(300)));
}

#[test]
fn line_comment_is_invisible() {
    let with = lex("f // a comment\nmain() { }").unwrap();
    let without = lex("f main() { }").unwrap();
    assert_eq!(kinds(&with), kinds(&without));
    let values: Vec<_> = with.iter().map(|t| t.value.clone()).collect();
    let values2: Vec<_> = without.iter().map(|t| t.value.clone()).collect();
    assert_eq!(values, values2);
}

#[test]
fn block_comment_is_invisible() {
    let with = lex("f /* spanning\ntwo lines */ main() { }").unwrap();
    let without = lex("f main() { }").unwrap();
    assert_eq!(kinds(&with), kinds(&without));
}

#[test]
fn whitespace_amount_is_irrelevant() {
    let spaced = lex("f \t\r\n   main  (  )  {  }").unwrap();
    let tight = lex("f main(){}").unwrap();
    assert_eq!(kinds(&spaced), kinds(&tight));
    assert_eq!(spaced[1].value, tight[1].value);
}

#[test]
fn positions_track_lines_and_columns() {
    let tokens = lex("f main()\n{\n}").unwrap();
    assert_eq!((tokens[4].line, tokens[4].column), (2, 1));
    assert_eq!((tokens[5].line, tokens[5].column), (3, 1));
}

#[test]
fn positions_never_decrease() {
    let tokens = lex("f main() -> uint8 {\nreturn 3;\n}").unwrap();
    for pair in tokens.windows(2) {
        let a = (pair[0].line, pair[0].column);
        let b = (pair[1].line, pair[1].column);
        assert!(a <= b);
    }
}

#[test]
fn arrow_and_type_identifier() {
    let tokens = lex("f main() -> uint8 { }").unwrap();
    assert_eq!(tokens[4].token_type, TokenType::ThinArrow);
    assert_eq!(tokens[5].token_type, TokenType::TypeIdent);
    match &tokens[5].value {
        Some(TokenValue::TypeIdent(ty)) => assert_eq!(ty.size, Some(1)),
        other => panic!("expected a type payload, got {:?}", other),
    }
}

#[test]
fn unknown_type_after_arrow_is_rejected() {
    let err = lex("f main() -> int9 { }").unwrap_err();
    assert_eq!(err.message, "Unknown type identifier: 'int9'");
    assert!(!err.comperr);
}

#[test]
fn bare_word_is_unexpected_identifier() {
    let err = lex("uint8").unwrap_err();
    assert_eq!(err.message, "Unexpected identifier: 'uint8'");
}

#[test]
fn keyword_f_needs_identifier() {
    let err = lex("f (").unwrap_err();
    assert_eq!(err.message, "Expected function identifier after 'f' keyword");
    let err2 = lex("f").unwrap_err();
    assert_eq!(err2.message, "Expected function identifier after 'f' keyword");
}

#[test]
fn hyphen_needs_angle_bracket() {
    let err = lex("-x").unwrap_err();
    assert_eq!(err.message, "Unexpected character after '-': 'x'");
    let err2 = lex("-").unwrap_err();
    assert_eq!(err2.message, "Unexpected end of input after '-'");
}

#[test]
fn unterminated_block_comment_is_rejected() {
    let err = lex("f main() { } /* no close").unwrap_err();
    assert_eq!(err.message, "Unterminated block comment");
}

#[test]
fn unexpected_character_is_rejected() {
    let err = lex("@").unwrap_err();
    assert_eq!(err.message, "Unexpected character: '@'");
    assert_eq!((err.line, err.column), (1, 1));
}

#[test]
fn slash_alone_is_rejected() {
    let err = lex("f main() { } /x").unwrap_err();
    assert_eq!(err.message, "Unexpected character after '/': 'x'");
    let err2 = lex("/").unwrap_err();
    assert_eq!(err2.message, "Unexpected end of input after '/'");
}

#[test]
fn oversized_integer_literal_is_rejected() {
    // u64::MAX is 18446744073709551615; one digit more overflows.
    let err = lex("return 99999999999999999999;").unwrap_err();
    assert_eq!(err.message, "Integer literal too large");
    let ok = lex("return 18446744073709551615;").unwrap();
    assert_eq!(ok[1].value, Some(TokenValue::IntLiteral(u64::MAX)));
}

#[test]
fn diagnostics_cite_the_file() {
    let input = "@".to_string();
    let handler = ErrorHandler::new(input.clone(), "prog.sbb");
    let mut tok = Tokenizer::new(&input, "prog.sbb".to_string(), &handler, TypeRegistry::new());
    let err = tok.tokenize().unwrap_err();
    assert_eq!(err.file, "prog.sbb");
}

#[test]
fn consume_whitespace_stops_at_content() {
    let input = "   \t x".to_string();
    let handler = ErrorHandler::new(input.clone(), "t");
    let mut tok = Tokenizer::new(&input, "t".to_string(), &handler, TypeRegistry::new());
    tok.consume_whitespace();
    let word = tok.consume_word();
    assert_eq!(word, Some("x".to_string()));
}

#[test]
fn consume_word_skips_leading_whitespace() {
    let input = "  abc_1 rest".to_string();
    let handler = ErrorHandler::new(input.clone(), "t");
    let mut tok = Tokenizer::new(&input, "t".to_string(), &handler, TypeRegistry::new());
    assert_eq!(tok.consume_word(), Some("abc_1".to_string()));
    assert_eq!(tok.consume_word(), Some("rest".to_string()));
    assert_eq!(tok.consume_word(), None);
}

#[test]
fn get_funcid_returns_the_name() {
    let tokens = lex("f widget() { }").unwrap();
    assert_eq!(tokens[1].get_funcid(), "widget");
}

#[test]
fn token_kind_names() {
    let tokens = lex("f main() { }").unwrap();
    assert_eq!(tokens[0].token_type.to_string(), "FunctionKeyword");
    assert_eq!(tokens[2].to_string(), "OpenParen Token");
}

#[test]
fn keyword_can_name_a_function() {
    // After `f`, any word is the identifier, keywords included.
    let tokens = lex("f return() { }").unwrap();
    assert_eq!(tokens[1].token_type, TokenType::FunctionIdent);
    assert_eq!(
        tokens[1].value,
        Some(TokenValue::FunctionIdent("return".to_string()))
    );
}
