use sabbahc::err::ErrorHandler;
use sabbahc::structure::parser::Parser;
use sabbahc::structure::{AstNodeType, AstNodeValue, Scope};
use sabbahc::tokenizer::{Token, TokenType, TokenValue, Tokenizer};
use sabbahc::typing::TypeRegistry;

fn parse_src(src: &str) -> Result<Scope, sabbahc::err::Diagnostic> {
    let input = src.to_string();
    let handler = ErrorHandler::new(input.clone(), "test.sbb");
    let mut tok = Tokenizer::new(&input, "test.sbb".to_string(), &handler, TypeRegistry::new());
    let tokens = tok.tokenize().expect("lexing should succeed");
    let mut parser = Parser::new(tokens, &handler);
    parser.parse()
}

fn tok(kind: TokenType, line: usize, column: usize) -> Token {
    Token { line, column, token_type: kind, value: None }
}

fn parse_tokens(tokens: Vec<Token>) -> Result<Scope, sabbahc::err::Diagnostic> {
    let handler = ErrorHandler::new(String::new(), "test.sbb");
    let mut parser = Parser::new(tokens, &handler);
    parser.parse()
}

#[test]
fn function_declaration_tree() {
    let scope = parse_src("f main() { }").unwrap();
    assert!(scope.is_outer);
    assert_eq!(scope.children.len(), 1);
    let stmt = &scope.children[0];
    assert_eq!(stmt.children.len(), 4);
    assert_eq!(stmt.children[0].node_type, AstNodeType::FunctionKeyword);
    assert!(stmt.children[0].value.is_none());
    assert_eq!(stmt.children[1].node_type, AstNodeType::FunctionIdent);
    assert_eq!(
        stmt.children[1].value,
        Some(AstNodeValue::FunctionIdent("main".to_string()))
    );
    assert_eq!(stmt.children[2].node_type, AstNodeType::ParamTypeTuple);
    assert_eq!(stmt.children[3].node_type, AstNodeType::Scope);
    match &stmt.children[3].value {
        Some(AstNodeValue::Scope(inner)) => {
            assert!(!inner.is_outer);
            assert!(inner.children.is_empty());
        },
        other => panic!("expected a nested scope, got {:?}", other),
    }
}

#[test]
fn return_small_literal_is_preserved() {
    let scope = parse_src("return 200;").unwrap();
    assert_eq!(scope.children.len(), 1);
    let node = &scope.children[0].children[0];
    assert_eq!(node.node_type, AstNodeType::ReturnKeyword);
    match &node.value {
        Some(AstNodeValue::Expression(e)) => assert_eq!(e.content, 200),
        other => panic!("expected an expression, got {:?}", other),
    }
}

#[test]
fn return_zero_and_255_are_in_range() {
    assert!(parse_src("return 0;").is_ok());
    assert!(parse_src("return 255;").is_ok());
}

#[test]
fn return_300_is_out_of_range() {
    let err = parse_src("return 300;").unwrap_err();
    assert_eq!(err.message, "Integer literal out of range for an 8-bit value");
    assert_eq!(err.suggestion.as_deref(), Some("Use a value between 0 and 255"));
    // The diagnostic cites the literal's own position: line 1, column 8.
    assert_eq!((err.line, err.column), (1, 8));
    assert!(!err.comperr);
}

#[test]
fn unterminated_declaration_cites_missing_paren() {
    let err = parse_src("f broken(").unwrap_err();
    assert_eq!(err.message, "Unexpected EOF (expected closing parentheses)");
    assert!(!err.comperr);
}

#[test]
fn wrong_token_in_parens_is_reported_with_its_kind() {
    let err = parse_src("f broken(;").unwrap_err();
    assert_eq!(
        err.message,
        "Expected closing parentheses (found Semicolon Token)"
    );
}

#[test]
fn nested_scopes_have_matching_depth() {
    let scope = parse_src("{ { } }").unwrap();
    assert_eq!(scope.children.len(), 1);
    let outer_node = &scope.children[0].children[0];
    match &outer_node.value {
        Some(AstNodeValue::Scope(level1)) => {
            assert_eq!(level1.children.len(), 1);
            match &level1.children[0].children[0].value {
                Some(AstNodeValue::Scope(level2)) => assert!(level2.children.is_empty()),
                other => panic!("expected the second level, got {:?}", other),
            }
        },
        other => panic!("expected the first level, got {:?}", other),
    }
}

#[test]
fn unmatched_open_brace_fails() {
    let err = parse_src("{ { }").unwrap_err();
    assert_eq!(err.message, "Unexpected EOF while parsing scope");
}

#[test]
fn stray_close_brace_fails() {
    let err = parse_src("}").unwrap_err();
    assert_eq!(err.message, "Unexpected closing brace");
}

#[test]
fn empty_scope_is_legal() {
    let scope = parse_src("{ }").unwrap();
    assert_eq!(scope.children.len(), 1);
    let scope2 = parse_src("").unwrap();
    assert!(scope2.children.is_empty());
}

#[test]
fn semicolon_ends_an_empty_statement() {
    let scope = parse_src(";;").unwrap();
    assert_eq!(scope.children.len(), 2);
    assert!(scope.children[0].children.is_empty());
}

#[test]
fn return_type_annotation() {
    let scope = parse_src("f main() -> uint8 { }").unwrap();
    let stmt = &scope.children[0];
    assert_eq!(stmt.children[3].node_type, AstNodeType::TypeIdent);
    match &stmt.children[3].value {
        Some(AstNodeValue::TypeIdent(ty)) => assert_eq!(ty.size, Some(1)),
        other => panic!("expected a type annotation, got {:?}", other),
    }
}

#[test]
fn unterminated_statement_is_a_diagnostic() {
    let err = parse_src("return 7").unwrap_err();
    assert_eq!(err.message, "Unterminated statement at end of input");
    assert_eq!(err.suggestion.as_deref(), Some("Terminate the statement with ';'"));
}

#[test]
fn stray_closing_paren_fails() {
    let err = parse_src(")").unwrap_err();
    assert_eq!(err.message, "Unexpected closing parentheses");
}

#[test]
fn arrow_without_type_fails() {
    let input = "f main() -> { }";
    // The arrow expects a type name; `{` is not a word, so the lexer emits
    // the brace and the parser objects.
    let err = parse_src(input).unwrap_err();
    assert_eq!(err.message, "Expected type identifier after ->");
}

#[test]
fn function_keyword_without_identifier_is_internal() {
    // The lexer guarantees the identifier follows; a hand-built token
    // sequence that violates that invariant is a compiler bug, not a user
    // error.
    let err = parse_tokens(vec![tok(TokenType::FunctionKeyword, 1, 1)]).unwrap_err();
    assert!(err.comperr);
    assert_eq!(err.message, "Function keyword not followed by a function identifier");
    let err2 = parse_tokens(vec![
        tok(TokenType::FunctionKeyword, 1, 1),
        tok(TokenType::Semicolon, 1, 3),
    ])
    .unwrap_err();
    assert!(err2.comperr);
}

#[test]
fn literal_token_without_value_is_internal() {
    let err = parse_tokens(vec![
        tok(TokenType::ReturnKeyword, 1, 1),
        tok(TokenType::IntLiteral, 1, 8),
    ])
    .unwrap_err();
    assert!(err.comperr);
    assert_eq!(err.message, "Integer literal token carries no value");
}

#[test]
fn bare_literal_is_unexpected() {
    let err = parse_tokens(vec![Token {
        line: 1,
        column: 1,
        token_type: TokenType::IntLiteral,
        value: Some(TokenValue::IntLiteral(4)),
    }])
    .unwrap_err();
    assert_eq!(err.message, "Unexpected token");
}

#[test]
fn arrow_at_end_of_input_fails() {
    let err = parse_src("f main() ->").unwrap_err();
    assert_eq!(err.message, "Unexpected EOF (expected type identifier after ->)");
}

#[test]
fn return_at_end_of_input_fails() {
    let err = parse_src("return").unwrap_err();
    assert_eq!(err.message, "Unexpected EOF (expected statement end after return)");
}

#[test]
fn return_without_literal_fails() {
    let err = parse_tokens(vec![
        tok(TokenType::ReturnKeyword, 1, 1),
        tok(TokenType::Semicolon, 1, 7),
    ])
    .unwrap_err();
    assert_eq!(err.message, "Expected integer literal after return keyword");
    assert_eq!((err.line, err.column), (1, 7));
}

#[test]
fn bare_type_identifier_is_unexpected() {
    let err = parse_tokens(vec![Token {
        line: 2,
        column: 3,
        token_type: TokenType::TypeIdent,
        value: Some(TokenValue::TypeIdent(sabbahc::typing::Type { size: Some(1) })),
    }])
    .unwrap_err();
    assert_eq!(err.message, "Unexpected type identifier");
    assert_eq!((err.line, err.column), (2, 3));
}

#[test]
fn bare_function_identifier_is_unexpected() {
    let err = parse_tokens(vec![Token {
        line: 1,
        column: 1,
        token_type: TokenType::FunctionIdent,
        value: Some(TokenValue::FunctionIdent("x".to_string())),
    }])
    .unwrap_err();
    assert_eq!(err.message, "Unexpected token");
}
