use sabbahc::codegen::{CodeGenerator, Generated};
use sabbahc::structure::{AstNodeType, Scope, Statement};
use sabbahc::err::ErrorHandler;
use sabbahc::structure::parser::Parser;
use sabbahc::tokenizer::Tokenizer;
use sabbahc::typing::TypeRegistry;

fn compile(src: &str) -> Result<String, sabbahc::err::Diagnostic> {
    let input = src.to_string();
    let handler = ErrorHandler::new(input.clone(), "test.sbb");
    let mut tok = Tokenizer::new(&input, "test.sbb".to_string(), &handler, TypeRegistry::new());
    let tokens = tok.tokenize()?;
    let mut parser = Parser::new(tokens, &handler);
    let scope = parser.parse()?;
    let mut gen = CodeGenerator::new(scope, &handler);
    gen.out()
}

#[test]
fn function_declaration_compiles_to_one_label() {
    let out = compile("f main() { }").unwrap();
    assert_eq!(out, ".section .text\n    main:\n");
}

#[test]
fn label_indentation_is_fixed() {
    let a = compile("f alpha() { }").unwrap();
    let b = compile("f a_very_long_function_name() { }").unwrap();
    assert_eq!(a, ".section .text\n    alpha:\n");
    assert_eq!(b, ".section .text\n    a_very_long_function_name:\n");
}

#[test]
fn two_declarations_emit_two_labels() {
    let out = compile("f one() { } f two() { }").unwrap();
    assert_eq!(out, ".section .text\n    one:\n    two:\n");
}

#[test]
fn empty_input_emits_nothing() {
    // Every section is empty, so every section is omitted.
    let out = compile("").unwrap();
    assert_eq!(out, "");
}

#[test]
fn return_type_annotation_emits_no_code() {
    let out = compile("f main() -> uint8 { }").unwrap();
    assert_eq!(out, ".section .text\n    main:\n");
}

#[test]
fn function_body_is_not_lowered_yet() {
    // The body's statements live in the nested scope, which the generator
    // does not lower yet.
    let out = compile("f main() { return 3; }").unwrap();
    assert_eq!(out, ".section .text\n    main:\n");
}

#[test]
fn top_level_return_is_an_unimplemented_branch() {
    let err = compile("return 3;").unwrap_err();
    assert!(err.comperr);
    assert_eq!(err.message, "Unimplemented branch in code generator");
    assert!(err.suggestion.is_some());
}

#[test]
fn comments_do_not_change_the_output() {
    let plain = compile("f main() { }").unwrap();
    let commented = compile("// header\nf /* inline */ main() { } // trailer\n").unwrap();
    assert_eq!(plain, commented);
}

#[test]
fn empty_generated_renders_empty() {
    let gen = Generated::new();
    assert_eq!(gen.to_string(), "");
}

#[test]
fn whole_pipeline_rejects_out_of_range_literal() {
    // Lexing succeeds, parsing fails, no assembly is generated.
    let err = compile("f main() { } return 300;").unwrap_err();
    assert_eq!(err.message, "Integer literal out of range for an 8-bit value");
}

#[test]
fn function_keyword_node_without_identifier_is_internal() {
    // A statement whose function keyword has no identifier after it can
    // only come from a compiler bug, never from parsed source text.
    let mut stmt = Statement::new();
    stmt.push(AstNodeType::fk(1, 1));
    let scope = Scope { children: vec![stmt], is_outer: true };
    let handler = ErrorHandler::new(String::new(), "test.sbb");
    let mut gen = CodeGenerator::new(scope, &handler);
    let err = gen.out().unwrap_err();
    assert!(err.comperr);
    assert_eq!(err.message, "Expected function identifier node to have value");
}
