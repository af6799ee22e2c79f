use declc::assembly::Assembler;
use declc::compile;
use declc::declarations::LiteralDecl;
use declc::declarations::Literals;
use declc::declarations::VariableDecl;
use declc::errors::CompileError;
use declc::parser::Parser;
use declc::symbols::CodeScope;
use declc::tokenizer::Tokenizer;

const PREAMBLE: &str = "PUSH rbp\nMOV  rbp rsp\n";

#[test]
fn round_trip_single_declaration() {
    let output = compile("let a = 123;").unwrap();

    let expected = format!("{PREAMBLE}QWORD PTR [rbp-16], 123 ; a\n");
    assert_eq!(output, expected);
}

#[test]
fn pipeline_is_idempotent() {
    let text = "let a = 1; {let b = 22;} let c = 333;";

    let first = compile(text).unwrap();
    let second = compile(text).unwrap();

    assert_eq!(first, second);
}

#[test]
fn two_declarations_emit_two_store_lines() {
    let output = compile("let x = 2;let y = 456;").unwrap();

    let expected = format!(
        "{PREAMBLE}QWORD PTR [rbp-16], 2 ; x\nQWORD PTR [rbp-32], 456 ; y\n"
    );
    assert_eq!(output, expected);
}

#[test]
fn nested_declarations_are_emitted_depth_first() {
    let output = compile("let a = 1;{let b = 2;}let c = 3;").unwrap();

    let expected = format!(
        "{PREAMBLE}QWORD PTR [rbp-16], 1 ; a\nQWORD PTR [rbp-16], 2 ; b\nQWORD PTR [rbp-32], 3 ; c\n"
    );
    assert_eq!(output, expected);
}

#[test]
fn blank_input_emits_only_the_preamble() {
    assert_eq!(compile("").unwrap(), PREAMBLE);
    assert_eq!(compile("   \n\t").unwrap(), PREAMBLE);
    assert_eq!(compile("#only a comment").unwrap(), PREAMBLE);
}

#[test]
fn compile_propagates_the_first_error() {
    assert_eq!(compile("let a = 1;let a = 2;"), Err(CompileError::DuplicateSymbol));
    assert_eq!(compile("}"), Err(CompileError::UnmatchedClose));
}

#[test]
fn var_appends_one_store_line() {
    let mut assembler = Assembler::new("out");
    let decl = VariableDecl {
        stack_offset: 48,
        identifier: String::from("counter"),
        literal: LiteralDecl { value: Literals::NUMBER(String::from("7")) },
    };

    assembler.var(&decl);

    let expected = format!("{PREAMBLE}QWORD PTR [rbp-64], 7 ; counter\n");
    assert_eq!(assembler.output_text().as_str(), expected);
}

#[test]
fn from_ast_renders_the_parsed_tree() {
    let tokenizer = Tokenizer::new("let lhs = 10; let rhs = 20;");
    let mut parser = Parser::new(CodeScope::global());
    let ast = parser.parse(tokenizer).unwrap();

    let mut assembler = Assembler::new("out");
    assembler.from_ast(&ast);

    let expected = format!(
        "{PREAMBLE}QWORD PTR [rbp-16], 10 ; lhs\nQWORD PTR [rbp-32], 20 ; rhs\n"
    );
    assert_eq!(assembler.output_text().as_str(), expected);
}
