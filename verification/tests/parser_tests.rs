use declc::declarations::Literals;
use declc::declarations::NodeType;
use declc::errors::CompileError;
use declc::parser::Parser;
use declc::parser::get_var_size;
use declc::parser::number_fits;
use declc::symbols::CodeScope;
use declc::tokenizer::Token;
use declc::tokenizer::TokenType;
use declc::tokenizer::Tokenizer;

fn parse_text(text: &str) -> Result<declc::parser::AST, CompileError> {
    let global_scope = CodeScope::global();
    let tokenizer = Tokenizer::new(text);
    let mut parser = Parser::new(global_scope);
    parser.parse(tokenizer)
}

fn expect_decl(node: &NodeType, identifier: &str, digits: &str, offset: u16) {
    match node {
        NodeType::Variable(decl) => {
            assert_eq!(decl.identifier, identifier);
            assert_eq!(decl.stack_offset, offset);
            assert_eq!(decl.literal.value, Literals::NUMBER(String::from(digits)));
        },
        NodeType::Stmt(_) => panic!("expected a declaration node"),
    }
}

#[test]
fn parse_simple_assigment() {
    let ast = parse_text("let x = 123; let y = 456;").unwrap();

    assert_eq!(ast.nodes.len(), 2);
    expect_decl(&ast.nodes[0], "x", "123", 0);
    expect_decl(&ast.nodes[1], "y", "456", 16);
    assert_eq!(ast.top_level, vec![0, 1]);
}

#[test]
fn two_declarations_without_spacing() {
    let ast = parse_text("let x = 2;let y = 456;").unwrap();

    assert_eq!(ast.nodes.len(), 2);
    expect_decl(&ast.nodes[0], "x", "2", 0);
    expect_decl(&ast.nodes[1], "y", "456", 16);
    assert_eq!(ast.top_level, vec![0, 1]);
}

#[test]
fn offsets_accumulate_by_layout_size() {
    let ast = parse_text("let a = 1; let b = 2; let c = 3;").unwrap();

    assert_eq!(ast.nodes.len(), 3);
    expect_decl(&ast.nodes[0], "a", "1", 0);
    expect_decl(&ast.nodes[1], "b", "2", 16);
    expect_decl(&ast.nodes[2], "c", "3", 32);
    match &ast.nodes[0] {
        NodeType::Variable(decl) => assert_eq!(get_var_size(decl), 16),
        NodeType::Stmt(_) => panic!("expected a declaration node"),
    }
}

#[test]
fn shadowing_across_scopes_is_permitted() {
    let ast = parse_text("let a = 1;{let a = 2;}").unwrap();

    assert_eq!(ast.nodes.len(), 3);
    expect_decl(&ast.nodes[0], "a", "1", 0);
    match &ast.nodes[1] {
        NodeType::Stmt(stmt) => assert_eq!(stmt.children, vec![2]),
        NodeType::Variable(_) => panic!("expected a statement node"),
    }
    expect_decl(&ast.nodes[2], "a", "2", 0);
    assert_eq!(ast.top_level, vec![0, 1]);
}

#[test]
fn duplicate_in_one_scope_is_rejected() {
    let outcome = parse_text("let a = 1;let a = 2;");
    assert_eq!(outcome.err(), Some(CompileError::DuplicateSymbol));
}

#[test]
fn lone_close_is_unmatched() {
    let outcome = parse_text("}");
    assert_eq!(outcome.err(), Some(CompileError::UnmatchedClose));
}

#[test]
fn open_scope_must_be_closed() {
    let outcome = parse_text("{let a = 1;");
    assert_eq!(outcome.err(), Some(CompileError::UnclosedScope));
}

#[test]
fn missing_identifier_is_reported() {
    assert_eq!(parse_text("let = 2;").err(), Some(CompileError::MissingIdentifier));
    assert_eq!(parse_text("let ").err(), Some(CompileError::MissingIdentifier));
}

#[test]
fn missing_equals_is_reported() {
    assert_eq!(parse_text("let x 2;").err(), Some(CompileError::MissingEquals));
}

#[test]
fn missing_literal_is_reported() {
    assert_eq!(parse_text("let x = ;").err(), Some(CompileError::MissingLiteral));
}

#[test]
fn unterminated_statement_is_reported() {
    assert_eq!(parse_text("let x = 2 ").err(), Some(CompileError::UnterminatedStatement));
    assert_eq!(parse_text("let x = 2 let").err(), Some(CompileError::UnterminatedStatement));
}

#[test]
fn numeric_overflow_is_reported() {
    assert_eq!(
        parse_text("let x = 99999999999;").err(),
        Some(CompileError::NumericParseFailure)
    );
    assert_eq!(parse_text("let x = 4294967295;").is_ok(), true);
    assert_eq!(
        parse_text("let x = 4294967296;").err(),
        Some(CompileError::NumericParseFailure)
    );
}

#[test]
fn statement_must_begin_with_a_known_form() {
    assert_eq!(parse_text("2;").err(), Some(CompileError::UnsupportedStatement));
}

#[test]
fn string_literals_cannot_declare_variables() {
    // The scanner never produces a string token today, so the parser's
    // rejection of one is visible only at the literal matcher.
    let parser = Parser::new(CodeScope::global());
    let token = Token {
        token_type: TokenType::STRING(String::from("abc")),
        start: 0,
        len: 3,
    };
    assert_eq!(parser.match_literal(&token), None);
    assert_eq!(parser.match_ident(&token), None);
}

#[test]
fn number_fits_checks_the_target_width() {
    assert!(number_fits(&String::from("0")));
    assert!(number_fits(&String::from("4294967295")));
    assert!(!number_fits(&String::from("4294967296")));
    assert!(!number_fits(&String::from("")));
    assert!(!number_fits(&String::from("12a")));
}
