use declc::errors::CompileError;
use declc::symbols::CodeScope;
use declc::symbols::ScopeTable;
use declc::tokenizer::Token;
use declc::tokenizer::TokenType;

fn ident_token(name: &str, start: usize) -> Token {
    Token {
        token_type: TokenType::IDENT(String::from(name)),
        start,
        len: name.len(),
    }
}

#[test]
fn add_different_symbol() {
    let mut scope = CodeScope::new(None);

    scope.add_symbol(ident_token("a", 0)).unwrap();
    scope.add_symbol(ident_token("b", 1)).unwrap();

    assert_eq!(true, scope.contains_symbol(&String::from("a")));
    assert_eq!(true, scope.contains_symbol(&String::from("b")));
    assert_eq!(2, scope.symbols.len());
}

#[test]
fn add_symbol_rejects_duplicates() {
    let mut scope = CodeScope::new(None);

    scope.add_symbol(ident_token("a", 0)).unwrap();
    let second = scope.add_symbol(ident_token("a", 2));

    assert_eq!(second, Err(CompileError::DuplicateSymbol));
    assert_eq!(1, scope.symbols.len());
}

#[test]
fn declare_assigns_and_advances_offsets() {
    let mut table = ScopeTable::new(CodeScope::global());

    let first = table.declare(ident_token("a", 0), 16).unwrap();
    let second = table.declare(ident_token("b", 4), 16).unwrap();

    assert_eq!(first, 0);
    assert_eq!(second, 16);
    assert_eq!(table.current_offset(0), 32);
}

#[test]
fn close_same_scope_twice_is_double_close() {
    let mut table = ScopeTable::new(CodeScope::global());
    let inner = table.open_scope();

    assert_eq!(table.close_scope(inner), Ok(()));
    assert_eq!(table.close_scope(inner), Err(CompileError::DoubleClose));
}

#[test]
fn close_with_no_open_block_is_unmatched() {
    let mut table = ScopeTable::new(CodeScope::global());

    assert_eq!(table.close_scope(0), Err(CompileError::UnmatchedClose));
}

#[test]
fn frame_overflow_is_reported() {
    let mut table = ScopeTable::new(CodeScope::global());

    for i in 0..4095 {
        let name = format!("v{i}");
        let offset = table
            .declare(ident_token(&name, 0), 16)
            .expect("offsets below the frame limit must succeed");
        assert_eq!(offset as usize, 16 * i);
    }

    let last = table.declare(ident_token("overflowing", 0), 16);
    assert_eq!(last, Err(CompileError::FrameOverflow));
}

#[test]
fn nested_scopes_are_registered_with_their_parent() {
    let mut table = ScopeTable::new(CodeScope::global());
    let inner = table.open_scope();

    assert_eq!(inner, 1);
    assert_eq!(table.active, 1);
    assert_eq!(table.scopes[1].parent_scope, Some(0));
    assert_eq!(table.scopes[0].nested_scopes, vec![1]);

    table.close_scope(inner).unwrap();
    assert_eq!(table.active, 0);
    assert!(table.scopes[1].was_closed);
    assert!(!table.scopes[0].was_closed);
}
