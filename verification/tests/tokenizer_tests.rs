use declc::tokenizer::Token;
use declc::tokenizer::TokenType;
use declc::tokenizer::Tokenizer;

fn collect_tokens(mut tokenizer: Tokenizer) -> Vec<Token> {
    let mut tokens: Vec<Token> = Vec::new();
    while let Some(token) = tokenizer.next_token() {
        tokens.push(token);
    }
    tokens
}

#[test]
fn produces_correct_tokens() {
    let tokenizer = Tokenizer::new("let a = 2 + 2 - 2 * 2 / 2;");

    let tokens: Vec<Token> = collect_tokens(tokenizer);

    let expected_types = vec![
        TokenType::LET,
        TokenType::IDENT(String::from("a")),
        TokenType::EQUAL,
        TokenType::NUMBER(String::from("2")),
        TokenType::PLUS,
        TokenType::NUMBER(String::from("2")),
        TokenType::MINUS,
        TokenType::NUMBER(String::from("2")),
        TokenType::MULT,
        TokenType::NUMBER(String::from("2")),
        TokenType::DIV,
        TokenType::NUMBER(String::from("2")),
        TokenType::COMMA,
    ];

    assert_eq!(tokens.len(), expected_types.len());

    let mut i = 0;
    for token in tokens {
        let expected_token = &expected_types[i];
        assert_eq!(token.token_type, *expected_token);
        i += 1;
    }
}

#[test]
fn ignores_comments() {
    let tokenizer = Tokenizer::new("#1\nlet a = 2 + 2;");

    let tokens: Vec<Token> = collect_tokens(tokenizer);

    let expected_types = vec![
        TokenType::LET,
        TokenType::IDENT(String::from("a")),
        TokenType::EQUAL,
        TokenType::NUMBER(String::from("2")),
        TokenType::PLUS,
        TokenType::NUMBER(String::from("2")),
        TokenType::COMMA,
    ];

    assert_eq!(tokens.len(), expected_types.len());
}

#[test]
fn ignores_comments_even_with_valid_expressions() {
    let tokenizer = Tokenizer::new("#some comment on first line let a = 2 + 2;");

    let tokens: Vec<Token> = collect_tokens(tokenizer);

    assert_eq!(tokens.len(), 0);
}

#[test]
fn respects_valid_delimiters() {
    let valid_delimeters = vec!["; ", ";    ", ";", ";\t"];

    for delimiter in valid_delimeters {
        let tokenizer = Tokenizer::new(&format!("let a = 2{delimiter}let b = 10;"));

        let tokens: Vec<Token> = collect_tokens(tokenizer);

        let expected_types = vec![
            TokenType::LET,
            TokenType::IDENT(String::from("a")),
            TokenType::EQUAL,
            TokenType::NUMBER(String::from("2")),
            TokenType::COMMA,
            TokenType::LET,
            TokenType::IDENT(String::from("b")),
            TokenType::EQUAL,
            TokenType::NUMBER(String::from("10")),
            TokenType::COMMA,
        ];

        assert_eq!(tokens.len(), expected_types.len());

        let mut i = 0;
        for token in tokens {
            let expected_token = &expected_types[i];
            assert_eq!(token.token_type, *expected_token);
            i += 1;
        }
    }
}

#[test]
fn not_text_no_tokens() {
    // Whitespace and comments never yield a token; a lone statement
    // separator is still a token of its own.
    let no_token_texts = vec!["", " ", "    ", "\n", "\t", "#", "#ABDE", "#let x = 2"];

    for text in no_token_texts {
        let tokenizer = Tokenizer::new(text);

        let tokens: Vec<Token> = collect_tokens(tokenizer);

        assert_eq!(tokens.len(), 0);
    }

    let tokens = collect_tokens(Tokenizer::new(";"));
    assert_eq!(tokens.len(), 1);
    assert_eq!(tokens[0].token_type, TokenType::COMMA);
}

#[test]
fn token_spans_point_into_the_source() {
    let tokens = collect_tokens(Tokenizer::new("let abc = 42;"));

    assert_eq!(tokens.len(), 5);
    assert_eq!((tokens[0].start, tokens[0].len), (0, 3));
    assert_eq!((tokens[1].start, tokens[1].len), (4, 3));
    assert_eq!((tokens[2].start, tokens[2].len), (8, 1));
    assert_eq!((tokens[3].start, tokens[3].len), (10, 2));
    assert_eq!((tokens[4].start, tokens[4].len), (12, 1));
}

#[test]
fn cursor_can_be_saved_and_restored() {
    let mut tokenizer = Tokenizer::new("let a = 1;");
    let first = tokenizer.next_token().unwrap();
    let saved = tokenizer.get_index();
    let second = tokenizer.next_token().unwrap();
    tokenizer.reset_index(saved);
    let second_again = tokenizer.next_token().unwrap();
    assert_eq!(first.token_type, TokenType::LET);
    assert_eq!(second.token_type, second_again.token_type);
    assert_eq!(second.start, second_again.start);
}

#[test]
fn keywords_are_recognized() {
    let tokens = collect_tokens(Tokenizer::new("if for let iffy\n"));
    let expected = vec![
        TokenType::IF,
        TokenType::FOR,
        TokenType::LET,
        TokenType::IDENT(String::from("iffy")),
    ];
    assert_eq!(tokens.len(), expected.len());
    for (token, want) in tokens.iter().zip(expected.iter()) {
        assert_eq!(token.token_type, *want);
    }
}
