use idea_parser::error::SchemaError;
use idea_parser::lexer::{tokenize, Lexer, TokenType};

#[test]
fn test_basic_tokens() {
    let mut lexer = Lexer::new("{ } [ ] ( ) @ . ? !");

    assert!(matches!(lexer.next_token().unwrap().token_type, TokenType::LeftBrace));
    assert!(matches!(lexer.next_token().unwrap().token_type, TokenType::RightBrace));
    assert!(matches!(lexer.next_token().unwrap().token_type, TokenType::LeftBracket));
    assert!(matches!(lexer.next_token().unwrap().token_type, TokenType::RightBracket));
    assert!(matches!(lexer.next_token().unwrap().token_type, TokenType::LeftParen));
    assert!(matches!(lexer.next_token().unwrap().token_type, TokenType::RightParen));
    assert!(matches!(lexer.next_token().unwrap().token_type, TokenType::At));
    assert!(matches!(lexer.next_token().unwrap().token_type, TokenType::Dot));
    assert!(matches!(lexer.next_token().unwrap().token_type, TokenType::Question));
    assert!(matches!(lexer.next_token().unwrap().token_type, TokenType::Exclamation));
    assert!(matches!(lexer.next_token().unwrap().token_type, TokenType::Eof));
}

#[test]
fn test_keywords() {
    let mut lexer = Lexer::new("plugin use prop enum type model");

    assert!(matches!(lexer.next_token().unwrap().token_type, TokenType::Plugin));
    assert!(matches!(lexer.next_token().unwrap().token_type, TokenType::Use));
    assert!(matches!(lexer.next_token().unwrap().token_type, TokenType::Prop));
    assert!(matches!(lexer.next_token().unwrap().token_type, TokenType::Enum));
    assert!(matches!(lexer.next_token().unwrap().token_type, TokenType::Type));
    assert!(matches!(lexer.next_token().unwrap().token_type, TokenType::Model));
}

#[test]
fn test_string_literal() {
    let mut lexer = Lexer::new(r#""hello world""#);
    let token = lexer.next_token().unwrap();

    if let TokenType::Text(value) = token.token_type {
        assert_eq!(value, "hello world");
    } else {
        panic!("Expected string token");
    }
}

#[test]
fn test_number_literal() {
    let mut lexer = Lexer::new("42 3.14");

    let token1 = lexer.next_token().unwrap();
    if let TokenType::Number(value) = token1.token_type {
        assert_eq!(value, "42");
    } else {
        panic!("Expected number token");
    }

    let token2 = lexer.next_token().unwrap();
    if let TokenType::Number(value) = token2.token_type {
        assert_eq!(value, "3.14");
    } else {
        panic!("Expected number token");
    }
}

#[test]
fn lex_number_keeps_trailing_dot_separate() {
    // A dot with no digit after it is not part of the number.
    let mut lexer = Lexer::new("42.");
    assert!(matches!(lexer.next_token().unwrap().token_type, TokenType::Number(ref v) if v == "42"));
    assert!(matches!(lexer.next_token().unwrap().token_type, TokenType::Dot));
    assert!(matches!(lexer.next_token().unwrap().token_type, TokenType::Eof));
}

#[test]
fn lex_unterminated_string_is_error() {
    let result = tokenize("\"abc");
    assert!(matches!(result, Err(SchemaError::UnterminatedString { .. })));
}

#[test]
fn lex_unterminated_block_comment_is_error() {
    let result = tokenize("/* /* inner */ still open");
    assert!(matches!(result, Err(SchemaError::UnterminatedComment { .. })));
}

#[test]
fn lex_unexpected_character_is_error() {
    let result = tokenize("model M { } #");
    assert!(matches!(result, Err(SchemaError::UnexpectedCharacter { .. })));
}

#[test]
fn lex_skips_comments_and_whitespace() {
    let tokens = tokenize("// line comment\n/* block /* nested */ comment */ model").unwrap();
    assert_eq!(tokens.len(), 2);
    assert!(matches!(tokens[0].token_type, TokenType::Model));
    assert!(matches!(tokens[1].token_type, TokenType::Eof));
}

#[test]
fn lex_string_keeps_escapes_raw() {
    // A backslash skips the character after it; both stay in the text.
    let mut lexer = Lexer::new(r#""a\"b""#);
    let token = lexer.next_token().unwrap();
    if let TokenType::Text(value) = token.token_type {
        assert_eq!(value, "a\\\"b");
    } else {
        panic!("Expected string token");
    }
}

#[test]
fn lex_spans_are_character_offsets() {
    let tokens = tokenize("  model User").unwrap();
    assert_eq!(tokens[0].start, 2);
    assert_eq!(tokens[0].end, 7);
    assert_eq!(tokens[1].start, 8);
    assert_eq!(tokens[1].end, 12);
}
