use cracked_shell::lexer::{Lexer, Token};

#[test]
fn test_tokenize_simple_list() {
    let tokens = Lexer::tokenize("(define x 42)").unwrap();
    assert_eq!(tokens.len(), 5);
    assert_eq!(tokens[0].token, Token::LParen);
    assert_eq!(tokens[1].token, Token::Symbol("define".to_string()));
    assert_eq!(tokens[2].token, Token::Symbol("x".to_string()));
    assert_eq!(tokens[3].token, Token::Integer(42));
    assert_eq!(tokens[4].token, Token::RParen);
}

#[test]
fn test_tokenize_string_with_escapes() {
    let tokens = Lexer::tokenize(r#""hello \"world\"""#).unwrap();
    assert_eq!(tokens.len(), 1);
    assert_eq!(tokens[0].token, Token::Str(r#"hello "world""#.to_string()));
}

#[test]
fn test_tokenize_comment() {
    let tokens = Lexer::tokenize("; This is a comment\n(+ 1 2)").unwrap();
    assert_eq!(tokens.len(), 5);
    assert_eq!(tokens[0].token, Token::LParen);
    assert_eq!(tokens[1].token, Token::Symbol("+".to_string()));
}

#[test]
fn test_tokenize_quote() {
    let tokens = Lexer::tokenize("'x").unwrap();
    assert_eq!(tokens.len(), 2);
    assert_eq!(tokens[0].token, Token::Quote);
    assert_eq!(tokens[1].token, Token::Symbol("x".to_string()));
}

#[test]
fn test_tokenize_quasiquote() {
    let tokens = Lexer::tokenize("`(,x ,@y)").unwrap();
    assert_eq!(tokens[0].token, Token::Quasiquote);
    assert_eq!(tokens[2].token, Token::Unquote);
    assert_eq!(tokens[4].token, Token::UnquoteSplicing);
}

#[test]
fn test_tokenize_bool() {
    let tokens = Lexer::tokenize("#t #f").unwrap();
    assert_eq!(tokens.len(), 2);
    assert_eq!(tokens[0].token, Token::Bool(true));
    assert_eq!(tokens[1].token, Token::Bool(false));
}

#[test]
fn test_tokenize_float() {
    let tokens = Lexer::tokenize("3.14 -2.5").unwrap();
    assert_eq!(tokens.len(), 2);
    assert_eq!(tokens[0].token, Token::Float("3.14".to_string()));
    assert_eq!(tokens[1].token, Token::Float("-2.5".to_string()));
}

#[test]
fn test_tokenize_nested() {
    let tokens = Lexer::tokenize("(if (> x 0) x (- x))").unwrap();
    assert!(tokens.len() > 10);
    assert_eq!(tokens[0].token, Token::LParen);
    assert_eq!(tokens[1].token, Token::Symbol("if".to_string()));
}

#[test]
fn test_unclosed_string_error() {
    let result = Lexer::tokenize(r#""unclosed"#);
    assert!(result.is_err());
    assert!(result.unwrap_err().render().contains("Unclosed string"));
}

#[test]
fn test_unclosed_paren() {
    // Tokenizing does not require matching parens; the parser catches
    // the mismatch.
    let tokens = Lexer::tokenize("(+ 1 2").unwrap();
    assert_eq!(tokens[0].token, Token::LParen);
    assert_eq!(tokens[tokens.len() - 1].token, Token::Integer(2));
}

#[test]
fn test_empty_input() {
    let tokens = Lexer::tokenize("").unwrap();
    assert_eq!(tokens.len(), 0);
}

#[test]
fn test_unicode() {
    let tokens = Lexer::tokenize("\"hello 世界\"").unwrap();
    assert_eq!(tokens[0].token, Token::Str("hello 世界".to_string()));
}

#[test]
fn test_symbol_chars() {
    let tokens = Lexer::tokenize("+- foo-bar? baz!").unwrap();
    assert_eq!(tokens[0].token, Token::Symbol("+-".to_string()));
    assert_eq!(tokens[1].token, Token::Symbol("foo-bar?".to_string()));
    assert_eq!(tokens[2].token, Token::Symbol("baz!".to_string()));
}

#[test]
fn test_line_column_tracking() {
    let tokens = Lexer::tokenize("(+\n  1\n  2)").unwrap();
    assert_eq!(tokens[0].location.line, 1);
    assert_eq!(tokens[0].location.column, 1);
    assert_eq!(tokens[2].location.line, 2);
    assert_eq!(tokens[3].location.line, 3);
}

#[test]
fn test_tokenize_negative_integer() {
    let tokens = Lexer::tokenize("-42").unwrap();
    assert_eq!(tokens.len(), 1);
    assert_eq!(tokens[0].token, Token::Integer(-42));
}

#[test]
fn test_integer_overflow_is_parse_error() {
    let result = Lexer::tokenize("99999999999999999999");
    assert!(result.is_err());
    assert!(result.unwrap_err().render().contains("Invalid integer"));
}

#[test]
fn test_invalid_float_is_parse_error() {
    let result = Lexer::tokenize("1.2.3");
    assert!(result.is_err());
    assert!(result.unwrap_err().render().contains("Invalid float"));
}

#[test]
fn test_unexpected_character() {
    let result = Lexer::tokenize("[");
    assert!(result.is_err());
    assert!(result.unwrap_err().render().contains("Unexpected character"));
}

#[test]
fn test_integer_extremes() {
    let tokens = Lexer::tokenize("-9223372036854775808 9223372036854775807").unwrap();
    assert_eq!(tokens[0].token, Token::Integer(i64::MIN));
    assert_eq!(tokens[1].token, Token::Integer(i64::MAX));
}
