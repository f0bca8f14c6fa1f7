use cracked_shell::error::Error;
use cracked_shell::lexer::Lexer;
use cracked_shell::parser::Parser;
use cracked_shell::value::Value;

fn parse_str(input: &str) -> Result<Value, Error> {
    let tokens = Lexer::tokenize(input)?;
    Parser::parse(tokens)
}

fn parse_all_str(input: &str) -> Result<Vec<Value>, Error> {
    let tokens = Lexer::tokenize(input)?;
    Parser::parse_all(tokens)
}

#[test]
fn test_parse_integer() {
    let result = parse_str("42").unwrap();
    assert_eq!(result, Value::Integer(42));
}

#[test]
fn test_parse_float() {
    let result = parse_str("3.14").unwrap();
    assert_eq!(result, Value::Float("3.14".to_string()));
}

#[test]
fn test_parse_string() {
    let result = parse_str(r#""hello""#).unwrap();
    assert_eq!(result, Value::Str("hello".to_string()));
}

#[test]
fn test_parse_bool() {
    let result = parse_str("#t").unwrap();
    assert_eq!(result, Value::Bool(true));

    let result = parse_str("#f").unwrap();
    assert_eq!(result, Value::Bool(false));
}

#[test]
fn test_parse_symbol() {
    let result = parse_str("foo").unwrap();
    assert_eq!(result, Value::Symbol("foo".to_string()));
}

#[test]
fn test_parse_simple_list() {
    let result = parse_str("(+ 1 2)").unwrap();
    match &result {
        Value::List(items) => {
            assert_eq!(items.len(), 3);
            assert_eq!(items[0], Value::Symbol("+".to_string()));
            assert_eq!(items[1], Value::Integer(1));
            assert_eq!(items[2], Value::Integer(2));
        }
        _ => panic!("Expected list"),
    }
}

#[test]
fn test_parse_nested_list() {
    let result = parse_str("(if (> x 0) x (- x))").unwrap();
    match &result {
        Value::List(items) => {
            assert_eq!(items.len(), 4);
            assert_eq!(items[0], Value::Symbol("if".to_string()));

            match &items[1] {
                Value::List(cond) => {
                    assert_eq!(cond.len(), 3);
                    assert_eq!(cond[0], Value::Symbol(">".to_string()));
                }
                _ => panic!("Expected nested list for condition"),
            }
        }
        _ => panic!("Expected list"),
    }
}

#[test]
fn test_parse_quote() {
    let result = parse_str("'x").unwrap();
    match &result {
        Value::List(items) => {
            assert_eq!(items.len(), 2);
            assert_eq!(items[0], Value::Symbol("quote".to_string()));
            assert_eq!(items[1], Value::Symbol("x".to_string()));
        }
        _ => panic!("Expected list for quote"),
    }
}

#[test]
fn test_parse_quoted_list() {
    let result = parse_str("'(1 2 3)").unwrap();
    match &result {
        Value::List(items) => {
            assert_eq!(items.len(), 2);
            assert_eq!(items[0], Value::Symbol("quote".to_string()));

            match &items[1] {
                Value::List(quoted) => {
                    assert_eq!(quoted.len(), 3);
                    assert_eq!(quoted[0], Value::Integer(1));
                }
                _ => panic!("Expected quoted list"),
            }
        }
        _ => panic!("Expected list for quote"),
    }
}

#[test]
fn test_parse_quasiquote() {
    let result = parse_str("`x").unwrap();
    match &result {
        Value::List(items) => {
            assert_eq!(items.len(), 2);
            assert_eq!(items[0], Value::Symbol("quasiquote".to_string()));
            assert_eq!(items[1], Value::Symbol("x".to_string()));
        }
        _ => panic!("Expected list for quasiquote"),
    }
}

#[test]
fn test_parse_unquote() {
    let result = parse_str("`(,x)").unwrap();
    match &result {
        Value::List(items) => {
            assert_eq!(items.len(), 2);
            assert_eq!(items[0], Value::Symbol("quasiquote".to_string()));

            match &items[1] {
                Value::List(inner) => {
                    assert_eq!(inner.len(), 1);
                    match &inner[0] {
                        Value::List(unquote) => {
                            assert_eq!(unquote.len(), 2);
                            assert_eq!(unquote[0], Value::Symbol("unquote".to_string()));
                            assert_eq!(unquote[1], Value::Symbol("x".to_string()));
                        }
                        _ => panic!("Expected unquote list"),
                    }
                }
                _ => panic!("Expected inner list"),
            }
        }
        _ => panic!("Expected list for quasiquote"),
    }
}

#[test]
fn test_parse_unquote_splicing() {
    let result = parse_str("`(,@xs)").unwrap();
    match &result {
        Value::List(items) => {
            assert_eq!(items.len(), 2);
            match &items[1] {
                Value::List(inner) => {
                    assert_eq!(inner.len(), 1);
                    match &inner[0] {
                        Value::List(unquote) => {
                            assert_eq!(
                                unquote[0],
                                Value::Symbol("unquote-splicing".to_string())
                            );
                        }
                        _ => panic!("Expected unquote-splicing list"),
                    }
                }
                _ => panic!("Expected inner list"),
            }
        }
        _ => panic!("Expected list"),
    }
}

#[test]
fn test_parse_empty_list() {
    let result = parse_str("()").unwrap();
    match &result {
        Value::List(items) => {
            assert_eq!(items.len(), 0);
        }
        _ => panic!("Expected empty list"),
    }
}

#[test]
fn test_parse_multiple_exprs() {
    let results = parse_all_str("(+ 1 2) (* 3 4)").unwrap();
    assert_eq!(results.len(), 2);
}

#[test]
fn test_unclosed_list() {
    let result = parse_str("(+ 1 2");
    assert!(result.is_err());
    assert!(result.unwrap_err().render().contains("Unclosed list"));
}

#[test]
fn test_unexpected_rparen() {
    let result = parse_str(")");
    assert!(result.is_err());
    assert!(result.unwrap_err().render().contains("Unexpected ')'"));
}

#[test]
fn test_unquote_outside_quasiquote() {
    let result = parse_str(",x");
    assert!(result.is_err());
    assert!(result.unwrap_err().render().contains("Unquote outside"));
}

#[test]
fn test_deeply_nested() {
    let result = parse_str("(((((x)))))").unwrap();
    match &result {
        Value::List(l1) => {
            assert_eq!(l1.len(), 1);
            match &l1[0] {
                Value::List(l2) => {
                    assert_eq!(l2.len(), 1);
                    // Verify deep nesting works
                    assert!(matches!(&l2[0], Value::List(_)));
                }
                _ => panic!("Expected nested list"),
            }
        }
        _ => panic!("Expected list"),
    }
}
