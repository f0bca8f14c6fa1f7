use cracked_shell::error::Error;
use cracked_shell::eval::Evaluator;
use cracked_shell::lexer::Lexer;
use cracked_shell::parser::Parser;
use cracked_shell::value::Value;

fn eval_str(input: &str) -> Result<Value, Error> {
    let tokens = Lexer::tokenize(input)?;
    let expr = Parser::parse(tokens)?;
    let mut evaluator = Evaluator::new();
    evaluator.eval(&expr)
}

#[test]
fn test_eval_integer() {
    let result = eval_str("42").unwrap();
    assert_eq!(result, Value::Integer(42));
}

#[test]
fn test_eval_string() {
    let result = eval_str(r#""hello""#).unwrap();
    assert_eq!(result, Value::Str("hello".to_string()));
}

#[test]
fn test_eval_add() {
    let result = eval_str("(+ 1 2)").unwrap();
    assert_eq!(result, Value::Integer(3));
}

#[test]
fn test_eval_nested_arithmetic() {
    let result = eval_str("(+ (* 2 3) (- 10 5))").unwrap();
    assert_eq!(result, Value::Integer(11));
}

#[test]
fn test_eval_comparison() {
    let result = eval_str("(< 1 2)").unwrap();
    assert_eq!(result, Value::Bool(true));

    let result = eval_str("(> 1 2)").unwrap();
    assert_eq!(result, Value::Bool(false));
}

#[test]
fn test_eval_quote() {
    let result = eval_str("'x").unwrap();
    assert_eq!(result, Value::Symbol("x".to_string()));

    let result = eval_str("'(1 2 3)").unwrap();
    match &result {
        Value::List(items) => {
            assert_eq!(items.len(), 3);
            assert_eq!(items[0], Value::Integer(1));
        }
        _ => panic!("Expected list"),
    }
}

#[test]
fn test_eval_if_true() {
    let result = eval_str("(if #t 1 2)").unwrap();
    assert_eq!(result, Value::Integer(1));
}

#[test]
fn test_eval_if_false() {
    let result = eval_str("(if #f 1 2)").unwrap();
    assert_eq!(result, Value::Integer(2));
}

#[test]
fn test_eval_if_no_else() {
    let result = eval_str("(if #f 1)").unwrap();
    assert_eq!(result, Value::Nil);
}

#[test]
fn test_eval_if_with_condition() {
    let result = eval_str("(if (< 1 2) 10 20)").unwrap();
    assert_eq!(result, Value::Integer(10));
}

#[test]
fn test_eval_let() {
    let result = eval_str("(let ((x 1) (y 2)) (+ x y))").unwrap();
    assert_eq!(result, Value::Integer(3));
}

#[test]
fn test_eval_let_shadowing() {
    let result = eval_str("(let ((x 10)) (let ((x 20)) x))").unwrap();
    assert_eq!(result, Value::Integer(20));
}

#[test]
fn test_eval_lambda_creation() {
    let result = eval_str("(lambda (x) x)").unwrap();
    match &result {
        Value::Lambda { params, .. } => {
            assert_eq!(params.len(), 1);
            assert_eq!(params[0], "x");
        }
        _ => panic!("Expected lambda"),
    }
}

#[test]
fn test_eval_list_ops() {
    let result = eval_str("(car '(1 2 3))").unwrap();
    assert_eq!(result, Value::Integer(1));

    let result = eval_str("(cdr '(1 2 3))").unwrap();
    match &result {
        Value::List(items) => assert_eq!(items.len(), 2),
        _ => panic!("Expected list"),
    }

    let result = eval_str("(cons 1 '(2 3))").unwrap();
    match &result {
        Value::List(items) => {
            assert_eq!(items.len(), 3);
            assert_eq!(items[0], Value::Integer(1));
        }
        _ => panic!("Expected list"),
    }
}

#[test]
fn test_eval_empty_list() {
    let result = eval_str("()").unwrap();
    assert_eq!(result, Value::Nil);
}

#[test]
fn eval_test_undefined_symbol() {
    let result = eval_str("undefined");
    assert!(result.is_err());
}

#[test]
fn test_eval_lambda_application() {
    let mut ev = Evaluator::new();
    let def = Parser::parse(Lexer::tokenize("(define id (lambda (x) x))").unwrap()).unwrap();
    ev.eval(&def).unwrap();
    let call = Parser::parse(Lexer::tokenize("(id 9)").unwrap()).unwrap();
    assert_eq!(ev.eval(&call).unwrap(), Value::Integer(9));
}

#[test]
fn test_eval_define_returns_nil() {
    let mut ev = Evaluator::new();
    let def = Parser::parse(Lexer::tokenize("(define x 5)").unwrap()).unwrap();
    assert_eq!(ev.eval(&def).unwrap(), Value::Nil);
}

#[test]
fn test_eval_float_is_inert_data() {
    let result = eval_str("3.14").unwrap();
    assert_eq!(result, Value::Float("3.14".to_string()));
    let quoted = eval_str("'(1.5 2)").unwrap();
    assert_eq!(
        quoted,
        Value::List(vec![Value::Float("1.5".to_string()), Value::Integer(2)])
    );
}

#[test]
fn test_eval_builtins_self_evaluate() {
    let result = eval_str("+").unwrap();
    assert!(matches!(result, Value::Builtin(_)));
}

#[test]
fn test_eval_recursion_limit_is_an_error() {
    let mut ev = Evaluator::new();
    let def = Parser::parse(Lexer::tokenize("(define spin (lambda () (spin)))").unwrap()).unwrap();
    ev.eval(&def).unwrap();
    let call = Parser::parse(Lexer::tokenize("(spin)").unwrap()).unwrap();
    match ev.eval(&call) {
        Err(Error::RuntimeError(msg)) => assert!(msg.contains("recursion depth limit")),
        other => panic!("Expected a recursion-limit runtime error, got {:?}", other),
    }
}
