//! End-to-end checks of the language's observable semantics: truthiness,
//! binding visibility across separate evaluations, non-sequential `let`,
//! closure capture by reference, recursion, and arity and type
//! enforcement.

use cracked_shell::error::Error;
use cracked_shell::eval::Evaluator;
use cracked_shell::lexer::Lexer;
use cracked_shell::parser::Parser;
use cracked_shell::value::Value;

fn read(input: &str) -> Value {
    Parser::parse(Lexer::tokenize(input).unwrap()).unwrap()
}

fn eval_str(input: &str) -> Result<Value, Error> {
    let mut ev = Evaluator::new();
    ev.eval(&read(input))
}

#[test]
fn test_truthiness_examples() {
    assert_eq!(eval_str("(if 0 1 2)").unwrap(), Value::Integer(1));
    assert_eq!(eval_str("(if \"\" 1 2)").unwrap(), Value::Integer(1));
    assert_eq!(eval_str("(if '() 1 2)").unwrap(), Value::Integer(1));
    assert_eq!(eval_str("(if #f 1 2)").unwrap(), Value::Integer(2));
}

#[test]
fn test_define_visible_to_second_evaluation() {
    let mut ev = Evaluator::new();
    ev.eval(&read("(define x 5)")).unwrap();
    // A second, independent evaluation against the same scope sees it.
    assert_eq!(ev.eval(&read("x")).unwrap(), Value::Integer(5));
    // And so does a direct lookup.
    assert_eq!(
        ev.env().get(ev.global_scope(), "x").unwrap(),
        Value::Integer(5)
    );
}

#[test]
fn test_let_is_not_sequential() {
    // `x` is not bound outside, so the second binding's expression must
    // not see the first binding.
    let result = eval_str("(let ((x 1) (y x)) y)");
    match result {
        Err(Error::UndefinedSymbol(name)) => assert_eq!(name, "x"),
        other => panic!("Expected UndefinedSymbol(\"x\"), got {:?}", other),
    }
}

#[test]
fn test_let_sees_outer_binding() {
    let mut ev = Evaluator::new();
    ev.eval(&read("(define x 1)")).unwrap();
    assert_eq!(
        ev.eval(&read("(let ((x 2) (y x)) y)")).unwrap(),
        Value::Integer(1)
    );
}

#[test]
fn test_closure_captures_by_reference() {
    let mut ev = Evaluator::new();
    ev.eval(&read("(define f (lambda () y))")).unwrap();
    // `y` is defined after the closure was created.
    ev.eval(&read("(define y 7)")).unwrap();
    assert_eq!(ev.eval(&read("(f)")).unwrap(), Value::Integer(7));
}

#[test]
fn test_recursion_factorial() {
    let mut ev = Evaluator::new();
    ev.eval(&read(
        "(define fact (lambda (n) (if (< n 2) 1 (* n (fact (- n 1))))))",
    ))
    .unwrap();
    assert_eq!(ev.eval(&read("(fact 5)")).unwrap(), Value::Integer(120));
    assert_eq!(ev.eval(&read("(fact 0)")).unwrap(), Value::Integer(1));
}

#[test]
fn test_closure_arity_enforcement() {
    let mut ev = Evaluator::new();
    ev.eval(&read("(define f (lambda (a b) a))")).unwrap();
    match ev.eval(&read("(f 1)")) {
        Err(Error::ArityError { expected, actual, .. }) => {
            assert_eq!(expected, 2);
            assert_eq!(actual, 1);
        }
        other => panic!("Expected an arity error, got {:?}", other),
    }
    match ev.eval(&read("(f 1 2 3)")) {
        Err(Error::ArityError { expected, actual, .. }) => {
            assert_eq!(expected, 2);
            assert_eq!(actual, 3);
        }
        other => panic!("Expected an arity error, got {:?}", other),
    }
    assert_eq!(ev.eval(&read("(f 1 2)")).unwrap(), Value::Integer(1));
}

#[test]
fn test_apply_non_function_type_error() {
    match eval_str("(1 2 3)") {
        Err(Error::TypeError { expected, actual }) => {
            assert_eq!(expected, "function");
            assert_eq!(actual, "integer");
        }
        other => panic!("Expected a type error, got {:?}", other),
    }
}

#[test]
fn test_list_primitive_semantics() {
    assert_eq!(eval_str("(null? '())").unwrap(), Value::Bool(true));
    assert_eq!(eval_str("(null? 0)").unwrap(), Value::Bool(false));
    assert!(matches!(eval_str("(car '())"), Err(Error::RuntimeError(_))));
    assert!(matches!(eval_str("(cdr '())"), Err(Error::RuntimeError(_))));
}

#[test]
fn test_shadowing_via_call_frames() {
    let mut ev = Evaluator::new();
    ev.eval(&read("(define x 10)")).unwrap();
    ev.eval(&read("(define f (lambda (x) x))")).unwrap();
    // The parameter shadows the global inside the call...
    assert_eq!(ev.eval(&read("(f 20)")).unwrap(), Value::Integer(20));
    // ...and the global is unchanged afterwards.
    assert_eq!(ev.eval(&read("x")).unwrap(), Value::Integer(10));
}

#[test]
fn test_define_inside_let_does_not_leak() {
    let mut ev = Evaluator::new();
    ev.eval(&read("(let ((a 1)) (define hidden 3))")).unwrap();
    assert!(ev.eval(&read("hidden")).is_err());
}

#[test]
fn test_special_forms_not_shadowed() {
    let mut ev = Evaluator::new();
    ev.eval(&read("(define n 4)")).unwrap();
    // `if` keeps its meaning even though a binding named `if` could be
    // looked up as a symbol by `quote`.
    assert_eq!(ev.eval(&read("(if #t n 0)")).unwrap(), Value::Integer(4));
}

#[test]
fn test_errors_propagate_unchanged() {
    // The failure deep inside the argument evaluation surfaces as-is.
    match eval_str("(+ 1 (car '()))") {
        Err(Error::RuntimeError(msg)) => assert!(msg.contains("car")),
        other => panic!("Expected the inner runtime error, got {:?}", other),
    }
}
