use cracked_shell::value::{Prim, Value};

#[test]
fn test_value_types() {
    assert_eq!(Value::Integer(42).kind_name(), "integer");
    assert_eq!(Value::Float("3.14".to_string()).kind_name(), "float");
    assert_eq!(Value::Str("hello".to_string()).kind_name(), "string");
    assert_eq!(Value::Bool(true).kind_name(), "boolean");
    assert_eq!(Value::Symbol("x".to_string()).kind_name(), "symbol");
    assert_eq!(Value::Nil.kind_name(), "nil");
}

#[test]
fn test_truthy() {
    assert!(Value::Integer(0).is_truthy());
    assert!(Value::Str("".to_string()).is_truthy());
    assert!(Value::Nil.is_truthy());
    assert!(Value::Bool(true).is_truthy());
    assert!(!Value::Bool(false).is_truthy());
}

#[test]
fn test_as_integer() {
    assert_eq!(Value::Integer(42).as_integer().unwrap(), 42);
    assert!(Value::Str("x".to_string()).as_integer().is_err());
}

#[test]
fn test_display_integer() {
    assert_eq!(Value::Integer(42).render(), "42");
}

#[test]
fn test_display_float() {
    assert_eq!(Value::Float("3.14".to_string()).render(), "3.14");
}

#[test]
fn test_display_string() {
    assert_eq!(Value::Str("hello".to_string()).render(), "\"hello\"");
}

#[test]
fn test_display_bool() {
    assert_eq!(Value::Bool(true).render(), "#t");
    assert_eq!(Value::Bool(false).render(), "#f");
}

#[test]
fn test_display_nil() {
    assert_eq!(Value::Nil.render(), "()");
}

#[test]
fn test_display_list() {
    let list = Value::List(vec![Value::Integer(1), Value::Integer(2), Value::Integer(3)]);
    assert_eq!(list.render(), "(1 2 3)");
}

#[test]
fn test_display_symbol() {
    assert_eq!(Value::Symbol("foo".to_string()).render(), "foo");
}

#[test]
fn test_is_number() {
    assert!(Value::Integer(42).is_number());
    assert!(Value::Float("3.14".to_string()).is_number());
    assert!(!Value::Str("x".to_string()).is_number());
}

#[test]
fn test_is_nil() {
    assert!(Value::Nil.is_nil());
    assert!(!Value::Integer(0).is_nil());
    assert!(!Value::List(vec![]).is_nil());
}

#[test]
fn test_display_builtin() {
    assert_eq!(Value::Builtin(Prim::Car).render(), "<builtin:car>");
    assert_eq!(Value::Builtin(Prim::Add).render(), "<builtin:+>");
}

#[test]
fn test_display_lambda() {
    let lam = Value::Lambda {
        params: vec!["x".to_string(), "y".to_string()],
        body: Box::new(Value::Symbol("x".to_string())),
        env: 0,
    };
    assert_eq!(lam.render(), "<lambda (x y) ...>");
}

#[test]
fn test_display_negative_integer() {
    assert_eq!(Value::Integer(-7).render(), "-7");
    assert_eq!(Value::Integer(i64::MIN).render(), "-9223372036854775808");
}

#[test]
fn test_deep_equality() {
    let a = Value::List(vec![
        Value::Integer(1),
        Value::Str("ab".to_string()),
        Value::List(vec![Value::Nil]),
    ]);
    let b = Value::List(vec![
        Value::Integer(1),
        Value::Str("ab".to_string()),
        Value::List(vec![Value::Nil]),
    ]);
    let c = Value::List(vec![
        Value::Integer(1),
        Value::Str("ab".to_string()),
        Value::List(vec![Value::Bool(false)]),
    ]);
    assert_eq!(a, b);
    assert_ne!(a, c);
    assert_ne!(Value::Nil, Value::List(vec![]));
}

#[test]
fn test_as_list() {
    let l = Value::List(vec![Value::Integer(1)]);
    assert_eq!(l.as_list().unwrap().len(), 1);
    assert_eq!(Value::Nil.as_list().unwrap().len(), 0);
    assert!(Value::Integer(3).as_list().is_err());
}

#[test]
fn test_as_string() {
    assert_eq!(Value::Str("hi".to_string()).as_string().unwrap(), "hi");
    assert!(Value::Integer(1).as_string().is_err());
}

#[test]
fn test_clone_is_deep() {
    let v = Value::List(vec![Value::Symbol("s".to_string()), Value::Integer(2)]);
    let w = v.clone();
    assert_eq!(v, w);
}
