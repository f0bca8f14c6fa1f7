use cracked_shell::env::Environment;
use cracked_shell::error::Error;
use cracked_shell::value::Value;

#[test]
fn test_define_and_get() {
    let mut env = Environment::new();
    env.define(0, "x", Value::Integer(42));
    let retrieved = env.get(0, "x").unwrap();
    assert_eq!(retrieved, Value::Integer(42));
}

#[test]
fn env_test_undefined_symbol() {
    let env = Environment::new();
    let result = env.get(0, "undefined");
    assert!(result.is_err());
    match result {
        Err(Error::UndefinedSymbol(name)) => assert_eq!(name, "undefined"),
        _ => panic!("Expected UndefinedSymbol error"),
    }
}

#[test]
fn test_parent_scope_lookup() {
    let mut env = Environment::new();
    env.define(0, "x", Value::Integer(10));
    let child = env.child(0);
    let value = env.get(child, "x").unwrap();
    assert_eq!(value, Value::Integer(10));
}

#[test]
fn test_shadowing() {
    let mut env = Environment::new();
    env.define(0, "x", Value::Integer(10));
    let child = env.child(0);
    // Shadow x in the child scope
    env.define(child, "x", Value::Integer(20));
    // Child sees the shadowed value
    assert_eq!(env.get(child, "x").unwrap(), Value::Integer(20));
    // Parent still has the original value
    assert_eq!(env.get(0, "x").unwrap(), Value::Integer(10));
}

#[test]
fn test_nested_scopes() {
    let mut env = Environment::new();
    env.define(0, "a", Value::Integer(1));
    let middle = env.child(0);
    env.define(middle, "b", Value::Integer(2));
    let inner = env.child(middle);
    env.define(inner, "c", Value::Integer(3));

    // Inner can see all scopes
    assert_eq!(env.get(inner, "a").unwrap(), Value::Integer(1));
    assert_eq!(env.get(inner, "b").unwrap(), Value::Integer(2));
    assert_eq!(env.get(inner, "c").unwrap(), Value::Integer(3));

    // Middle can't see inner
    assert!(env.get(middle, "c").is_err());
}

#[test]
fn test_contains() {
    let mut env = Environment::new();
    env.define(0, "x", Value::Integer(10));
    let child = env.child(0);
    env.define(child, "y", Value::Integer(20));

    assert!(env.contains(child, "x")); // From parent
    assert!(env.contains(child, "y")); // From current
    assert!(!env.contains(child, "z")); // Not defined
}

#[test]
fn test_child_creation() {
    let mut env = Environment::new();
    env.define(0, "x", Value::Integer(42));
    let child = env.child(0);
    assert_eq!(env.get(child, "x").unwrap(), Value::Integer(42));
}

#[test]
fn test_set() {
    let mut env = Environment::new();

    // Assigning an unbound name fails and creates nothing
    assert!(env.set(0, "x", Value::Integer(10)).is_err());
    assert!(env.get(0, "x").is_err());

    // After a define, set updates the existing binding
    env.define(0, "x", Value::Integer(10));
    assert_eq!(env.get(0, "x").unwrap(), Value::Integer(10));
    env.set(0, "x", Value::Integer(20)).unwrap();
    assert_eq!(env.get(0, "x").unwrap(), Value::Integer(20));
}

#[test]
fn test_set_updates_nearest_binder() {
    let mut env = Environment::new();
    env.define(0, "x", Value::Integer(1));
    let child = env.child(0);
    // No binding in the child: set walks up and mutates the root scope
    env.set(child, "x", Value::Integer(2)).unwrap();
    assert_eq!(env.get(0, "x").unwrap(), Value::Integer(2));
    assert_eq!(env.get(child, "x").unwrap(), Value::Integer(2));
}

#[test]
fn test_multiple_types() {
    let mut env = Environment::new();

    env.define(0, "int", Value::Integer(42));
    env.define(0, "float", Value::Float("3.14".to_string()));
    env.define(0, "string", Value::Str("hello".to_string()));
    env.define(0, "bool", Value::Bool(true));
    env.define(0, "nil", Value::Nil);

    assert!(matches!(env.get(0, "int").unwrap(), Value::Integer(42)));
    assert!(matches!(env.get(0, "float").unwrap(), Value::Float(_)));
    assert!(matches!(env.get(0, "string").unwrap(), Value::Str(_)));
    assert!(matches!(env.get(0, "bool").unwrap(), Value::Bool(true)));
    assert!(matches!(env.get(0, "nil").unwrap(), Value::Nil));
}

#[test]
fn test_bindings_access() {
    let mut env = Environment::new();
    env.define(0, "x", Value::Integer(1));
    env.define(0, "y", Value::Integer(2));

    let bindings = env.bindings(0);
    assert_eq!(bindings.len(), 2);
    assert!(bindings.iter().any(|(n, _)| n == "x"));
    assert!(bindings.iter().any(|(n, _)| n == "y"));
}

#[test]
fn test_parent_links() {
    let mut env = Environment::new();
    let child = env.child(0);
    assert_eq!(env.parent(0), None);
    assert_eq!(env.parent(child), Some(0));
}
