use cracked_shell::error::{Error, SourceLocation};

#[test]
fn test_source_location_display() {
    let loc = SourceLocation { line: 5, column: 10 };
    assert_eq!(loc.render(), "line 5, column 10");
}

#[test]
fn test_parse_error() {
    let err = Error::parse_error(1, 5, "unexpected token");
    assert!(err.render().contains("line 1"));
    assert!(err.render().contains("column 5"));
    assert!(err.render().contains("unexpected token"));
}

#[test]
fn error_test_undefined_symbol() {
    let err = Error::UndefinedSymbol("foo".to_string());
    assert_eq!(err.render(), "Undefined symbol: foo");
}

#[test]
fn test_type_error() {
    let err = Error::type_error("integer", "string");
    assert!(err.render().contains("expected integer"));
    assert!(err.render().contains("got string"));
}

#[test]
fn test_arity_error() {
    let err = Error::arity_error("+", 2, 1);
    assert!(err.render().contains("+ expects 2 args"));
    assert!(err.render().contains("got 1"));
}

#[test]
fn test_division_by_zero_render() {
    assert_eq!(Error::DivisionByZero.render(), "Division by zero");
}

#[test]
fn test_runtime_render() {
    assert_eq!(Error::runtime("boom").render(), "Runtime error: boom");
}

#[test]
fn test_parse_error_render_exact() {
    let err = Error::parse_error(3, 7, "bad");
    assert_eq!(err.render(), "Parse error at line 3, column 7: bad");
}
