use cracked_shell::builtin::{
    builtin_add, builtin_car, builtin_cdr, builtin_cons, builtin_div, builtin_eq, builtin_gt,
    builtin_length, builtin_list, builtin_lt, builtin_mul, builtin_null, builtin_sub,
};
use cracked_shell::error::Error;
use cracked_shell::value::Value;

#[test]
fn test_add() {
    let args = vec![Value::Integer(1), Value::Integer(2)];
    let result = builtin_add(&args).unwrap();
    assert_eq!(result, Value::Integer(3));
}

#[test]
fn test_add_multiple() {
    let args = vec![Value::Integer(1), Value::Integer(2), Value::Integer(3)];
    let result = builtin_add(&args).unwrap();
    assert_eq!(result, Value::Integer(6));
}

#[test]
fn test_add_empty() {
    let result = builtin_add(&[]).unwrap();
    assert_eq!(result, Value::Integer(0));
}

#[test]
fn test_sub() {
    let args = vec![Value::Integer(5), Value::Integer(3)];
    let result = builtin_sub(&args).unwrap();
    assert_eq!(result, Value::Integer(2));
}

#[test]
fn test_sub_unary() {
    let args = vec![Value::Integer(5)];
    let result = builtin_sub(&args).unwrap();
    assert_eq!(result, Value::Integer(-5));
}

#[test]
fn test_mul() {
    let args = vec![Value::Integer(3), Value::Integer(4)];
    let result = builtin_mul(&args).unwrap();
    assert_eq!(result, Value::Integer(12));
}

#[test]
fn test_mul_empty() {
    let result = builtin_mul(&[]).unwrap();
    assert_eq!(result, Value::Integer(1));
}

#[test]
fn test_div_integer() {
    let args = vec![Value::Integer(10), Value::Integer(2)];
    let result = builtin_div(&args).unwrap();
    assert_eq!(result, Value::Integer(5));
}

#[test]
fn test_div_truncates() {
    let args = vec![Value::Integer(7), Value::Integer(2)];
    assert_eq!(builtin_div(&args).unwrap(), Value::Integer(3));
    let args = vec![Value::Integer(-7), Value::Integer(2)];
    assert_eq!(builtin_div(&args).unwrap(), Value::Integer(-3));
}

#[test]
fn test_div_by_zero() {
    let args = vec![Value::Integer(10), Value::Integer(0)];
    let result = builtin_div(&args);
    assert!(matches!(result, Err(Error::DivisionByZero)));
}

#[test]
fn test_lt() {
    let args = vec![Value::Integer(1), Value::Integer(2)];
    let result = builtin_lt(&args).unwrap();
    assert_eq!(result, Value::Bool(true));

    let args = vec![Value::Integer(2), Value::Integer(1)];
    let result = builtin_lt(&args).unwrap();
    assert_eq!(result, Value::Bool(false));
}

#[test]
fn test_gt() {
    let args = vec![Value::Integer(2), Value::Integer(1)];
    let result = builtin_gt(&args).unwrap();
    assert_eq!(result, Value::Bool(true));
}

#[test]
fn test_eq() {
    let args = vec![Value::Integer(2), Value::Integer(2)];
    let result = builtin_eq(&args).unwrap();
    assert_eq!(result, Value::Bool(true));

    let args = vec![Value::Integer(2), Value::Integer(3)];
    let result = builtin_eq(&args).unwrap();
    assert_eq!(result, Value::Bool(false));
}

#[test]
fn test_car() {
    let list = vec![Value::Integer(1), Value::Integer(2), Value::Integer(3)];
    let args = vec![Value::List(list)];
    let result = builtin_car(&args).unwrap();
    assert_eq!(result, Value::Integer(1));
}

#[test]
fn test_car_empty_error() {
    let args = vec![Value::List(vec![])];
    let result = builtin_car(&args);
    assert!(result.is_err());
}

#[test]
fn test_cdr() {
    let list = vec![Value::Integer(1), Value::Integer(2), Value::Integer(3)];
    let args = vec![Value::List(list)];
    let result = builtin_cdr(&args).unwrap();

    match &result {
        Value::List(lst) => {
            assert_eq!(lst.len(), 2);
            assert_eq!(lst[0], Value::Integer(2));
            assert_eq!(lst[1], Value::Integer(3));
        }
        _ => panic!("Expected list"),
    }
}

#[test]
fn test_cons() {
    let list = vec![Value::Integer(2), Value::Integer(3)];
    let args = vec![Value::Integer(1), Value::List(list)];
    let result = builtin_cons(&args).unwrap();

    match &result {
        Value::List(lst) => {
            assert_eq!(lst.len(), 3);
            assert_eq!(lst[0], Value::Integer(1));
            assert_eq!(lst[1], Value::Integer(2));
            assert_eq!(lst[2], Value::Integer(3));
        }
        _ => panic!("Expected list"),
    }
}

#[test]
fn test_list() {
    let args = vec![Value::Integer(1), Value::Integer(2), Value::Integer(3)];
    let result = builtin_list(&args).unwrap();

    match &result {
        Value::List(lst) => {
            assert_eq!(lst.len(), 3);
        }
        _ => panic!("Expected list"),
    }
}

#[test]
fn test_length() {
    let list = vec![Value::Integer(1), Value::Integer(2), Value::Integer(3)];
    let args = vec![Value::List(list)];
    let result = builtin_length(&args).unwrap();
    assert_eq!(result, Value::Integer(3));
}

#[test]
fn test_null() {
    let args = vec![Value::Nil];
    let result = builtin_null(&args).unwrap();
    assert_eq!(result, Value::Bool(true));

    let args = vec![Value::List(vec![])];
    let result = builtin_null(&args).unwrap();
    assert_eq!(result, Value::Bool(true));

    let args = vec![Value::Integer(1)];
    let result = builtin_null(&args).unwrap();
    assert_eq!(result, Value::Bool(false));
}

#[test]
fn test_add_rejects_float() {
    let args = vec![Value::Integer(1), Value::Float("2.5".to_string())];
    match builtin_add(&args) {
        Err(Error::TypeError { expected, actual }) => {
            assert_eq!(expected, "integer");
            assert_eq!(actual, "float");
        }
        _ => panic!("Expected type error for a float argument"),
    }
}

#[test]
fn test_add_rejects_non_number() {
    let args = vec![Value::Str("x".to_string())];
    match builtin_add(&args) {
        Err(Error::TypeError { expected, actual }) => {
            assert_eq!(expected, "number");
            assert_eq!(actual, "string");
        }
        _ => panic!("Expected type error for a non-number"),
    }
}

#[test]
fn test_add_wraps() {
    let args = vec![Value::Integer(i64::MAX), Value::Integer(1)];
    assert_eq!(builtin_add(&args).unwrap(), Value::Integer(i64::MIN));
}

#[test]
fn test_sub_no_args_arity() {
    match builtin_sub(&[]) {
        Err(Error::ArityError { func, expected, actual }) => {
            assert_eq!(func, "-");
            assert_eq!(expected, 1);
            assert_eq!(actual, 0);
        }
        _ => panic!("Expected arity error"),
    }
}

#[test]
fn test_eq_deep() {
    let a = Value::List(vec![Value::Integer(1), Value::Str("s".to_string())]);
    let b = Value::List(vec![Value::Integer(1), Value::Str("s".to_string())]);
    assert_eq!(builtin_eq(&[a, b]).unwrap(), Value::Bool(true));
}

#[test]
fn test_cons_onto_nil() {
    let args = vec![Value::Integer(1), Value::Nil];
    let result = builtin_cons(&args).unwrap();
    assert_eq!(result, Value::List(vec![Value::Integer(1)]));
}

#[test]
fn test_length_of_nil() {
    assert_eq!(builtin_length(&[Value::Nil]).unwrap(), Value::Integer(0));
}
