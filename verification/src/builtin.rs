//! Primitive procedures: arithmetic, comparison and list operations.
//!
//! Each primitive has a specification function giving its exact result on
//! every argument list, and an executable twin proved equal to it.
//! Arithmetic works on integers, with two's-complement wrapping; a float
//! argument is rejected with a type error, floats being inert data here.

use crate::error::ErrModel;
use crate::error::Error;
use crate::value::{
    clone_values, lemma_list_model, lemma_wf_vals, prim_name, res_model, type_name_str, value_eq,
    vmodels, wf_val, Prim, ValModel, Value,
};
use vstd::prelude::*;
use vstd::wrapping::i64_specs;

verus! {

broadcast use vstd::std_specs::vec::group_vec_axioms;

/// The error an arithmetic primitive reports for a non-integer argument:
/// floats are rejected as such, anything else as a non-number.
pub open spec fn num_arg_err(m: ValModel) -> ErrModel {
    if m is FloatV {
        ErrModel::TypeErrM { expected: "integer"@, actual: "float"@ }
    } else {
        ErrModel::TypeErrM { expected: "number"@, actual: type_name_str(m) }
    }
}

/// Folds wrapping addition over the arguments from index `i`.
pub open spec fn fold_add_m(args: Seq<ValModel>, i: int, acc: i64) -> Result<ValModel, ErrModel>
    decreases args.len() - i,
{
    if i < 0 || i >= args.len() {
        Ok(ValModel::IntV(acc as int))
    } else {
        match args[i] {
            ValModel::IntV(n) => fold_add_m(args, i + 1, i64_specs::wrapping_add(acc, n as i64)),
            m => Err(num_arg_err(m)),
        }
    }
}

/// Folds wrapping subtraction over the arguments from index `i`.
pub open spec fn fold_sub_m(args: Seq<ValModel>, i: int, acc: i64) -> Result<ValModel, ErrModel>
    decreases args.len() - i,
{
    if i < 0 || i >= args.len() {
        Ok(ValModel::IntV(acc as int))
    } else {
        match args[i] {
            ValModel::IntV(n) => fold_sub_m(args, i + 1, i64_specs::wrapping_sub(acc, n as i64)),
            m => Err(num_arg_err(m)),
        }
    }
}

/// Folds wrapping multiplication over the arguments from index `i`.
pub open spec fn fold_mul_m(args: Seq<ValModel>, i: int, acc: i64) -> Result<ValModel, ErrModel>
    decreases args.len() - i,
{
    if i < 0 || i >= args.len() {
        Ok(ValModel::IntV(acc as int))
    } else {
        match args[i] {
            ValModel::IntV(n) => fold_mul_m(args, i + 1, i64_specs::wrapping_mul(acc, n as i64)),
            m => Err(num_arg_err(m)),
        }
    }
}

/// One division step: truncating quotient, wrapping on the one overflow
/// case (`i64::MIN / -1`). The divisor is known not to be zero.
pub open spec fn div_step(a: i64, d: i64) -> i64 {
    match a.checked_div(d) {
        Some(q) => q,
        None => i64::MIN,
    }
}

/// Folds division over the arguments from index `i`; a zero divisor is
/// division by zero.
pub open spec fn fold_div_m(args: Seq<ValModel>, i: int, acc: i64) -> Result<ValModel, ErrModel>
    decreases args.len() - i,
{
    if i < 0 || i >= args.len() {
        Ok(ValModel::IntV(acc as int))
    } else {
        match args[i] {
            ValModel::IntV(n) => if n == 0 {
                Err(ErrModel::DivByZeroM)
            } else {
                fold_div_m(args, i + 1, div_step(acc, n as i64))
            },
            m => Err(num_arg_err(m)),
        }
    }
}

/// What `(+ ...)` returns: the wrapping sum of the integer arguments,
/// `0` for none; a type error on the first non-integer argument.
pub open spec fn prim_add_m(args: Seq<ValModel>) -> Result<ValModel, ErrModel> {
    fold_add_m(args, 0, 0)
}

/// What `(- ...)` returns: with no argument an arity error, with one the
/// wrapping negation, otherwise the first argument minus the wrapping sum
/// of the rest; a type error on the first non-integer argument.
pub open spec fn prim_sub_m(args: Seq<ValModel>) -> Result<ValModel, ErrModel> {
    if args.len() == 0 {
        Err(ErrModel::ArityErrM { func: "-"@, expected: 1, actual: 0 })
    } else {
        match args[0] {
            ValModel::IntV(n) => if args.len() == 1 {
                Ok(ValModel::IntV(i64_specs::wrapping_sub(0, n as i64) as int))
            } else {
                fold_sub_m(args, 1, n as i64)
            },
            m => Err(num_arg_err(m)),
        }
    }
}

/// What `(* ...)` returns: the wrapping product of the integer
/// arguments, `1` for none; a type error on the first non-integer
/// argument.
pub open spec fn prim_mul_m(args: Seq<ValModel>) -> Result<ValModel, ErrModel> {
    fold_mul_m(args, 0, 1)
}

/// What `(/ ...)` returns: fewer than two arguments is an arity error;
/// otherwise the first argument divided by each of the rest in turn,
/// truncating; a zero divisor is division by zero, and a non-integer
/// argument a type error.
pub open spec fn prim_div_m(args: Seq<ValModel>) -> Result<ValModel, ErrModel> {
    if args.len() < 2 {
        Err(ErrModel::ArityErrM { func: "/"@, expected: 2, actual: args.len() as int })
    } else {
        match args[0] {
            ValModel::IntV(n) => fold_div_m(args, 1, n as i64),
            m => Err(num_arg_err(m)),
        }
    }
}

/// What `(< a b)` and `(> a b)` return: exactly two integer arguments
/// compared; an arity error otherwise, a type error on a non-integer.
pub open spec fn prim_cmp_m(p: Prim, args: Seq<ValModel>) -> Result<ValModel, ErrModel>
    recommends
        p is Lt || p is Gt,
{
    if args.len() != 2 {
        Err(ErrModel::ArityErrM { func: prim_name(p), expected: 2, actual: args.len() as int })
    } else {
        match (args[0], args[1]) {
            (ValModel::IntV(a), ValModel::IntV(b)) => Ok(
                ValModel::BoolV(
                    if p is Lt {
                        a < b
                    } else {
                        a > b
                    },
                ),
            ),
            (ValModel::IntV(_), m) => Err(num_arg_err(m)),
            (m, _) => Err(num_arg_err(m)),
        }
    }
}

/// What `(= a b)` returns: structural equality of exactly two values.
pub open spec fn prim_eq_m(args: Seq<ValModel>) -> Result<ValModel, ErrModel> {
    if args.len() != 2 {
        Err(ErrModel::ArityErrM { func: "="@, expected: 2, actual: args.len() as int })
    } else {
        Ok(ValModel::BoolV(args[0] == args[1]))
    }
}

/// What `(car l)` returns: the first element of a non-empty list; a
/// runtime error on an empty list or `Nil`, a type error on a non-list.
pub open spec fn prim_car_m(args: Seq<ValModel>) -> Result<ValModel, ErrModel> {
    if args.len() != 1 {
        Err(ErrModel::ArityErrM { func: "car"@, expected: 1, actual: args.len() as int })
    } else {
        match args[0] {
            ValModel::ListV(items) => if items.len() == 0 {
                Err(ErrModel::RuntimeErrM("car: cannot take car of empty list"@))
            } else {
                Ok(items[0])
            },
            ValModel::NilV => Err(ErrModel::RuntimeErrM("car: cannot take car of empty list"@)),
            m => Err(ErrModel::TypeErrM { expected: "list"@, actual: type_name_str(m) }),
        }
    }
}

/// What `(cdr l)` returns: the list without its first element; a runtime
/// error on an empty list or `Nil`, a type error on a non-list.
pub open spec fn prim_cdr_m(args: Seq<ValModel>) -> Result<ValModel, ErrModel> {
    if args.len() != 1 {
        Err(ErrModel::ArityErrM { func: "cdr"@, expected: 1, actual: args.len() as int })
    } else {
        match args[0] {
            ValModel::ListV(items) => if items.len() == 0 {
                Err(ErrModel::RuntimeErrM("cdr: cannot take cdr of empty list"@))
            } else {
                Ok(ValModel::ListV(items.subrange(1, items.len() as int)))
            },
            ValModel::NilV => Err(ErrModel::RuntimeErrM("cdr: cannot take cdr of empty list"@)),
            m => Err(ErrModel::TypeErrM { expected: "list"@, actual: type_name_str(m) }),
        }
    }
}

/// What `(cons x l)` returns: a new list with `x` in front of the
/// elements of `l`; `Nil` counts as the empty list; a type error on a
/// non-list second argument.
pub open spec fn prim_cons_m(args: Seq<ValModel>) -> Result<ValModel, ErrModel> {
    if args.len() != 2 {
        Err(ErrModel::ArityErrM { func: "cons"@, expected: 2, actual: args.len() as int })
    } else {
        match args[1] {
            ValModel::ListV(items) => Ok(ValModel::ListV(seq![args[0]] + items)),
            ValModel::NilV => Ok(ValModel::ListV(seq![args[0]])),
            m => Err(ErrModel::TypeErrM { expected: "list"@, actual: type_name_str(m) }),
        }
    }
}

/// What `(list ...)` returns: a list of exactly the arguments.
pub open spec fn prim_list_m(args: Seq<ValModel>) -> Result<ValModel, ErrModel> {
    Ok(ValModel::ListV(args))
}

/// What `(length l)` returns: the number of elements; `Nil` counts as
/// the empty list; a type error on a non-list.
pub open spec fn prim_length_m(args: Seq<ValModel>) -> Result<ValModel, ErrModel> {
    if args.len() != 1 {
        Err(ErrModel::ArityErrM { func: "length"@, expected: 1, actual: args.len() as int })
    } else {
        match args[0] {
            ValModel::ListV(items) => if items.len() > i64::MAX {
                Err(ErrModel::RuntimeErrM("length: list too long"@))
            } else {
                Ok(ValModel::IntV(items.len() as int))
            },
            ValModel::NilV => Ok(ValModel::IntV(0)),
            m => Err(ErrModel::TypeErrM { expected: "list"@, actual: type_name_str(m) }),
        }
    }
}

/// What `(null? x)` returns: true exactly for `Nil` and the empty list.
pub open spec fn prim_null_m(args: Seq<ValModel>) -> Result<ValModel, ErrModel> {
    if args.len() != 1 {
        Err(ErrModel::ArityErrM { func: "null?"@, expected: 1, actual: args.len() as int })
    } else {
        Ok(
            ValModel::BoolV(
                args[0] is NilV || (args[0] is ListV && args[0]->ListV_0.len() == 0),
            ),
        )
    }
}

/// What applying the primitive `p` to `args` returns.
pub open spec fn prim_apply_m(p: Prim, args: Seq<ValModel>) -> Result<ValModel, ErrModel> {
    match p {
        Prim::Add => prim_add_m(args),
        Prim::Sub => prim_sub_m(args),
        Prim::Mul => prim_mul_m(args),
        Prim::Div => prim_div_m(args),
        Prim::Lt => prim_cmp_m(Prim::Lt, args),
        Prim::Gt => prim_cmp_m(Prim::Gt, args),
        Prim::NumEq => prim_eq_m(args),
        Prim::Car => prim_car_m(args),
        Prim::Cdr => prim_cdr_m(args),
        Prim::Cons => prim_cons_m(args),
        Prim::ListOf => prim_list_m(args),
        Prim::Length => prim_length_m(args),
        Prim::IsNull => prim_null_m(args),
    }
}

/// Every success of the addition fold is an integer.
proof fn lemma_fold_add_int(args: Seq<ValModel>, i: int, acc: i64)
    ensures
        match fold_add_m(args, i, acc) {
            Ok(v) => v is IntV,
            Err(_) => true,
        },
    decreases args.len() - i,
{
    if 0 <= i < args.len() {
        match args[i] {
            ValModel::IntV(n) => {
                lemma_fold_add_int(args, i + 1, i64_specs::wrapping_add(acc, n as i64));
            },
            _ => {},
        }
    }
}

/// Every success of the subtraction fold is an integer.
proof fn lemma_fold_sub_int(args: Seq<ValModel>, i: int, acc: i64)
    ensures
        match fold_sub_m(args, i, acc) {
            Ok(v) => v is IntV,
            Err(_) => true,
        },
    decreases args.len() - i,
{
    if 0 <= i < args.len() {
        match args[i] {
            ValModel::IntV(n) => {
                lemma_fold_sub_int(args, i + 1, i64_specs::wrapping_sub(acc, n as i64));
            },
            _ => {},
        }
    }
}

/// Every success of the multiplication fold is an integer.
proof fn lemma_fold_mul_int(args: Seq<ValModel>, i: int, acc: i64)
    ensures
        match fold_mul_m(args, i, acc) {
            Ok(v) => v is IntV,
            Err(_) => true,
        },
    decreases args.len() - i,
{
    if 0 <= i < args.len() {
        match args[i] {
            ValModel::IntV(n) => {
                lemma_fold_mul_int(args, i + 1, i64_specs::wrapping_mul(acc, n as i64));
            },
            _ => {},
        }
    }
}

/// Every success of the division fold is an integer.
proof fn lemma_fold_div_int(args: Seq<ValModel>, i: int, acc: i64)
    ensures
        match fold_div_m(args, i, acc) {
            Ok(v) => v is IntV,
            Err(_) => true,
        },
    decreases args.len() - i,
{
    if 0 <= i < args.len() {
        match args[i] {
            ValModel::IntV(n) => {
                if n != 0 {
                    lemma_fold_div_int(args, i + 1, div_step(acc, n as i64));
                }
            },
            _ => {},
        }
    }
}

/// A primitive applied to well-formed arguments returns a well-formed
/// value: primitives never make closures, and list primitives only
/// rearrange their arguments' parts.
pub proof fn lemma_prim_wf(p: Prim, args: Seq<ValModel>, n: int)
    requires
        forall|j: int| 0 <= j < args.len() ==> wf_val(#[trigger] args[j], n),
    ensures
        match prim_apply_m(p, args) {
            Ok(v) => wf_val(v, n),
            Err(_) => true,
        },
{
    match p {
        Prim::Add => {
            lemma_fold_add_int(args, 0, 0);
        },
        Prim::Sub => {
            if args.len() > 1 {
                match args[0] {
                    ValModel::IntV(m) => {
                        lemma_fold_sub_int(args, 1, m as i64);
                    },
                    _ => {},
                }
            }
        },
        Prim::Mul => {
            lemma_fold_mul_int(args, 0, 1);
        },
        Prim::Div => {
            if args.len() >= 2 {
                match args[0] {
                    ValModel::IntV(m) => {
                        lemma_fold_div_int(args, 1, m as i64);
                    },
                    _ => {},
                }
            }
        },
        Prim::Car => {
            if args.len() == 1 {
                match args[0] {
                    ValModel::ListV(items) => {
                        if items.len() > 0 {
                            assert(wf_val(args[0], n));
                            lemma_wf_vals(items, n, 0);
                        }
                    },
                    _ => {},
                }
            }
        },
        Prim::Cdr => {
            if args.len() == 1 {
                match args[0] {
                    ValModel::ListV(items) => {
                        if items.len() > 0 {
                            let rest = items.subrange(1, items.len() as int);
                            assert(wf_val(args[0], n));
                            lemma_wf_vals(items, n, 0);
                            lemma_wf_vals(rest, n, 0);
                            assert forall|j: int| 0 <= j < rest.len() implies wf_val(
                                #[trigger] rest[j],
                                n,
                            ) by {
                                assert(rest[j] == items[j + 1]);
                            }
                        }
                    },
                    _ => {},
                }
            }
        },
        Prim::Cons => {
            if args.len() == 2 {
                match args[1] {
                    ValModel::ListV(items) => {
                        let out = seq![args[0]] + items;
                        assert(wf_val(args[1], n));
                        lemma_wf_vals(items, n, 0);
                        lemma_wf_vals(out, n, 0);
                        assert forall|j: int| 0 <= j < out.len() implies wf_val(
                            #[trigger] out[j],
                            n,
                        ) by {
                            if j > 0 {
                                assert(out[j] == items[j - 1]);
                            }
                        }
                    },
                    ValModel::NilV => {
                        let out = seq![args[0]];
                        lemma_wf_vals(out, n, 0);
                        assert forall|j: int| 0 <= j < out.len() implies wf_val(
                            #[trigger] out[j],
                            n,
                        ) by {}
                    },
                    _ => {},
                }
            }
        },
        Prim::ListOf => {
            lemma_wf_vals(args, n, 0);
            assert(wf_val(ValModel::ListV(args), n));
        },
        _ => {},
    }
}

/// The type error an arithmetic primitive reports for this argument.
fn num_arg_error(v: &Value) -> (e: Error)
    ensures
        e@ == num_arg_err(v@),
{
    if matches!(v, Value::Float(_)) {
        Error::type_error("integer", "float")
    } else {
        Error::type_error("number", v.kind_name())
    }
}

/// Addition: `(+ a b ...)`.
pub fn builtin_add(args: &[Value]) -> (r: Result<Value, Error>)
    ensures
        res_model(r) == prim_add_m(vmodels(args@)),
{
    let mut acc: i64 = 0;
    let mut i: usize = 0;
    while i < args.len()
        invariant
            i <= args@.len(),
            fold_add_m(vmodels(args@), 0, 0) == fold_add_m(vmodels(args@), i as int, acc),
        decreases args@.len() - i,
    {
        match &args[i] {
            Value::Integer(n) => {
                acc = acc.wrapping_add(*n);
            },
            v => {
                return Err(num_arg_error(v));
            },
        }
        i += 1;
    }
    Ok(Value::Integer(acc))
}

/// Subtraction and negation: `(- a)` negates, `(- a b ...)` subtracts.
pub fn builtin_sub(args: &[Value]) -> (r: Result<Value, Error>)
    ensures
        res_model(r) == prim_sub_m(vmodels(args@)),
{
    if args.len() == 0 {
        return Err(Error::arity_error("-", 1, 0));
    }
    proof {
        assert(vmodels(args@)[0] == args@[0]@);
    }
    let first: i64 = match &args[0] {
        Value::Integer(n) => *n,
        v => {
            return Err(num_arg_error(v));
        },
    };
    if args.len() == 1 {
        return Ok(Value::Integer(0i64.wrapping_sub(first)));
    }
    let mut acc: i64 = first;
    let mut i: usize = 1;
    while i < args.len()
        invariant
            1 <= i <= args@.len(),
            args@.len() >= 2,
            vmodels(args@)[0] == ValModel::IntV(first as int),
            fold_sub_m(vmodels(args@), 1, first) == fold_sub_m(vmodels(args@), i as int, acc),
        decreases args@.len() - i,
    {
        proof {
            assert(vmodels(args@)[i as int] == args@[i as int]@);
        }
        match &args[i] {
            Value::Integer(n) => {
                acc = acc.wrapping_sub(*n);
            },
            v => {
                return Err(num_arg_error(v));
            },
        }
        i += 1;
    }
    Ok(Value::Integer(acc))
}

/// Multiplication: `(* a b ...)`.
pub fn builtin_mul(args: &[Value]) -> (r: Result<Value, Error>)
    ensures
        res_model(r) == prim_mul_m(vmodels(args@)),
{
    let mut acc: i64 = 1;
    let mut i: usize = 0;
    while i < args.len()
        invariant
            i <= args@.len(),
            fold_mul_m(vmodels(args@), 0, 1) == fold_mul_m(vmodels(args@), i as int, acc),
        decreases args@.len() - i,
    {
        match &args[i] {
            Value::Integer(n) => {
                acc = acc.wrapping_mul(*n);
            },
            v => {
                return Err(num_arg_error(v));
            },
        }
        i += 1;
    }
    Ok(Value::Integer(acc))
}

/// Division: `(/ a b ...)`, truncating; a zero divisor is an error.
pub fn builtin_div(args: &[Value]) -> (r: Result<Value, Error>)
    ensures
        res_model(r) == prim_div_m(vmodels(args@)),
{
    if args.len() < 2 {
        return Err(Error::arity_error("/", 2, args.len()));
    }
    proof {
        assert(vmodels(args@)[0] == args@[0]@);
    }
    let first: i64 = match &args[0] {
        Value::Integer(n) => *n,
        v => {
            return Err(num_arg_error(v));
        },
    };
    let mut acc: i64 = first;
    let mut i: usize = 1;
    while i < args.len()
        invariant
            1 <= i <= args@.len(),
            args@.len() >= 2,
            vmodels(args@)[0] == ValModel::IntV(first as int),
            fold_div_m(vmodels(args@), 1, first) == fold_div_m(vmodels(args@), i as int, acc),
        decreases args@.len() - i,
    {
        proof {
            assert(vmodels(args@)[i as int] == args@[i as int]@);
        }
        match &args[i] {
            Value::Integer(n) => {
                if *n == 0 {
                    return Err(Error::DivisionByZero);
                }
                acc = match acc.checked_div(*n) {
                    Some(q) => q,
                    None => i64::MIN,
                };
            },
            v => {
                return Err(num_arg_error(v));
            },
        }
        i += 1;
    }
    Ok(Value::Integer(acc))
}

/// Less-than: `(< a b)`.
pub fn builtin_lt(args: &[Value]) -> (r: Result<Value, Error>)
    ensures
        res_model(r) == prim_cmp_m(Prim::Lt, vmodels(args@)),
{
    if args.len() != 2 {
        return Err(Error::arity_error("<", 2, args.len()));
    }
    let a = match &args[0] {
        Value::Integer(n) => *n,
        v => {
            return Err(num_arg_error(v));
        },
    };
    let b = match &args[1] {
        Value::Integer(n) => *n,
        v => {
            return Err(num_arg_error(v));
        },
    };
    Ok(Value::Bool(a < b))
}

/// Greater-than: `(> a b)`.
pub fn builtin_gt(args: &[Value]) -> (r: Result<Value, Error>)
    ensures
        res_model(r) == prim_cmp_m(Prim::Gt, vmodels(args@)),
{
    if args.len() != 2 {
        return Err(Error::arity_error(">", 2, args.len()));
    }
    let a = match &args[0] {
        Value::Integer(n) => *n,
        v => {
            return Err(num_arg_error(v));
        },
    };
    let b = match &args[1] {
        Value::Integer(n) => *n,
        v => {
            return Err(num_arg_error(v));
        },
    };
    Ok(Value::Bool(a > b))
}

/// Equality: `(= a b)`, structural.
pub fn builtin_eq(args: &[Value]) -> (r: Result<Value, Error>)
    ensures
        res_model(r) == prim_eq_m(vmodels(args@)),
{
    if args.len() != 2 {
        return Err(Error::arity_error("=", 2, args.len()));
    }
    Ok(Value::Bool(value_eq(&args[0], &args[1])))
}

/// First element: `(car list)`.
pub fn builtin_car(args: &[Value]) -> (r: Result<Value, Error>)
    ensures
        res_model(r) == prim_car_m(vmodels(args@)),
{
    if args.len() != 1 {
        return Err(Error::arity_error("car", 1, args.len()));
    }
    match &args[0] {
        Value::List(items) => {
            proof {
                broadcast use lemma_list_model;

            }
            if items.len() == 0 {
                Err(Error::runtime("car: cannot take car of empty list"))
            } else {
                Ok(items[0].clone())
            }
        },
        Value::Nil => Err(Error::runtime("car: cannot take car of empty list")),
        v => Err(Error::type_error("list", v.kind_name())),
    }
}

/// Rest of the list: `(cdr list)`.
pub fn builtin_cdr(args: &[Value]) -> (r: Result<Value, Error>)
    ensures
        res_model(r) == prim_cdr_m(vmodels(args@)),
{
    if args.len() != 1 {
        return Err(Error::arity_error("cdr", 1, args.len()));
    }
    match &args[0] {
        Value::List(items) => {
            proof {
                broadcast use lemma_list_model;

            }
            if items.len() == 0 {
                Err(Error::runtime("cdr: cannot take cdr of empty list"))
            } else {
                let mut rest: Vec<Value> = Vec::new();
                let mut i: usize = 1;
                while i < items.len()
                    invariant
                        1 <= i <= items@.len(),
                        rest@.len() == i - 1,
                        forall|j: int| 0 <= j < i - 1 ==> #[trigger] rest@[j]@ == items@[j + 1]@,
                    decreases items@.len() - i,
                {
                    rest.push(items[i].clone());
                    i += 1;
                }
                let r = Value::List(rest);
                proof {
                    broadcast use lemma_list_model;

                    let want = vmodels(items@).subrange(1, items@.len() as int);
                    assert forall|j: int| 0 <= j < rest@.len() implies vmodels(rest@)[j] == want[j] by {
                        assert(rest@[j]@ == items@[j + 1]@);
                    }
                    assert(vmodels(rest@) =~= want);
                }
                Ok(r)
            }
        },
        Value::Nil => Err(Error::runtime("cdr: cannot take cdr of empty list")),
        v => Err(Error::type_error("list", v.kind_name())),
    }
}

/// List construction: `(cons element list)`.
pub fn builtin_cons(args: &[Value]) -> (r: Result<Value, Error>)
    ensures
        res_model(r) == prim_cons_m(vmodels(args@)),
{
    if args.len() != 2 {
        return Err(Error::arity_error("cons", 2, args.len()));
    }
    match &args[1] {
        Value::List(items) => {
            proof {
                broadcast use lemma_list_model;

            }
            let mut out: Vec<Value> = Vec::new();
            out.push(args[0].clone());
            let mut i: usize = 0;
            while i < items.len()
                invariant
                    i <= items@.len(),
                    out@.len() == i + 1,
                    out@[0]@ == args@[0]@,
                    forall|j: int| 0 <= j < i ==> #[trigger] out@[j + 1]@ == items@[j]@,
                decreases items@.len() - i,
            {
                out.push(items[i].clone());
                i += 1;
            }
            let r = Value::List(out);
            proof {
                broadcast use lemma_list_model;

                let want = seq![vmodels(args@)[0]] + vmodels(items@);
                assert forall|j: int| 0 <= j < out@.len() implies vmodels(out@)[j] == want[j] by {
                    if j > 0 {
                        assert(out@[(j - 1) + 1]@ == items@[j - 1]@);
                    }
                }
                assert(vmodels(out@) =~= want);
            }
            Ok(r)
        },
        Value::Nil => {
            let mut out: Vec<Value> = Vec::new();
            out.push(args[0].clone());
            let r = Value::List(out);
            proof {
                broadcast use lemma_list_model;

                assert(vmodels(out@) =~= seq![vmodels(args@)[0]]);
            }
            Ok(r)
        },
        v => Err(Error::type_error("list", v.kind_name())),
    }
}

/// List of the arguments: `(list a b c ...)`.
pub fn builtin_list(args: &[Value]) -> (r: Result<Value, Error>)
    ensures
        res_model(r) == prim_list_m(vmodels(args@)),
{
    let out = clone_values(args);
    let r = Value::List(out);
    proof {
        broadcast use lemma_list_model;

        assert forall|j: int| 0 <= j < out@.len() implies vmodels(out@)[j] == vmodels(
            args@,
        )[j] by {
            assert(out@[j]@ == args@[j]@);
        }
        assert(vmodels(out@) =~= vmodels(args@));
    }
    Ok(r)
}

/// Number of elements: `(length list)`.
pub fn builtin_length(args: &[Value]) -> (r: Result<Value, Error>)
    ensures
        res_model(r) == prim_length_m(vmodels(args@)),
{
    if args.len() != 1 {
        return Err(Error::arity_error("length", 1, args.len()));
    }
    proof {
        assert(vmodels(args@)[0] == args@[0]@);
    }
    match &args[0] {
        Value::List(items) => {
            proof {
                broadcast use lemma_list_model;

                assert(vmodels(items@).len() == items@.len());
            }
            let n = items.len() as u64;
            if n > i64::MAX as u64 {
                Err(Error::runtime("length: list too long"))
            } else {
                Ok(Value::Integer(n as i64))
            }
        },
        Value::Nil => Ok(Value::Integer(0)),
        v => Err(Error::type_error("list", v.kind_name())),
    }
}

/// Emptiness: `(null? value)` is true for `Nil` and the empty list.
pub fn builtin_null(args: &[Value]) -> (r: Result<Value, Error>)
    ensures
        res_model(r) == prim_null_m(vmodels(args@)),
{
    if args.len() != 1 {
        return Err(Error::arity_error("null?", 1, args.len()));
    }
    match &args[0] {
        Value::Nil => Ok(Value::Bool(true)),
        Value::List(items) => {
            proof {
                broadcast use lemma_list_model;

            }
            Ok(Value::Bool(items.len() == 0))
        },
        _ => Ok(Value::Bool(false)),
    }
}

/// Applies the primitive `p` to the evaluated arguments.
pub fn apply_primitive(p: Prim, args: &[Value]) -> (r: Result<Value, Error>)
    ensures
        res_model(r) == prim_apply_m(p, vmodels(args@)),
{
    match p {
        Prim::Add => builtin_add(args),
        Prim::Sub => builtin_sub(args),
        Prim::Mul => builtin_mul(args),
        Prim::Div => builtin_div(args),
        Prim::Lt => builtin_lt(args),
        Prim::Gt => builtin_gt(args),
        Prim::NumEq => builtin_eq(args),
        Prim::Car => builtin_car(args),
        Prim::Cdr => builtin_cdr(args),
        Prim::Cons => builtin_cons(args),
        Prim::ListOf => builtin_list(args),
        Prim::Length => builtin_length(args),
        Prim::IsNull => builtin_null(args),
    }
}

} // verus!
