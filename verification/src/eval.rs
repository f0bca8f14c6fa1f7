//! The evaluator.
//!
//! `eval_m` is a mathematical big-step interpreter over value models and
//! environment models, bounded by fuel; the executable evaluator is proved
//! to return exactly what `eval_m` says, leaving the environment exactly as
//! `eval_m` says. Every nested evaluation runs on one unit less fuel, and
//! exhausted fuel is a catchable runtime error, so a runaway recursion
//! cannot crash the host.
//!
//! Dispatch order: atoms and procedure values evaluate to themselves;
//! a symbol is looked up; the empty list is `Nil`; a non-empty list whose
//! head is one of the reserved keywords `quote`, `if`, `define`, `lambda`,
//! `let` is a special form (the keywords cannot be shadowed); any other
//! non-empty list is an application, its head and arguments evaluated
//! left to right in the caller's scope.

use crate::builtin::{apply_primitive, prim_apply_m};
use crate::env::{define_m, lemma_lookup_wf, lookup_m, wf_env, Environment, ScopeModel};
use crate::error::{ErrModel, Error};
use crate::value::{
    lemma_lambda_model, lemma_list_model, lemma_vmodels_subrange, lemma_wf_val_mono, lemma_wf_vals,
    nmodels, res_model, str_eq, type_name_str, vmodel, vmodels, wf_val, Prim, ValModel, Value,
};
use vstd::prelude::*;

verus! {

broadcast use vstd::std_specs::vec::group_vec_axioms;

/// Model of an environment: the arena of scope models.
pub type EnvModel = Seq<ScopeModel>;

/// How many nested evaluations the evaluator allows before it reports a
/// runtime error instead of overflowing the host stack.
pub const RECURSION_LIMIT: usize = 512;

/// Models of a sequence of name-value pairs.
pub open spec fn pmodels(s: Seq<(String, Value)>) -> Seq<(Seq<char>, ValModel)> {
    Seq::new(s.len(), |i: int| (s[i].0@, s[i].1@))
}

/// What `(quote x)` evaluates to: its argument, unevaluated.
pub open spec fn eval_quote_m(args: Seq<ValModel>) -> Result<ValModel, ErrModel> {
    if args.len() != 1 {
        Err(ErrModel::ArityErrM { func: "quote"@, expected: 1, actual: args.len() as int })
    } else {
        Ok(args[0])
    }
}

/// The parameter names of a lambda's parameter list, in order; a type
/// error on the first element that is not a symbol.
pub open spec fn params_from_m(ps: Seq<ValModel>, i: int) -> Result<Seq<Seq<char>>, ErrModel>
    decreases ps.len() - i,
{
    if i < 0 || i >= ps.len() {
        Ok(Seq::empty())
    } else {
        match ps[i] {
            ValModel::SymV(s) => match params_from_m(ps, i + 1) {
                Ok(rest) => Ok(seq![s] + rest),
                Err(e) => Err(e),
            },
            m => Err(ErrModel::TypeErrM { expected: "symbol"@, actual: type_name_str(m) }),
        }
    }
}

/// What `(lambda (params...) body)` evaluates to: a closure capturing the
/// parameter names, the body expression tree and the current scope index.
pub open spec fn eval_lambda_m(scope: int, args: Seq<ValModel>) -> Result<ValModel, ErrModel> {
    if args.len() != 2 {
        Err(ErrModel::ArityErrM { func: "lambda"@, expected: 2, actual: args.len() as int })
    } else {
        match args[0] {
            ValModel::ListV(ps) => match params_from_m(ps, 0) {
                Ok(params) => Ok(
                    ValModel::ClosV { params, body: Box::new(args[1]), env: scope },
                ),
                Err(e) => Err(e),
            },
            ValModel::NilV => Ok(
                ValModel::ClosV { params: Seq::empty(), body: Box::new(args[1]), env: scope },
            ),
            m => Err(ErrModel::TypeErrM { expected: "list"@, actual: type_name_str(m) }),
        }
    }
}

/// Binds each parameter to its argument in scope `child`, in order.
pub open spec fn bind_params_m(
    em: EnvModel,
    child: int,
    params: Seq<Seq<char>>,
    args: Seq<ValModel>,
    i: int,
) -> EnvModel
    decreases params.len() - i,
{
    if i < 0 || i >= params.len() || i >= args.len() {
        em
    } else {
        bind_params_m(define_m(em, child, params[i], args[i]), child, params, args, i + 1)
    }
}

/// Evaluates an expression model on the given fuel. Returns the result
/// and the environment as it stands afterwards.
pub open spec fn eval_m(em: EnvModel, scope: int, e: ValModel, fuel: nat) -> (Result<
    ValModel,
    ErrModel,
>, EnvModel)
    decreases fuel, 0int, 0int,
{
    if fuel == 0 {
        (Err(ErrModel::RuntimeErrM("recursion depth limit exceeded"@)), em)
    } else {
        let sub = (fuel - 1) as nat;
        match e {
            ValModel::SymV(name) => (
                match lookup_m(em, scope, name) {
                    Some(v) => Ok(v),
                    None => Err(ErrModel::UndefinedSymM(name)),
                },
                em,
            ),
            ValModel::ListV(items) => if items.len() == 0 {
                (Ok(ValModel::NilV), em)
            } else if items[0] == ValModel::SymV("quote"@) {
                (eval_quote_m(items.subrange(1, items.len() as int)), em)
            } else if items[0] == ValModel::SymV("if"@) {
                eval_if_m(em, scope, items.subrange(1, items.len() as int), sub)
            } else if items[0] == ValModel::SymV("define"@) {
                eval_define_m(em, scope, items.subrange(1, items.len() as int), sub)
            } else if items[0] == ValModel::SymV("lambda"@) {
                (eval_lambda_m(scope, items.subrange(1, items.len() as int)), em)
            } else if items[0] == ValModel::SymV("let"@) {
                eval_let_m(em, scope, items.subrange(1, items.len() as int), sub)
            } else {
                eval_application_m(em, scope, items, sub)
            },
            _ => (Ok(e), em),
        }
    }
}

/// Evaluates an `if` form: the condition, then exactly one branch by its
/// truthiness; a missing else-branch yields `Nil`.
pub open spec fn eval_if_m(em: EnvModel, scope: int, args: Seq<ValModel>, fuel: nat) -> (Result<
    ValModel,
    ErrModel,
>, EnvModel)
    decreases fuel, 1int, 0int,
{
    if args.len() < 2 || args.len() > 3 {
        (Err(ErrModel::ArityErrM { func: "if"@, expected: 3, actual: args.len() as int }), em)
    } else {
        let (c, em1) = eval_m(em, scope, args[0], fuel);
        match c {
            Err(e) => (Err(e), em1),
            Ok(cv) => if cv != ValModel::BoolV(false) {
                eval_m(em1, scope, args[1], fuel)
            } else if args.len() == 3 {
                eval_m(em1, scope, args[2], fuel)
            } else {
                (Ok(ValModel::NilV), em1)
            },
        }
    }
}

/// Evaluates a `define` form: the name must be a symbol, the value is
/// evaluated in the current scope, and the binding is made in the current
/// scope itself; the form yields `Nil`.
pub open spec fn eval_define_m(em: EnvModel, scope: int, args: Seq<ValModel>, fuel: nat) -> (Result<
    ValModel,
    ErrModel,
>, EnvModel)
    decreases fuel, 1int, 0int,
{
    if args.len() != 2 {
        (Err(ErrModel::ArityErrM { func: "define"@, expected: 2, actual: args.len() as int }), em)
    } else {
        match args[0] {
            ValModel::SymV(name) => {
                let (v, em1) = eval_m(em, scope, args[1], fuel);
                match v {
                    Ok(vv) => (Ok(ValModel::NilV), define_m(em1, scope, name, vv)),
                    Err(e) => (Err(e), em1),
                }
            },
            m => (Err(ErrModel::TypeErrM { expected: "symbol"@, actual: type_name_str(m) }), em),
        }
    }
}

/// Evaluates the expressions of a `let` binding list, each in the outer
/// scope: simultaneous, non-sequential binding. A binding that is not a
/// two-element list is a runtime error; a name that is not a symbol is a
/// type error.
pub open spec fn eval_bindings_m(em: EnvModel, scope: int, bs: Seq<ValModel>, i: int, fuel: nat) -> (
    Result<Seq<(Seq<char>, ValModel)>, ErrModel>,
    EnvModel,
)
    decreases fuel, 1int, bs.len() - i,
{
    if i < 0 || i >= bs.len() {
        (Ok(Seq::empty()), em)
    } else {
        match bs[i] {
            ValModel::ListV(pair) => if pair.len() == 2 {
                match pair[0] {
                    ValModel::SymV(name) => {
                        let (v, em1) = eval_m(em, scope, pair[1], fuel);
                        match v {
                            Ok(vv) => {
                                let (rest, em2) = eval_bindings_m(em1, scope, bs, i + 1, fuel);
                                match rest {
                                    Ok(bound) => (Ok(seq![(name, vv)] + bound), em2),
                                    Err(e) => (Err(e), em2),
                                }
                            },
                            Err(e) => (Err(e), em1),
                        }
                    },
                    m => (
                        Err(ErrModel::TypeErrM { expected: "symbol"@, actual: type_name_str(m) }),
                        em,
                    ),
                }
            } else {
                (Err(ErrModel::RuntimeErrM("let binding must be a list of (name value) pairs"@)), em)
            },
            _ => (
                Err(ErrModel::RuntimeErrM("let binding must be a list of (name value) pairs"@)),
                em,
            ),
        }
    }
}

/// Defines the evaluated `let` bindings, in order, into scope `child`.
pub open spec fn define_all_m(em: EnvModel, child: int, bound: Seq<(Seq<char>, ValModel)>, i: int) -> EnvModel
    decreases bound.len() - i,
{
    if i < 0 || i >= bound.len() {
        em
    } else {
        define_all_m(define_m(em, child, bound[i].0, bound[i].1), child, bound, i + 1)
    }
}

/// Evaluates a `let` form: every binding expression is evaluated in the
/// outer scope, then all bindings are made together in one new child
/// scope, and the body is evaluated there.
pub open spec fn eval_let_m(em: EnvModel, scope: int, args: Seq<ValModel>, fuel: nat) -> (Result<
    ValModel,
    ErrModel,
>, EnvModel)
    decreases fuel, 2int, 0int,
{
    if args.len() != 2 {
        (Err(ErrModel::ArityErrM { func: "let"@, expected: 2, actual: args.len() as int }), em)
    } else {
        match args[0] {
            ValModel::ListV(bs) => {
                let (bound, em1) = eval_bindings_m(em, scope, bs, 0, fuel);
                match bound {
                    Ok(pairs) => {
                        let child = em1.len() as int;
                        let em2 = em1.push(
                            ScopeModel {
                                table: Map::<Seq<char>, ValModel>::empty(),
                                parent: Some(scope),
                            },
                        );
                        let em3 = define_all_m(em2, child, pairs, 0);
                        eval_m(em3, child, args[1], fuel)
                    },
                    Err(e) => (Err(e), em1),
                }
            },
            m => (Err(ErrModel::TypeErrM { expected: "list"@, actual: type_name_str(m) }), em),
        }
    }
}

/// Evaluates the arguments of an application from index `i`, left to
/// right, in the caller's scope.
pub open spec fn eval_args_m(em: EnvModel, scope: int, items: Seq<ValModel>, i: int, fuel: nat) -> (
    Result<Seq<ValModel>, ErrModel>,
    EnvModel,
)
    decreases fuel, 1int, items.len() - i,
{
    if i < 0 || i >= items.len() {
        (Ok(Seq::empty()), em)
    } else {
        let (v, em1) = eval_m(em, scope, items[i], fuel);
        match v {
            Ok(vv) => {
                let (rest, em2) = eval_args_m(em1, scope, items, i + 1, fuel);
                match rest {
                    Ok(vs) => (Ok(seq![vv] + vs), em2),
                    Err(e) => (Err(e), em2),
                }
            },
            Err(e) => (Err(e), em1),
        }
    }
}

/// Applies a procedure value to evaluated arguments. A primitive computes
/// directly; a closure demands exactly as many arguments as parameters,
/// binds them in a fresh child of its captured scope, and evaluates its
/// body there; anything else is a type error.
pub open spec fn apply_m(em: EnvModel, f: ValModel, args: Seq<ValModel>, fuel: nat) -> (Result<
    ValModel,
    ErrModel,
>, EnvModel)
    decreases fuel, 1int, 0int,
{
    match f {
        ValModel::PrimV(p) => (prim_apply_m(p, args), em),
        ValModel::ClosV { params, body, env } => if args.len() != params.len() {
            (
                Err(
                    ErrModel::ArityErrM {
                        func: "lambda"@,
                        expected: params.len() as int,
                        actual: args.len() as int,
                    },
                ),
                em,
            )
        } else {
            let child = em.len() as int;
            let em1 = em.push(
                ScopeModel { table: Map::<Seq<char>, ValModel>::empty(), parent: Some(env) },
            );
            let em2 = bind_params_m(em1, child, params, args, 0);
            eval_m(em2, child, *body, fuel)
        },
        m => ((Err(ErrModel::TypeErrM { expected: "function"@, actual: type_name_str(m) })), em),
    }
}

/// Evaluates an application: the head, then each argument, left to right
/// in the caller's scope, then the application itself.
pub open spec fn eval_application_m(em: EnvModel, scope: int, items: Seq<ValModel>, fuel: nat) -> (
    Result<ValModel, ErrModel>,
    EnvModel,
)
    decreases fuel, 2int, 0int,
{
    let (f, em1) = eval_m(em, scope, items[0], fuel);
    match f {
        Ok(fv) => {
            let (argr, em2) = eval_args_m(em1, scope, items, 1, fuel);
            match argr {
                Ok(args) => apply_m(em2, fv, args, fuel),
                Err(e) => (Err(e), em2),
            }
        },
        Err(e) => (Err(e), em1),
    }
}

/// One unfolding of `eval_args_m` at an in-range index.
proof fn lemma_eval_args_unfold(em: EnvModel, scope: int, items: Seq<ValModel>, i: int, f: nat)
    requires
        0 <= i < items.len(),
    ensures
        eval_args_m(em, scope, items, i, f) == ({
            let (v, em1) = eval_m(em, scope, items[i], f);
            match v {
                Ok(vv) => {
                    let (rest, em2) = eval_args_m(em1, scope, items, i + 1, f);
                    match rest {
                        Ok(vs) => (Ok::<Seq<ValModel>, ErrModel>(seq![vv] + vs), em2),
                        Err(e) => (Err::<Seq<ValModel>, ErrModel>(e), em2),
                    }
                },
                Err(e) => (Err::<Seq<ValModel>, ErrModel>(e), em1),
            }
        }),
{
}

/// One unfolding of `eval_bindings_m` at an in-range index.
proof fn lemma_eval_bindings_unfold(em: EnvModel, scope: int, bs: Seq<ValModel>, i: int, f: nat)
    requires
        0 <= i < bs.len(),
    ensures
        eval_bindings_m(em, scope, bs, i, f) == (match bs[i] {
            ValModel::ListV(pair) => if pair.len() == 2 {
                match pair[0] {
                    ValModel::SymV(name) => ({
                        let (v, em1) = eval_m(em, scope, pair[1], f);
                        match v {
                            Ok(vv) => {
                                let (rest, em2) = eval_bindings_m(em1, scope, bs, i + 1, f);
                                match rest {
                                    Ok(bound) => (
                                        Ok::<Seq<(Seq<char>, ValModel)>, ErrModel>(
                                            seq![(name, vv)] + bound,
                                        ),
                                        em2,
                                    ),
                                    Err(e) => (
                                        Err::<Seq<(Seq<char>, ValModel)>, ErrModel>(e),
                                        em2,
                                    ),
                                }
                            },
                            Err(e) => (Err::<Seq<(Seq<char>, ValModel)>, ErrModel>(e), em1),
                        }
                    }),
                    m => (
                        Err::<Seq<(Seq<char>, ValModel)>, ErrModel>(
                            ErrModel::TypeErrM { expected: "symbol"@, actual: type_name_str(m) },
                        ),
                        em,
                    ),
                }
            } else {
                (
                    Err::<Seq<(Seq<char>, ValModel)>, ErrModel>(
                        ErrModel::RuntimeErrM("let binding must be a list of (name value) pairs"@),
                    ),
                    em,
                )
            },
            _ => (
                Err::<Seq<(Seq<char>, ValModel)>, ErrModel>(
                    ErrModel::RuntimeErrM("let binding must be a list of (name value) pairs"@),
                ),
                em,
            ),
        }),
{
}

/// One unfolding of `eval_let_m`.
proof fn lemma_eval_let_unfold(em: EnvModel, scope: int, args: Seq<ValModel>, fuel: nat)
    ensures
        eval_let_m(em, scope, args, fuel) == (if args.len() != 2 {
            (
                Err::<ValModel, ErrModel>(
                    ErrModel::ArityErrM { func: "let"@, expected: 2, actual: args.len() as int },
                ),
                em,
            )
        } else {
            match args[0] {
                ValModel::ListV(bs) => {
                    let (bound, em1) = eval_bindings_m(em, scope, bs, 0, fuel);
                    match bound {
                        Ok(pairs) => {
                            let child = em1.len() as int;
                            let em2 = em1.push(
                                ScopeModel {
                                    table: Map::<Seq<char>, ValModel>::empty(),
                                    parent: Some(scope),
                                },
                            );
                            let em3 = define_all_m(em2, child, pairs, 0);
                            eval_m(em3, child, args[1], fuel)
                        },
                        Err(e) => (Err::<ValModel, ErrModel>(e), em1),
                    }
                },
                m => (
                    Err::<ValModel, ErrModel>(
                        ErrModel::TypeErrM { expected: "list"@, actual: type_name_str(m) },
                    ),
                    em,
                ),
            }
        }),
{
}

/// One unfolding of `params_from_m` at an in-range index.
proof fn lemma_params_from_unfold(ps: Seq<ValModel>, i: int)
    requires
        0 <= i < ps.len(),
    ensures
        params_from_m(ps, i) == (match ps[i] {
            ValModel::SymV(s) => match params_from_m(ps, i + 1) {
                Ok(rest) => Ok::<Seq<Seq<char>>, ErrModel>(seq![s] + rest),
                Err(e) => Err::<Seq<Seq<char>>, ErrModel>(e),
            },
            m => Err::<Seq<Seq<char>>, ErrModel>(
                ErrModel::TypeErrM { expected: "symbol"@, actual: type_name_str(m) },
            ),
        }),
{
}

/// One unfolding of `eval_lambda_m`.
proof fn lemma_eval_lambda_unfold(scope: int, args: Seq<ValModel>)
    ensures
        eval_lambda_m(scope, args) == (if args.len() != 2 {
            Err::<ValModel, ErrModel>(
                ErrModel::ArityErrM { func: "lambda"@, expected: 2, actual: args.len() as int },
            )
        } else {
            match args[0] {
                ValModel::ListV(ps) => match params_from_m(ps, 0) {
                    Ok(params) => Ok::<ValModel, ErrModel>(
                        ValModel::ClosV { params, body: Box::new(args[1]), env: scope },
                    ),
                    Err(e) => Err::<ValModel, ErrModel>(e),
                },
                ValModel::NilV => Ok::<ValModel, ErrModel>(
                    ValModel::ClosV { params: Seq::empty(), body: Box::new(args[1]), env: scope },
                ),
                m => Err::<ValModel, ErrModel>(
                    ErrModel::TypeErrM { expected: "list"@, actual: type_name_str(m) },
                ),
            }
        }),
{
}

/// The root environment the evaluator starts from: one scope holding the
/// primitive procedures under their names.
pub open spec fn builtins_table() -> Map<Seq<char>, ValModel> {
    Map::<Seq<char>, ValModel>::empty().insert("+"@, ValModel::PrimV(Prim::Add)).insert(
        "-"@,
        ValModel::PrimV(Prim::Sub),
    ).insert("*"@, ValModel::PrimV(Prim::Mul)).insert("/"@, ValModel::PrimV(Prim::Div)).insert(
        "<"@,
        ValModel::PrimV(Prim::Lt),
    ).insert(">"@, ValModel::PrimV(Prim::Gt)).insert("="@, ValModel::PrimV(Prim::NumEq)).insert(
        "car"@,
        ValModel::PrimV(Prim::Car),
    ).insert("cdr"@, ValModel::PrimV(Prim::Cdr)).insert("cons"@, ValModel::PrimV(Prim::Cons)).insert(
        "list"@,
        ValModel::PrimV(Prim::ListOf),
    ).insert("length"@, ValModel::PrimV(Prim::Length)).insert("null?"@, ValModel::PrimV(Prim::IsNull))
}

/// The model of a fresh evaluator's environment.
pub open spec fn initial_env() -> EnvModel {
    seq![ScopeModel { table: builtins_table(), parent: None }]
}

/// The evaluator: owns the environment arena; scope `0` is the global
/// scope, populated with the primitives at construction.
pub struct Evaluator {
    env: Environment,
}

impl View for Evaluator {
    type V = EnvModel;

    closed spec fn view(&self) -> EnvModel {
        self.env@
    }
}

impl Evaluator {
    /// The environment invariant, established by `new` and kept by every
    /// method.
    pub closed spec fn wf(&self) -> bool {
        self.env.wf()
    }

    /// A fresh evaluator: a root scope holding the primitive procedures.
    pub fn new() -> (ev: Evaluator)
        ensures
            ev.wf(),
            ev@ == initial_env(),
    {
        let mut env = Environment::new();
        env.define(0, "+", Value::Builtin(Prim::Add));
        env.define(0, "-", Value::Builtin(Prim::Sub));
        env.define(0, "*", Value::Builtin(Prim::Mul));
        env.define(0, "/", Value::Builtin(Prim::Div));
        env.define(0, "<", Value::Builtin(Prim::Lt));
        env.define(0, ">", Value::Builtin(Prim::Gt));
        env.define(0, "=", Value::Builtin(Prim::NumEq));
        env.define(0, "car", Value::Builtin(Prim::Car));
        env.define(0, "cdr", Value::Builtin(Prim::Cdr));
        env.define(0, "cons", Value::Builtin(Prim::Cons));
        env.define(0, "list", Value::Builtin(Prim::ListOf));
        env.define(0, "length", Value::Builtin(Prim::Length));
        env.define(0, "null?", Value::Builtin(Prim::IsNull));
        let ev = Evaluator { env };
        proof {
            assert(ev@ =~= initial_env());
            assert(ev@[0].table =~= initial_env()[0].table);
            assert(ev@ =~~= initial_env());
        }
        ev
    }

    /// Evaluates an expression in the global scope, on the full
    /// recursion budget.
    pub fn eval(&mut self, expr: &Value) -> (r: Result<Value, Error>)
        requires
            old(self).wf(),
            old(self)@.len() >= 1,
            wf_val(expr@, old(self)@.len() as int),
        ensures
            final(self).wf(),
            old(self)@.len() <= final(self)@.len(),
            res_model(r) == eval_m(old(self)@, 0, expr@, RECURSION_LIMIT as nat).0,
            final(self)@ == eval_m(old(self)@, 0, expr@, RECURSION_LIMIT as nat).1,
            match r {
                Ok(v) => wf_val(v@, final(self)@.len() as int),
                Err(_) => true,
            },
    {
        self.eval_rec(expr, 0, RECURSION_LIMIT)
    }

    /// Evaluates an expression in the given scope, on the full recursion
    /// budget.
    pub fn eval_in_env(&mut self, expr: &Value, scope: usize) -> (r: Result<Value, Error>)
        requires
            old(self).wf(),
            scope < old(self)@.len(),
            wf_val(expr@, old(self)@.len() as int),
        ensures
            final(self).wf(),
            old(self)@.len() <= final(self)@.len(),
            res_model(r) == eval_m(old(self)@, scope as int, expr@, RECURSION_LIMIT as nat).0,
            final(self)@ == eval_m(old(self)@, scope as int, expr@, RECURSION_LIMIT as nat).1,
            match r {
                Ok(v) => wf_val(v@, final(self)@.len() as int),
                Err(_) => true,
            },
    {
        self.eval_rec(expr, scope, RECURSION_LIMIT)
    }

    /// The global scope's index.
    pub fn global_scope(&self) -> (s: usize)
        ensures
            s == 0,
    {
        0
    }

    /// The environment arena, for direct lookups.
    pub fn env(&self) -> (e: &Environment)
        ensures
            e@ == self@,
            self.wf() ==> e.wf(),
    {
        &self.env
    }

    /// One evaluation step on bounded fuel: exactly `eval_m`.
    #[verifier::rlimit(50)]
    fn eval_rec(&mut self, expr: &Value, scope: usize, depth: usize) -> (r: Result<Value, Error>)
        requires
            old(self).wf(),
            scope < old(self)@.len(),
            wf_val(expr@, old(self)@.len() as int),
        ensures
            final(self).wf(),
            old(self)@.len() <= final(self)@.len(),
            res_model(r) == eval_m(old(self)@, scope as int, expr@, depth as nat).0,
            final(self)@ == eval_m(old(self)@, scope as int, expr@, depth as nat).1,
            match r {
                Ok(v) => wf_val(v@, final(self)@.len() as int),
                Err(_) => true,
            },
        decreases depth, 0int, 0int,
    {
        if depth == 0 {
            return Err(Error::runtime("recursion depth limit exceeded"));
        }
        match expr {
            Value::Symbol(s) => {
                proof {
                    self.env.lemma_wf();
                    lemma_lookup_wf(self@, scope as int, s@);
                }
                self.env.get(scope, s.as_str())
            },
            Value::List(items) => {
                proof {
                    broadcast use lemma_list_model;

                    assert(expr@ == ValModel::ListV(vmodels(items@)));
                    assert(vmodels(items@).len() == items@.len());
                }
                let ghost itemsm = vmodels(items@);
                if items.len() == 0 {
                    return Ok(Value::Nil);
                }
                proof {
                    assert(vmodels(items@)[0] == items@[0]@);
                    lemma_wf_vals(itemsm, old(self)@.len() as int, 0);
                    assert forall|j: int| 0 <= j < itemsm.len() implies wf_val(
                        #[trigger] itemsm[j],
                        old(self)@.len() as int,
                    ) by {
                        assert(wf_val(ValModel::ListV(itemsm), old(self)@.len() as int));
                    }
                }
                match &items[0] {
                    Value::Symbol(s) => {
                        if str_eq(s.as_str(), "quote") {
                            let args = &items[1..items.len()];
                            proof {
                                lemma_vmodels_subrange(items@, 1, items@.len() as int);
                                lemma_wf_vals(vmodels(args@), old(self)@.len() as int, 0);
                                assert(wf_val(
                                    ValModel::ListV(vmodels(args@)),
                                    old(self)@.len() as int,
                                )) by {
                                    assert forall|j: int|
                                        0 <= j < vmodels(args@).len() implies wf_val(
                                        #[trigger] vmodels(args@)[j],
                                        old(self)@.len() as int,
                                    ) by {
                                        assert(vmodels(args@)[j] == itemsm[j + 1]);
                                    }
                                }
                            }
                            return eval_quote(args);
                        }
                        if str_eq(s.as_str(), "if") {
                            let args = &items[1..items.len()];
                            proof {
                                lemma_vmodels_subrange(items@, 1, items@.len() as int);
                                lemma_wf_vals(vmodels(args@), old(self)@.len() as int, 0);
                                assert(wf_val(
                                    ValModel::ListV(vmodels(args@)),
                                    old(self)@.len() as int,
                                )) by {
                                    assert forall|j: int|
                                        0 <= j < vmodels(args@).len() implies wf_val(
                                        #[trigger] vmodels(args@)[j],
                                        old(self)@.len() as int,
                                    ) by {
                                        assert(vmodels(args@)[j] == itemsm[j + 1]);
                                    }
                                }
                            }
                            return self.eval_if(args, scope, depth - 1);
                        }
                        if str_eq(s.as_str(), "define") {
                            let args = &items[1..items.len()];
                            proof {
                                lemma_vmodels_subrange(items@, 1, items@.len() as int);
                                lemma_wf_vals(vmodels(args@), old(self)@.len() as int, 0);
                                assert(wf_val(
                                    ValModel::ListV(vmodels(args@)),
                                    old(self)@.len() as int,
                                )) by {
                                    assert forall|j: int|
                                        0 <= j < vmodels(args@).len() implies wf_val(
                                        #[trigger] vmodels(args@)[j],
                                        old(self)@.len() as int,
                                    ) by {
                                        assert(vmodels(args@)[j] == itemsm[j + 1]);
                                    }
                                }
                            }
                            return self.eval_define(args, scope, depth - 1);
                        }
                        if str_eq(s.as_str(), "lambda") {
                            let args = &items[1..items.len()];
                            proof {
                                lemma_vmodels_subrange(items@, 1, items@.len() as int);
                                lemma_wf_vals(vmodels(args@), old(self)@.len() as int, 0);
                                assert(wf_val(
                                    ValModel::ListV(vmodels(args@)),
                                    old(self)@.len() as int,
                                )) by {
                                    assert forall|j: int|
                                        0 <= j < vmodels(args@).len() implies wf_val(
                                        #[trigger] vmodels(args@)[j],
                                        old(self)@.len() as int,
                                    ) by {
                                        assert(vmodels(args@)[j] == itemsm[j + 1]);
                                    }
                                }
                            }
                            let r = eval_lambda(args, scope);
                            proof {
                                match &r {
                                    Ok(v) => {
                                        assert(wf_val(v@, self@.len() as int));
                                    },
                                    Err(_) => {},
                                }
                            }
                            return r;
                        }
                        if str_eq(s.as_str(), "let") {
                            let args = &items[1..items.len()];
                            proof {
                                lemma_vmodels_subrange(items@, 1, items@.len() as int);
                                lemma_wf_vals(vmodels(args@), old(self)@.len() as int, 0);
                                assert(wf_val(
                                    ValModel::ListV(vmodels(args@)),
                                    old(self)@.len() as int,
                                )) by {
                                    assert forall|j: int|
                                        0 <= j < vmodels(args@).len() implies wf_val(
                                        #[trigger] vmodels(args@)[j],
                                        old(self)@.len() as int,
                                    ) by {
                                        assert(vmodels(args@)[j] == itemsm[j + 1]);
                                    }
                                }
                            }
                            return self.eval_let(args, scope, depth - 1);
                        }
                    },
                    _ => {},
                }
                self.eval_application(items, scope, depth - 1)
            },
            _ => Ok(expr.clone()),
        }
    }

    /// The `if` form: condition first, then exactly one branch.
    #[verifier::rlimit(50)]
    fn eval_if(&mut self, args: &[Value], scope: usize, depth: usize) -> (r: Result<Value, Error>)
        requires
            old(self).wf(),
            scope < old(self)@.len(),
            wf_val(ValModel::ListV(vmodels(args@)), old(self)@.len() as int),
        ensures
            final(self).wf(),
            old(self)@.len() <= final(self)@.len(),
            res_model(r) == eval_if_m(old(self)@, scope as int, vmodels(args@), depth as nat).0,
            final(self)@ == eval_if_m(old(self)@, scope as int, vmodels(args@), depth as nat).1,
            match r {
                Ok(v) => wf_val(v@, final(self)@.len() as int),
                Err(_) => true,
            },
        decreases depth, 1int, 0int,
    {
        if args.len() < 2 || args.len() > 3 {
            return Err(Error::arity_error("if", 3, args.len()));
        }
        proof {
            assert forall|j: int| 0 <= j < vmodels(args@).len() implies wf_val(
                #[trigger] vmodels(args@)[j],
                old(self)@.len() as int,
            ) by {
                lemma_wf_vals(vmodels(args@), old(self)@.len() as int, 0);
                assert(wf_val(ValModel::ListV(vmodels(args@)), old(self)@.len() as int));
            }
            assert(vmodels(args@)[0] == args@[0]@);
            assert(vmodels(args@)[1] == args@[1]@);
            if args@.len() == 3 {
                assert(vmodels(args@)[2] == args@[2]@);
            }
        }
        let c = match self.eval_rec(&args[0], scope, depth) {
            Ok(v) => v,
            Err(e) => {
                return Err(e);
            },
        };
        if c.is_truthy() {
            proof {
                lemma_wf_val_mono(args@[1]@, old(self)@.len() as int, self@.len() as int);
            }
            self.eval_rec(&args[1], scope, depth)
        } else if args.len() == 3 {
            proof {
                lemma_wf_val_mono(args@[2]@, old(self)@.len() as int, self@.len() as int);
            }
            self.eval_rec(&args[2], scope, depth)
        } else {
            Ok(Value::Nil)
        }
    }

    /// The `define` form: evaluate the value, then bind the name in the
    /// current scope.
    #[verifier::rlimit(50)]
    fn eval_define(&mut self, args: &[Value], scope: usize, depth: usize) -> (r: Result<
        Value,
        Error,
    >)
        requires
            old(self).wf(),
            scope < old(self)@.len(),
            wf_val(ValModel::ListV(vmodels(args@)), old(self)@.len() as int),
        ensures
            final(self).wf(),
            old(self)@.len() <= final(self)@.len(),
            res_model(r) == eval_define_m(old(self)@, scope as int, vmodels(args@), depth as nat).0,
            final(self)@ == eval_define_m(old(self)@, scope as int, vmodels(args@), depth as nat).1,
            match r {
                Ok(v) => wf_val(v@, final(self)@.len() as int),
                Err(_) => true,
            },
        decreases depth, 1int, 0int,
    {
        if args.len() != 2 {
            return Err(Error::arity_error("define", 2, args.len()));
        }
        proof {
            assert forall|j: int| 0 <= j < vmodels(args@).len() implies wf_val(
                #[trigger] vmodels(args@)[j],
                old(self)@.len() as int,
            ) by {
                lemma_wf_vals(vmodels(args@), old(self)@.len() as int, 0);
                assert(wf_val(ValModel::ListV(vmodels(args@)), old(self)@.len() as int));
            }
            assert(vmodels(args@)[0] == args@[0]@);
            assert(vmodels(args@)[1] == args@[1]@);
        }
        let name = match &args[0] {
            Value::Symbol(s) => s,
            v => {
                return Err(Error::type_error("symbol", v.kind_name()));
            },
        };
        let value = match self.eval_rec(&args[1], scope, depth) {
            Ok(v) => v,
            Err(e) => {
                return Err(e);
            },
        };
        self.env.define(scope, name.as_str(), value);
        Ok(Value::Nil)
    }

    /// The `let` form: evaluate every binding expression in the outer
    /// scope, then bind them all in one new child scope and evaluate the
    /// body there.
    #[verifier::rlimit(50)]
    #[verifier::loop_isolation(false)]
    fn eval_let(&mut self, args: &[Value], scope: usize, depth: usize) -> (r: Result<Value, Error>)
        requires
            old(self).wf(),
            scope < old(self)@.len(),
            wf_val(ValModel::ListV(vmodels(args@)), old(self)@.len() as int),
        ensures
            final(self).wf(),
            old(self)@.len() <= final(self)@.len(),
            res_model(r) == eval_let_m(old(self)@, scope as int, vmodels(args@), depth as nat).0,
            final(self)@ == eval_let_m(old(self)@, scope as int, vmodels(args@), depth as nat).1,
            match r {
                Ok(v) => wf_val(v@, final(self)@.len() as int),
                Err(_) => true,
            },
        decreases depth, 2int, 0int,
    {
        if args.len() != 2 {
            return Err(Error::arity_error("let", 2, args.len()));
        }
        proof {
            assert forall|j: int| 0 <= j < vmodels(args@).len() implies wf_val(
                #[trigger] vmodels(args@)[j],
                old(self)@.len() as int,
            ) by {
                lemma_wf_vals(vmodels(args@), old(self)@.len() as int, 0);
                assert(wf_val(ValModel::ListV(vmodels(args@)), old(self)@.len() as int));
            }
            assert(vmodels(args@)[0] == args@[0]@);
            assert(vmodels(args@)[1] == args@[1]@);
        }
        let bs = match &args[0] {
            Value::List(items) => items,
            v => {
                return Err(Error::type_error("list", v.kind_name()));
            },
        };
        proof {
            broadcast use lemma_list_model;

            assert(args@[0]@ == ValModel::ListV(vmodels(bs@)));
            assert forall|j: int| 0 <= j < vmodels(bs@).len() implies wf_val(
                #[trigger] vmodels(bs@)[j],
                old(self)@.len() as int,
            ) by {
                lemma_wf_vals(vmodels(bs@), old(self)@.len() as int, 0);
                assert(wf_val(ValModel::ListV(vmodels(bs@)), old(self)@.len() as int));
            }
        }
        let ghost bsm = vmodels(bs@);
        let ghost f = depth as nat;
        let mut bound: Vec<(String, Value)> = Vec::new();
        let mut i: usize = 0;
        while i < bs.len()
            invariant
                self.wf(),
                old(self)@.len() <= self@.len(),
                scope < self@.len(),
                i <= bs@.len(),
                bsm == vmodels(bs@),
                bsm.len() == bs@.len(),
                forall|j: int| 0 <= j < bsm.len() ==> wf_val(#[trigger] bsm[j], old(self)@.len() as int),
                forall|j: int|
                    0 <= j < bound@.len() ==> wf_val(#[trigger] bound@[j].1@, self@.len() as int),
                eval_bindings_m(old(self)@, scope as int, bsm, 0, f) == ({
                    let (rest, emf) = eval_bindings_m(self@, scope as int, bsm, i as int, f);
                    (
                        match rest {
                            Ok(more) => Ok(pmodels(bound@) + more),
                            Err(e) => Err::<Seq<(Seq<char>, ValModel)>, ErrModel>(e),
                        },
                        emf,
                    )
                }),
            decreases bs@.len() - i,
        {
            proof {
                assert(vmodels(bs@)[i as int] == bs@[i as int]@);
            }
            let pair = match &bs[i] {
                Value::List(p) => p,
                _ => {
                    proof {
                        lemma_eval_bindings_unfold(self@, scope as int, bsm, i as int, f);
                        lemma_eval_let_unfold(
                            old(self)@,
                            scope as int,
                            vmodels(args@),
                            depth as nat,
                        );
                        assert(eval_bindings_m(old(self)@, scope as int, bsm, 0, f).0 == Err::<
                            Seq<(Seq<char>, ValModel)>,
                            ErrModel,
                        >(ErrModel::RuntimeErrM("let binding must be a list of (name value) pairs"@)));
                    }
                    return Err(Error::runtime("let binding must be a list of (name value) pairs"));
                },
            };
            proof {
                broadcast use lemma_list_model;

                assert(bs@[i as int]@ == ValModel::ListV(vmodels(pair@)));
                assert(vmodels(pair@).len() == pair@.len());
            }
            if pair.len() != 2 {
                proof {
                    lemma_eval_bindings_unfold(self@, scope as int, bsm, i as int, f);
                    lemma_eval_let_unfold(old(self)@, scope as int, vmodels(args@), depth as nat);
                    assert(eval_bindings_m(old(self)@, scope as int, bsm, 0, f).0 == Err::<
                        Seq<(Seq<char>, ValModel)>,
                        ErrModel,
                    >(ErrModel::RuntimeErrM("let binding must be a list of (name value) pairs"@)));
                }
                return Err(Error::runtime("let binding must be a list of (name value) pairs"));
            }
            proof {
                assert(vmodels(pair@)[0] == pair@[0]@);
                assert(vmodels(pair@)[1] == pair@[1]@);
                assert(wf_val(bsm[i as int], old(self)@.len() as int));
                lemma_wf_vals(vmodels(pair@), old(self)@.len() as int, 0);
                assert(wf_val(vmodels(pair@)[1], old(self)@.len() as int));
                lemma_wf_val_mono(pair@[1]@, old(self)@.len() as int, self@.len() as int);
            }
            let name = match &pair[0] {
                Value::Symbol(s) => s,
                v => {
                    proof {
                        lemma_eval_bindings_unfold(self@, scope as int, bsm, i as int, f);
                        lemma_eval_let_unfold(
                            old(self)@,
                            scope as int,
                            vmodels(args@),
                            depth as nat,
                        );
                    }
                    return Err(Error::type_error("symbol", v.kind_name()));
                },
            };
            let ghost pre = self@;
            let value = match self.eval_rec(&pair[1], scope, depth) {
                Ok(v) => v,
                Err(e) => {
                    proof {
                        lemma_eval_bindings_unfold(pre, scope as int, bsm, i as int, f);
                        lemma_eval_let_unfold(
                            old(self)@,
                            scope as int,
                            vmodels(args@),
                            depth as nat,
                        );
                        assert(eval_bindings_m(pre, scope as int, bsm, i as int, f) == (
                            Err::<Seq<(Seq<char>, ValModel)>, ErrModel>(e@),
                            self@,
                        ));
                    }
                    return Err(e);
                },
            };
            proof {
                lemma_eval_bindings_unfold(pre, scope as int, bsm, i as int, f);
                assert(eval_bindings_m(pre, scope as int, bsm, i as int, f) == ({
                    let (rest, emf) = eval_bindings_m(self@, scope as int, bsm, i + 1, f);
                    (
                        match rest {
                            Ok(more) => Ok::<Seq<(Seq<char>, ValModel)>, ErrModel>(
                                seq![(name@, value@)] + more,
                            ),
                            Err(e) => Err::<Seq<(Seq<char>, ValModel)>, ErrModel>(e),
                        },
                        emf,
                    )
                }));
            }
            let ghost old_bound = bound@;
            bound.push((name.clone(), value));
            proof {
                assert(pmodels(bound@) =~= pmodels(old_bound).push((name@, value@)));
                assert forall|j: int| 0 <= j < bound@.len() implies wf_val(
                    #[trigger] bound@[j].1@,
                    self@.len() as int,
                ) by {
                    if j < old_bound.len() {
                        lemma_wf_val_mono(old_bound[j].1@, pre.len() as int, self@.len() as int);
                    }
                }
                assert forall|more: Seq<(Seq<char>, ValModel)>|
                    true implies pmodels(old_bound).push((name@, value@)) + more == pmodels(
                    old_bound,
                ) + (seq![(name@, value@)] + more) by {
                    assert(pmodels(old_bound).push((name@, value@)) + more =~= pmodels(old_bound)
                        + (seq![(name@, value@)] + more));
                }
            }
            i += 1;
        }
        proof {
            assert(eval_bindings_m(self@, scope as int, bsm, i as int, f) == (
                Ok::<Seq<(Seq<char>, ValModel)>, ErrModel>(Seq::<(Seq<char>, ValModel)>::empty()),
                self@,
            ));
            assert(pmodels(bound@) + Seq::<(Seq<char>, ValModel)>::empty() =~= pmodels(bound@));
        }
        let child = self.env.child(scope);
        proof {
            assert forall|j: int| 0 <= j < bound@.len() implies wf_val(
                #[trigger] bound@[j].1@,
                self@.len() as int,
            ) by {
                lemma_wf_val_mono(bound@[j].1@, self@.len() as int - 1, self@.len() as int);
            }
        }
        let ghost em2 = self@;
        let mut k: usize = 0;
        while k < bound.len()
            invariant
                self.wf(),
                em2.len() <= self@.len(),
                child < self@.len(),
                k <= bound@.len(),
                forall|j: int|
                    0 <= j < bound@.len() ==> wf_val(#[trigger] bound@[j].1@, em2.len() as int),
                define_all_m(em2, child as int, pmodels(bound@), 0) == define_all_m(
                    self@,
                    child as int,
                    pmodels(bound@),
                    k as int,
                ),
                self@.len() == em2.len(),
            decreases bound@.len() - k,
        {
            proof {
                assert(pmodels(bound@)[k as int] == (bound@[k as int].0@, bound@[k as int].1@));
                lemma_wf_val_mono(bound@[k as int].1@, em2.len() as int, self@.len() as int);
            }
            let nm = bound[k].0.clone();
            let v = bound[k].1.clone();
            self.env.define(child, nm.as_str(), v);
            k += 1;
        }
        proof {
            assert(define_all_m(self@, child as int, pmodels(bound@), bound@.len() as int)
                == self@);
            lemma_eval_let_unfold(old(self)@, scope as int, vmodels(args@), depth as nat);
            lemma_wf_val_mono(args@[1]@, old(self)@.len() as int, self@.len() as int);
        }
        self.eval_rec(&args[1], child, depth)
    }

    /// An application: head, then arguments, then the call.
    #[verifier::rlimit(50)]
    fn eval_application(&mut self, items: &Vec<Value>, scope: usize, depth: usize) -> (r: Result<
        Value,
        Error,
    >)
        requires
            old(self).wf(),
            scope < old(self)@.len(),
            items@.len() >= 1,
            wf_val(ValModel::ListV(vmodels(items@)), old(self)@.len() as int),
        ensures
            final(self).wf(),
            old(self)@.len() <= final(self)@.len(),
            res_model(r) == eval_application_m(
                old(self)@,
                scope as int,
                vmodels(items@),
                depth as nat,
            ).0,
            final(self)@ == eval_application_m(
                old(self)@,
                scope as int,
                vmodels(items@),
                depth as nat,
            ).1,
            match r {
                Ok(v) => wf_val(v@, final(self)@.len() as int),
                Err(_) => true,
            },
        decreases depth, 2int, 0int,
    {
        proof {
            lemma_wf_vals(vmodels(items@), old(self)@.len() as int, 0);
            assert(vmodels(items@)[0] == items@[0]@);
            assert(wf_val(vmodels(items@)[0], old(self)@.len() as int));
        }
        let f = match self.eval_rec(&items[0], scope, depth) {
            Ok(v) => v,
            Err(e) => {
                return Err(e);
            },
        };
        proof {
            lemma_wf_val_mono(
                ValModel::ListV(vmodels(items@)),
                old(self)@.len() as int,
                self@.len() as int,
            );
        }
        let args = match self.eval_args(items, scope, depth) {
            Ok(vs) => vs,
            Err(e) => {
                return Err(e);
            },
        };
        proof {
            lemma_wf_val_mono(f@, eval_m(old(self)@, scope as int, items@[0]@, depth as nat).1.len() as int, self@.len() as int);
        }
        self.apply(f, args, depth)
    }

    /// Evaluates the arguments of an application, left to right, in the
    /// caller's scope.
    #[verifier::rlimit(50)]
    #[verifier::loop_isolation(false)]
    fn eval_args(&mut self, items: &Vec<Value>, scope: usize, depth: usize) -> (r: Result<
        Vec<Value>,
        Error,
    >)
        requires
            old(self).wf(),
            scope < old(self)@.len(),
            wf_val(ValModel::ListV(vmodels(items@)), old(self)@.len() as int),
        ensures
            final(self).wf(),
            old(self)@.len() <= final(self)@.len(),
            ({
                let (rm, em) = eval_args_m(old(self)@, scope as int, vmodels(items@), 1, depth as nat);
                &&& final(self)@ == em
                &&& match r {
                    Ok(vs) => rm == Ok::<Seq<ValModel>, ErrModel>(vmodels(vs@)) && forall|j: int|
                        0 <= j < vs@.len() ==> wf_val(
                            #[trigger] vmodels(vs@)[j],
                            final(self)@.len() as int,
                        ),
                    Err(e) => rm == Err::<Seq<ValModel>, ErrModel>(e@),
                }
            }),
        decreases depth, 1int, 0int,
    {
        let ghost itemsm = vmodels(items@);
        let ghost f = depth as nat;
        proof {
            lemma_wf_vals(itemsm, old(self)@.len() as int, 0);
            assert forall|j: int| 0 <= j < itemsm.len() implies wf_val(
                #[trigger] itemsm[j],
                old(self)@.len() as int,
            ) by {
                assert(wf_val(ValModel::ListV(itemsm), old(self)@.len() as int));
            }
        }
        let mut out: Vec<Value> = Vec::new();
        let mut i: usize = 1;
        if items.len() < 1 {
            proof {
                assert(eval_args_m(old(self)@, scope as int, itemsm, 1, f) == (
                    Ok::<Seq<ValModel>, ErrModel>(Seq::<ValModel>::empty()),
                    old(self)@,
                ));
                assert(vmodels(out@) =~= Seq::<ValModel>::empty());
            }
            return Ok(out);
        }
        while i < items.len()
            invariant
                self.wf(),
                old(self)@.len() <= self@.len(),
                scope < self@.len(),
                1 <= i <= items@.len(),
                itemsm == vmodels(items@),
                itemsm.len() == items@.len(),
                forall|j: int|
                    0 <= j < itemsm.len() ==> wf_val(#[trigger] itemsm[j], old(self)@.len() as int),
                forall|j: int|
                    0 <= j < out@.len() ==> wf_val(#[trigger] vmodels(out@)[j], self@.len() as int),
                eval_args_m(old(self)@, scope as int, itemsm, 1, f) == ({
                    let (rest, emf) = eval_args_m(self@, scope as int, itemsm, i as int, f);
                    (
                        match rest {
                            Ok(vs) => Ok(vmodels(out@) + vs),
                            Err(e) => Err::<Seq<ValModel>, ErrModel>(e),
                        },
                        emf,
                    )
                }),
            decreases items@.len() - i,
        {
            proof {
                assert(vmodels(items@)[i as int] == items@[i as int]@);
                lemma_wf_val_mono(items@[i as int]@, old(self)@.len() as int, self@.len() as int);
            }
            let ghost pre = self@;
            let v = match self.eval_rec(&items[i], scope, depth) {
                Ok(v) => v,
                Err(e) => {
                    proof {
                        lemma_eval_args_unfold(pre, scope as int, itemsm, i as int, f);
                        assert(eval_args_m(pre, scope as int, itemsm, i as int, f) == (
                            Err::<Seq<ValModel>, ErrModel>(e@),
                            self@,
                        ));
                    }
                    return Err(e);
                },
            };
            proof {
                lemma_eval_args_unfold(pre, scope as int, itemsm, i as int, f);
                assert(eval_args_m(pre, scope as int, itemsm, i as int, f) == ({
                    let (rest, emf) = eval_args_m(self@, scope as int, itemsm, i + 1, f);
                    (
                        match rest {
                            Ok(vs) => Ok::<Seq<ValModel>, ErrModel>(seq![v@] + vs),
                            Err(e) => Err::<Seq<ValModel>, ErrModel>(e),
                        },
                        emf,
                    )
                }));
            }
            let ghost old_out = out@;
            out.push(v);
            proof {
                assert(vmodels(out@) =~= vmodels(old_out).push(v@));
                assert forall|j: int| 0 <= j < out@.len() implies wf_val(
                    #[trigger] vmodels(out@)[j],
                    self@.len() as int,
                ) by {
                    if j < old_out.len() {
                        assert(vmodels(out@)[j] == vmodels(old_out)[j]);
                        lemma_wf_val_mono(vmodels(old_out)[j], pre.len() as int, self@.len() as int);
                    }
                }
                assert forall|vs: Seq<ValModel>|
                    true implies vmodels(old_out).push(v@) + vs == vmodels(old_out) + (seq![v@]
                    + vs) by {
                    assert(vmodels(old_out).push(v@) + vs =~= vmodels(old_out) + (seq![v@] + vs));
                }
            }
            i += 1;
        }
        proof {
            assert(eval_args_m(self@, scope as int, itemsm, i as int, f) == (
                Ok::<Seq<ValModel>, ErrModel>(Seq::<ValModel>::empty()),
                self@,
            ));
            assert(vmodels(out@) + Seq::<ValModel>::empty() =~= vmodels(out@));
        }
        Ok(out)
    }

    /// Applies a procedure value to evaluated arguments.
    #[verifier::rlimit(50)]
    #[verifier::loop_isolation(false)]
    fn apply(&mut self, f: Value, args: Vec<Value>, depth: usize) -> (r: Result<Value, Error>)
        requires
            old(self).wf(),
            wf_val(f@, old(self)@.len() as int),
            forall|j: int|
                0 <= j < args@.len() ==> wf_val(#[trigger] vmodels(args@)[j], old(self)@.len() as int),
        ensures
            final(self).wf(),
            old(self)@.len() <= final(self)@.len(),
            res_model(r) == apply_m(old(self)@, f@, vmodels(args@), depth as nat).0,
            final(self)@ == apply_m(old(self)@, f@, vmodels(args@), depth as nat).1,
            match r {
                Ok(v) => wf_val(v@, final(self)@.len() as int),
                Err(_) => true,
            },
        decreases depth, 1int, 0int,
    {
        match f {
            Value::Builtin(p) => {
                let r = apply_primitive(p, args.as_slice());
                proof {
                    crate::builtin::lemma_prim_wf(p, vmodels(args@), self@.len() as int);
                }
                r
            },
            Value::Lambda { params, body, env } => {
                proof {
                    broadcast use lemma_lambda_model;

                    assert(vmodel(Value::Lambda { params, body, env }) == (ValModel::ClosV {
                        params: nmodels(params@),
                        body: Box::new(vmodel(*body)),
                        env: env as int,
                    }));
                    assert(nmodels(params@).len() == params@.len());
                }
                if args.len() != params.len() {
                    return Err(Error::arity_error("lambda", params.len(), args.len()));
                }
                let child = self.env.with_parent(env);
                let ghost em1 = self@;
                proof {
                    assert forall|j: int| 0 <= j < args@.len() implies wf_val(
                        #[trigger] vmodels(args@)[j],
                        em1.len() as int,
                    ) by {
                        lemma_wf_val_mono(
                            vmodels(args@)[j],
                            old(self)@.len() as int,
                            em1.len() as int,
                        );
                    }
                }
                let mut k: usize = 0;
                while k < params.len()
                    invariant
                        self.wf(),
                        em1.len() <= self@.len(),
                        self@.len() == em1.len(),
                        child < self@.len(),
                        k <= params@.len(),
                        params@.len() == args@.len(),
                        forall|j: int|
                            0 <= j < args@.len() ==> wf_val(
                                #[trigger] vmodels(args@)[j],
                                em1.len() as int,
                            ),
                        bind_params_m(
                            em1,
                            child as int,
                            nmodels(params@),
                            vmodels(args@),
                            0,
                        ) == bind_params_m(
                            self@,
                            child as int,
                            nmodels(params@),
                            vmodels(args@),
                            k as int,
                        ),
                    decreases params@.len() - k,
                {
                    proof {
                        assert(nmodels(params@)[k as int] == params@[k as int]@);
                        assert(vmodels(args@)[k as int] == args@[k as int]@);
                    }
                    let nm = params[k].clone();
                    let v = args[k].clone();
                    self.env.define(child, nm.as_str(), v);
                    k += 1;
                }
                proof {
                    assert(bind_params_m(
                        self@,
                        child as int,
                        nmodels(params@),
                        vmodels(args@),
                        params@.len() as int,
                    ) == self@);
                    assert(wf_val(vmodel(*body), old(self)@.len() as int));
                    lemma_wf_val_mono(vmodel(*body), old(self)@.len() as int, self@.len() as int);
                }
                self.eval_rec(&body, child, depth)
            },
            _ => Err(Error::type_error("function", f.kind_name())),
        }
    }
}

/// The `quote` form: its argument, unevaluated.
#[verifier::rlimit(50)]
fn eval_quote(args: &[Value]) -> (r: Result<Value, Error>)
    ensures
        res_model(r) == eval_quote_m(vmodels(args@)),
        match r {
            Ok(v) => v@ == vmodels(args@)[0],
            Err(_) => true,
        },
{
    if args.len() != 1 {
        return Err(Error::arity_error("quote", 1, args.len()));
    }
    proof {
        assert(vmodels(args@)[0] == args@[0]@);
    }
    Ok(args[0].clone())
}

/// The `lambda` form: a closure capturing the parameter names, the body
/// and the current scope.
#[verifier::rlimit(50)]
#[verifier::loop_isolation(false)]
fn eval_lambda(args: &[Value], scope: usize) -> (r: Result<Value, Error>)
    ensures
        res_model(r) == eval_lambda_m(scope as int, vmodels(args@)),
{
    if args.len() != 2 {
        return Err(Error::arity_error("lambda", 2, args.len()));
    }
    proof {
        assert(vmodels(args@)[0] == args@[0]@);
        assert(vmodels(args@)[1] == args@[1]@);
    }
    let mut names: Vec<String> = Vec::new();
    match &args[0] {
        Value::List(ps) => {
            proof {
                broadcast use lemma_list_model;

                assert(args@[0]@ == ValModel::ListV(vmodels(ps@)));
                assert(vmodels(ps@).len() == ps@.len());
            }
            let ghost psm = vmodels(ps@);
            let mut i: usize = 0;
            while i < ps.len()
                invariant
                    i <= ps@.len(),
                    psm == vmodels(ps@),
                    psm.len() == ps@.len(),
                    names@.len() == i,
                    params_from_m(psm, 0) == (match params_from_m(psm, i as int) {
                        Ok(rest) => Ok::<Seq<Seq<char>>, ErrModel>(nmodels(names@) + rest),
                        Err(e) => Err::<Seq<Seq<char>>, ErrModel>(e),
                    }),
                decreases ps@.len() - i,
            {
                proof {
                    assert(vmodels(ps@)[i as int] == ps@[i as int]@);
                }
                match &ps[i] {
                    Value::Symbol(s) => {
                        let ghost old_names = names@;
                        names.push(s.clone());
                        proof {
                            assert(nmodels(names@) =~= nmodels(old_names).push(s@));
                            assert forall|rest: Seq<Seq<char>>|
                                true implies nmodels(old_names).push(s@) + rest == nmodels(
                                old_names,
                            ) + (seq![s@] + rest) by {
                                assert(nmodels(old_names).push(s@) + rest =~= nmodels(old_names) + (
                                seq![s@] + rest));
                            }
                        }
                        i += 1;
                    },
                    v => {
                        proof {
                            lemma_params_from_unfold(psm, i as int);
                            lemma_eval_lambda_unfold(scope as int, vmodels(args@));
                            assert(params_from_m(psm, i as int) == Err::<Seq<Seq<char>>, ErrModel>(
                                ErrModel::TypeErrM {
                                    expected: "symbol"@,
                                    actual: type_name_str(psm[i as int]),
                                },
                            ));
                        }
                        return Err(Error::type_error("symbol", v.kind_name()));
                    },
                }
            }
            proof {
                assert(params_from_m(psm, i as int) == Ok::<Seq<Seq<char>>, ErrModel>(
                    Seq::<Seq<char>>::empty(),
                ));
                assert(nmodels(names@) + Seq::<Seq<char>>::empty() =~= nmodels(names@));
            }
        },
        Value::Nil => {
            proof {
                assert(nmodels(names@) =~= Seq::<Seq<char>>::empty());
            }
        },
        v => {
            return Err(Error::type_error("list", v.kind_name()));
        },
    }
    let body = Box::new(args[1].clone());
    let r = Value::Lambda { params: names, body, env: scope };
    proof {
        broadcast use lemma_lambda_model;

    }
    Ok(r)
}

} // verus!
