//! Laws of the environment and the evaluator, proved once and for all:
//! definition visibility, shadowing, closure capture by reference, arity
//! and type enforcement on application.

use crate::env::{define_m, lookup_m, wf_env, ScopeModel};
use crate::error::ErrModel;
use crate::eval::{apply_m, bind_params_m, eval_bindings_m, eval_define_m, eval_let_m, eval_m, EnvModel};
use crate::value::{type_name_str, ValModel};
use vstd::prelude::*;

verus! {

/// Definition visibility: after binding `name` to `v` in scope `scope`,
/// looking `name` up through `scope` finds exactly `v`. Lookup takes the
/// environment as it stands, so the binding is seen by every later
/// lookup against the same environment, however many there are.
pub proof fn lemma_define_visible(em: EnvModel, scope: int, name: Seq<char>, v: ValModel)
    requires
        0 <= scope < em.len(),
    ensures
        lookup_m(define_m(em, scope, name, v), scope, name) == Some(v),
{
    let em2 = define_m(em, scope, name, v);
    assert(em2[scope].table.contains_key(name));
}

/// Evaluating a `define` form against a scope makes the binding visible
/// to any later evaluation of that symbol against the same scope: the
/// form yields `Nil`, and afterwards both a direct lookup and a fresh
/// evaluation of the bare symbol give the defined value.
pub proof fn lemma_eval_define_visible(
    em: EnvModel,
    scope: int,
    name: Seq<char>,
    lit: ValModel,
    fuel: nat,
)
    requires
        0 <= scope < em.len(),
        fuel >= 2,
        !(lit is SymV),
        !(lit is ListV),
    ensures
        ({
            let form = ValModel::ListV(
                seq![ValModel::SymV("define"@), ValModel::SymV(name), lit],
            );
            let (r, em2) = eval_m(em, scope, form, fuel);
            &&& r == Ok::<ValModel, ErrModel>(ValModel::NilV)
            &&& lookup_m(em2, scope, name) == Some(lit)
            &&& eval_m(em2, scope, ValModel::SymV(name), fuel).0 == Ok::<ValModel, ErrModel>(lit)
        }),
{
    reveal_strlit("define");
    reveal_strlit("quote");
    reveal_strlit("if");
    reveal_strlit("lambda");
    reveal_strlit("let");
    let items = seq![ValModel::SymV("define"@), ValModel::SymV(name), lit];
    let form = ValModel::ListV(items);
    assert(("define"@).len() == 6);
    assert(("quote"@).len() == 5);
    assert(("if"@).len() == 2);
    assert("define"@ != "quote"@ && "define"@ != "if"@);
    assert(items[0] == ValModel::SymV("define"@));
    let args = items.subrange(1, 3);
    assert(args.len() == 2);
    assert(args[0] == ValModel::SymV(name));
    assert(args[1] == lit);
    let sub = (fuel - 1) as nat;
    assert(eval_m(em, scope, lit, sub).0 == Ok::<ValModel, ErrModel>(lit));
    assert(eval_m(em, scope, form, fuel) == eval_define_m(em, scope, args, sub));
    let em2 = define_m(em, scope, name, lit);
    lemma_define_visible(em, scope, name, lit);
}

/// Shadowing: binding a name in a later scope never changes what any
/// earlier scope's chain sees, for any name. In particular a child
/// scope's binding shadows without mutating the parent.
pub proof fn lemma_shadowing(
    em: EnvModel,
    upper: int,
    lower: int,
    name: Seq<char>,
    x: Seq<char>,
    v: ValModel,
)
    requires
        wf_env(em),
        0 <= upper < lower < em.len(),
    ensures
        lookup_m(define_m(em, lower, name, v), upper, x) == lookup_m(em, upper, x),
    decreases upper,
{
    let em2 = define_m(em, lower, name, v);
    assert(em2[upper] == em[upper]);
    if !em[upper].table.contains_key(x) {
        match em[upper].parent {
            Some(p) => {
                if 0 <= p < upper {
                    lemma_shadowing(em, p, lower, name, x, v);
                }
            },
            None => {},
        }
    }
}

/// Non-sequential `let`: every binding expression is evaluated in the
/// outer scope, simultaneously, so a binding whose expression reads a
/// name bound only by an earlier binding of the same `let` fails with
/// that name undefined — for any two names and any scope where the first
/// name is unbound.
pub proof fn lemma_let_nonsequential(
    em: EnvModel,
    scope: int,
    x: Seq<char>,
    y: Seq<char>,
    fuel: nat,
)
    requires
        0 <= scope < em.len(),
        fuel >= 3,
        lookup_m(em, scope, x) is None,
    ensures
        ({
            // (let ((x 1) (y x)) y)
            let form = ValModel::ListV(
                seq![
                    ValModel::SymV("let"@),
                    ValModel::ListV(
                        seq![
                            ValModel::ListV(seq![ValModel::SymV(x), ValModel::IntV(1)]),
                            ValModel::ListV(seq![ValModel::SymV(y), ValModel::SymV(x)]),
                        ],
                    ),
                    ValModel::SymV(y),
                ],
            );
            eval_m(em, scope, form, fuel) == (
                Err::<ValModel, ErrModel>(ErrModel::UndefinedSymM(x)),
                em,
            )
        }),
{
    reveal_strlit("let");
    reveal_strlit("quote");
    reveal_strlit("if");
    reveal_strlit("define");
    reveal_strlit("lambda");
    assert(("let"@).len() == 3);
    assert(("quote"@).len() == 5);
    assert(("if"@).len() == 2);
    assert(("define"@).len() == 6);
    assert(("lambda"@).len() == 6);
    let bs = seq![
        ValModel::ListV(seq![ValModel::SymV(x), ValModel::IntV(1)]),
        ValModel::ListV(seq![ValModel::SymV(y), ValModel::SymV(x)]),
    ];
    let items = seq![ValModel::SymV("let"@), ValModel::ListV(bs), ValModel::SymV(y)];
    let form = ValModel::ListV(items);
    assert(items[0] == ValModel::SymV("let"@));
    assert("let"@ != "quote"@ && "let"@ != "if"@ && "let"@ != "define"@ && "let"@ != "lambda"@);
    let args = items.subrange(1, 3);
    assert(args.len() == 2);
    assert(args[0] == ValModel::ListV(bs));
    let sub = (fuel - 1) as nat;
    assert(eval_m(em, scope, form, fuel) == eval_let_m(em, scope, args, sub));
    let pair0 = bs[0]->ListV_0;
    let pair1 = bs[1]->ListV_0;
    assert(pair0.len() == 2 && pair0[0] == ValModel::SymV(x) && pair0[1] == ValModel::IntV(1));
    assert(pair1.len() == 2 && pair1[0] == ValModel::SymV(y) && pair1[1] == ValModel::SymV(x));
    assert(eval_m(em, scope, ValModel::IntV(1), sub) == (
        Ok::<ValModel, ErrModel>(ValModel::IntV(1)),
        em,
    ));
    assert(eval_m(em, scope, ValModel::SymV(x), sub) == (
        Err::<ValModel, ErrModel>(ErrModel::UndefinedSymM(x)),
        em,
    ));
    assert(eval_bindings_m(em, scope, bs, 1, sub) == (
        Err::<Seq<(Seq<char>, ValModel)>, ErrModel>(ErrModel::UndefinedSymM(x)),
        em,
    ));
    assert(eval_bindings_m(em, scope, bs, 0, sub) == (
        Err::<Seq<(Seq<char>, ValModel)>, ErrModel>(ErrModel::UndefinedSymM(x)),
        em,
    ));
}

/// Closure capture by reference: a closure keeps the index of its scope,
/// not a snapshot of its contents, so a name defined in that scope after
/// the closure was created is seen when the closure is finally called.
pub proof fn lemma_closure_sees_later_define(
    em: EnvModel,
    scope: int,
    name: Seq<char>,
    v: ValModel,
    fuel: nat,
)
    requires
        0 <= scope < em.len(),
        fuel >= 1,
    ensures
        ({
            // a closure made in `scope` before the definition, whose body
            // reads the name
            let clos = ValModel::ClosV {
                params: Seq::empty(),
                body: Box::new(ValModel::SymV(name)),
                env: scope,
            };
            // the definition happens after the closure exists
            let em2 = define_m(em, scope, name, v);
            // the call still sees it
            apply_m(em2, clos, Seq::empty(), fuel).0 == Ok::<ValModel, ErrModel>(v)
        }),
{
    let clos = ValModel::ClosV {
        params: Seq::empty(),
        body: Box::new(ValModel::SymV(name)),
        env: scope,
    };
    let em2 = define_m(em, scope, name, v);
    let child = em2.len() as int;
    let em3 = em2.push(
        ScopeModel { table: Map::<Seq<char>, ValModel>::empty(), parent: Some(scope) },
    );
    assert(bind_params_m(em3, child, Seq::empty(), Seq::empty(), 0) == em3);
    assert(em3[child].table =~= Map::<Seq<char>, ValModel>::empty());
    assert(!em3[child].table.contains_key(name));
    assert(em3[scope] == em2[scope]);
    assert(em2[scope].table == em[scope].table.insert(name, v));
    assert(em3[scope].table.contains_key(name));
    assert(em3[scope].table[name] == v);
    assert(lookup_m(em3, scope, name) == Some(v));
    assert(lookup_m(em3, child, name) == Some(v));
}

/// Arity enforcement: calling a closure with more or fewer arguments
/// than it has parameters fails with an arity error carrying both
/// counts, and leaves the environment unchanged.
pub proof fn lemma_closure_arity(
    em: EnvModel,
    params: Seq<Seq<char>>,
    body: Box<ValModel>,
    cenv: int,
    args: Seq<ValModel>,
    fuel: nat,
)
    requires
        args.len() != params.len(),
    ensures
        apply_m(em, ValModel::ClosV { params, body, env: cenv }, args, fuel) == (
            Err::<ValModel, ErrModel>(
                ErrModel::ArityErrM {
                    func: "lambda"@,
                    expected: params.len() as int,
                    actual: args.len() as int,
                },
            ),
            em,
        ),
{
}

/// Type enforcement: applying a value that is neither a primitive nor a
/// closure fails with a type error naming the value's kind, and leaves
/// the environment unchanged.
pub proof fn lemma_apply_non_procedure(em: EnvModel, f: ValModel, args: Seq<ValModel>, fuel: nat)
    requires
        !(f is PrimV),
        !(f is ClosV),
    ensures
        apply_m(em, f, args, fuel) == (
            Err::<ValModel, ErrModel>(
                ErrModel::TypeErrM { expected: "function"@, actual: type_name_str(f) },
            ),
            em,
        ),
{
}

} // verus!
