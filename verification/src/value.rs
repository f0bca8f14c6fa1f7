//! Runtime value representation.
//!
//! `Value` is the discriminated union of every runtime value the evaluator
//! handles. Its mathematical model is `ValModel`, a pure datatype over
//! sequences and unbounded integers; every contract in the crate speaks
//! about values through that model.

use crate::error::{ErrModel, Error};
use vstd::prelude::*;
use vstd::string::StringExecFns;

verus! {

broadcast use vstd::std_specs::vec::group_vec_axioms;

/// Identifier of a primitive procedure. Primitives compare by name, and the
/// name is carried by this tag; `prim_name` gives the textual form.
#[derive(Clone, Copy, PartialEq, Eq, Structural, Debug)]
pub enum Prim {
    Add,
    Sub,
    Mul,
    Div,
    Lt,
    Gt,
    NumEq,
    Car,
    Cdr,
    Cons,
    ListOf,
    Length,
    IsNull,
}

/// Mathematical model of a runtime value.
///
/// Strings and symbol names are sequences of characters; lists are sequences
/// of models; a closure keeps its parameter names, its body expression and
/// the index of its captured scope in the environment arena. A float is kept
/// as the literal text it was written with: the evaluator treats floats as
/// inert data.
#[verifier::ext_equal]
pub enum ValModel {
    IntV(int),
    FloatV(Seq<char>),
    StrV(Seq<char>),
    BoolV(bool),
    SymV(Seq<char>),
    ListV(Seq<ValModel>),
    NilV,
    PrimV(Prim),
    ClosV { params: Seq<Seq<char>>, body: Box<ValModel>, env: int },
}

/// A runtime value.
///
/// `Float` carries the literal text of the float (for example `"3.14"`);
/// the evaluator never computes with floats, it only carries them.
/// `Builtin` is a primitive procedure; `Lambda` is a user closure whose
/// `env` field is the index of its captured scope in the environment arena.
#[derive(Debug)]
pub enum Value {
    Integer(i64),
    Float(String),
    Str(String),
    Bool(bool),
    Symbol(String),
    List(Vec<Value>),
    Nil,
    Builtin(Prim),
    Lambda { params: Vec<String>, body: Box<Value>, env: usize },
}

/// Model of a runtime value: the same tree over sequences and `int`.
pub open spec fn vmodel(v: Value) -> ValModel
    decreases v,
{
    match v {
        Value::Integer(n) => ValModel::IntV(n as int),
        Value::Float(s) => ValModel::FloatV(s@),
        Value::Str(s) => ValModel::StrV(s@),
        Value::Bool(b) => ValModel::BoolV(b),
        Value::Symbol(s) => ValModel::SymV(s@),
        Value::List(items) => ValModel::ListV(
            Seq::new(
                items@.len(),
                |i: int|
                    if 0 <= i < items@.len() {
                        vmodel(items[i])
                    } else {
                        ValModel::NilV
                    },
            ),
        ),
        Value::Nil => ValModel::NilV,
        Value::Builtin(p) => ValModel::PrimV(p),
        Value::Lambda { params, body, env } => ValModel::ClosV {
            params: Seq::new(params@.len(), |i: int| params@[i]@),
            body: Box::new(vmodel(*body)),
            env: env as int,
        },
    }
}

impl View for Value {
    type V = ValModel;

    open spec fn view(&self) -> ValModel {
        vmodel(*self)
    }
}

/// Model of a sequence of values, element by element.
pub open spec fn vmodels(items: Seq<Value>) -> Seq<ValModel> {
    Seq::new(items.len(), |i: int| vmodel(items[i]))
}

/// The model of a list value is the list of the element models.
pub broadcast proof fn lemma_list_model(items: Vec<Value>)
    ensures
        vmodel(Value::List(items)) == ValModel::ListV(#[trigger] vmodels(items@)),
{
    let s1 = vmodel(Value::List(items))->ListV_0;
    let s2 = vmodels(items@);
    assert forall|i: int| 0 <= i < s1.len() implies s1[i] == s2[i] by {}
    assert(s1 =~= s2);
}

/// Taking models commutes with taking a subrange.
pub proof fn lemma_vmodels_subrange(s: Seq<Value>, a: int, b: int)
    requires
        0 <= a <= b <= s.len(),
    ensures
        vmodels(s.subrange(a, b)) == vmodels(s).subrange(a, b),
{
    assert forall|i: int| 0 <= i < b - a implies vmodels(s.subrange(a, b))[i] == vmodels(
        s,
    ).subrange(a, b)[i] by {}
    assert(vmodels(s.subrange(a, b)) =~= vmodels(s).subrange(a, b));
}

/// Model of a sequence of names, element by element.
pub open spec fn nmodels(names: Seq<String>) -> Seq<Seq<char>> {
    Seq::new(names.len(), |i: int| names[i]@)
}

/// The model of a closure is built from the name models of its parameters.
pub broadcast proof fn lemma_lambda_model(params: Vec<String>, body: Box<Value>, env: usize)
    ensures
        #[trigger] vmodel(Value::Lambda { params, body, env }) == (ValModel::ClosV {
            params: nmodels(params@),
            body: Box::new(vmodel(*body)),
            env: env as int,
        }),
{
    let s1 = vmodel(Value::Lambda { params, body, env })->params;
    let s2 = nmodels(params@);
    assert forall|i: int| 0 <= i < s1.len() implies s1[i] == s2[i] by {}
    assert(s1 =~= s2);
}

/// Bringing the two constructor lemmas into scope.
pub broadcast group group_value_models {
    lemma_list_model,
    lemma_lambda_model,
}

/// Model of a result: the value model on success, the error model on
/// failure.
pub open spec fn res_model(r: Result<Value, Error>) -> Result<ValModel, ErrModel> {
    match r {
        Ok(v) => Ok(v@),
        Err(e) => Err(e@),
    }
}

/// Well-formedness of a value model against an arena of `n` scopes: every
/// closure anywhere inside captures an existing scope.
pub open spec fn wf_val(m: ValModel, n: int) -> bool
    decreases m, 0int,
{
    match m {
        ValModel::ListV(items) => wf_vals(items, n, 0),
        ValModel::ClosV { params, body, env } => 0 <= env < n && wf_val(*body, n),
        _ => true,
    }
}

/// Well-formedness of every element from index `i` on.
pub open spec fn wf_vals(items: Seq<ValModel>, n: int, i: int) -> bool
    decreases items, items.len() - i,
{
    if i < 0 || i >= items.len() {
        true
    } else {
        wf_val(items[i], n) && wf_vals(items, n, i + 1)
    }
}

/// `wf_vals` says exactly that every element from `i` on is well-formed.
pub broadcast proof fn lemma_wf_vals(items: Seq<ValModel>, n: int, i: int)
    requires
        i >= 0,
    ensures
        #[trigger] wf_vals(items, n, i) <==> (forall|j: int|
            i <= j < items.len() ==> #[trigger] wf_val(items[j], n)),
    decreases items.len() - i,
{
    if i < items.len() {
        lemma_wf_vals(items, n, i + 1);
        assert(wf_vals(items, n, i) == (wf_val(items[i], n) && wf_vals(items, n, i + 1)));
        if wf_val(items[i], n) && (forall|j: int|
            i + 1 <= j < items.len() ==> #[trigger] wf_val(items[j], n)) {
            assert forall|j: int| i <= j < items.len() implies #[trigger] wf_val(items[j], n) by {}
        }
    } else {
        assert(wf_vals(items, n, i));
    }
}

/// A value well-formed for `n1` scopes stays well-formed when the arena
/// grows: well-formedness is monotone in the arena size.
pub proof fn lemma_wf_val_mono(m: ValModel, n1: int, n2: int)
    requires
        wf_val(m, n1),
        n1 <= n2,
    ensures
        wf_val(m, n2),
    decreases m,
{
    match m {
        ValModel::ListV(items) => {
            lemma_wf_vals(items, n1, 0);
            lemma_wf_vals(items, n2, 0);
            assert forall|i: int| 0 <= i < items.len() implies wf_val(#[trigger] items[i], n2) by {
                lemma_wf_val_mono(items[i], n1, n2);
            }
        },
        ValModel::ClosV { params, body, env } => {
            lemma_wf_val_mono(*body, n1, n2);
        },
        _ => {},
    }
}

/// A value model with no closure anywhere inside it, as the parser
/// produces them.
pub open spec fn plain_data(m: ValModel) -> bool
    decreases m, 0int,
{
    match m {
        ValModel::ListV(items) => plain_datas(items, 0),
        ValModel::ClosV { .. } => false,
        _ => true,
    }
}

/// Plainness of every element from index `i` on.
pub open spec fn plain_datas(items: Seq<ValModel>, i: int) -> bool
    decreases items, items.len() - i,
{
    if i < 0 || i >= items.len() {
        true
    } else {
        plain_data(items[i]) && plain_datas(items, i + 1)
    }
}

/// `plain_datas` says exactly that every element from `i` on is plain.
pub broadcast proof fn lemma_plain_datas(items: Seq<ValModel>, i: int)
    requires
        i >= 0,
    ensures
        #[trigger] plain_datas(items, i) <==> (forall|j: int|
            i <= j < items.len() ==> #[trigger] plain_data(items[j])),
    decreases items.len() - i,
{
    if i < items.len() {
        lemma_plain_datas(items, i + 1);
        assert(plain_datas(items, i) == (plain_data(items[i]) && plain_datas(items, i + 1)));
        if plain_data(items[i]) && (forall|j: int|
            i + 1 <= j < items.len() ==> #[trigger] plain_data(items[j])) {
            assert forall|j: int| i <= j < items.len() implies #[trigger] plain_data(items[j]) by {}
        }
    } else {
        assert(plain_datas(items, i));
    }
}

/// Plain data is well-formed against any arena.
pub proof fn lemma_plain_data_wf(m: ValModel, n: int)
    requires
        plain_data(m),
    ensures
        wf_val(m, n),
    decreases m,
{
    match m {
        ValModel::ListV(items) => {
            lemma_plain_datas(items, 0);
            lemma_wf_vals(items, n, 0);
            assert forall|i: int| 0 <= i < items.len() implies wf_val(#[trigger] items[i], n) by {
                lemma_plain_data_wf(items[i], n);
            }
        },
        _ => {},
    }
}

/// The name under which a primitive is installed and printed.
pub open spec fn prim_name(p: Prim) -> Seq<char> {
    match p {
        Prim::Add => "+"@,
        Prim::Sub => "-"@,
        Prim::Mul => "*"@,
        Prim::Div => "/"@,
        Prim::Lt => "<"@,
        Prim::Gt => ">"@,
        Prim::NumEq => "="@,
        Prim::Car => "car"@,
        Prim::Cdr => "cdr"@,
        Prim::Cons => "cons"@,
        Prim::ListOf => "list"@,
        Prim::Length => "length"@,
        Prim::IsNull => "null?"@,
    }
}

/// Textual name of the kind of a value, as diagnostics print it.
pub open spec fn type_name_str(m: ValModel) -> Seq<char> {
    match m {
        ValModel::IntV(_) => "integer"@,
        ValModel::FloatV(_) => "float"@,
        ValModel::StrV(_) => "string"@,
        ValModel::BoolV(_) => "boolean"@,
        ValModel::SymV(_) => "symbol"@,
        ValModel::ListV(_) => "list"@,
        ValModel::NilV => "nil"@,
        ValModel::PrimV(_) => "builtin-function"@,
        ValModel::ClosV { .. } => "lambda"@,
    }
}

impl Value {
    /// Everything is truthy except `Bool(false)`.
    pub fn is_truthy(&self) -> (r: bool)
        ensures
            r == (self@ != ValModel::BoolV(false)),
    {
        !matches!(self, Value::Bool(false))
    }

    /// Whether the value is `Nil`.
    pub fn is_nil(&self) -> (r: bool)
        ensures
            r == (self@ == ValModel::NilV),
    {
        matches!(self, Value::Nil)
    }

    /// Whether the value is a number (an integer or a float).
    pub fn is_number(&self) -> (r: bool)
        ensures
            r == (self@ is IntV || self@ is FloatV),
    {
        matches!(self, Value::Integer(_) | Value::Float(_))
    }

    /// Name of the kind of this value, for diagnostics.
    pub fn kind_name(&self) -> (r: &'static str)
        ensures
            r@ == type_name_str(self@),
    {
        match self {
            Value::Integer(_) => "integer",
            Value::Float(_) => "float",
            Value::Str(_) => "string",
            Value::Bool(_) => "boolean",
            Value::Symbol(_) => "symbol",
            Value::List(_) => "list",
            Value::Nil => "nil",
            Value::Builtin(_) => "builtin-function",
            Value::Lambda { .. } => "lambda",
        }
    }

    /// The integer held by the value; a type error on anything else.
    pub fn as_integer(&self) -> (r: Result<i64, Error>)
        ensures
            match r {
                Ok(n) => self@ == ValModel::IntV(n as int),
                Err(e) => !(self@ is IntV) && e@ == (ErrModel::TypeErrM {
                    expected: "integer"@,
                    actual: type_name_str(self@),
                }),
            },
    {
        match self {
            Value::Integer(n) => Ok(*n),
            _ => Err(Error::type_error("integer", self.kind_name())),
        }
    }

    /// The string held by the value; a type error on anything else.
    pub fn as_string(&self) -> (r: Result<&str, Error>)
        ensures
            match r {
                Ok(s) => self@ == ValModel::StrV(s@),
                Err(e) => !(self@ is StrV) && e@ == (ErrModel::TypeErrM {
                    expected: "string"@,
                    actual: type_name_str(self@),
                }),
            },
    {
        match self {
            Value::Str(s) => Ok(s.as_str()),
            _ => Err(Error::type_error("string", self.kind_name())),
        }
    }

    /// The elements of a list; `Nil` counts as the empty list; a type
    /// error on anything else.
    pub fn as_list(&self) -> (r: Result<Vec<Value>, Error>)
        ensures
            match r {
                Ok(items) => (self@ is ListV && self@ == ValModel::ListV(vmodels(items@))) || (
                self@ == ValModel::NilV && items@.len() == 0),
                Err(e) => !(self@ is ListV) && !(self@ is NilV) && e@ == (ErrModel::TypeErrM {
                    expected: "list"@,
                    actual: type_name_str(self@),
                }),
            },
    {
        match self {
            Value::List(items) => {
                let r = clone_values(items);
                proof {
                    broadcast use lemma_list_model;

                    assert forall|j: int| 0 <= j < r@.len() implies vmodels(r@)[j] == vmodels(
                        items@,
                    )[j] by {
                        assert(r@[j]@ == items@[j]@);
                    }
                    assert(vmodels(r@) =~= vmodels(items@));
                }
                Ok(r)
            },
            Value::Nil => Ok(Vec::new()),
            _ => Err(Error::type_error("list", self.kind_name())),
        }
    }
}

/// Clones a list of names; the copy has the same view.
pub fn clone_names(names: &Vec<String>) -> (r: Vec<String>)
    ensures
        r@ == names@,
{
    let mut out: Vec<String> = Vec::new();
    let mut i: usize = 0;
    while i < names.len()
        invariant
            i <= names@.len(),
            out@.len() == i,
            forall|j: int| 0 <= j < i ==> #[trigger] out@[j] == names@[j],
        decreases names@.len() - i,
    {
        out.push(names[i].clone());
        i += 1;
    }
    proof {
        assert(out@ =~= names@);
    }
    out
}

/// Clones every element of a slice of values.
pub fn clone_values(items: &[Value]) -> (r: Vec<Value>)
    ensures
        r@.len() == items@.len(),
        forall|i: int| 0 <= i < items@.len() ==> #[trigger] r@[i]@ == items@[i]@,
{
    let mut out: Vec<Value> = Vec::new();
    let mut i: usize = 0;
    while i < items.len()
        invariant
            i <= items@.len(),
            out@.len() == i,
            forall|j: int| 0 <= j < i ==> #[trigger] out@[j]@ == items@[j]@,
        decreases items@.len() - i,
    {
        out.push(items[i].clone());
        i += 1;
    }
    out
}

impl Clone for Value {
    /// Structure-preserving deep clone: the copy has the same model.
    fn clone(&self) -> (r: Value)
        ensures
            r@ == self@,
        decreases self,
    {
        match self {
            Value::Integer(n) => Value::Integer(*n),
            Value::Float(s) => Value::Float(s.clone()),
            Value::Str(s) => Value::Str(s.clone()),
            Value::Bool(b) => Value::Bool(*b),
            Value::Symbol(s) => Value::Symbol(s.clone()),
            Value::List(items) => {
                let mut out: Vec<Value> = Vec::new();
                let mut i: usize = 0;
                while i < items.len()
                    invariant
                        i <= items@.len(),
                        out@.len() == i,
                        *self == Value::List(*items),
                        forall|j: int| 0 <= j < i ==> #[trigger] out@[j]@ == items@[j]@,
                    decreases items@.len() - i,
                {
                    proof {
                        assert(decreases_to!(*self => items@[i as int])) by {
                            assert(decreases_to!(*self => self->List_0));
                            assert(decreases_to!(*items => items@[i as int]));
                        }
                    }
                    out.push(items[i].clone());
                    i += 1;
                }
                let r = Value::List(out);
                proof {
                    broadcast use group_value_models;

                    assert forall|j: int| 0 <= j < out@.len() implies vmodels(out@)[j] == vmodels(
                        items@,
                    )[j] by {
                        assert(out@[j]@ == items@[j]@);
                    }
                    assert(vmodels(out@) =~= vmodels(items@));
                }
                r
            },
            Value::Nil => Value::Nil,
            Value::Builtin(p) => Value::Builtin(*p),
            Value::Lambda { params, body, env } => {
                let r = Value::Lambda {
                    params: clone_names(params),
                    body: Box::new((**body).clone()),
                    env: *env,
                };
                proof {
                    broadcast use group_value_models;

                }
                r
            },
        }
    }
}

/// Deep structural equality of two values: equality of their models.
/// Strings, symbols and float literals compare character by character,
/// lists element by element; a closure compares by parameter names, body
/// and captured scope index, a primitive by its tag.
pub fn value_eq(a: &Value, b: &Value) -> (r: bool)
    ensures
        r == (a@ == b@),
    decreases a,
{
    match (a, b) {
        (Value::Integer(x), Value::Integer(y)) => x == y,
        (Value::Float(x), Value::Float(y)) => str_eq(x.as_str(), y.as_str()),
        (Value::Str(x), Value::Str(y)) => str_eq(x.as_str(), y.as_str()),
        (Value::Bool(x), Value::Bool(y)) => x == y,
        (Value::Symbol(x), Value::Symbol(y)) => str_eq(x.as_str(), y.as_str()),
        (Value::List(xs), Value::List(ys)) => {
            proof {
                broadcast use lemma_list_model;

                assert(a@ == ValModel::ListV(vmodels(xs@)));
                assert(b@ == ValModel::ListV(vmodels(ys@)));
                assert(vmodels(xs@).len() == xs@.len());
                assert(vmodels(ys@).len() == ys@.len());
            }
            if xs.len() != ys.len() {
                return false;
            }
            let mut i: usize = 0;
            while i < xs.len()
                invariant
                    xs@.len() == ys@.len(),
                    i <= xs@.len(),
                    *a == Value::List(*xs),
                    *b == Value::List(*ys),
                    a@ == ValModel::ListV(vmodels(xs@)),
                    b@ == ValModel::ListV(vmodels(ys@)),
                    forall|j: int| 0 <= j < i ==> #[trigger] xs@[j]@ == ys@[j]@,
                decreases xs@.len() - i,
            {
                proof {
                    assert(decreases_to!(*a => xs@[i as int])) by {
                        assert(decreases_to!(*a => a->List_0));
                        assert(decreases_to!(*xs => xs@[i as int]));
                    }
                }
                if !value_eq(&xs[i], &ys[i]) {
                    proof {
                        assert(vmodels(xs@)[i as int] != vmodels(ys@)[i as int]);
                    }
                    return false;
                }
                i += 1;
            }
            proof {
                assert forall|j: int| 0 <= j < xs@.len() implies vmodels(xs@)[j] == vmodels(
                    ys@,
                )[j] by {
                    assert(xs@[j]@ == ys@[j]@);
                }
                assert(vmodels(xs@) =~= vmodels(ys@));
            }
            true
        },
        (Value::Nil, Value::Nil) => true,
        (Value::Builtin(p), Value::Builtin(q)) => p == q,
        (
            Value::Lambda { params: p1, body: b1, env: e1 },
            Value::Lambda { params: p2, body: b2, env: e2 },
        ) => {
            proof {
                broadcast use lemma_lambda_model;

                assert(*a == Value::Lambda { params: *p1, body: *b1, env: *e1 });
                assert(a@ == vmodel(Value::Lambda { params: *p1, body: *b1, env: *e1 }));
                assert(a@ == (ValModel::ClosV {
                    params: nmodels(p1@),
                    body: Box::new(vmodel(**b1)),
                    env: *e1 as int,
                }));
                assert(*b == Value::Lambda { params: *p2, body: *b2, env: *e2 });
                assert(b@ == vmodel(Value::Lambda { params: *p2, body: *b2, env: *e2 }));
                assert(b@ == (ValModel::ClosV {
                    params: nmodels(p2@),
                    body: Box::new(vmodel(**b2)),
                    env: *e2 as int,
                }));
            }
            proof {
                assert(nmodels(p1@).len() == p1@.len());
                assert(nmodels(p2@).len() == p2@.len());
            }
            if p1.len() != p2.len() || e1 != e2 {
                return false;
            }
            let mut i: usize = 0;
            while i < p1.len()
                invariant
                    p1@.len() == p2@.len(),
                    i <= p1@.len(),
                    a@->params == nmodels(p1@),
                    b@->params == nmodels(p2@),
                    forall|j: int| 0 <= j < i ==> #[trigger] p1@[j]@ == p2@[j]@,
                decreases p1@.len() - i,
            {
                if !str_eq(p1[i].as_str(), p2[i].as_str()) {
                    proof {
                        assert(nmodels(p1@)[i as int] != nmodels(p2@)[i as int]);
                    }
                    return false;
                }
                i += 1;
            }
            proof {
                assert forall|j: int| 0 <= j < p1@.len() implies nmodels(p1@)[j] == nmodels(
                    p2@,
                )[j] by {
                    assert(p1@[j]@ == p2@[j]@);
                }
                assert(nmodels(p1@) =~= nmodels(p2@));
            }
            value_eq(b1, b2)
        },
        _ => {
            proof {
                assert(a@ != b@);
            }
            false
        },
    }
}

impl PartialEq for Value {
    fn eq(&self, other: &Value) -> bool {
        value_eq(self, other)
    }
}

impl vstd::std_specs::cmp::PartialEqSpecImpl for Value {
    open spec fn obeys_eq_spec() -> bool {
        true
    }

    open spec fn eq_spec(&self, other: &Value) -> bool {
        self@ == other@
    }
}

/// Textual rendering of a value, as a host prints results: integers and
/// floats print literally, strings quote-wrapped, booleans as `#t` and
/// `#f`, lists space-separated and parenthesized, `Nil` as an empty pair
/// of parens, procedures as opaque tags.
pub open spec fn vrender(m: ValModel) -> Seq<char>
    decreases m, 0int,
{
    match m {
        ValModel::IntV(n) => crate::render::int_dec_str(n),
        ValModel::FloatV(s) => s,
        ValModel::StrV(s) => "\""@ + s + "\""@,
        ValModel::BoolV(b) => if b {
            "#t"@
        } else {
            "#f"@
        },
        ValModel::SymV(s) => s,
        ValModel::ListV(items) => "("@ + vrender_items(items, 0) + ")"@,
        ValModel::NilV => "()"@,
        ValModel::PrimV(p) => "<builtin:"@ + prim_name(p) + ">"@,
        ValModel::ClosV { params, body, env } => "<lambda ("@ + render_names(params, 0)
            + ") ...>"@,
    }
}

/// The elements from index `i` on, space-separated.
pub open spec fn vrender_items(items: Seq<ValModel>, i: int) -> Seq<char>
    decreases items, 1int, items.len() - i,
{
    if i < 0 || i >= items.len() {
        Seq::empty()
    } else {
        (if i > 0 {
            " "@
        } else {
            Seq::<char>::empty()
        }) + vrender(items[i]) + vrender_items(items, i + 1)
    }
}

/// The names from index `i` on, space-separated.
pub open spec fn render_names(names: Seq<Seq<char>>, i: int) -> Seq<char>
    decreases names.len() - i,
{
    if i < 0 || i >= names.len() {
        Seq::empty()
    } else {
        (if i > 0 {
            " "@
        } else {
            Seq::<char>::empty()
        }) + names[i] + render_names(names, i + 1)
    }
}

/// The printed name of a primitive.
pub fn prim_name_str(p: Prim) -> (r: &'static str)
    ensures
        r@ == prim_name(p),
{
    match p {
        Prim::Add => "+",
        Prim::Sub => "-",
        Prim::Mul => "*",
        Prim::Div => "/",
        Prim::Lt => "<",
        Prim::Gt => ">",
        Prim::NumEq => "=",
        Prim::Car => "car",
        Prim::Cdr => "cdr",
        Prim::Cons => "cons",
        Prim::ListOf => "list",
        Prim::Length => "length",
        Prim::IsNull => "null?",
    }
}

impl Value {
    /// The textual form of the value.
    pub fn render(&self) -> (s: String)
        ensures
            s@ == vrender(self@),
        decreases self,
    {
        match self {
            Value::Integer(n) => crate::render::i64_to_string(*n),
            Value::Float(fl) => fl.clone(),
            Value::Str(st) => {
                let mut s = String::from_str("\"");
                s.append(st.as_str());
                s.append("\"");
                s
            },
            Value::Bool(b) => if *b {
                String::from_str("#t")
            } else {
                String::from_str("#f")
            },
            Value::Symbol(sy) => sy.clone(),
            Value::Nil => String::from_str("()"),
            Value::Builtin(p) => {
                let mut s = String::from_str("<builtin:");
                s.append(prim_name_str(*p));
                s.append(">");
                s
            },
            Value::List(items) => {
                proof {
                    broadcast use lemma_list_model;

                }
                let ghost m = vmodels(items@);
                let mut s = String::from_str("(");
                let mut i: usize = 0;
                while i < items.len()
                    invariant
                        m == vmodels(items@),
                        m.len() == items@.len(),
                        i <= items@.len(),
                        *self == Value::List(*items),
                        self@ == ValModel::ListV(m),
                        s@ + vrender_items(m, i as int) + ")"@ == vrender(self@),
                    decreases items@.len() - i,
                {
                    proof {
                        assert(decreases_to!(*self => items@[i as int])) by {
                            assert(decreases_to!(*self => self->List_0));
                            assert(decreases_to!(*items => items@[i as int]));
                        }
                        assert(m[i as int] == items@[i as int]@);
                    }
                    if i > 0 {
                        s.append(" ");
                    }
                    let piece = items[i].render();
                    s.append(piece.as_str());
                    proof {
                        assert(s@ + vrender_items(m, i + 1) + ")"@ == vrender(self@)) by {
                            if i > 0 {
                                assert(vrender_items(m, i as int) == " "@ + vrender(m[i as int])
                                    + vrender_items(m, i + 1));
                            } else {
                                assert(vrender_items(m, i as int) == Seq::<char>::empty()
                                    + vrender(m[i as int]) + vrender_items(m, i + 1));
                            }
                            assert(s@ + vrender_items(m, i + 1) + ")"@ =~= vrender(self@));
                        }
                    }
                    i += 1;
                }
                proof {
                    assert(vrender_items(m, i as int) == Seq::<char>::empty());
                    assert(s@ + ")"@ =~= s@ + vrender_items(m, i as int) + ")"@);
                }
                s.append(")");
                s
            },
            Value::Lambda { params, body, env } => {
                proof {
                    broadcast use lemma_lambda_model;

                }
                let ghost m = nmodels(params@);
                let mut s = String::from_str("<lambda (");
                let mut i: usize = 0;
                while i < params.len()
                    invariant
                        m == nmodels(params@),
                        m.len() == params@.len(),
                        i <= params@.len(),
                        s@ + render_names(m, i as int) + ") ...>"@ == vrender(
                            vmodel(Value::Lambda { params: *params, body: *body, env: *env }),
                        ),
                    decreases params@.len() - i,
                {
                    proof {
                        assert(m[i as int] == params@[i as int]@);
                    }
                    if i > 0 {
                        s.append(" ");
                    }
                    s.append(params[i].as_str());
                    proof {
                        assert(s@ + render_names(m, i + 1) + ") ...>"@ == vrender(
                            vmodel(Value::Lambda { params: *params, body: *body, env: *env }),
                        )) by {
                            assert(s@ + render_names(m, i + 1) + ") ...>"@ =~= vrender(
                                vmodel(Value::Lambda { params: *params, body: *body, env: *env }),
                            ));
                        }
                    }
                    i += 1;
                }
                proof {
                    assert(render_names(m, i as int) == Seq::<char>::empty());
                    assert(s@ + ") ...>"@ =~= s@ + render_names(m, i as int) + ") ...>"@);
                    assert(*self == Value::Lambda { params: *params, body: *body, env: *env });
                }
                s.append(") ...>");
                s
            },
        }
    }
}

/// Character-wise equality of two string slices.
pub fn str_eq(a: &str, b: &str) -> (r: bool)
    ensures
        r == (a@ == b@),
{
    let alen = a.unicode_len();
    let blen = b.unicode_len();
    if alen != blen {
        return false;
    }
    let mut i: usize = 0;
    while i < alen
        invariant
            alen == a@.len(),
            blen == b@.len(),
            alen == blen,
            i <= alen,
            forall|j: int| 0 <= j < i ==> a@[j] == b@[j],
        decreases alen - i,
    {
        if a.get_char(i) != b.get_char(i) {
            return false;
        }
        i += 1;
    }
    proof {
        assert(a@ =~= b@);
    }
    true
}

} // verus!
