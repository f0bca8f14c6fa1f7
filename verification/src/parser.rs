//! The S-expression parser.
//!
//! Builds expression trees from the token stream: atoms, lists, and the
//! reader sugar `'x`, `` `x ``, `,x`, `,@x`, which desugar to `quote`,
//! `quasiquote`, `unquote` and `unquote-splicing` forms. The grammar has
//! a specification twin over token models (`parse_expr_m` and friends),
//! and the executable parser is proved to return exactly what the twin
//! says; everything it builds is plain data, free of closures.

use crate::error::{ErrModel, Error};
use crate::lexer::{tmodels, LocTokModel, LocatedToken, Token, TokenModel};
use crate::value::{
    lemma_list_model, lemma_plain_datas, plain_data, vmodels, ValModel, Value,
};
use vstd::prelude::*;

verus! {

broadcast use vstd::std_specs::vec::group_vec_axioms;

/// Mathematical model of the parser state.
pub struct ParseModel {
    pub toks: Seq<LocTokModel>,
    pub pos: int,
}

/// The `quote` wrapper: `(quote x)`.
pub open spec fn quoted_m(name: Seq<char>, inner: ValModel) -> ValModel {
    ValModel::ListV(seq![ValModel::SymV(name), inner])
}

/// Parses one expression starting at `pos`; returns the expression and
/// the position after it.
pub open spec fn parse_expr_m(toks: Seq<LocTokModel>, pos: int) -> (Result<ValModel, ErrModel>, int)
    decreases toks.len() - pos, 1int,
{
    if pos < 0 || pos >= toks.len() {
        (Err(ErrModel::RuntimeErrM("Unexpected end of input"@)), pos)
    } else {
        let t = toks[pos];
        match t.token {
            TokenModel::LParenT => {
                let (r, p2) = parse_elems_m(toks, pos + 1, t.line, t.column);
                match r {
                    Ok(elems) => (Ok(ValModel::ListV(elems)), p2),
                    Err(e) => (Err(e), p2),
                }
            },
            TokenModel::RParenT => (
                (
                    Err(
                        ErrModel::ParseErrM {
                            line: t.line,
                            column: t.column,
                            message: "Unexpected ')'"@,
                        },
                    )
                ),
                pos,
            ),
            TokenModel::QuoteT => {
                let (r, p2) = parse_expr_m(toks, pos + 1);
                match r {
                    Ok(inner) => (Ok(quoted_m("quote"@, inner)), p2),
                    Err(e) => (Err(e), p2),
                }
            },
            TokenModel::QuasiquoteT => {
                let (r, p2) = parse_qq_expr_m(toks, pos + 1);
                match r {
                    Ok(inner) => (Ok(quoted_m("quasiquote"@, inner)), p2),
                    Err(e) => (Err(e), p2),
                }
            },
            TokenModel::UnquoteT => (
                (
                    Err(
                        ErrModel::ParseErrM {
                            line: t.line,
                            column: t.column,
                            message: "Unquote outside of quasiquote"@,
                        },
                    )
                ),
                pos,
            ),
            TokenModel::UnquoteSplicingT => (
                (
                    Err(
                        ErrModel::ParseErrM {
                            line: t.line,
                            column: t.column,
                            message: "Unquote-splicing outside of quasiquote"@,
                        },
                    )
                ),
                pos,
            ),
            TokenModel::SymbolT(s) => (Ok(ValModel::SymV(s)), pos + 1),
            TokenModel::IntegerT(n) => (Ok(ValModel::IntV(n)), pos + 1),
            TokenModel::FloatT(s) => (Ok(ValModel::FloatV(s)), pos + 1),
            TokenModel::StrT(s) => (Ok(ValModel::StrV(s)), pos + 1),
            TokenModel::BoolT(b) => (Ok(ValModel::BoolV(b)), pos + 1),
        }
    }
}

/// Parses list elements until the closing parenthesis, which is
/// consumed; an unclosed list is a parse error at the opening
/// parenthesis.
pub open spec fn parse_elems_m(toks: Seq<LocTokModel>, pos: int, ol: int, oc: int) -> (Result<
    Seq<ValModel>,
    ErrModel,
>, int)
    decreases toks.len() - pos, 3int,
{
    if pos < 0 || pos >= toks.len() {
        (
            Err(
                ErrModel::ParseErrM {
                    line: ol,
                    column: oc,
                    message: "Unclosed list (missing ')')"@,
                },
            ),
            pos,
        )
    } else if toks[pos].token is RParenT {
        (Ok(Seq::empty()), pos + 1)
    } else {
        let (r, p2) = parse_expr_m(toks, pos);
        match r {
            Ok(v) => if pos < p2 <= toks.len() {
                let (rest, p3) = parse_elems_m(toks, p2, ol, oc);
                match rest {
                    Ok(vs) => (Ok(seq![v] + vs), p3),
                    Err(e) => (Err(e), p3),
                }
            } else {
                (Ok(seq![v]), p2)
            },
            Err(e) => (Err(e), p2),
        }
    }
}

/// Parses one expression inside a quasiquote, where `,x` and `,@x`
/// desugar to `unquote` and `unquote-splicing` forms.
pub open spec fn parse_qq_expr_m(toks: Seq<LocTokModel>, pos: int) -> (Result<
    ValModel,
    ErrModel,
>, int)
    decreases toks.len() - pos, 2int,
{
    if pos < 0 || pos >= toks.len() {
        (Err(ErrModel::RuntimeErrM("Unexpected end of input in quasiquote"@)), pos)
    } else {
        let t = toks[pos];
        match t.token {
            TokenModel::UnquoteT => {
                let (r, p2) = parse_expr_m(toks, pos + 1);
                match r {
                    Ok(inner) => (Ok(quoted_m("unquote"@, inner)), p2),
                    Err(e) => (Err(e), p2),
                }
            },
            TokenModel::UnquoteSplicingT => {
                let (r, p2) = parse_expr_m(toks, pos + 1);
                match r {
                    Ok(inner) => (Ok(quoted_m("unquote-splicing"@, inner)), p2),
                    Err(e) => (Err(e), p2),
                }
            },
            TokenModel::LParenT => {
                let (r, p2) = parse_qq_elems_m(toks, pos + 1, t.line, t.column);
                match r {
                    Ok(elems) => (Ok(ValModel::ListV(elems)), p2),
                    Err(e) => (Err(e), p2),
                }
            },
            _ => parse_expr_m(toks, pos),
        }
    }
}

/// Parses quasiquoted list elements until the closing parenthesis.
pub open spec fn parse_qq_elems_m(toks: Seq<LocTokModel>, pos: int, ol: int, oc: int) -> (Result<
    Seq<ValModel>,
    ErrModel,
>, int)
    decreases toks.len() - pos, 3int,
{
    if pos < 0 || pos >= toks.len() {
        (
            Err(
                ErrModel::ParseErrM {
                    line: ol,
                    column: oc,
                    message: "Unclosed list in quasiquote (missing ')')"@,
                },
            ),
            pos,
        )
    } else if toks[pos].token is RParenT {
        (Ok(Seq::empty()), pos + 1)
    } else {
        let (r, p2) = parse_qq_expr_m(toks, pos);
        match r {
            Ok(v) => if pos < p2 <= toks.len() {
                let (rest, p3) = parse_qq_elems_m(toks, p2, ol, oc);
                match rest {
                    Ok(vs) => (Ok(seq![v] + vs), p3),
                    Err(e) => (Err(e), p3),
                }
            } else {
                (Ok(seq![v]), p2)
            },
            Err(e) => (Err(e), p2),
        }
    }
}

/// Parses every expression until the tokens are exhausted.
pub open spec fn parse_all_m(toks: Seq<LocTokModel>, pos: int) -> Result<Seq<ValModel>, ErrModel>
    decreases toks.len() - pos,
{
    if pos < 0 || pos >= toks.len() {
        Ok(Seq::empty())
    } else {
        let (r, p2) = parse_expr_m(toks, pos);
        match r {
            Ok(v) => if pos < p2 <= toks.len() {
                match parse_all_m(toks, p2) {
                    Ok(vs) => Ok(seq![v] + vs),
                    Err(e) => Err(e),
                }
            } else {
                Ok(seq![v])
            },
            Err(e) => Err(e),
        }
    }
}

/// A successful parse consumes at least one token and never runs past
/// the end, and what it builds is plain data.
proof fn lemma_parse_expr_shape(toks: Seq<LocTokModel>, pos: int)
    ensures
        ({
            let (r, p2) = parse_expr_m(toks, pos);
            match r {
                Ok(v) => pos < p2 <= toks.len() && plain_data(v),
                Err(_) => true,
            }
        }),
    decreases toks.len() - pos, 1int,
{
    if 0 <= pos < toks.len() {
        let t = toks[pos];
        match t.token {
            TokenModel::LParenT => {
                lemma_parse_elems_shape(toks, pos + 1, t.line, t.column);
                let (r, p2) = parse_elems_m(toks, pos + 1, t.line, t.column);
                match r {
                    Ok(elems) => {
                        lemma_plain_datas(elems, 0);
                    },
                    Err(_) => {},
                }
            },
            TokenModel::QuoteT => {
                lemma_parse_expr_shape(toks, pos + 1);
                let (r, p2) = parse_expr_m(toks, pos + 1);
                match r {
                    Ok(inner) => {
                        lemma_plain_datas(seq![ValModel::SymV("quote"@), inner], 0);
                    },
                    Err(_) => {},
                }
            },
            TokenModel::QuasiquoteT => {
                lemma_parse_qq_expr_shape(toks, pos + 1);
                let (r, p2) = parse_qq_expr_m(toks, pos + 1);
                match r {
                    Ok(inner) => {
                        lemma_plain_datas(seq![ValModel::SymV("quasiquote"@), inner], 0);
                    },
                    Err(_) => {},
                }
            },
            _ => {},
        }
    }
}

/// Element parsing stays within bounds and builds plain data.
proof fn lemma_parse_elems_shape(toks: Seq<LocTokModel>, pos: int, ol: int, oc: int)
    ensures
        ({
            let (r, p2) = parse_elems_m(toks, pos, ol, oc);
            match r {
                Ok(vs) => pos < p2 <= toks.len() && (forall|j: int|
                    0 <= j < vs.len() ==> plain_data(#[trigger] vs[j])),
                Err(_) => true,
            }
        }),
    decreases toks.len() - pos, 3int,
{
    if 0 <= pos < toks.len() && !(toks[pos].token is RParenT) {
        lemma_parse_expr_shape(toks, pos);
        let (r, p2) = parse_expr_m(toks, pos);
        match r {
            Ok(v) => {
                if pos < p2 <= toks.len() {
                    lemma_parse_elems_shape(toks, p2, ol, oc);
                }
            },
            Err(_) => {},
        }
    }
}

/// Quasiquote expression parsing stays within bounds and builds plain
/// data.
proof fn lemma_parse_qq_expr_shape(toks: Seq<LocTokModel>, pos: int)
    ensures
        ({
            let (r, p2) = parse_qq_expr_m(toks, pos);
            match r {
                Ok(v) => pos < p2 <= toks.len() && plain_data(v),
                Err(_) => true,
            }
        }),
    decreases toks.len() - pos, 2int,
{
    if 0 <= pos < toks.len() {
        let t = toks[pos];
        match t.token {
            TokenModel::UnquoteT => {
                lemma_parse_expr_shape(toks, pos + 1);
                let (r, p2) = parse_expr_m(toks, pos + 1);
                match r {
                    Ok(inner) => {
                        lemma_plain_datas(seq![ValModel::SymV("unquote"@), inner], 0);
                    },
                    Err(_) => {},
                }
            },
            TokenModel::UnquoteSplicingT => {
                lemma_parse_expr_shape(toks, pos + 1);
                let (r, p2) = parse_expr_m(toks, pos + 1);
                match r {
                    Ok(inner) => {
                        lemma_plain_datas(seq![ValModel::SymV("unquote-splicing"@), inner], 0);
                    },
                    Err(_) => {},
                }
            },
            TokenModel::LParenT => {
                lemma_parse_qq_elems_shape(toks, pos + 1, t.line, t.column);
                let (r, p2) = parse_qq_elems_m(toks, pos + 1, t.line, t.column);
                match r {
                    Ok(elems) => {
                        lemma_plain_datas(elems, 0);
                    },
                    Err(_) => {},
                }
            },
            _ => {
                lemma_parse_expr_shape(toks, pos);
            },
        }
    }
}

/// Quasiquote element parsing stays within bounds and builds plain data.
proof fn lemma_parse_qq_elems_shape(toks: Seq<LocTokModel>, pos: int, ol: int, oc: int)
    ensures
        ({
            let (r, p2) = parse_qq_elems_m(toks, pos, ol, oc);
            match r {
                Ok(vs) => pos < p2 <= toks.len() && (forall|j: int|
                    0 <= j < vs.len() ==> plain_data(#[trigger] vs[j])),
                Err(_) => true,
            }
        }),
    decreases toks.len() - pos, 3int,
{
    if 0 <= pos < toks.len() && !(toks[pos].token is RParenT) {
        lemma_parse_qq_expr_shape(toks, pos);
        let (r, p2) = parse_qq_expr_m(toks, pos);
        match r {
            Ok(v) => {
                if pos < p2 <= toks.len() {
                    lemma_parse_qq_elems_shape(toks, p2, ol, oc);
                }
            },
            Err(_) => {},
        }
    }
}

/// One unfolding of `parse_elems_m` at an in-range position.
proof fn lemma_parse_elems_unfold(toks: Seq<LocTokModel>, pos: int, ol: int, oc: int)
    requires
        0 <= pos < toks.len(),
    ensures
        parse_elems_m(toks, pos, ol, oc) == (if toks[pos].token is RParenT {
            (Ok::<Seq<ValModel>, ErrModel>(Seq::empty()), pos + 1)
        } else {
            let (r, p2) = parse_expr_m(toks, pos);
            match r {
                Ok(v) => if pos < p2 <= toks.len() {
                    let (rest, p3) = parse_elems_m(toks, p2, ol, oc);
                    match rest {
                        Ok(vs) => (Ok::<Seq<ValModel>, ErrModel>(seq![v] + vs), p3),
                        Err(e) => (Err::<Seq<ValModel>, ErrModel>(e), p3),
                    }
                } else {
                    (Ok::<Seq<ValModel>, ErrModel>(seq![v]), p2)
                },
                Err(e) => (Err::<Seq<ValModel>, ErrModel>(e), p2),
            }
        }),
{
}

/// One unfolding of `parse_qq_elems_m` at an in-range position.
proof fn lemma_parse_qq_elems_unfold(toks: Seq<LocTokModel>, pos: int, ol: int, oc: int)
    requires
        0 <= pos < toks.len(),
    ensures
        parse_qq_elems_m(toks, pos, ol, oc) == (if toks[pos].token is RParenT {
            (Ok::<Seq<ValModel>, ErrModel>(Seq::empty()), pos + 1)
        } else {
            let (r, p2) = parse_qq_expr_m(toks, pos);
            match r {
                Ok(v) => if pos < p2 <= toks.len() {
                    let (rest, p3) = parse_qq_elems_m(toks, p2, ol, oc);
                    match rest {
                        Ok(vs) => (Ok::<Seq<ValModel>, ErrModel>(seq![v] + vs), p3),
                        Err(e) => (Err::<Seq<ValModel>, ErrModel>(e), p3),
                    }
                } else {
                    (Ok::<Seq<ValModel>, ErrModel>(seq![v]), p2)
                },
                Err(e) => (Err::<Seq<ValModel>, ErrModel>(e), p2),
            }
        }),
{
}

/// One unfolding of `parse_all_m` at an in-range position.
proof fn lemma_parse_all_unfold(toks: Seq<LocTokModel>, pos: int)
    requires
        0 <= pos < toks.len(),
    ensures
        parse_all_m(toks, pos) == ({
            let (r, p2) = parse_expr_m(toks, pos);
            match r {
                Ok(v) => if pos < p2 <= toks.len() {
                    match parse_all_m(toks, p2) {
                        Ok(vs) => Ok::<Seq<ValModel>, ErrModel>(seq![v] + vs),
                        Err(e) => Err::<Seq<ValModel>, ErrModel>(e),
                    }
                } else {
                    Ok::<Seq<ValModel>, ErrModel>(seq![v])
                },
                Err(e) => Err::<Seq<ValModel>, ErrModel>(e),
            }
        }),
{
}

/// The parser state: the tokens and the current position.
pub struct Parser {
    tokens: Vec<LocatedToken>,
    pos: usize,
}

impl View for Parser {
    type V = ParseModel;

    closed spec fn view(&self) -> ParseModel {
        ParseModel { toks: tmodels(self.tokens@), pos: self.pos as int }
    }
}

impl Parser {
    /// A parser at the start of the token stream.
    pub fn new(tokens: Vec<LocatedToken>) -> (p: Parser)
        ensures
            p@.toks == tmodels(tokens@),
            p@.pos == 0,
    {
        Parser { tokens, pos: 0 }
    }

    /// Parses the tokens into a single expression; tokens after it are
    /// ignored.
    pub fn parse(tokens: Vec<LocatedToken>) -> (r: Result<Value, Error>)
        ensures
            ({
                let (rm, p2) = parse_expr_m(tmodels(tokens@), 0);
                match r {
                    Ok(v) => rm == Ok::<ValModel, ErrModel>(v@) && plain_data(v@),
                    Err(e) => rm == Err::<ValModel, ErrModel>(e@),
                }
            }),
    {
        let mut parser = Parser::new(tokens);
        parser.parse_expr()
    }

    /// Parses the tokens into every expression they hold, in order.
    #[verifier::loop_isolation(false)]
    pub fn parse_all(tokens: Vec<LocatedToken>) -> (r: Result<Vec<Value>, Error>)
        ensures
            match parse_all_m(tmodels(tokens@), 0) {
                Ok(ms) => match r {
                    Ok(vs) => vmodels(vs@) == ms && (forall|j: int|
                        0 <= j < vs@.len() ==> plain_data(#[trigger] vmodels(vs@)[j])),
                    Err(_) => false,
                },
                Err(e) => match r {
                    Ok(_) => false,
                    Err(e2) => e2@ == e,
                },
            },
    {
        let ghost toksm = tmodels(tokens@);
        let mut parser = Parser::new(tokens);
        let mut exprs: Vec<Value> = Vec::new();
        proof {
            assert(vmodels(exprs@) =~= Seq::<ValModel>::empty());
        }
        while !parser.is_eof()
            invariant
                parser@.toks == toksm,
                0 <= parser@.pos,
                forall|j: int| 0 <= j < exprs@.len() ==> plain_data(#[trigger] vmodels(exprs@)[j]),
                parse_all_m(toksm, 0) == (match parse_all_m(toksm, parser@.pos) {
                    Ok(rest) => Ok::<Seq<ValModel>, ErrModel>(vmodels(exprs@) + rest),
                    Err(e) => Err::<Seq<ValModel>, ErrModel>(e),
                }),
            decreases toksm.len() - parser@.pos,
        {
            let ghost pre = parser@.pos;
            proof {
                lemma_parse_all_unfold(toksm, pre);
                lemma_parse_expr_shape(toksm, pre);
            }
            let v = match parser.parse_expr() {
                Ok(v) => v,
                Err(e) => {
                    return Err(e);
                },
            };
            let ghost old_exprs = exprs@;
            exprs.push(v);
            proof {
                assert(vmodels(exprs@) =~= vmodels(old_exprs).push(v@));
                assert forall|rest: Seq<ValModel>|
                    true implies vmodels(old_exprs).push(v@) + rest == vmodels(old_exprs) + (
                seq![v@] + rest) by {
                    assert(vmodels(old_exprs).push(v@) + rest =~= vmodels(old_exprs) + (seq![v@]
                        + rest));
                }
            }
        }
        proof {
            assert(vmodels(exprs@) + Seq::<ValModel>::empty() =~= vmodels(exprs@));
        }
        Ok(exprs)
    }

    /// Whether every token has been consumed.
    fn is_eof(&self) -> (r: bool)
        ensures
            r == (self@.pos >= self@.toks.len()),
    {
        self.pos >= self.tokens.len()
    }

    /// Moves past the current token.
    fn advance(&mut self)
        ensures
            final(self)@.toks == old(self)@.toks,
            final(self)@.pos == (if old(self)@.pos < old(self)@.toks.len() {
                old(self)@.pos + 1
            } else {
                old(self)@.pos
            }),
    {
        if self.pos < self.tokens.len() {
            self.pos += 1;
        }
    }

    /// Parses one expression at the current position.
    pub fn parse_expr(&mut self) -> (r: Result<Value, Error>)
        ensures
            final(self)@.toks == old(self)@.toks,
            ({
                let (rm, p2) = parse_expr_m(old(self)@.toks, old(self)@.pos);
                match r {
                    Ok(v) => rm == Ok::<ValModel, ErrModel>(v@) && final(self)@.pos == p2
                        && plain_data(v@),
                    Err(e) => rm == Err::<ValModel, ErrModel>(e@),
                }
            }),
        decreases self@.toks.len() - self@.pos, 1int,
    {
        if self.is_eof() {
            return Err(Error::runtime("Unexpected end of input"));
        }
        proof {
            assert(self@.toks[self@.pos] == self.tokens@[self@.pos]@);
        }
        let line = self.tokens[self.pos].location.line;
        let column = self.tokens[self.pos].location.column;
        match &self.tokens[self.pos].token {
            Token::LParen => self.parse_list(),
            Token::RParen => Err(Error::parse_error(line, column, "Unexpected ')'")),
            Token::Quote => self.parse_quote(),
            Token::Quasiquote => self.parse_quasiquote(),
            Token::Unquote => Err(
                Error::parse_error(line, column, "Unquote outside of quasiquote"),
            ),
            Token::UnquoteSplicing => Err(
                Error::parse_error(line, column, "Unquote-splicing outside of quasiquote"),
            ),
            Token::Symbol(s) => {
                let v = Value::Symbol(s.clone());
                self.advance();
                Ok(v)
            },
            Token::Integer(n) => {
                let v = Value::Integer(*n);
                self.advance();
                Ok(v)
            },
            Token::Float(s) => {
                let v = Value::Float(s.clone());
                self.advance();
                Ok(v)
            },
            Token::Str(s) => {
                let v = Value::Str(s.clone());
                self.advance();
                Ok(v)
            },
            Token::Bool(b) => {
                let v = Value::Bool(*b);
                self.advance();
                Ok(v)
            },
        }
    }

    /// Parses a parenthesized list; the opening parenthesis is at the
    /// current position.
    #[verifier::loop_isolation(false)]
    fn parse_list(&mut self) -> (r: Result<Value, Error>)
        requires
            old(self)@.pos < old(self)@.toks.len(),
            old(self)@.toks[old(self)@.pos].token is LParenT,
        ensures
            final(self)@.toks == old(self)@.toks,
            ({
                let t = old(self)@.toks[old(self)@.pos];
                let (rm, p2) = parse_elems_m(old(self)@.toks, old(self)@.pos + 1, t.line, t.column);
                match r {
                    Ok(v) => (match rm {
                        Ok(elems) => v@ == ValModel::ListV(elems) && final(self)@.pos == p2
                            && plain_data(v@),
                        Err(_) => false,
                    }),
                    Err(e) => rm == Err::<Seq<ValModel>, ErrModel>(e@),
                }
            }),
        decreases self@.toks.len() - self@.pos, 0int,
    {
        let ghost toksm = old(self)@.toks;
        proof {
            assert(self@.toks[self@.pos] == self.tokens@[self@.pos]@);
        }
        let ghost ol = old(self)@.toks[old(self)@.pos].line;
        let ghost oc = old(self)@.toks[old(self)@.pos].column;
        let open_line = self.tokens[self.pos].location.line;
        let open_col = self.tokens[self.pos].location.column;
        self.advance();
        let ghost entry = self@.pos;
        let mut elements: Vec<Value> = Vec::new();
        proof {
            assert(vmodels(elements@) =~= Seq::<ValModel>::empty());
        }
        loop
            invariant
                self@.toks == toksm,
                entry <= self@.pos,
                forall|j: int|
                    0 <= j < elements@.len() ==> plain_data(#[trigger] vmodels(elements@)[j]),
                parse_elems_m(toksm, entry, ol, oc) == (match parse_elems_m(
                    toksm,
                    self@.pos,
                    ol,
                    oc,
                ) {
                    (Ok(rest), p3) => (
                        Ok::<Seq<ValModel>, ErrModel>(vmodels(elements@) + rest),
                        p3,
                    ),
                    (Err(e), p3) => (Err::<Seq<ValModel>, ErrModel>(e), p3),
                }),
            decreases toksm.len() - self@.pos,
        {
            if self.is_eof() {
                return Err(
                    Error::parse_error(open_line, open_col, "Unclosed list (missing ')')"),
                );
            }
            proof {
                assert(self@.toks[self@.pos] == self.tokens@[self@.pos]@);
                lemma_parse_elems_unfold(toksm, self@.pos, ol, oc);
                lemma_parse_expr_shape(toksm, self@.pos);
            }
            if matches!(&self.tokens[self.pos].token, Token::RParen) {
                self.advance();
                let r = Value::List(elements);
                proof {
                    broadcast use lemma_list_model;

                    assert(vmodels(r->List_0@) + Seq::<ValModel>::empty() =~= vmodels(
                        r->List_0@,
                    ));
                    lemma_plain_datas(vmodels(r->List_0@), 0);
                }
                return Ok(r);
            }
            let v = match self.parse_expr() {
                Ok(v) => v,
                Err(e) => {
                    return Err(e);
                },
            };
            let ghost old_elements = elements@;
            elements.push(v);
            proof {
                assert(vmodels(elements@) =~= vmodels(old_elements).push(v@));
                assert forall|rest: Seq<ValModel>|
                    true implies vmodels(old_elements).push(v@) + rest == vmodels(old_elements) + (
                seq![v@] + rest) by {
                    assert(vmodels(old_elements).push(v@) + rest =~= vmodels(old_elements) + (
                    seq![v@] + rest));
                }
            }
        }
    }

    /// Parses `'x` into `(quote x)`.
    fn parse_quote(&mut self) -> (r: Result<Value, Error>)
        requires
            old(self)@.pos < old(self)@.toks.len(),
            old(self)@.toks[old(self)@.pos].token is QuoteT,
        ensures
            final(self)@.toks == old(self)@.toks,
            ({
                let (rm, p2) = parse_expr_m(old(self)@.toks, old(self)@.pos + 1);
                match r {
                    Ok(v) => (match rm {
                        Ok(inner) => v@ == quoted_m("quote"@, inner) && final(self)@.pos == p2
                            && plain_data(v@),
                        Err(_) => false,
                    }),
                    Err(e) => rm == Err::<ValModel, ErrModel>(e@),
                }
            }),
        decreases self@.toks.len() - self@.pos, 0int,
    {
        self.advance();
        let quoted = match self.parse_expr() {
            Ok(v) => v,
            Err(e) => {
                return Err(e);
            },
        };
        let mut items: Vec<Value> = Vec::new();
        items.push(Value::Symbol(String::from_str("quote")));
        items.push(quoted);
        let r = Value::List(items);
        proof {
            broadcast use lemma_list_model;

            assert(vmodels(r->List_0@) =~= seq![ValModel::SymV("quote"@), quoted@]);
            lemma_plain_datas(vmodels(r->List_0@), 0);
        }
        Ok(r)
    }

    /// Parses `` `x `` into `(quasiquote x)`.
    fn parse_quasiquote(&mut self) -> (r: Result<Value, Error>)
        requires
            old(self)@.pos < old(self)@.toks.len(),
            old(self)@.toks[old(self)@.pos].token is QuasiquoteT,
        ensures
            final(self)@.toks == old(self)@.toks,
            ({
                let (rm, p2) = parse_qq_expr_m(old(self)@.toks, old(self)@.pos + 1);
                match r {
                    Ok(v) => (match rm {
                        Ok(inner) => v@ == quoted_m("quasiquote"@, inner) && final(self)@.pos == p2
                            && plain_data(v@),
                        Err(_) => false,
                    }),
                    Err(e) => rm == Err::<ValModel, ErrModel>(e@),
                }
            }),
        decreases self@.toks.len() - self@.pos, 0int,
    {
        self.advance();
        let quoted = match self.parse_qq_expr() {
            Ok(v) => v,
            Err(e) => {
                return Err(e);
            },
        };
        let mut items: Vec<Value> = Vec::new();
        items.push(Value::Symbol(String::from_str("quasiquote")));
        items.push(quoted);
        let r = Value::List(items);
        proof {
            broadcast use lemma_list_model;

            assert(vmodels(r->List_0@) =~= seq![ValModel::SymV("quasiquote"@), quoted@]);
            lemma_plain_datas(vmodels(r->List_0@), 0);
        }
        Ok(r)
    }

    /// Parses one expression inside a quasiquote, where unquote forms
    /// are allowed.
    fn parse_qq_expr(&mut self) -> (r: Result<Value, Error>)
        ensures
            final(self)@.toks == old(self)@.toks,
            ({
                let (rm, p2) = parse_qq_expr_m(old(self)@.toks, old(self)@.pos);
                match r {
                    Ok(v) => rm == Ok::<ValModel, ErrModel>(v@) && final(self)@.pos == p2
                        && plain_data(v@),
                    Err(e) => rm == Err::<ValModel, ErrModel>(e@),
                }
            }),
        decreases self@.toks.len() - self@.pos, 2int,
    {
        if self.is_eof() {
            return Err(Error::runtime("Unexpected end of input in quasiquote"));
        }
        proof {
            assert(self@.toks[self@.pos] == self.tokens@[self@.pos]@);
        }
        let is_unquote = matches!(&self.tokens[self.pos].token, Token::Unquote);
        let is_splicing = matches!(&self.tokens[self.pos].token, Token::UnquoteSplicing);
        let is_lparen = matches!(&self.tokens[self.pos].token, Token::LParen);
        if is_unquote || is_splicing {
            self.advance();
            let inner = match self.parse_expr() {
                Ok(v) => v,
                Err(e) => {
                    return Err(e);
                },
            };
            let name = if is_unquote {
                String::from_str("unquote")
            } else {
                String::from_str("unquote-splicing")
            };
            let mut items: Vec<Value> = Vec::new();
            items.push(Value::Symbol(name));
            items.push(inner);
            let r = Value::List(items);
            proof {
                broadcast use lemma_list_model;

                if is_unquote {
                    assert(vmodels(r->List_0@) =~= seq![ValModel::SymV("unquote"@), inner@]);
                } else {
                    assert(vmodels(r->List_0@) =~= seq![
                        ValModel::SymV("unquote-splicing"@),
                        inner@,
                    ]);
                }
                lemma_plain_datas(vmodels(r->List_0@), 0);
            }
            return Ok(r);
        }
        if is_lparen {
            return self.parse_qq_list();
        }
        self.parse_expr()
    }

    /// Parses a list inside a quasiquote.
    #[verifier::loop_isolation(false)]
    fn parse_qq_list(&mut self) -> (r: Result<Value, Error>)
        requires
            old(self)@.pos < old(self)@.toks.len(),
            old(self)@.toks[old(self)@.pos].token is LParenT,
        ensures
            final(self)@.toks == old(self)@.toks,
            ({
                let t = old(self)@.toks[old(self)@.pos];
                let (rm, p2) = parse_qq_elems_m(
                    old(self)@.toks,
                    old(self)@.pos + 1,
                    t.line,
                    t.column,
                );
                match r {
                    Ok(v) => (match rm {
                        Ok(elems) => v@ == ValModel::ListV(elems) && final(self)@.pos == p2
                            && plain_data(v@),
                        Err(_) => false,
                    }),
                    Err(e) => rm == Err::<Seq<ValModel>, ErrModel>(e@),
                }
            }),
        decreases self@.toks.len() - self@.pos, 0int,
    {
        let ghost toksm = old(self)@.toks;
        proof {
            assert(self@.toks[self@.pos] == self.tokens@[self@.pos]@);
        }
        let ghost ol = old(self)@.toks[old(self)@.pos].line;
        let ghost oc = old(self)@.toks[old(self)@.pos].column;
        let open_line = self.tokens[self.pos].location.line;
        let open_col = self.tokens[self.pos].location.column;
        self.advance();
        let ghost entry = self@.pos;
        let mut elements: Vec<Value> = Vec::new();
        proof {
            assert(vmodels(elements@) =~= Seq::<ValModel>::empty());
        }
        loop
            invariant
                self@.toks == toksm,
                entry <= self@.pos,
                forall|j: int|
                    0 <= j < elements@.len() ==> plain_data(#[trigger] vmodels(elements@)[j]),
                parse_qq_elems_m(toksm, entry, ol, oc) == (match parse_qq_elems_m(
                    toksm,
                    self@.pos,
                    ol,
                    oc,
                ) {
                    (Ok(rest), p3) => (
                        Ok::<Seq<ValModel>, ErrModel>(vmodels(elements@) + rest),
                        p3,
                    ),
                    (Err(e), p3) => (Err::<Seq<ValModel>, ErrModel>(e), p3),
                }),
            decreases toksm.len() - self@.pos,
        {
            if self.is_eof() {
                return Err(
                    Error::parse_error(
                        open_line,
                        open_col,
                        "Unclosed list in quasiquote (missing ')')",
                    ),
                );
            }
            proof {
                assert(self@.toks[self@.pos] == self.tokens@[self@.pos]@);
                lemma_parse_qq_elems_unfold(toksm, self@.pos, ol, oc);
                lemma_parse_qq_expr_shape(toksm, self@.pos);
            }
            if matches!(&self.tokens[self.pos].token, Token::RParen) {
                self.advance();
                let r = Value::List(elements);
                proof {
                    broadcast use lemma_list_model;

                    assert(vmodels(r->List_0@) + Seq::<ValModel>::empty() =~= vmodels(
                        r->List_0@,
                    ));
                    lemma_plain_datas(vmodels(r->List_0@), 0);
                }
                return Ok(r);
            }
            let v = match self.parse_qq_expr() {
                Ok(v) => v,
                Err(e) => {
                    return Err(e);
                },
            };
            let ghost old_elements = elements@;
            elements.push(v);
            proof {
                assert(vmodels(elements@) =~= vmodels(old_elements).push(v@));
                assert forall|rest: Seq<ValModel>|
                    true implies vmodels(old_elements).push(v@) + rest == vmodels(old_elements) + (
                seq![v@] + rest) by {
                    assert(vmodels(old_elements).push(v@) + rest =~= vmodels(old_elements) + (
                    seq![v@] + rest));
                }
            }
        }
    }
}

} // verus!
