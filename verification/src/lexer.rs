//! The tokenizer.
//!
//! Turns source text into tokens: parentheses, atoms, quote sugar, with
//! line and column tracking, string escapes and line comments. The state
//! machine has a specification twin (`next_token_m` and friends over
//! `LexModel`), and every executable step is proved to do exactly what the
//! twin says. Character classes that depend on Unicode tables
//! (`is_alphabetic` and the like) are named, not restated.

use crate::error::{ErrModel, Error};
use crate::render::push_char;
use crate::value::str_eq;
use vstd::prelude::*;
use vstd::string::StringExecFns;

verus! {

broadcast use vstd::std_specs::vec::group_vec_axioms;

/// A token of the source language.
#[derive(Debug)]
pub enum Token {
    LParen,
    RParen,
    Symbol(String),
    Integer(i64),
    /// A float literal, kept as the text it was written with.
    Float(String),
    Str(String),
    Bool(bool),
    Quote,
    Quasiquote,
    Unquote,
    UnquoteSplicing,
}

/// Mathematical model of a token.
#[verifier::ext_equal]
pub enum TokenModel {
    LParenT,
    RParenT,
    SymbolT(Seq<char>),
    IntegerT(int),
    FloatT(Seq<char>),
    StrT(Seq<char>),
    BoolT(bool),
    QuoteT,
    QuasiquoteT,
    UnquoteT,
    UnquoteSplicingT,
}

impl View for Token {
    type V = TokenModel;

    open spec fn view(&self) -> TokenModel {
        match self {
            Token::LParen => TokenModel::LParenT,
            Token::RParen => TokenModel::RParenT,
            Token::Symbol(s) => TokenModel::SymbolT(s@),
            Token::Integer(n) => TokenModel::IntegerT(*n as int),
            Token::Float(s) => TokenModel::FloatT(s@),
            Token::Str(s) => TokenModel::StrT(s@),
            Token::Bool(b) => TokenModel::BoolT(*b),
            Token::Quote => TokenModel::QuoteT,
            Token::Quasiquote => TokenModel::QuasiquoteT,
            Token::Unquote => TokenModel::UnquoteT,
            Token::UnquoteSplicing => TokenModel::UnquoteSplicingT,
        }
    }
}

impl PartialEq for Token {
    fn eq(&self, other: &Token) -> bool {
        match (self, other) {
            (Token::LParen, Token::LParen) => true,
            (Token::RParen, Token::RParen) => true,
            (Token::Symbol(a), Token::Symbol(b)) => str_eq(a.as_str(), b.as_str()),
            (Token::Integer(a), Token::Integer(b)) => a == b,
            (Token::Float(a), Token::Float(b)) => str_eq(a.as_str(), b.as_str()),
            (Token::Str(a), Token::Str(b)) => str_eq(a.as_str(), b.as_str()),
            (Token::Bool(a), Token::Bool(b)) => a == b,
            (Token::Quote, Token::Quote) => true,
            (Token::Quasiquote, Token::Quasiquote) => true,
            (Token::Unquote, Token::Unquote) => true,
            (Token::UnquoteSplicing, Token::UnquoteSplicing) => true,
            _ => false,
        }
    }
}

impl vstd::std_specs::cmp::PartialEqSpecImpl for Token {
    open spec fn obeys_eq_spec() -> bool {
        true
    }

    open spec fn eq_spec(&self, other: &Token) -> bool {
        self@ == other@
    }
}

/// A token together with the position it started at.
#[derive(Debug)]
pub struct LocatedToken {
    pub token: Token,
    pub location: crate::error::SourceLocation,
}

/// Mathematical model of a located token.
#[verifier::ext_equal]
pub struct LocTokModel {
    pub token: TokenModel,
    pub line: int,
    pub column: int,
}

impl View for LocatedToken {
    type V = LocTokModel;

    open spec fn view(&self) -> LocTokModel {
        LocTokModel {
            token: self.token@,
            line: self.location.line as int,
            column: self.location.column as int,
        }
    }
}

/// Models of a token sequence.
pub open spec fn tmodels(toks: Seq<LocatedToken>) -> Seq<LocTokModel> {
    Seq::new(toks.len(), |i: int| toks[i]@)
}

/// Mathematical model of the lexer state: the input characters and the
/// current position, 1-based line and column included.
pub struct LexModel {
    pub input: Seq<char>,
    pub pos: int,
    pub line: int,
    pub column: int,
}

/// Whether `c` is a decimal digit.
pub open spec fn digit_c(c: char) -> bool {
    48 <= c as u32 <= 57
}

/// The value of the digit `c`.
pub open spec fn digit_v(c: char) -> int {
    c as u32 - 48
}

/// Unicode alphabetic characters, as `char::is_alphabetic` decides them.
pub uninterp spec fn alphabetic(c: char) -> bool;

/// Unicode alphanumeric characters, as `char::is_alphanumeric` decides
/// them.
pub uninterp spec fn alphanumeric(c: char) -> bool;

/// Unicode whitespace, as `char::is_whitespace` decides it.
pub uninterp spec fn whitespace(c: char) -> bool;

/// Relies on `char::is_alphabetic`: the result depends on the character
/// alone.
#[verifier::external_body]
fn char_is_alphabetic(c: char) -> (r: bool)
    ensures
        r == alphabetic(c),
{
    c.is_alphabetic()
}

/// Relies on `char::is_alphanumeric`: the result depends on the character
/// alone.
#[verifier::external_body]
fn char_is_alphanumeric(c: char) -> (r: bool)
    ensures
        r == alphanumeric(c),
{
    c.is_alphanumeric()
}

/// Relies on `char::is_whitespace`: the result depends on the character
/// alone.
#[verifier::external_body]
fn char_is_whitespace(c: char) -> (r: bool)
    ensures
        r == whitespace(c),
{
    c.is_whitespace()
}

/// The punctuation characters that may start a symbol.
pub open spec fn symbol_punct(c: char) -> bool {
    c == '!' || c == '$' || c == '%' || c == '&' || c == '*' || c == '+' || c == '-' || c == '/'
        || c == '<' || c == '=' || c == '>' || c == '?' || c == '@' || c == '^' || c == '_' || c
        == '~'
}

/// Whether a character can start a symbol: alphabetic or one of a fixed
/// set of punctuation characters.
pub open spec fn symbol_start(c: char) -> bool {
    alphabetic(c) || symbol_punct(c)
}

/// Whether a character can continue a symbol: alphanumeric (or
/// alphabetic), the starting punctuation set, or `:` or `.`.
pub open spec fn symbol_char(c: char) -> bool {
    alphanumeric(c) || alphabetic(c) || symbol_punct(c) || c == ':' || c == '.'
}

/// Whether a character can start a symbol.
pub fn is_symbol_start(ch: char) -> (r: bool)
    ensures
        r == symbol_start(ch),
{
    char_is_alphabetic(ch) || is_symbol_punct(ch)
}

/// Whether a character can continue a symbol.
pub fn is_symbol_char(ch: char) -> (r: bool)
    ensures
        r == symbol_char(ch),
{
    char_is_alphanumeric(ch) || char_is_alphabetic(ch) || is_symbol_punct(ch) || ch == ':' || ch
        == '.'
}

/// Whether a character is in the symbol punctuation set.
fn is_symbol_punct(ch: char) -> (r: bool)
    ensures
        r == symbol_punct(ch),
{
    ch == '!' || ch == '$' || ch == '%' || ch == '&' || ch == '*' || ch == '+' || ch == '-' || ch
        == '/' || ch == '<' || ch == '=' || ch == '>' || ch == '?' || ch == '@' || ch == '^' || ch
        == '_' || ch == '~'
}

/// One more, capped at the largest machine count.
pub open spec fn bump(n: int) -> int {
    if n + 1 <= usize::MAX {
        n + 1
    } else {
        n
    }
}

/// Advancing one character: past a newline the line count rises and the
/// column resets; past anything else the column rises.
pub open spec fn adv_m(s: LexModel) -> LexModel {
    if s.pos < s.input.len() {
        if s.input[s.pos] == '\n' {
            LexModel { input: s.input, pos: s.pos + 1, line: bump(s.line), column: 1 }
        } else {
            LexModel { input: s.input, pos: s.pos + 1, line: s.line, column: bump(s.column) }
        }
    } else {
        s
    }
}

/// Skipping whitespace and line comments; `in_comment` is true inside a
/// comment, which a newline ends.
pub open spec fn skip_ws_m(s: LexModel, in_comment: bool) -> LexModel
    decreases s.input.len() - s.pos,
{
    if s.pos < 0 || s.pos >= s.input.len() {
        s
    } else if in_comment {
        if s.input[s.pos] == '\n' {
            skip_ws_m(adv_m(s), false)
        } else {
            skip_ws_m(adv_m(s), true)
        }
    } else if whitespace(s.input[s.pos]) {
        skip_ws_m(adv_m(s), false)
    } else if s.input[s.pos] == ';' {
        skip_ws_m(adv_m(s), true)
    } else {
        s
    }
}

/// Reading the remainder of a string literal, escapes decoded, the
/// opening quote already consumed; `acc` is the content read so far.
pub open spec fn read_string_m(s: LexModel, acc: Seq<char>, sl: int, sc: int) -> Result<
    (Seq<char>, LexModel),
    ErrModel,
>
    decreases s.input.len() - s.pos,
{
    if s.pos < 0 || s.pos >= s.input.len() {
        Err(ErrModel::ParseErrM { line: sl, column: sc, message: "Unclosed string literal"@ })
    } else if s.input[s.pos] == '"' {
        Ok((acc, adv_m(s)))
    } else if s.input[s.pos] == '\\' {
        let s1 = adv_m(s);
        if s1.pos >= s.input.len() {
            Err(ErrModel::ParseErrM { line: sl, column: sc, message: "Unclosed string literal"@ })
        } else {
            let e = s.input[s1.pos];
            if e == 'n' {
                read_string_m(adv_m(s1), acc.push('\n'), sl, sc)
            } else if e == 't' {
                read_string_m(adv_m(s1), acc.push('\t'), sl, sc)
            } else if e == 'r' {
                read_string_m(adv_m(s1), acc.push('\r'), sl, sc)
            } else if e == '\\' {
                read_string_m(adv_m(s1), acc.push('\\'), sl, sc)
            } else if e == '"' {
                read_string_m(adv_m(s1), acc.push('"'), sl, sc)
            } else {
                Err(
                    ErrModel::ParseErrM {
                        line: s1.line,
                        column: s1.column,
                        message: "Invalid escape sequence: \\"@.push(e),
                    },
                )
            }
        }
    } else {
        read_string_m(adv_m(s), acc.push(s.input[s.pos]), sl, sc)
    }
}

/// Collecting number characters (digits and dots) from the input.
pub open spec fn collect_num_m(s: LexModel, acc: Seq<char>) -> (Seq<char>, LexModel)
    decreases s.input.len() - s.pos,
{
    if 0 <= s.pos < s.input.len() && (digit_c(s.input[s.pos]) || s.input[s.pos] == '.') {
        collect_num_m(adv_m(s), acc.push(s.input[s.pos]))
    } else {
        (acc, s)
    }
}

/// Decimal accumulation as `i64`, negative to cover the full range:
/// `None` when the value leaves the `i64` range.
pub open spec fn int_fold_m(digits: Seq<char>, i: int, acc: i64) -> Option<i64>
    decreases digits.len() - i,
{
    if i < 0 || i >= digits.len() {
        Some(acc)
    } else {
        match acc.checked_mul(10) {
            Some(a10) => match a10.checked_sub(digit_v(digits[i]) as i64) {
                Some(a) => int_fold_m(digits, i + 1, a),
                None => None,
            },
            None => None,
        }
    }
}

/// The number of dots in the text.
pub open spec fn dot_count(s: Seq<char>, i: int) -> int
    decreases s.len() - i,
{
    if i < 0 || i >= s.len() {
        0
    } else if s[i] == '.' {
        1 + dot_count(s, i + 1)
    } else {
        dot_count(s, i + 1)
    }
}

/// The number of decimal digits in the text.
pub open spec fn digit_count(s: Seq<char>, i: int) -> int
    decreases s.len() - i,
{
    if i < 0 || i >= s.len() {
        0
    } else if digit_c(s[i]) {
        1 + digit_count(s, i + 1)
    } else {
        digit_count(s, i + 1)
    }
}

/// The token a collected number text stands for: with a dot it is a float
/// literal, valid exactly when it has one dot and at least one digit;
/// without a dot an integer, valid exactly when its value fits in `i64`.
pub open spec fn number_token_m(lexeme: Seq<char>, neg: bool, sl: int, sc: int) -> Result<
    TokenModel,
    ErrModel,
> {
    let digits = if neg {
        lexeme.subrange(1, lexeme.len() as int)
    } else {
        lexeme
    };
    if dot_count(digits, 0) > 0 {
        if dot_count(digits, 0) == 1 && digit_count(digits, 0) >= 1 {
            Ok(TokenModel::FloatT(lexeme))
        } else {
            Err(
                ErrModel::ParseErrM {
                    line: sl,
                    column: sc,
                    message: "Invalid float: "@ + lexeme,
                },
            )
        }
    } else {
        match int_fold_m(digits, 0, 0) {
            Some(negval) => if neg {
                Ok(TokenModel::IntegerT(negval as int))
            } else {
                if negval == i64::MIN {
                    Err(
                        ErrModel::ParseErrM {
                            line: sl,
                            column: sc,
                            message: "Invalid integer: "@ + lexeme,
                        },
                    )
                } else {
                    Ok(TokenModel::IntegerT(-(negval as int)))
                }
            },
            None => Err(
                ErrModel::ParseErrM {
                    line: sl,
                    column: sc,
                    message: "Invalid integer: "@ + lexeme,
                },
            ),
        }
    }
}

/// Collecting symbol characters from the input.
pub open spec fn collect_sym_m(s: LexModel, acc: Seq<char>) -> (Seq<char>, LexModel)
    decreases s.input.len() - s.pos,
{
    if 0 <= s.pos < s.input.len() && symbol_char(s.input[s.pos]) {
        collect_sym_m(adv_m(s), acc.push(s.input[s.pos]))
    } else {
        (acc, s)
    }
}

/// What follows a `#`: `t` and `f` are the booleans; otherwise the `#`
/// starts a symbol, which must not be bare.
pub open spec fn hash_token_m(s: LexModel, sl: int, sc: int) -> Result<
    (TokenModel, LexModel),
    ErrModel,
> {
    if s.pos >= s.input.len() {
        Ok((TokenModel::SymbolT(seq!['#']), s))
    } else if s.input[s.pos] == 't' {
        Ok((TokenModel::BoolT(true), adv_m(s)))
    } else if s.input[s.pos] == 'f' {
        Ok((TokenModel::BoolT(false), adv_m(s)))
    } else {
        let (chars, s2) = collect_sym_m(s, Seq::empty());
        if chars.len() == 0 {
            Err(ErrModel::ParseErrM { line: sl, column: sc, message: "Invalid symbol: #"@ })
        } else {
            Ok((TokenModel::SymbolT(seq!['#'] + chars), s2))
        }
    }
}

/// The next token after the current position, with the state that
/// follows it; `None` at the end of input.
pub open spec fn next_token_m(s0: LexModel) -> Result<Option<(LocTokModel, LexModel)>, ErrModel> {
    let s = skip_ws_m(s0, false);
    if s.pos >= s.input.len() {
        Ok(None)
    } else {
        let c = s.input[s.pos];
        let sl = s.line;
        let sc = s.column;
        if c == '(' {
            Ok(Some((LocTokModel { token: TokenModel::LParenT, line: sl, column: sc }, adv_m(s))))
        } else if c == ')' {
            Ok(Some((LocTokModel { token: TokenModel::RParenT, line: sl, column: sc }, adv_m(s))))
        } else if c == '\'' {
            Ok(Some((LocTokModel { token: TokenModel::QuoteT, line: sl, column: sc }, adv_m(s))))
        } else if c == '`' {
            Ok(
                Some(
                    (LocTokModel { token: TokenModel::QuasiquoteT, line: sl, column: sc }, adv_m(s)),
                ),
            )
        } else if c == ',' {
            let s1 = adv_m(s);
            if s1.pos < s1.input.len() && s1.input[s1.pos] == '@' {
                Ok(
                    Some(
                        (
                            LocTokModel {
                                token: TokenModel::UnquoteSplicingT,
                                line: sl,
                                column: sc,
                            },
                            adv_m(s1),
                        ),
                    ),
                )
            } else {
                Ok(
                    Some((LocTokModel { token: TokenModel::UnquoteT, line: sl, column: sc }, s1)),
                )
            }
        } else if c == '"' {
            match read_string_m(adv_m(s), Seq::empty(), sl, sc) {
                Ok((content, s2)) => Ok(
                    Some(
                        (
                            LocTokModel { token: TokenModel::StrT(content), line: sl, column: sc },
                            s2,
                        ),
                    ),
                ),
                Err(e) => Err(e),
            }
        } else if c == '#' {
            match hash_token_m(adv_m(s), sl, sc) {
                Ok((t, s2)) => Ok(Some((LocTokModel { token: t, line: sl, column: sc }, s2))),
                Err(e) => Err(e),
            }
        } else if digit_c(c) || (c == '-' && s.pos + 1 < s.input.len() && digit_c(
            s.input[s.pos + 1],
        )) {
            let neg = c == '-';
            let start = if neg {
                adv_m(s)
            } else {
                s
            };
            let acc0 = if neg {
                seq!['-']
            } else {
                Seq::<char>::empty()
            };
            let (lexeme, s2) = collect_num_m(start, acc0);
            match number_token_m(lexeme, neg, sl, sc) {
                Ok(t) => Ok(Some((LocTokModel { token: t, line: sl, column: sc }, s2))),
                Err(e) => Err(e),
            }
        } else if symbol_start(c) {
            let (chars, s2) = collect_sym_m(s, Seq::empty());
            Ok(
                Some(
                    (LocTokModel { token: TokenModel::SymbolT(chars), line: sl, column: sc }, s2),
                ),
            )
        } else {
            Err(
                ErrModel::ParseErrM {
                    line: sl,
                    column: sc,
                    message: "Unexpected character: '"@.push(c).push('\''),
                },
            )
        }
    }
}

/// The token stream of the input from the given state on.
pub open spec fn tokenize_m(s: LexModel) -> Result<Seq<LocTokModel>, ErrModel>
    decreases s.input.len() - s.pos,
{
    match next_token_m(s) {
        Err(e) => Err(e),
        Ok(None) => Ok(Seq::empty()),
        Ok(Some((t, s2))) => if s.pos < s2.pos <= s.input.len() && s2.input == s.input {
            match tokenize_m(s2) {
                Ok(rest) => Ok(seq![t] + rest),
                Err(e) => Err(e),
            }
        } else {
            Ok(seq![t])
        },
    }
}

/// A well-formed lexer state: the position is within bounds.
pub open spec fn lex_ok(s: LexModel) -> bool {
    0 <= s.pos <= s.input.len()
}

/// Advancing keeps the input and does not move backwards.
proof fn lemma_adv(s: LexModel)
    requires
        lex_ok(s),
    ensures
        lex_ok(adv_m(s)),
        adv_m(s).input == s.input,
        adv_m(s).pos >= s.pos,
        s.pos < s.input.len() ==> adv_m(s).pos == s.pos + 1,
{
}

/// Skipping whitespace keeps the input and does not move backwards.
proof fn lemma_skip_ws(s: LexModel, in_comment: bool)
    requires
        lex_ok(s),
    ensures
        lex_ok(skip_ws_m(s, in_comment)),
        skip_ws_m(s, in_comment).input == s.input,
        skip_ws_m(s, in_comment).pos >= s.pos,
    decreases s.input.len() - s.pos,
{
    if 0 <= s.pos < s.input.len() {
        if in_comment {
            if s.input[s.pos] == '\n' {
                lemma_skip_ws(adv_m(s), false);
            } else {
                lemma_skip_ws(adv_m(s), true);
            }
        } else if whitespace(s.input[s.pos]) {
            lemma_skip_ws(adv_m(s), false);
        } else if s.input[s.pos] == ';' {
            lemma_skip_ws(adv_m(s), true);
        }
    }
}

/// Reading a string keeps the input and moves forwards.
proof fn lemma_read_string(s: LexModel, acc: Seq<char>, sl: int, sc: int)
    requires
        lex_ok(s),
    ensures
        match read_string_m(s, acc, sl, sc) {
            Ok((content, s2)) => lex_ok(s2) && s2.input == s.input && s2.pos > s.pos,
            Err(_) => true,
        },
    decreases s.input.len() - s.pos,
{
    if 0 <= s.pos < s.input.len() {
        if s.input[s.pos] == '"' {
        } else if s.input[s.pos] == '\\' {
            let s1 = adv_m(s);
            if s1.pos < s.input.len() {
                let e = s.input[s1.pos];
                if e == 'n' || e == 't' || e == 'r' || e == '\\' || e == '"' {
                    let c = if e == 'n' {
                        '\n'
                    } else if e == 't' {
                        '\t'
                    } else if e == 'r' {
                        '\r'
                    } else if e == '\\' {
                        '\\'
                    } else {
                        '"'
                    };
                    lemma_read_string(adv_m(s1), acc.push(c), sl, sc);
                }
            }
        } else {
            lemma_read_string(adv_m(s), acc.push(s.input[s.pos]), sl, sc);
        }
    }
}

/// Collecting number characters keeps the input and moves forwards.
proof fn lemma_collect_num(s: LexModel, acc: Seq<char>)
    requires
        lex_ok(s),
    ensures
        lex_ok(collect_num_m(s, acc).1),
        collect_num_m(s, acc).1.input == s.input,
        collect_num_m(s, acc).1.pos >= s.pos,
    decreases s.input.len() - s.pos,
{
    if 0 <= s.pos < s.input.len() && (digit_c(s.input[s.pos]) || s.input[s.pos] == '.') {
        lemma_collect_num(adv_m(s), acc.push(s.input[s.pos]));
    }
}

/// Collecting symbol characters keeps the input and moves forwards.
proof fn lemma_collect_sym(s: LexModel, acc: Seq<char>)
    requires
        lex_ok(s),
    ensures
        lex_ok(collect_sym_m(s, acc).1),
        collect_sym_m(s, acc).1.input == s.input,
        collect_sym_m(s, acc).1.pos >= s.pos,
    decreases s.input.len() - s.pos,
{
    if 0 <= s.pos < s.input.len() && symbol_char(s.input[s.pos]) {
        lemma_collect_sym(adv_m(s), acc.push(s.input[s.pos]));
    }
}

/// A successful token always moves the position forwards and keeps the
/// input.
proof fn lemma_next_token_progress(s0: LexModel)
    requires
        lex_ok(s0),
    ensures
        match next_token_m(s0) {
            Ok(Some((t, s2))) => lex_ok(s2) && s2.input == s0.input && s2.pos > s0.pos,
            _ => true,
        },
{
    lemma_skip_ws(s0, false);
    let s = skip_ws_m(s0, false);
    if s.pos < s.input.len() {
        let c = s.input[s.pos];
        if c == '"' {
            lemma_adv(s);
            lemma_read_string(adv_m(s), Seq::empty(), s.line, s.column);
        } else if c == '#' {
            lemma_adv(s);
            let s1 = adv_m(s);
            if s1.pos < s1.input.len() && s1.input[s1.pos] != 't' && s1.input[s1.pos] != 'f' {
                lemma_collect_sym(s1, Seq::empty());
            }
        } else if digit_c(c) || (c == '-' && s.pos + 1 < s.input.len() && digit_c(
            s.input[s.pos + 1],
        )) {
            let neg = c == '-';
            let start = if neg {
                adv_m(s)
            } else {
                s
            };
            let acc0 = if neg {
                seq!['-']
            } else {
                Seq::<char>::empty()
            };
            lemma_adv(s);
            if neg {
                lemma_collect_num(start, acc0);
            } else {
                assert(collect_num_m(start, acc0) == collect_num_m(adv_m(s), acc0.push(c)));
                lemma_collect_num(adv_m(s), acc0.push(c));
            }
            assert(collect_num_m(start, acc0).1.pos > s.pos);
        } else if symbol_start(c) {
            assert(symbol_char(c));
            assert(collect_sym_m(s, Seq::empty()) == collect_sym_m(
                adv_m(s),
                Seq::<char>::empty().push(c),
            ));
            lemma_adv(s);
            lemma_collect_sym(adv_m(s), Seq::<char>::empty().push(c));
            assert(collect_sym_m(s, Seq::empty()).1.pos > s.pos);
        } else {
            lemma_adv(s);
        }
    }
}

/// One unfolding of `tokenize_m`.
proof fn lemma_tokenize_unfold(s: LexModel)
    ensures
        tokenize_m(s) == (match next_token_m(s) {
            Err(e) => Err::<Seq<LocTokModel>, ErrModel>(e),
            Ok(None) => Ok::<Seq<LocTokModel>, ErrModel>(Seq::empty()),
            Ok(Some((t, s2))) => if s.pos < s2.pos <= s.input.len() && s2.input == s.input {
                match tokenize_m(s2) {
                    Ok(rest) => Ok::<Seq<LocTokModel>, ErrModel>(seq![t] + rest),
                    Err(e) => Err::<Seq<LocTokModel>, ErrModel>(e),
                }
            } else {
                Ok::<Seq<LocTokModel>, ErrModel>(seq![t])
            },
        }),
{
}

/// The tokenizer state.
pub struct Lexer {
    input: Vec<char>,
    pos: usize,
    line: usize,
    column: usize,
}

impl View for Lexer {
    type V = LexModel;

    closed spec fn view(&self) -> LexModel {
        LexModel {
            input: self.input@,
            pos: self.pos as int,
            line: self.line as int,
            column: self.column as int,
        }
    }
}

impl Lexer {
    /// A lexer at the start of the input, line 1, column 1.
    pub fn new(input: &str) -> (l: Lexer)
        ensures
            l@ == (LexModel { input: input@, pos: 0, line: 1, column: 1 }),
    {
        let n = input.unicode_len();
        let mut chars: Vec<char> = Vec::new();
        let mut i: usize = 0;
        while i < n
            invariant
                n == input@.len(),
                i <= n,
                chars@.len() == i,
                forall|j: int| 0 <= j < i ==> chars@[j] == input@[j],
            decreases n - i,
        {
            chars.push(input.get_char(i));
            i += 1;
        }
        proof {
            assert(chars@ =~= input@);
        }
        Lexer { input: chars, pos: 0, line: 1, column: 1 }
    }

    /// Whether the whole input has been consumed.
    pub fn is_eof(&self) -> (r: bool)
        ensures
            r == (self@.pos >= self@.input.len()),
    {
        self.pos >= self.input.len()
    }

    /// The character at the current position.
    pub fn peek(&self) -> (c: char)
        requires
            self@.pos < self@.input.len(),
        ensures
            c == self@.input[self@.pos],
    {
        self.input[self.pos]
    }

    /// The character `n` places ahead of the current position, if any.
    pub fn peek_ahead(&self, n: usize) -> (r: Option<char>)
        ensures
            match r {
                Some(c) => self@.pos + n < self@.input.len() && c == self@.input[self@.pos + n],
                None => self@.pos + n >= self@.input.len(),
            },
    {
        if self.pos < self.input.len() && n < self.input.len() - self.pos {
            Some(self.input[self.pos + n])
        } else {
            None
        }
    }

    /// Moves one character forward, tracking line and column.
    pub fn advance(&mut self)
        ensures
            final(self)@ == adv_m(old(self)@),
    {
        if self.pos < self.input.len() {
            if self.input[self.pos] == '\n' {
                if self.line < usize::MAX {
                    self.line += 1;
                }
                self.column = 1;
            } else {
                if self.column < usize::MAX {
                    self.column += 1;
                }
            }
            self.pos += 1;
        }
    }

    /// Skips whitespace and line comments.
    pub fn skip_whitespace_and_comments(&mut self)
        ensures
            final(self)@ == skip_ws_m(old(self)@, false),
    {
        let mut in_comment = false;
        loop
            invariant
                skip_ws_m(old(self)@, false) == skip_ws_m(self@, in_comment),
            ensures
                self@ == skip_ws_m(old(self)@, false),
            decreases self@.input.len() - self@.pos,
        {
            if self.is_eof() {
                break ;
            }
            let c = self.peek();
            if in_comment {
                self.advance();
                if c == '\n' {
                    in_comment = false;
                }
            } else if char_is_whitespace(c) {
                self.advance();
            } else if c == ';' {
                self.advance();
                in_comment = true;
            } else {
                break ;
            }
        }
    }

    /// Reads a string literal from the opening quote on, decoding the
    /// escapes `\n`, `\t`, `\r`, `\\` and `\"`.
    pub fn read_string(&mut self) -> (r: Result<Token, Error>)
        requires
            old(self)@.pos < old(self)@.input.len(),
        ensures
            match read_string_m(
                adv_m(old(self)@),
                Seq::empty(),
                old(self)@.line,
                old(self)@.column,
            ) {
                Ok((content, s2)) => match r {
                    Ok(t) => t@ == TokenModel::StrT(content) && final(self)@ == s2,
                    Err(_) => false,
                },
                Err(e) => match r {
                    Ok(_) => false,
                    Err(e2) => e2@ == e,
                },
            },
    {
        let ghost sl = self@.line;
        let ghost sc = self@.column;
        let start_line = self.line;
        let start_col = self.column;
        self.advance();
        let mut result = String::new();
        loop
            invariant
                read_string_m(adv_m(old(self)@), Seq::empty(), sl, sc) == read_string_m(
                    self@,
                    result@,
                    sl,
                    sc,
                ),
                sl == old(self)@.line,
                sc == old(self)@.column,
                start_line == sl,
                start_col == sc,
                self@.input == old(self)@.input,
                0 <= self@.pos <= self@.input.len(),
            decreases self@.input.len() - self@.pos,
        {
            if self.is_eof() {
                return Err(Error::parse_error(start_line, start_col, "Unclosed string literal"));
            }
            let c = self.peek();
            if c == '"' {
                self.advance();
                return Ok(Token::Str(result));
            }
            if c == '\\' {
                self.advance();
                if self.is_eof() {
                    return Err(
                        Error::parse_error(start_line, start_col, "Unclosed string literal"),
                    );
                }
                let e = self.peek();
                let decoded: char = match e {
                    'n' => '\n',
                    't' => '\t',
                    'r' => '\r',
                    '\\' => '\\',
                    '"' => '"',
                    _ => {
                        let mut msg = String::from_str("Invalid escape sequence: \\");
                        push_char(&mut msg, e);
                        return Err(Error::parse_error(self.line, self.column, msg.as_str()));
                    },
                };
                push_char(&mut result, decoded);
                self.advance();
            } else {
                push_char(&mut result, c);
                self.advance();
            }
        }
    }

    /// Reads a number: an integer literal, or a float literal kept as
    /// text; a malformed one is a parse error.
    pub fn read_number(&mut self) -> (r: Result<Token, Error>)
        requires
            old(self)@.pos < old(self)@.input.len(),
        ensures
            ({
                let s = old(self)@;
                let neg = s.input[s.pos] == '-';
                let start = if neg {
                    adv_m(s)
                } else {
                    s
                };
                let acc0 = if neg {
                    seq!['-']
                } else {
                    Seq::<char>::empty()
                };
                let (lexeme, s2) = collect_num_m(start, acc0);
                match number_token_m(lexeme, neg, s.line, s.column) {
                    Ok(t) => match r {
                        Ok(tok) => tok@ == t && final(self)@ == s2,
                        Err(_) => false,
                    },
                    Err(e) => match r {
                        Ok(_) => false,
                        Err(e2) => e2@ == e,
                    },
                }
            }),
    {
        let ghost s0 = old(self)@;
        let start_line = self.line;
        let start_col = self.column;
        let mut lexeme = String::new();
        let neg = self.peek() == '-';
        if neg {
            push_char(&mut lexeme, '-');
            self.advance();
        }
        let ghost start = self@;
        let ghost acc0 = lexeme@;
        loop
            invariant
                collect_num_m(start, acc0) == collect_num_m(self@, lexeme@),
                self@.input == s0.input,
                0 <= self@.pos <= self@.input.len(),
                neg ==> lexeme@.len() >= 1 && lexeme@[0] == '-',
                !neg ==> (forall|k: int|
                    0 <= k < lexeme@.len() ==> digit_c(#[trigger] lexeme@[k]) || lexeme@[k] == '.'),
                forall|k: int|
                    1 <= k < lexeme@.len() ==> digit_c(#[trigger] lexeme@[k]) || lexeme@[k] == '.',
            ensures
                collect_num_m(start, acc0) == (lexeme@, self@),
                self@.input == s0.input,
                0 <= self@.pos <= self@.input.len(),
                neg ==> lexeme@.len() >= 1 && lexeme@[0] == '-',
                !neg ==> (forall|k: int|
                    0 <= k < lexeme@.len() ==> digit_c(#[trigger] lexeme@[k]) || lexeme@[k] == '.'),
                forall|k: int|
                    1 <= k < lexeme@.len() ==> digit_c(#[trigger] lexeme@[k]) || lexeme@[k] == '.',
            decreases self@.input.len() - self@.pos,
        {
            if self.is_eof() {
                break ;
            }
            let c = self.peek();
            if !(((c as u32) >= 48 && (c as u32) <= 57) || c == '.') {
                break ;
            }
            push_char(&mut lexeme, c);
            self.advance();
        }
        let ghost lexm = collect_num_m(start, acc0).0;
        proof {
            assert(lexm == lexeme@);
        }
        let ghost digits = if neg {
            lexm.subrange(1, lexm.len() as int)
        } else {
            lexm
        };
        let off: usize = if neg {
            1
        } else {
            0
        };
        let total = lexeme.unicode_len();
        let mut dots: usize = 0;
        let mut digs: usize = 0;
        let mut k: usize = off;
        while k < total
            invariant
                off <= k <= total,
                total == lexm.len(),
                off == (if neg {
                    1int
                } else {
                    0int
                }),
                neg ==> lexm.len() >= 1,
                lexeme@ == lexm,
                digits == (if neg {
                    lexm.subrange(1, lexm.len() as int)
                } else {
                    lexm
                }),
                digits.len() == total - off,
                dots <= k,
                digs <= k,
                dot_count(digits, 0) == dots + dot_count(digits, k - off),
                digit_count(digits, 0) == digs + digit_count(digits, k - off),
            decreases total - k,
        {
            let c = lexeme.as_str().get_char(k);
            proof {
                assert(digits[k - off] == lexm[k as int]);
            }
            if c == '.' {
                dots += 1;
            } else if (c as u32) >= 48 && (c as u32) <= 57 {
                digs += 1;
            }
            k += 1;
        }
        proof {
            assert(dot_count(digits, digits.len() as int) == 0);
            assert(digit_count(digits, digits.len() as int) == 0);
        }
        if dots > 0 {
            if dots == 1 && digs >= 1 {
                return Ok(Token::Float(lexeme));
            }
            let mut msg = String::from_str("Invalid float: ");
            msg.append(lexeme.as_str());
            return Err(Error::parse_error(start_line, start_col, msg.as_str()));
        }
        let mut acc: i64 = 0;
        let mut j: usize = off;
        let mut overflow = false;
        while j < total
            invariant
                off <= j <= total,
                total == lexm.len(),
                off == (if neg {
                    1int
                } else {
                    0int
                }),
                neg ==> lexm.len() >= 1,
                lexeme@ == lexm,
                digits == (if neg {
                    lexm.subrange(1, lexm.len() as int)
                } else {
                    lexm
                }),
                digits.len() == total - off,
                dot_count(digits, 0) == 0,
                forall|t: int| 1 <= t < lexm.len() ==> digit_c(#[trigger] lexm[t]) || lexm[t] == '.',
                !neg ==> (forall|t: int|
                    0 <= t < lexm.len() ==> digit_c(#[trigger] lexm[t]) || lexm[t] == '.'),
                !overflow ==> int_fold_m(digits, 0, 0) == int_fold_m(digits, j - off, acc),
                overflow ==> int_fold_m(digits, 0, 0) is None,
            decreases total - j,
        {
            let c = lexeme.as_str().get_char(j);
            proof {
                assert(digits[j - off] == lexm[j as int]);
                assert(dot_count(digits, 0) >= dot_count(digits, j - off) >= 0) by {
                    lemma_dot_count_bounds(digits, j - off);
                    lemma_dot_count_bounds(digits, 0);
                    lemma_dot_count_split(digits, 0, j - off);
                }
                assert(digits[j - off] != '.') by {
                    if digits[j - off] == '.' {
                        lemma_dot_count_pos(digits, j - off);
                        lemma_dot_count_split(digits, 0, j - off);
                    }
                }
            }
            if !overflow {
                let d: i64 = ((c as u32) - 48) as i64;
                match acc.checked_mul(10) {
                    Some(a10) => match a10.checked_sub(d) {
                        Some(a) => {
                            acc = a;
                        },
                        None => {
                            overflow = true;
                        },
                    },
                    None => {
                        overflow = true;
                    },
                }
            }
            j += 1;
        }
        if overflow {
            let mut msg = String::from_str("Invalid integer: ");
            msg.append(lexeme.as_str());
            return Err(Error::parse_error(start_line, start_col, msg.as_str()));
        }
        if neg {
            Ok(Token::Integer(acc))
        } else {
            if acc == i64::MIN {
                let mut msg = String::from_str("Invalid integer: ");
                msg.append(lexeme.as_str());
                return Err(Error::parse_error(start_line, start_col, msg.as_str()));
            }
            Ok(Token::Integer(-acc))
        }
    }
}

impl Lexer {
    /// Reads the symbol characters from the current position on.
    pub fn read_symbol_chars(&mut self) -> (r: String)
        requires
            old(self)@.pos <= old(self)@.input.len(),
        ensures
            collect_sym_m(old(self)@, Seq::empty()) == (r@, final(self)@),
            final(self)@.input == old(self)@.input,
            0 <= final(self)@.pos <= final(self)@.input.len(),
    {
        let mut result = String::new();
        loop
            invariant
                collect_sym_m(old(self)@, Seq::empty()) == collect_sym_m(self@, result@),
                self@.input == old(self)@.input,
                0 <= self@.pos <= self@.input.len(),
            ensures
                collect_sym_m(old(self)@, Seq::empty()) == (result@, self@),
                self@.input == old(self)@.input,
                0 <= self@.pos <= self@.input.len(),
            decreases self@.input.len() - self@.pos,
        {
            if self.is_eof() {
                break ;
            }
            let c = self.peek();
            if !is_symbol_char(c) {
                break ;
            }
            push_char(&mut result, c);
            self.advance();
        }
        result
    }

    /// Reads a symbol token.
    pub fn read_symbol(&mut self) -> (t: Token)
        requires
            old(self)@.pos <= old(self)@.input.len(),
        ensures
            t@ == TokenModel::SymbolT(collect_sym_m(old(self)@, Seq::empty()).0),
            final(self)@ == collect_sym_m(old(self)@, Seq::empty()).1,
            final(self)@.input == old(self)@.input,
            0 <= final(self)@.pos <= final(self)@.input.len(),
    {
        Token::Symbol(self.read_symbol_chars())
    }

    /// Reads what follows a `#`: a boolean, or a symbol starting with
    /// `#`; a bare `#` before a delimiter is a parse error.
    pub fn read_bool_or_symbol(&mut self) -> (r: Result<Token, Error>)
        requires
            old(self)@.pos < old(self)@.input.len(),
        ensures
            match hash_token_m(adv_m(old(self)@), old(self)@.line, old(self)@.column) {
                Ok((t, s2)) => match r {
                    Ok(tok) => tok@ == t && final(self)@ == s2,
                    Err(_) => false,
                },
                Err(e) => match r {
                    Ok(_) => false,
                    Err(e2) => e2@ == e,
                },
            },
    {
        let start_line = self.line;
        let start_col = self.column;
        self.advance();
        if self.is_eof() {
            let s = String::from_str("#");
            proof {
                reveal_strlit("#");
                assert(s@ =~= seq!['#']);
            }
            return Ok(Token::Symbol(s));
        }
        let c = self.peek();
        if c == 't' {
            self.advance();
            return Ok(Token::Bool(true));
        }
        if c == 'f' {
            self.advance();
            return Ok(Token::Bool(false));
        }
        let chars = self.read_symbol_chars();
        if chars.unicode_len() == 0 {
            return Err(Error::parse_error(start_line, start_col, "Invalid symbol: #"));
        }
        let mut sym = String::from_str("#");
        sym.append(chars.as_str());
        proof {
            reveal_strlit("#");
            assert("#"@ =~= seq!['#']);
            assert(sym@ == seq!['#'] + chars@);
        }
        Ok(Token::Symbol(sym))
    }

    /// The next token, with its starting position; `None` at the end of
    /// the input.
    pub fn next_token(&mut self) -> (r: Result<Option<LocatedToken>, Error>)
        requires
            old(self)@.pos <= old(self)@.input.len(),
        ensures
            match next_token_m(old(self)@) {
                Ok(None) => match r {
                    Ok(o) => o is None,
                    Err(_) => false,
                },
                Ok(Some((t, s2))) => match r {
                    Ok(o) => match o {
                        Some(lt) => lt@ == t && final(self)@ == s2 && final(self)@.pos > old(
                            self,
                        )@.pos && final(self)@.input == old(self)@.input && final(self)@.pos
                            <= final(self)@.input.len(),
                        None => false,
                    },
                    Err(_) => false,
                },
                Err(e) => match r {
                    Ok(_) => false,
                    Err(e2) => e2@ == e,
                },
            },
    {
        proof {
            lemma_next_token_progress(old(self)@);
            lemma_skip_ws(old(self)@, false);
        }
        self.skip_whitespace_and_comments();
        if self.is_eof() {
            return Ok(None);
        }
        let start_line = self.line;
        let start_col = self.column;
        let c = self.peek();
        let minus_digit = if c == '-' {
            match self.peek_ahead(1) {
                Some(d) => (d as u32) >= 48 && (d as u32) <= 57,
                None => false,
            }
        } else {
            false
        };
        let token: Token = if c == '(' {
            self.advance();
            Token::LParen
        } else if c == ')' {
            self.advance();
            Token::RParen
        } else if c == '\'' {
            self.advance();
            Token::Quote
        } else if c == '`' {
            self.advance();
            Token::Quasiquote
        } else if c == ',' {
            self.advance();
            let at_follows = match self.peek_ahead(0) {
                Some(a) => a == '@',
                None => false,
            };
            if at_follows {
                self.advance();
                Token::UnquoteSplicing
            } else {
                Token::Unquote
            }
        } else if c == '"' {
            match self.read_string() {
                Ok(t) => t,
                Err(e) => {
                    return Err(e);
                },
            }
        } else if c == '#' {
            match self.read_bool_or_symbol() {
                Ok(t) => t,
                Err(e) => {
                    return Err(e);
                },
            }
        } else if ((c as u32) >= 48 && (c as u32) <= 57) || minus_digit {
            match self.read_number() {
                Ok(t) => t,
                Err(e) => {
                    return Err(e);
                },
            }
        } else if is_symbol_start(c) {
            self.read_symbol()
        } else {
            let mut msg = String::from_str("Unexpected character: '");
            push_char(&mut msg, c);
            push_char(&mut msg, '\'');
            return Err(Error::parse_error(start_line, start_col, msg.as_str()));
        };
        Ok(
            Some(
                LocatedToken {
                    token,
                    location: crate::error::SourceLocation { line: start_line, column: start_col },
                },
            ),
        )
    }

    /// Tokenizes the whole input.
    pub fn tokenize(input: &str) -> (r: Result<Vec<LocatedToken>, Error>)
        ensures
            match tokenize_m(LexModel { input: input@, pos: 0, line: 1, column: 1 }) {
                Ok(ts) => match r {
                    Ok(v) => tmodels(v@) == ts,
                    Err(_) => false,
                },
                Err(e) => match r {
                    Ok(_) => false,
                    Err(e2) => e2@ == e,
                },
            },
    {
        let ghost start = LexModel { input: input@, pos: 0, line: 1, column: 1 };
        let mut lexer = Lexer::new(input);
        let mut tokens: Vec<LocatedToken> = Vec::new();
        proof {
            assert(tmodels(tokens@) =~= Seq::<LocTokModel>::empty());
        }
        loop
            invariant
                start == (LexModel { input: input@, pos: 0, line: 1, column: 1 }),
                0 <= lexer@.pos <= lexer@.input.len(),
                lexer@.input == input@,
                tokenize_m(start) == (match tokenize_m(lexer@) {
                    Ok(rest) => Ok::<Seq<LocTokModel>, ErrModel>(tmodels(tokens@) + rest),
                    Err(e) => Err::<Seq<LocTokModel>, ErrModel>(e),
                }),
            decreases lexer@.input.len() - lexer@.pos,
        {
            let ghost pre = lexer@;
            match lexer.next_token() {
                Ok(Some(lt)) => {
                    proof {
                        lemma_tokenize_unfold(pre);
                    }
                    let ghost old_tokens = tokens@;
                    tokens.push(lt);
                    proof {
                        assert(tmodels(tokens@) =~= tmodels(old_tokens).push(lt@));
                        assert forall|rest: Seq<LocTokModel>|
                            true implies tmodels(old_tokens).push(lt@) + rest == tmodels(
                            old_tokens,
                        ) + (seq![lt@] + rest) by {
                            assert(tmodels(old_tokens).push(lt@) + rest =~= tmodels(old_tokens) + (
                            seq![lt@] + rest));
                        }
                    }
                },
                Ok(None) => {
                    proof {
                        lemma_tokenize_unfold(pre);
                        assert(tmodels(tokens@) + Seq::<LocTokModel>::empty() =~= tmodels(
                            tokens@,
                        ));
                    }
                    return Ok(tokens);
                },
                Err(e) => {
                    proof {
                        lemma_tokenize_unfold(pre);
                    }
                    return Err(e);
                },
            }
        }
    }
}

/// From any index on, the dot count is at least zero.
proof fn lemma_dot_count_bounds(s: Seq<char>, i: int)
    ensures
        dot_count(s, i) >= 0,
    decreases s.len() - i,
{
    if 0 <= i < s.len() {
        lemma_dot_count_bounds(s, i + 1);
    }
}

/// The dot count from `a` splits at `b`.
proof fn lemma_dot_count_split(s: Seq<char>, a: int, b: int)
    requires
        0 <= a <= b <= s.len(),
    ensures
        dot_count(s, a) >= dot_count(s, b),
    decreases b - a,
{
    if a < b {
        lemma_dot_count_bounds(s, a);
        lemma_dot_count_split(s, a + 1, b);
    }
}

/// A dot at an index makes the count from there positive.
proof fn lemma_dot_count_pos(s: Seq<char>, i: int)
    requires
        0 <= i < s.len(),
        s[i] == '.',
    ensures
        dot_count(s, i) >= 1,
{
    lemma_dot_count_bounds(s, i + 1);
}

} // verus!
