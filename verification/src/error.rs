//! Error types: every failure the lexer, parser and evaluator can report,
//! with a mathematical model and a verified textual rendering.

use crate::render::{dec_str, usize_to_string};
use vstd::prelude::*;
use vstd::string::StringExecFns;

verus! {

/// A position in the source text, 1-based.
#[derive(Debug, Clone, PartialEq, Eq, Structural)]
pub struct SourceLocation {
    pub line: usize,
    pub column: usize,
}

/// Mathematical model of an error.
#[verifier::ext_equal]
pub enum ErrModel {
    ParseErrM { line: int, column: int, message: Seq<char> },
    UndefinedSymM(Seq<char>),
    TypeErrM { expected: Seq<char>, actual: Seq<char> },
    ArityErrM { func: Seq<char>, expected: int, actual: int },
    DivByZeroM,
    RuntimeErrM(Seq<char>),
}

/// An error raised while lexing, parsing or evaluating.
#[derive(Debug)]
pub enum Error {
    /// Malformed source text, with the position it was noticed at.
    ParseError { location: SourceLocation, message: String },
    /// A symbol was looked up and no scope in the chain binds it.
    UndefinedSymbol(String),
    /// A value of the wrong kind was used.
    TypeError { expected: String, actual: String },
    /// A form or procedure was given the wrong number of arguments.
    ArityError { func: String, expected: usize, actual: usize },
    /// Division by zero inside a primitive.
    DivisionByZero,
    /// An invariant violation not otherwise classified.
    RuntimeError(String),
}

impl View for Error {
    type V = ErrModel;

    open spec fn view(&self) -> ErrModel {
        match self {
            Error::ParseError { location, message } => ErrModel::ParseErrM {
                line: location.line as int,
                column: location.column as int,
                message: message@,
            },
            Error::UndefinedSymbol(name) => ErrModel::UndefinedSymM(name@),
            Error::TypeError { expected, actual } => ErrModel::TypeErrM {
                expected: expected@,
                actual: actual@,
            },
            Error::ArityError { func, expected, actual } => ErrModel::ArityErrM {
                func: func@,
                expected: *expected as int,
                actual: *actual as int,
            },
            Error::DivisionByZero => ErrModel::DivByZeroM,
            Error::RuntimeError(message) => ErrModel::RuntimeErrM(message@),
        }
    }
}

/// Rendering of a source location: `line L, column C`.
pub open spec fn loc_str(line: int, column: int) -> Seq<char> {
    "line "@ + dec_str(line as nat) + ", column "@ + dec_str(column as nat)
}

/// Rendering of an error, one fixed phrasing per kind.
pub open spec fn err_str(e: ErrModel) -> Seq<char> {
    match e {
        ErrModel::ParseErrM { line, column, message } => "Parse error at "@ + loc_str(
            line,
            column,
        ) + ": "@ + message,
        ErrModel::UndefinedSymM(name) => "Undefined symbol: "@ + name,
        ErrModel::TypeErrM { expected, actual } => "Type error: expected "@ + expected + ", got "@
            + actual,
        ErrModel::ArityErrM { func, expected, actual } => "Arity error: "@ + func + " expects "@
            + dec_str(expected as nat) + " args, got "@ + dec_str(actual as nat),
        ErrModel::DivByZeroM => "Division by zero"@,
        ErrModel::RuntimeErrM(message) => "Runtime error: "@ + message,
    }
}

impl SourceLocation {
    /// Textual form of the location, as error messages embed it.
    pub fn render(&self) -> (s: String)
        ensures
            s@ == loc_str(self.line as int, self.column as int),
    {
        let mut s = String::from_str("line ");
        s.append(usize_to_string(self.line).as_str());
        s.append(", column ");
        s.append(usize_to_string(self.column).as_str());
        s
    }
}

impl Error {
    /// A parse error at the given position.
    pub fn parse_error(line: usize, column: usize, message: &str) -> (e: Error)
        ensures
            e@ == (ErrModel::ParseErrM {
                line: line as int,
                column: column as int,
                message: message@,
            }),
    {
        Error::ParseError { location: SourceLocation { line, column }, message: message.to_owned() }
    }

    /// A type error from the expected and actual type names.
    pub fn type_error(expected: &str, actual: &str) -> (e: Error)
        ensures
            e@ == (ErrModel::TypeErrM { expected: expected@, actual: actual@ }),
    {
        Error::TypeError { expected: expected.to_owned(), actual: actual.to_owned() }
    }

    /// An arity error for the named form or procedure.
    pub fn arity_error(func: &str, expected: usize, actual: usize) -> (e: Error)
        ensures
            e@ == (ErrModel::ArityErrM {
                func: func@,
                expected: expected as int,
                actual: actual as int,
            }),
    {
        Error::ArityError { func: func.to_owned(), expected, actual }
    }

    /// A runtime error with the given message.
    pub fn runtime(message: &str) -> (e: Error)
        ensures
            e@ == ErrModel::RuntimeErrM(message@),
    {
        Error::RuntimeError(message.to_owned())
    }

    /// An undefined-symbol error for the given name.
    pub fn undefined(name: &str) -> (e: Error)
        ensures
            e@ == ErrModel::UndefinedSymM(name@),
    {
        Error::UndefinedSymbol(name.to_owned())
    }

    /// Textual form of the error.
    pub fn render(&self) -> (s: String)
        ensures
            s@ == err_str(self@),
    {
        match self {
            Error::ParseError { location, message } => {
                let mut s = String::from_str("Parse error at ");
                s.append(location.render().as_str());
                s.append(": ");
                s.append(message.as_str());
                s
            },
            Error::UndefinedSymbol(name) => {
                let mut s = String::from_str("Undefined symbol: ");
                s.append(name.as_str());
                s
            },
            Error::TypeError { expected, actual } => {
                let mut s = String::from_str("Type error: expected ");
                s.append(expected.as_str());
                s.append(", got ");
                s.append(actual.as_str());
                s
            },
            Error::ArityError { func, expected, actual } => {
                let mut s = String::from_str("Arity error: ");
                s.append(func.as_str());
                s.append(" expects ");
                s.append(usize_to_string(*expected).as_str());
                s.append(" args, got ");
                s.append(usize_to_string(*actual).as_str());
                s
            },
            Error::DivisionByZero => String::from_str("Division by zero"),
            Error::RuntimeError(message) => {
                let mut s = String::from_str("Runtime error: ");
                s.append(message.as_str());
                s
            },
        }
    }
}

} // verus!
