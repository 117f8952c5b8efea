//! The failure kinds of the interpreter: parse/build failures and the typed
//! evaluation failures, each with its user-facing message.

use vstd::prelude::*;

verus! {

#[derive(Debug, PartialEq, Eq, Clone, Copy, Structural)]
pub enum Error {
    Parser(ParseError),
    Eval(EvalError),
}

#[derive(Debug, PartialEq, Eq, Clone, Copy, Structural)]
pub enum ParseError {
    PestParser,
    BuildAst,
}

#[derive(Debug, PartialEq, Eq, Clone, Copy, Structural)]
pub enum EvalError {
    Argument,
    Index,
    InvalidExpression,
    Name,
    OutOfRange,
    Type,
    ZeroDivision,
}

pub open spec fn parse_error_message(e: ParseError) -> Seq<char> {
    "Syntax error"@
}

pub open spec fn eval_error_message(e: EvalError) -> Seq<char> {
    match e {
        EvalError::Argument => "Argument error"@,
        EvalError::Index => "Index error"@,
        EvalError::InvalidExpression => "Invalid expression error"@,
        EvalError::Name => "Name error"@,
        EvalError::OutOfRange => "Out of range error"@,
        EvalError::Type => "Type error"@,
        EvalError::ZeroDivision => "Zero division error"@,
    }
}

pub open spec fn error_message(e: Error) -> Seq<char> {
    match e {
        Error::Parser(p) => parse_error_message(p),
        Error::Eval(v) => eval_error_message(v),
    }
}

impl ParseError {
    /// Both parse-time failure kinds render as a plain syntax error.
    pub fn message(&self) -> (r: String)
        ensures
            r@ == parse_error_message(*self),
    {
        "Syntax error".to_owned()
    }
}

impl EvalError {
    pub fn message(&self) -> (r: String)
        ensures
            r@ == eval_error_message(*self),
    {
        match self {
            EvalError::Argument => "Argument error".to_owned(),
            EvalError::Index => "Index error".to_owned(),
            EvalError::InvalidExpression => "Invalid expression error".to_owned(),
            EvalError::Name => "Name error".to_owned(),
            EvalError::OutOfRange => "Out of range error".to_owned(),
            EvalError::Type => "Type error".to_owned(),
            EvalError::ZeroDivision => "Zero division error".to_owned(),
        }
    }
}

impl Error {
    pub fn message(&self) -> (r: String)
        ensures
            r@ == error_message(*self),
    {
        match self {
            Error::Parser(p) => p.message(),
            Error::Eval(v) => v.message(),
        }
    }
}

} // verus!
