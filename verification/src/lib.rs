//! A small interpreter for a Lisp-family expression language.
//!
//! The crate holds the expression model, the chain of scopes that names are
//! resolved in, the table of native functions, and the evaluator. Numbers are
//! 64-bit signed integers and all arithmetic on them is checked.
use crate::ast::{views, Expr, ExprView};
use crate::env::Env;
use crate::eval::{eval_all, eval_all_spec, result_views, MAX_DEPTH};
use crate::reader::{read_program, LangParser};
use vstd::prelude::*;

pub mod ast;
pub mod builtin;
pub mod cache;
pub mod env;
pub mod eval;
pub mod reader;
pub mod roundtrip;
pub mod utils;

verus! {

/// Every way in which reading or evaluating a program can fail.
#[derive(Debug, PartialEq, Eq)]
pub enum LangError {
    /// A divisor was zero.
    DivideByZero,
    /// The source text is malformed.
    ParseFailed(String),
    /// A name has no binding, or a value that cannot be called stands in call position.
    InvalidSymbol(String),
    /// A special form or a native function got the wrong number of operands.
    InvalidArgsLen,
    /// An operand is of the wrong variant for the operation.
    TypeMismatched,
    /// A failure specific to one native function, with its message.
    Other(String),
    /// The parameter specification of a closure is neither a symbol nor a list.
    Unknown,
    /// A clause of a conditional is not a list.
    Unsupported,
    /// An arithmetic result does not fit in a 64-bit signed integer.
    Overflow,
    /// Applications were nested more deeply than the evaluator's limit.
    RecursionLimitExceeded,
}

/// The mathematical value of a `LangError`: messages are sequences of characters.
pub enum LangErrorView {
    DivideByZero,
    ParseFailed(Seq<char>),
    InvalidSymbol(Seq<char>),
    InvalidArgsLen,
    TypeMismatched,
    Other(Seq<char>),
    Unknown,
    Unsupported,
    Overflow,
    RecursionLimitExceeded,
}

impl View for LangError {
    type V = LangErrorView;

    open spec fn view(&self) -> LangErrorView {
        match self {
            LangError::DivideByZero => LangErrorView::DivideByZero,
            LangError::ParseFailed(m) => LangErrorView::ParseFailed(m@),
            LangError::InvalidSymbol(m) => LangErrorView::InvalidSymbol(m@),
            LangError::InvalidArgsLen => LangErrorView::InvalidArgsLen,
            LangError::TypeMismatched => LangErrorView::TypeMismatched,
            LangError::Other(m) => LangErrorView::Other(m@),
            LangError::Unknown => LangErrorView::Unknown,
            LangError::Unsupported => LangErrorView::Unsupported,
            LangError::Overflow => LangErrorView::Overflow,
            LangError::RecursionLimitExceeded => LangErrorView::RecursionLimitExceeded,
        }
    }
}

/// The message of an error.
pub open spec fn message(e: LangErrorView) -> Seq<char> {
    match e {
        LangErrorView::DivideByZero => "Divided by zero"@,
        LangErrorView::ParseFailed(m) => "Failed to parse: "@ + m,
        LangErrorView::InvalidSymbol(m) => "Invalid symbol: "@ + m,
        LangErrorView::InvalidArgsLen => "Invalid length of arguments"@,
        LangErrorView::TypeMismatched => "Type mismatched"@,
        LangErrorView::Other(m) => m,
        LangErrorView::Unknown => "Unknown error"@,
        LangErrorView::Unsupported => "Not supported"@,
        LangErrorView::Overflow => "Number out of range"@,
        LangErrorView::RecursionLimitExceeded => "Recursion limit exceeded"@,
    }
}

impl LangError {
    /// The message of this error.
    pub fn to_string(&self) -> (r: String)
        ensures
            r@ == message(self@),
    {
        match self {
            LangError::DivideByZero => String::from_str("Divided by zero"),
            LangError::ParseFailed(m) => String::from_str("Failed to parse: ").concat(m.as_str()),
            LangError::InvalidSymbol(m) => String::from_str("Invalid symbol: ").concat(m.as_str()),
            LangError::InvalidArgsLen => String::from_str("Invalid length of arguments"),
            LangError::TypeMismatched => String::from_str("Type mismatched"),
            LangError::Other(m) => m.clone(),
            LangError::Unknown => String::from_str("Unknown error"),
            LangError::Unsupported => String::from_str("Not supported"),
            LangError::Overflow => String::from_str("Number out of range"),
            LangError::RecursionLimitExceeded => String::from_str("Recursion limit exceeded"),
        }
    }
}

pub type LangResult<T> = Result<T, LangError>;

/// Reads a program: the expressions that `input` holds, in order.
pub fn eval(input: &str) -> (r: LangResult<Vec<Expr>>)
    ensures
        match r {
            Ok(v) => read_program(input@) == Ok::<Seq<ExprView>, LangErrorView>(views(v@)),
            Err(e) => read_program(input@) == Err::<Seq<ExprView>, LangErrorView>(e@),
        },
{
    LangParser::parse(input)
}

/// Reads a program and evaluates its expressions in order, each in the
/// environment that the one before it left. Malformed input fails as a
/// whole and leaves the environment alone; otherwise there is one result
/// for each expression.
pub fn run(input: &str, env: &mut Env) -> (r: LangResult<Vec<LangResult<Expr>>>)
    requires
        old(env).wf(),
    ensures
        final(env).wf(),
        match r {
            Ok(results) => read_program(input@) is Ok && (result_views(results@), final(env)@)
                == eval_all_spec(read_program(input@)->Ok_0, old(env)@, MAX_DEPTH as nat),
            Err(e) => read_program(input@) == Err::<Seq<ExprView>, LangErrorView>(e@)
                && final(env)@ == old(env)@,
        },
{
    match LangParser::parse(input) {
        Ok(exprs) => Ok(eval_all(exprs.as_slice(), env)),
        Err(e) => Err(e),
    }
}

} // verus!
