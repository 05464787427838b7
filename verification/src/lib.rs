//! A minimal evaluator for a Lisp-style symbolic-expression language.
//!
//! A line of text is broken into lexical tokens, assembled into a nested
//! expression tree, and evaluated against a small environment that is
//! pre-seeded with the four arithmetic operators.  Each stage returns a
//! result that carries either a value or one error; the first error aborts
//! the remaining work on that line.

pub mod env;
pub mod eval;
pub mod exp;
pub mod laws;
pub mod lexer;
pub mod parser;

use vstd::prelude::*;

use crate::env::LispEnv;
use crate::eval::{semantic_analysis, EvalErrV, EvalError};
use crate::exp::{ExpV, LispExp};
use crate::lexer::{lexer, spec_tokenize, LexError};
use crate::parser::{parser, spec_parse, ParseError};

verus! {

/// Error from any stage of the pipeline.
#[derive(Debug)]
pub enum InterpError {
    /// The tokenizer rejected the text.
    Lex(LexError),
    /// The tree builder rejected the token sequence.
    Parse(ParseError),
    /// The evaluator rejected the expression tree.
    Eval(EvalError),
}

/// The shape of a pipeline error.
pub enum InterpErrV {
    /// The tokenizer rejected the text.
    Lex(LexError),
    /// The tree builder rejected the token sequence.
    Parse(ParseError),
    /// The evaluator rejected the expression tree.
    Eval(EvalErrV),
}

impl View for InterpError {
    type V = InterpErrV;

    open spec fn view(&self) -> InterpErrV {
        match self {
            InterpError::Lex(e) => InterpErrV::Lex(*e),
            InterpError::Parse(e) => InterpErrV::Parse(*e),
            InterpError::Eval(e) => InterpErrV::Eval(e@),
        }
    }
}

impl PartialEq for InterpError {
    /// Two pipeline errors are equal when they have the same shape.
    fn eq(&self, other: &InterpError) -> (r: bool)
        ensures
            r == (self@ == other@),
    {
        match (self, other) {
            (InterpError::Lex(x), InterpError::Lex(y)) => *x == *y,
            (InterpError::Parse(x), InterpError::Parse(y)) => *x == *y,
            (InterpError::Eval(x), InterpError::Eval(y)) => *x == *y,
            _ => false,
        }
    }
}

impl vstd::std_specs::cmp::PartialEqSpecImpl for InterpError {
    open spec fn obeys_eq_spec() -> bool {
        true
    }

    open spec fn eq_spec(&self, other: &InterpError) -> bool {
        self@ == other@
    }
}

/// What running the three-stage pipeline on the text `s` under `env` yields.
pub open spec fn spec_eval_str(s: Seq<char>, env: Map<Seq<char>, ExpV>) -> Result<
    ExpV,
    InterpErrV,
> {
    match spec_tokenize(s) {
        None => Err(InterpErrV::Lex(LexError::UnterminatedString)),
        Some(ts) => match spec_parse(ts).0 {
            Err(p) => Err(InterpErrV::Parse(p)),
            Ok(e) => match crate::eval::eval_spec(e, env) {
                Ok(v) => Ok(v),
                Err(x) => Err(InterpErrV::Eval(x)),
            },
        },
    }
}

/// Runs one line of text through the three stages — tokenize, build the
/// tree, evaluate under `env` — and returns the value of the first
/// expression it denotes, or the first error met.
pub fn eval(s: &str, env: &LispEnv) -> (r: Result<LispExp, InterpError>)
    ensures
        match (r, spec_eval_str(s@, env@)) {
            (Ok(e), Ok(ev)) => e@ == ev,
            (Err(a), Err(b)) => a@ == b,
            _ => false,
        },
{
    let mut tokens = match lexer(s) {
        Ok(ts) => ts,
        Err(e) => {
            return Err(InterpError::Lex(e));
        },
    };
    let tree = match parser(&mut tokens) {
        Ok(e) => e,
        Err(p) => {
            return Err(InterpError::Parse(p));
        },
    };
    match semantic_analysis(&tree, env) {
        Ok(v) => Ok(v),
        Err(x) => Err(InterpError::Eval(x)),
    }
}

} // verus!
