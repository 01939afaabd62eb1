//! A small expression language: a lexer, a precedence-climbing parser, and
//! an evaluator that reduces an expression to a concrete value where it can
//! and returns an equivalent, partially simplified expression where free
//! identifiers keep it symbolic.
pub mod eval;
pub mod expr;
pub mod laws;
pub mod lexer;
pub mod number;
pub mod parser;
pub mod text;
pub mod token;
pub mod value;

use crate::eval::EvalError;
use crate::eval::Return;
use crate::eval::spec_eval;
use crate::lexer::LexError;
use crate::lexer::spec_lex;
use crate::parser::ParseError;
use crate::parser::spec_parse;
use vstd::prelude::*;

verus! {

/// The failure of one line of input, at whichever stage it stopped.
#[derive(Debug)]
pub enum RunError {
    Lex(LexError),
    Parse(ParseError),
    Eval(EvalError),
}

impl RunError {
    /// The single-line message of this error.
    pub fn message(&self) -> (r: String)
        ensures
            self matches RunError::Lex(e) ==> (e matches LexError::Unexpected { text } && r@
                == crate::text::lex_error_text(text@)),
            self matches RunError::Parse(e) ==> r@ == crate::text::parse_error_text(*e),
            self matches RunError::Eval(e) ==> r@ == crate::text::eval_error_text(e@),
    {
        match self {
            RunError::Lex(e) => e.message(),
            RunError::Parse(e) => e.message(),
            RunError::Eval(e) => e.message(),
        }
    }
}

/// The expression one line of input denotes, when it lexes and parses.
pub open spec fn spec_line_expr(s: Seq<char>) -> Option<crate::expr::ExprV> {
    match spec_lex(s) {
        Ok(ts) => spec_parse(ts),
        Err(e) => None,
    }
}

/// Lex, parse and evaluate one line of input: the first stage to fail
/// decides the error, and a result comes only when all three succeed, in
/// which case it is the evaluation of the parse of the tokens of the
/// input.
pub fn run(input: String) -> (r: Result<Return, RunError>)
    ensures
        spec_lex(input@) matches Err(t) ==> (r matches Err(er) && er matches RunError::Lex(le)
            && le matches LexError::Unexpected { text } && text@ == t),
        (spec_lex(input@) is Ok && spec_line_expr(input@) is None) ==> (r matches Err(er)
            && er is Parse),
        spec_line_expr(input@) matches Some(e) ==> ((spec_eval(e) matches Ok(v) ==> (r matches
            Ok(ret) && ret@ == v)) && (spec_eval(e) matches Err(ev) ==> (r matches Err(er)
            && er matches RunError::Eval(ee) && ee@ == ev))),
{
    let tokens = match crate::lexer::lex(input) {
        Ok(ts) => ts,
        Err(e) => {
            return Err(RunError::Lex(e));
        },
    };
    let expr = match crate::parser::parse(tokens) {
        Ok(e) => e,
        Err(e) => {
            return Err(RunError::Parse(e));
        },
    };
    match crate::eval::eval(&expr) {
        Ok(ret) => Ok(ret),
        Err(e) => Err(RunError::Eval(e)),
    }
}

} // verus!
