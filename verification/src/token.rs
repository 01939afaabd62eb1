//! The closed set of lexical categories, with a mathematical view for
//! contracts: an identifier token is viewed as its character sequence.
use crate::number::Number;
use crate::number::num_valid;
use vstd::prelude::*;

verus! {

/// One token of the language.
#[derive(Debug)]
pub enum Token {
    ID(String),
    Int(i64),
    Float(Number),
    EvalIn,
    EvalOut,
    SetIn,
    SetOut,
    Seperator,
    Represent,
    Address,
    Hash,
    Percent,
    Pipe,
    Continue,
    Add,
    Sub,
    Mult,
    Div,
    Power,
    Fraction,
    Not,
    Equal,
    Store,
    Into,
    LessEqual,
    GreaterEqual,
    Less,
    Greater,
}

/// The mathematical view of a token.
pub enum TokenV {
    ID(Seq<char>),
    Int(i64),
    Float(Number),
    EvalIn,
    EvalOut,
    SetIn,
    SetOut,
    Seperator,
    Represent,
    Address,
    Hash,
    Percent,
    Pipe,
    Continue,
    Add,
    Sub,
    Mult,
    Div,
    Power,
    Fraction,
    Not,
    Equal,
    Store,
    Into,
    LessEqual,
    GreaterEqual,
    Less,
    Greater,
}

impl View for Token {
    type V = TokenV;

    open spec fn view(&self) -> TokenV {
        match self {
            Token::ID(s) => TokenV::ID(s@),
            Token::Int(v) => TokenV::Int(*v),
            Token::Float(n) => TokenV::Float(*n),
            Token::EvalIn => TokenV::EvalIn,
            Token::EvalOut => TokenV::EvalOut,
            Token::SetIn => TokenV::SetIn,
            Token::SetOut => TokenV::SetOut,
            Token::Seperator => TokenV::Seperator,
            Token::Represent => TokenV::Represent,
            Token::Address => TokenV::Address,
            Token::Hash => TokenV::Hash,
            Token::Percent => TokenV::Percent,
            Token::Pipe => TokenV::Pipe,
            Token::Continue => TokenV::Continue,
            Token::Add => TokenV::Add,
            Token::Sub => TokenV::Sub,
            Token::Mult => TokenV::Mult,
            Token::Div => TokenV::Div,
            Token::Power => TokenV::Power,
            Token::Fraction => TokenV::Fraction,
            Token::Not => TokenV::Not,
            Token::Equal => TokenV::Equal,
            Token::Store => TokenV::Store,
            Token::Into => TokenV::Into,
            Token::LessEqual => TokenV::LessEqual,
            Token::GreaterEqual => TokenV::GreaterEqual,
            Token::Less => TokenV::Less,
            Token::Greater => TokenV::Greater,
        }
    }
}

/// A token whose payload makes sense: a numeric literal is finite with a
/// positive denominator.
pub open spec fn tok_valid(t: TokenV) -> bool {
    match t {
        TokenV::Float(n) => n is Fin && num_valid(n),
        _ => true,
    }
}

/// Copy a token.
pub fn clone_token(t: &Token) -> (r: Token)
    ensures
        r@ == t@,
{
    match t {
        Token::ID(s) => Token::ID(s.clone()),
        Token::Int(v) => Token::Int(*v),
        Token::Float(n) => Token::Float(*n),
        Token::EvalIn => Token::EvalIn,
        Token::EvalOut => Token::EvalOut,
        Token::SetIn => Token::SetIn,
        Token::SetOut => Token::SetOut,
        Token::Seperator => Token::Seperator,
        Token::Represent => Token::Represent,
        Token::Address => Token::Address,
        Token::Hash => Token::Hash,
        Token::Percent => Token::Percent,
        Token::Pipe => Token::Pipe,
        Token::Continue => Token::Continue,
        Token::Add => Token::Add,
        Token::Sub => Token::Sub,
        Token::Mult => Token::Mult,
        Token::Div => Token::Div,
        Token::Power => Token::Power,
        Token::Fraction => Token::Fraction,
        Token::Not => Token::Not,
        Token::Equal => Token::Equal,
        Token::Store => Token::Store,
        Token::Into => Token::Into,
        Token::LessEqual => Token::LessEqual,
        Token::GreaterEqual => Token::GreaterEqual,
        Token::Less => Token::Less,
        Token::Greater => Token::Greater,
    }
}

/// Whether two tokens are the same token.
pub fn token_eq(a: &Token, b: &Token) -> (r: bool)
    ensures
        r == (a@ == b@),
{
    match a {
        Token::ID(s1) => match b {
            Token::ID(s2) => *s1 == *s2,
            _ => false,
        },
        Token::Int(v1) => match b {
            Token::Int(v2) => *v1 == *v2,
            _ => false,
        },
        Token::Float(n1) => match b {
            Token::Float(n2) => *n1 == *n2,
            _ => false,
        },
        Token::EvalIn => match b {
            Token::EvalIn => true,
            _ => false,
        },
        Token::EvalOut => match b {
            Token::EvalOut => true,
            _ => false,
        },
        Token::SetIn => match b {
            Token::SetIn => true,
            _ => false,
        },
        Token::SetOut => match b {
            Token::SetOut => true,
            _ => false,
        },
        Token::Seperator => match b {
            Token::Seperator => true,
            _ => false,
        },
        Token::Represent => match b {
            Token::Represent => true,
            _ => false,
        },
        Token::Address => match b {
            Token::Address => true,
            _ => false,
        },
        Token::Hash => match b {
            Token::Hash => true,
            _ => false,
        },
        Token::Percent => match b {
            Token::Percent => true,
            _ => false,
        },
        Token::Pipe => match b {
            Token::Pipe => true,
            _ => false,
        },
        Token::Continue => match b {
            Token::Continue => true,
            _ => false,
        },
        Token::Add => match b {
            Token::Add => true,
            _ => false,
        },
        Token::Sub => match b {
            Token::Sub => true,
            _ => false,
        },
        Token::Mult => match b {
            Token::Mult => true,
            _ => false,
        },
        Token::Div => match b {
            Token::Div => true,
            _ => false,
        },
        Token::Power => match b {
            Token::Power => true,
            _ => false,
        },
        Token::Fraction => match b {
            Token::Fraction => true,
            _ => false,
        },
        Token::Not => match b {
            Token::Not => true,
            _ => false,
        },
        Token::Equal => match b {
            Token::Equal => true,
            _ => false,
        },
        Token::Store => match b {
            Token::Store => true,
            _ => false,
        },
        Token::Into => match b {
            Token::Into => true,
            _ => false,
        },
        Token::LessEqual => match b {
            Token::LessEqual => true,
            _ => false,
        },
        Token::GreaterEqual => match b {
            Token::GreaterEqual => true,
            _ => false,
        },
        Token::Less => match b {
            Token::Less => true,
            _ => false,
        },
        Token::Greater => match b {
            Token::Greater => true,
            _ => false,
        },
    }
}

} // verus!
