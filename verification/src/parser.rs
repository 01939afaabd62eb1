//! A precedence-climbing recursive-descent parser: additive below
//! multiplicative below power, unary prefix below the postfix operators,
//! each binary level left-associative by a left fold, and an atom rule
//! that disambiguates grouping from vector literals by the presence of a
//! separator or a second element.
use crate::expr::Expr;
use crate::expr::ExprV;
use crate::expr::expr_valid;
use crate::expr::exprs_valid;
use crate::expr::exprs_view;
use crate::expr::lemma_exprs_view;
use crate::token::Token;
use crate::token::TokenV;
use crate::token::clone_token;
use crate::token::tok_valid;
use crate::token::token_eq;
use vstd::prelude::*;

verus! {

broadcast use vstd::std_specs::vec::group_vec_axioms, vstd::seq::group_seq_axioms;

/// The failure of a parse.
#[derive(Debug)]
pub enum ParseError {
    /// A token no rule can start with.
    UnexpectedToken { token: Token },
    /// Input ended where a token was required.
    UnexpectedEnd { expected: Option<Token> },
    /// A required token was something else.
    Expected { expected: Token, got: Token },
    /// A complete expression was parsed but input remains.
    Trailing { token: Token },
}

/// The outcome of a parse step.
pub type ParseResult = Result<Expr, ParseError>;

/// Every token of a sequence carries a meaningful payload.
pub open spec fn toks_valid(ts: Seq<TokenV>) -> bool {
    forall|i: int| 0 <= i < ts.len() ==> tok_valid(#[trigger] ts[i])
}

/// The views of a sequence of tokens.
pub open spec fn toks_view(ts: Seq<Token>) -> Seq<TokenV> {
    ts.map_values(|t: Token| t@)
}

/// Whether a token can begin an atom.
pub open spec fn starts_atom(t: TokenV) -> bool {
    match t {
        TokenV::EvalIn => true,
        TokenV::Pipe => true,
        TokenV::SetIn => true,
        TokenV::ID(_) => true,
        TokenV::Int(_) => true,
        TokenV::Float(_) => true,
        TokenV::Continue => true,
        _ => false,
    }
}

/// The grammar itself, one spec function per precedence level. Each takes
/// the token stream and a cursor and returns the tree built there together
/// with the cursor just past it, or `None` where no parse exists at that
/// position. The exec parser's contracts equate its results with these
/// functions, so the shape of every tree it builds is pinned down. The
/// bounds guards (`i < j <= toks.len()`) only make termination evident;
/// every level in fact moves the cursor strictly forward and never past
/// the end, so on reachable results they always hold.
///
/// The lowest level: an expression is an additive chain.
pub open spec fn expr_at(toks: Seq<TokenV>, i: int) -> Option<(ExprV, int)>
    decreases toks.len() - i, 9nat,
{
    arith_at(toks, i)
}

/// An additive chain: terms joined by `+` or `-`, folded to the left.
pub open spec fn arith_at(toks: Seq<TokenV>, i: int) -> Option<(ExprV, int)>
    decreases toks.len() - i, 6nat,
{
    match term_at(toks, i) {
        Some((left, j)) => if i < j <= toks.len() {
            arith_more(toks, left, j)
        } else {
            None
        },
        None => None,
    }
}

/// The rest of an additive chain after `acc`, the part already folded.
pub open spec fn arith_more(toks: Seq<TokenV>, acc: ExprV, j: int) -> Option<(ExprV, int)>
    decreases toks.len() - j, 6nat,
{
    if j < toks.len() && (toks[j] == TokenV::Add || toks[j] == TokenV::Sub) {
        match term_at(toks, j + 1) {
            Some((right, k)) => if j < k <= toks.len() {
                arith_more(
                    toks,
                    ExprV::BinaryOperation {
                        left: Box::new(acc),
                        right: Box::new(right),
                        op: toks[j],
                    },
                    k,
                )
            } else {
                None
            },
            None => None,
        }
    } else {
        Some((acc, j))
    }
}

/// A multiplicative chain: powers joined by `*` or `/`, folded to the left.
pub open spec fn term_at(toks: Seq<TokenV>, i: int) -> Option<(ExprV, int)>
    decreases toks.len() - i, 5nat,
{
    match pow_at(toks, i) {
        Some((left, j)) => if i < j <= toks.len() {
            term_more(toks, left, j)
        } else {
            None
        },
        None => None,
    }
}

/// The rest of a multiplicative chain after `acc`.
pub open spec fn term_more(toks: Seq<TokenV>, acc: ExprV, j: int) -> Option<(ExprV, int)>
    decreases toks.len() - j, 5nat,
{
    if j < toks.len() && (toks[j] == TokenV::Mult || toks[j] == TokenV::Div) {
        match pow_at(toks, j + 1) {
            Some((right, k)) => if j < k <= toks.len() {
                term_more(
                    toks,
                    ExprV::BinaryOperation {
                        left: Box::new(acc),
                        right: Box::new(right),
                        op: toks[j],
                    },
                    k,
                )
            } else {
                None
            },
            None => None,
        }
    } else {
        Some((acc, j))
    }
}

/// A power chain: factors joined by `^`, folded to the left.
pub open spec fn pow_at(toks: Seq<TokenV>, i: int) -> Option<(ExprV, int)>
    decreases toks.len() - i, 4nat,
{
    match factor_at(toks, i) {
        Some((left, j)) => if i < j <= toks.len() {
            pow_more(toks, left, j)
        } else {
            None
        },
        None => None,
    }
}

/// The rest of a power chain after `acc`.
pub open spec fn pow_more(toks: Seq<TokenV>, acc: ExprV, j: int) -> Option<(ExprV, int)>
    decreases toks.len() - j, 4nat,
{
    if j < toks.len() && toks[j] == TokenV::Power {
        match factor_at(toks, j + 1) {
            Some((right, k)) => if j < k <= toks.len() {
                pow_more(
                    toks,
                    ExprV::BinaryOperation {
                        left: Box::new(acc),
                        right: Box::new(right),
                        op: TokenV::Power,
                    },
                    k,
                )
            } else {
                None
            },
            None => None,
        }
    } else {
        Some((acc, j))
    }
}

/// An optional unary prefix sign on a fraction form.
pub open spec fn factor_at(toks: Seq<TokenV>, i: int) -> Option<(ExprV, int)>
    decreases toks.len() - i, 3nat,
{
    if i < toks.len() && (toks[i] == TokenV::Add || toks[i] == TokenV::Sub) {
        match fraction_at(toks, i + 1) {
            Some((inner, j)) => Some(
                (ExprV::UnaryOperation { expr: Box::new(inner), op: toks[i] }, j),
            ),
            None => None,
        }
    } else {
        fraction_at(toks, i)
    }
}

/// A percent form with an optional postfix fraction mark.
pub open spec fn fraction_at(toks: Seq<TokenV>, i: int) -> Option<(ExprV, int)>
    decreases toks.len() - i, 2nat,
{
    match percent_at(toks, i) {
        Some((e, j)) => if j < toks.len() && toks[j] == TokenV::Fraction {
            Some((ExprV::UnaryOperationRight { expr: Box::new(e), op: TokenV::Fraction }, j + 1))
        } else {
            Some((e, j))
        },
        None => None,
    }
}

/// An atom with an optional postfix percent mark.
pub open spec fn percent_at(toks: Seq<TokenV>, i: int) -> Option<(ExprV, int)>
    decreases toks.len() - i, 1nat,
{
    match atom_at(toks, i) {
        Some((e, j)) => if j < toks.len() && toks[j] == TokenV::Percent {
            Some((ExprV::UnaryOperationRight { expr: Box::new(e), op: TokenV::Percent }, j + 1))
        } else {
            Some((e, j))
        },
        None => None,
    }
}

/// An atom: a leaf token, a grouped expression or vector literal between
/// `(` and `)`, an absolute-value form between bars, or a set literal
/// between braces. A parenthesized single expression with no separator and
/// no second element is returned bare; a separator or a second element
/// makes it a vector literal.
pub open spec fn atom_at(toks: Seq<TokenV>, i: int) -> Option<(ExprV, int)>
    decreases toks.len() - i, 0nat,
{
    if i >= toks.len() {
        None
    } else {
        match toks[i] {
            TokenV::EvalIn => match expr_at(toks, i + 1) {
                Some((first, j)) => if i < j <= toks.len() {
                    if j < toks.len() && toks[j] == TokenV::EvalOut {
                        Some((first, j + 1))
                    } else {
                        let j2 = if j < toks.len() && toks[j] == TokenV::Seperator {
                            j + 1
                        } else {
                            j
                        };
                        match elems_at(toks, TokenV::EvalOut, seq![first], j2) {
                            Some((es, k)) => Some((ExprV::Vector(es), k)),
                            None => None,
                        }
                    }
                } else {
                    None
                },
                None => None,
            },
            TokenV::Pipe => match expr_at(toks, i + 1) {
                Some((inner, j)) => if i < j <= toks.len() {
                    if j < toks.len() && toks[j] == TokenV::Pipe {
                        Some((ExprV::Absolute(Box::new(inner)), j + 1))
                    } else {
                        None
                    }
                } else {
                    None
                },
                None => None,
            },
            TokenV::SetIn => match elems_at(toks, TokenV::SetOut, Seq::empty(), i + 1) {
                Some((es, k)) => Some((ExprV::SetLit(es), k)),
                None => None,
            },
            TokenV::ID(s) => Some((ExprV::ID(s), i + 1)),
            TokenV::Int(v) => Some((ExprV::Int(v), i + 1)),
            TokenV::Float(n) => Some((ExprV::Float(n), i + 1)),
            TokenV::Continue => Some((ExprV::Continue, i + 1)),
            _ => None,
        }
    }
}

/// The elements of a container literal from `j` up to the closing token,
/// appended to those already collected, with an optional separator skipped
/// after each element; the returned cursor rests just past the close.
pub open spec fn elems_at(toks: Seq<TokenV>, close: TokenV, acc: Seq<ExprV>, j: int) -> Option<
    (Seq<ExprV>, int),
>
    decreases toks.len() - j, 10nat,
{
    if j >= toks.len() {
        None
    } else if toks[j] == close {
        Some((acc, j + 1))
    } else {
        match expr_at(toks, j) {
            Some((e, k)) => if j < k <= toks.len() {
                let k2 = if k < toks.len() && toks[k] == TokenV::Seperator {
                    k + 1
                } else {
                    k
                };
                elems_at(toks, close, acc.push(e), k2)
            } else {
                None
            },
            None => None,
        }
    }
}

/// A complete parse: the one expression at `i` with nothing after it.
pub open spec fn parse_at(toks: Seq<TokenV>, i: int) -> Option<ExprV> {
    match expr_at(toks, i) {
        Some((e, j)) => if j == toks.len() {
            Some(e)
        } else {
            None
        },
        None => None,
    }
}

/// The meaning of parsing a whole token stream.
pub open spec fn spec_parse(toks: Seq<TokenV>) -> Option<ExprV> {
    parse_at(toks, 0)
}

/// A token cursor over the input.
pub struct Parser {
    pub tokens: Vec<Token>,
    pub idx: usize,
}

/// The parser's cursor never runs past the end of its input.
pub open spec fn parser_wf(p: Parser) -> bool {
    p.idx <= p.tokens@.len() && toks_valid(toks_view(p.tokens@))
}

impl Parser {
    /// A parser at the start of the given token stream.
    pub fn new(tokens: Vec<Token>) -> (r: Self)
        requires
            toks_valid(toks_view(tokens@)),
        ensures
            parser_wf(r),
            r.tokens@ == tokens@,
            r.idx == 0,
    {
        Self { tokens, idx: 0 }
    }

    /// Step past the current token.
    pub fn advance(&mut self)
        requires
            old(self).idx < old(self).tokens@.len(),
    ensures
            final(self).tokens@ == old(self).tokens@,
            final(self).idx == old(self).idx + 1,
    {
        let n = self.tokens.len();
        proof {
            assert(self.idx < n);
        }
        self.idx = self.idx + 1;
    }

    /// Step past the current token when the condition holds.
    pub fn advance_if(&mut self, cond: bool)
        requires
            cond ==> old(self).idx < old(self).tokens@.len(),
        ensures
            final(self).tokens@ == old(self).tokens@,
            final(self).idx == if cond {
                old(self).idx + 1
            } else {
                old(self).idx as int
            },
    {
        if cond {
            self.advance();
        }
    }

    /// The current token, if any input remains.
    pub fn token(&self) -> (r: Option<&Token>)
        ensures
            match r {
                Some(t) => self.idx < self.tokens@.len() && t@ == self.tokens@[self.idx as int]@,
                None => self.idx >= self.tokens@.len(),
            },
    {
        if self.idx < self.tokens.len() {
            Some(&self.tokens[self.idx])
        } else {
            None
        }
    }

    /// Require the current token to be the expected one.
    pub fn expect_token(&mut self, expected_token: Token) -> (r: Result<(), ParseError>)
        ensures
            *final(self) == *old(self),
            r is Ok <==> (old(self).idx < old(self).tokens@.len() && old(self).tokens@[old(
                self,
            ).idx as int]@ == expected_token@),
    {
        match self.token() {
            Some(token) => {
                if !token_eq(token, &expected_token) {
                    return Err(
                        ParseError::Expected { got: clone_token(token), expected: expected_token },
                    );
                }
                Ok(())
            },
            None => Err(ParseError::UnexpectedEnd { expected: Some(expected_token) }),
        }
    }

    /// Require the current token to be the expected one and step past it.
    pub fn expect_token_advance(&mut self, expected_token: Token) -> (r: Result<(), ParseError>)
        requires
            parser_wf(*old(self)),
        ensures
            final(self).tokens@ == old(self).tokens@,
            parser_wf(*final(self)),
            r is Ok <==> (old(self).idx < old(self).tokens@.len() && old(self).tokens@[old(
                self,
            ).idx as int]@ == expected_token@),
            r is Ok ==> final(self).idx == old(self).idx + 1,
            r is Err ==> final(self).idx == old(self).idx,
    {
        let res = self.expect_token(expected_token);
        match res {
            Ok(()) => {
                self.advance();
                Ok(())
            },
            Err(e) => Err(e),
        }
    }

    /// Parse one complete expression and require the input be consumed.
    pub fn parse(&mut self) -> (r: ParseResult)
        requires
            parser_wf(*old(self)),
        ensures
            final(self).tokens@ == old(self).tokens@,
            parser_wf(*final(self)),
            r matches Ok(e) ==> expr_valid(e@),
            r is Ok ==> final(self).idx == old(self).tokens@.len(),
            old(self).idx == old(self).tokens@.len() ==> r is Err,
            r matches Ok(e) ==> parse_at(toks_view(old(self).tokens@), old(self).idx as int)
                == Some(e@),
            r is Err ==> parse_at(toks_view(old(self).tokens@), old(self).idx as int) is None,
            (expr_at(toks_view(old(self).tokens@), old(self).idx as int) is Some && expr_at(
                toks_view(old(self).tokens@),
                old(self).idx as int,
            )->Some_0.1 < old(self).tokens@.len()) ==> (r matches Err(pe) && pe matches
                ParseError::Trailing { token } && token@ == toks_view(old(self).tokens@)[expr_at(
                toks_view(old(self).tokens@),
                old(self).idx as int,
            )->Some_0.1]),
    {
        let expr = match self.expr() {
            Ok(e) => e,
            Err(er) => {
                return Err(er);
            },
        };
        match self.token() {
            Some(token) => Err(ParseError::Trailing { token: clone_token(token) }),
            None => Ok(expr),
        }
    }

    /// Parse one expression: the lowest-precedence level.
    pub fn expr(&mut self) -> (r: ParseResult)
        requires
            parser_wf(*old(self)),
        ensures
            final(self).tokens@ == old(self).tokens@,
            parser_wf(*final(self)),
            old(self).idx <= final(self).idx,
            r is Ok ==> old(self).idx < final(self).idx,
            r matches Ok(e) ==> expr_valid(e@),
            r matches Ok(e) ==> expr_at(toks_view(old(self).tokens@), old(self).idx as int)
                == Some((e@, final(self).idx as int)),
            r is Err ==> expr_at(toks_view(old(self).tokens@), old(self).idx as int) is None,
        decreases old(self).tokens@.len() - old(self).idx, 8nat,
    {
        self.arith()
    }

    /// Parse an additive chain, left-folded.
    pub fn arith(&mut self) -> (r: ParseResult)
        requires
            parser_wf(*old(self)),
        ensures
            final(self).tokens@ == old(self).tokens@,
            parser_wf(*final(self)),
            old(self).idx <= final(self).idx,
            r is Ok ==> old(self).idx < final(self).idx,
            r matches Ok(e) ==> expr_valid(e@),
            r matches Ok(e) ==> arith_at(toks_view(old(self).tokens@), old(self).idx as int)
                == Some((e@, final(self).idx as int)),
            r is Err ==> arith_at(toks_view(old(self).tokens@), old(self).idx as int) is None,
        decreases old(self).tokens@.len() - old(self).idx, 7nat,
    {
        let ghost toks = toks_view(old(self).tokens@);
        let mut left = match self.term() {
            Ok(e) => e,
            Err(er) => {
                return Err(er);
            },
        };
        loop
            invariant
                parser_wf(*self),
                self.tokens@ == old(self).tokens@,
                old(self).idx < self.idx,
                expr_valid(left@),
                toks == toks_view(old(self).tokens@),
                arith_at(toks, old(self).idx as int) == arith_more(toks, left@, self.idx as int),
            ensures
                !(self.idx < self.tokens@.len() && (toks[self.idx as int] == TokenV::Add
                    || toks[self.idx as int] == TokenV::Sub)),
            decreases self.tokens@.len() - self.idx,
        {
            let is_addsub = match self.token() {
                Some(t) => match t {
                    Token::Add => true,
                    Token::Sub => true,
                    _ => false,
                },
                None => false,
            };
            if !is_addsub {
                break ;
            }
            let op = match self.token() {
                Some(t) => clone_token(t),
                None => unreached(),
            };
            self.advance();
            let right = match self.term() {
                Ok(e) => e,
                Err(er) => {
                    return Err(er);
                },
            };
            left = Expr::BinaryOperation { left: Box::new(left), right: Box::new(right), op: op };
        }
        Ok(left)
    }

    /// Parse a multiplicative chain, left-folded.
    pub fn term(&mut self) -> (r: ParseResult)
        requires
            parser_wf(*old(self)),
        ensures
            final(self).tokens@ == old(self).tokens@,
            parser_wf(*final(self)),
            old(self).idx <= final(self).idx,
            r is Ok ==> old(self).idx < final(self).idx,
            r matches Ok(e) ==> expr_valid(e@),
            r matches Ok(e) ==> term_at(toks_view(old(self).tokens@), old(self).idx as int)
                == Some((e@, final(self).idx as int)),
            r is Err ==> term_at(toks_view(old(self).tokens@), old(self).idx as int) is None,
        decreases old(self).tokens@.len() - old(self).idx, 6nat,
    {
        let ghost toks = toks_view(old(self).tokens@);
        let mut left = match self.pow() {
            Ok(e) => e,
            Err(er) => {
                return Err(er);
            },
        };
        loop
            invariant
                parser_wf(*self),
                self.tokens@ == old(self).tokens@,
                old(self).idx < self.idx,
                expr_valid(left@),
                toks == toks_view(old(self).tokens@),
                term_at(toks, old(self).idx as int) == term_more(toks, left@, self.idx as int),
            ensures
                !(self.idx < self.tokens@.len() && (toks[self.idx as int] == TokenV::Mult
                    || toks[self.idx as int] == TokenV::Div)),
            decreases self.tokens@.len() - self.idx,
        {
            let is_muldiv = match self.token() {
                Some(t) => match t {
                    Token::Mult => true,
                    Token::Div => true,
                    _ => false,
                },
                None => false,
            };
            if !is_muldiv {
                break ;
            }
            let op = match self.token() {
                Some(t) => clone_token(t),
                None => unreached(),
            };
            self.advance();
            let right = match self.pow() {
                Ok(e) => e,
                Err(er) => {
                    return Err(er);
                },
            };
            left = Expr::BinaryOperation { left: Box::new(left), right: Box::new(right), op: op };
        }
        Ok(left)
    }

    /// Parse a power chain, left-folded.
    pub fn pow(&mut self) -> (r: ParseResult)
        requires
            parser_wf(*old(self)),
        ensures
            final(self).tokens@ == old(self).tokens@,
            parser_wf(*final(self)),
            old(self).idx <= final(self).idx,
            r is Ok ==> old(self).idx < final(self).idx,
            r matches Ok(e) ==> expr_valid(e@),
            r matches Ok(e) ==> pow_at(toks_view(old(self).tokens@), old(self).idx as int)
                == Some((e@, final(self).idx as int)),
            r is Err ==> pow_at(toks_view(old(self).tokens@), old(self).idx as int) is None,
        decreases old(self).tokens@.len() - old(self).idx, 5nat,
    {
        let ghost toks = toks_view(old(self).tokens@);
        let mut left = match self.factor() {
            Ok(e) => e,
            Err(er) => {
                return Err(er);
            },
        };
        loop
            invariant
                parser_wf(*self),
                self.tokens@ == old(self).tokens@,
                old(self).idx < self.idx,
                expr_valid(left@),
                toks == toks_view(old(self).tokens@),
                pow_at(toks, old(self).idx as int) == pow_more(toks, left@, self.idx as int),
            ensures
                !(self.idx < self.tokens@.len() && toks[self.idx as int] == TokenV::Power),
            decreases self.tokens@.len() - self.idx,
        {
            let is_pow = match self.token() {
                Some(t) => match t {
                    Token::Power => true,
                    _ => false,
                },
                None => false,
            };
            if !is_pow {
                break ;
            }
            self.advance();
            let right = match self.factor() {
                Ok(e) => e,
                Err(er) => {
                    return Err(er);
                },
            };
            left = Expr::BinaryOperation {
                left: Box::new(left),
                right: Box::new(right),
                op: Token::Power,
            };
        }
        Ok(left)
    }

    /// Parse an optional unary prefix sign.
    pub fn factor(&mut self) -> (r: ParseResult)
        requires
            parser_wf(*old(self)),
        ensures
            final(self).tokens@ == old(self).tokens@,
            parser_wf(*final(self)),
            old(self).idx <= final(self).idx,
            r is Ok ==> old(self).idx < final(self).idx,
            r matches Ok(e) ==> expr_valid(e@),
            r matches Ok(e) ==> factor_at(toks_view(old(self).tokens@), old(self).idx as int)
                == Some((e@, final(self).idx as int)),
            r is Err ==> factor_at(toks_view(old(self).tokens@), old(self).idx as int) is None,
        decreases old(self).tokens@.len() - old(self).idx, 4nat,
    {
        let is_sign = match self.token() {
            Some(t) => match t {
                Token::Add => true,
                Token::Sub => true,
                _ => false,
            },
            None => false,
        };
        if is_sign {
            let op = match self.token() {
                Some(t) => clone_token(t),
                None => unreached(),
            };
            self.advance();
            let inner = match self.fraction() {
                Ok(e) => e,
                Err(er) => {
                    return Err(er);
                },
            };
            return Ok(Expr::UnaryOperation { expr: Box::new(inner), op: op });
        }
        self.fraction()
    }

    /// Parse an optional postfix fraction mark.
    pub fn fraction(&mut self) -> (r: ParseResult)
        requires
            parser_wf(*old(self)),
        ensures
            final(self).tokens@ == old(self).tokens@,
            parser_wf(*final(self)),
            old(self).idx <= final(self).idx,
            r is Ok ==> old(self).idx < final(self).idx,
            r matches Ok(e) ==> expr_valid(e@),
            r matches Ok(e) ==> fraction_at(toks_view(old(self).tokens@), old(self).idx as int)
                == Some((e@, final(self).idx as int)),
            r is Err ==> fraction_at(toks_view(old(self).tokens@), old(self).idx as int) is None,
        decreases old(self).tokens@.len() - old(self).idx, 3nat,
    {
        let expr = match self.percent() {
            Ok(e) => e,
            Err(er) => {
                return Err(er);
            },
        };
        let is_fraction = match self.token() {
            Some(t) => match t {
                Token::Fraction => true,
                _ => false,
            },
            None => false,
        };
        if is_fraction {
            self.advance();
            return Ok(Expr::UnaryOperationRight { expr: Box::new(expr), op: Token::Fraction });
        }
        Ok(expr)
    }

    /// Parse an optional postfix percent mark.
    pub fn percent(&mut self) -> (r: ParseResult)
        requires
            parser_wf(*old(self)),
        ensures
            final(self).tokens@ == old(self).tokens@,
            parser_wf(*final(self)),
            old(self).idx <= final(self).idx,
            r is Ok ==> old(self).idx < final(self).idx,
            r matches Ok(e) ==> expr_valid(e@),
            r matches Ok(e) ==> percent_at(toks_view(old(self).tokens@), old(self).idx as int)
                == Some((e@, final(self).idx as int)),
            r is Err ==> percent_at(toks_view(old(self).tokens@), old(self).idx as int) is None,
        decreases old(self).tokens@.len() - old(self).idx, 2nat,
    {
        let expr = match self.atom() {
            Ok(e) => e,
            Err(er) => {
                return Err(er);
            },
        };
        let is_percent = match self.token() {
            Some(t) => match t {
                Token::Percent => true,
                _ => false,
            },
            None => false,
        };
        if is_percent {
            self.advance();
            return Ok(Expr::UnaryOperationRight { expr: Box::new(expr), op: Token::Percent });
        }
        Ok(expr)
    }

    /// Parse the grouped expression or vector literal whose opening
    /// token is the current one.
    #[verifier::rlimit(100)]
    #[verifier::spinoff_prover]
    fn group_atom(&mut self) -> (r: ParseResult)
        requires
            parser_wf(*old(self)),
            old(self).idx < old(self).tokens@.len(),
            toks_view(old(self).tokens@)[old(self).idx as int] == TokenV::EvalIn,
        ensures
            final(self).tokens@ == old(self).tokens@,
            parser_wf(*final(self)),
            old(self).idx <= final(self).idx,
            r is Ok ==> old(self).idx < final(self).idx,
            r matches Ok(e) ==> expr_valid(e@),
            r matches Ok(e) ==> atom_at(toks_view(old(self).tokens@), old(self).idx as int)
                == Some((e@, final(self).idx as int)),
            r is Err ==> atom_at(toks_view(old(self).tokens@), old(self).idx as int) is None,
        decreases old(self).tokens@.len() - old(self).idx, 0nat,
    {
        let ghost toks = toks_view(old(self).tokens@);
        let ghost i0 = old(self).idx as int;
        self.advance();
        let expr = match self.expr() {
            Ok(e) => e,
            Err(er) => {
                return Err(er);
            },
        };
        let at_close = match self.token() {
            Some(t) => match t {
                Token::EvalOut => true,
                _ => false,
            },
            None => false,
        };
        if at_close {
            self.advance();
            return Ok(expr);
        }
        let at_sep = match self.token() {
            Some(t) => match t {
                Token::Seperator => true,
                _ => false,
            },
            None => false,
        };
        self.advance_if(at_sep);
        let mut exprs: Vec<Expr> = Vec::new();
        let ghost ge = expr@;
        let ghost oldv = exprs_view(exprs@);
        let ghost ovec = exprs@;
        exprs.push(expr);
        proof {
            lemma_exprs_view(ovec);
            lemma_exprs_view(exprs@);
            assert(exprs_view(exprs@) =~= oldv.push(ge));
            assert(oldv =~= Seq::<ExprV>::empty());
            lemma_exprs_valid_push(oldv, ge);
            assert(exprs_view(exprs@) =~= seq![ge]);
        }
        let ghost ia = exprs_view(exprs@);
        let ghost ij = self.idx as int;
        proof {
            assert((match elems_at(toks, TokenV::EvalOut, ia, ij) {
                Some(p) => atom_at(toks, i0) == Some((ExprV::Vector(p.0), p.1)),
                None => atom_at(toks, i0) is None,
            }));
        }
        loop
            invariant
                parser_wf(*self),
                self.tokens@ == old(self).tokens@,
                old(self).idx < self.idx,
                exprs_valid(exprs_view(exprs@)),
                toks == toks_view(old(self).tokens@),
                i0 == old(self).idx as int,
                elems_at(toks, TokenV::EvalOut, exprs_view(exprs@), self.idx as int) == elems_at(
                    toks,
                    TokenV::EvalOut,
                    ia,
                    ij,
                ),
                (match elems_at(toks, TokenV::EvalOut, ia, ij) {
                    Some(p) => atom_at(toks, i0) == Some((ExprV::Vector(p.0), p.1)),
                    None => atom_at(toks, i0) is None,
                }),
            ensures
                self.idx >= self.tokens@.len() || toks[self.idx as int] == TokenV::EvalOut,
            decreases self.tokens@.len() - self.idx,
        {
            let done = match self.token() {
                Some(t) => match t {
                    Token::EvalOut => true,
                    _ => false,
                },
                None => true,
            };
            if done {
                break ;
            }
            let ghost jj = self.idx as int;
            let ghost accv = exprs_view(exprs@);
            let next = match self.expr() {
                Ok(e) => e,
                Err(er) => {
                    proof {
                        assert(elems_at(toks, TokenV::EvalOut, accv, jj) is None);
                    }
                    return Err(er);
                },
            };
            let ghost gn = next@;
            let ghost ovec = exprs@;
            exprs.push(next);
            proof {
                lemma_exprs_view(ovec);
                lemma_exprs_view(exprs@);
                assert(exprs_view(exprs@) =~= accv.push(gn));
                lemma_exprs_valid_push(accv, gn);
            }
            let at_sep = match self.token() {
                Some(t) => match t {
                    Token::Seperator => true,
                    _ => false,
                },
                None => false,
            };
            self.advance_if(at_sep);
            proof {
                assert(elems_at(toks, TokenV::EvalOut, accv, jj) == elems_at(
                    toks,
                    TokenV::EvalOut,
                    accv.push(gn),
                    self.idx as int,
                ));
            }
        }
        match self.expect_token_advance(Token::EvalOut) {
            Ok(()) => {},
            Err(er) => {
                return Err(er);
            },
        }
        Ok(Expr::Vector(exprs))
    }

    /// Parse the absolute-value form whose opening bar is the current
    /// token.
    fn abs_atom(&mut self) -> (r: ParseResult)
        requires
            parser_wf(*old(self)),
            old(self).idx < old(self).tokens@.len(),
            toks_view(old(self).tokens@)[old(self).idx as int] == TokenV::Pipe,
        ensures
            final(self).tokens@ == old(self).tokens@,
            parser_wf(*final(self)),
            old(self).idx <= final(self).idx,
            r is Ok ==> old(self).idx < final(self).idx,
            r matches Ok(e) ==> expr_valid(e@),
            r matches Ok(e) ==> atom_at(toks_view(old(self).tokens@), old(self).idx as int)
                == Some((e@, final(self).idx as int)),
            r is Err ==> atom_at(toks_view(old(self).tokens@), old(self).idx as int) is None,
        decreases old(self).tokens@.len() - old(self).idx, 0nat,
    {
        let ghost toks = toks_view(old(self).tokens@);
        let ghost i0 = old(self).idx as int;
        self.advance();
        let expr = match self.expr() {
            Ok(e) => e,
            Err(er) => {
                return Err(er);
            },
        };
        match self.expect_token_advance(Token::Pipe) {
            Ok(()) => {},
            Err(er) => {
                return Err(er);
            },
        }
        Ok(Expr::Absolute(Box::new(expr)))
    }

    /// Parse the set literal whose opening brace is the current token.
    #[verifier::rlimit(100)]
    #[verifier::spinoff_prover]
    fn set_atom(&mut self) -> (r: ParseResult)
        requires
            parser_wf(*old(self)),
            old(self).idx < old(self).tokens@.len(),
            toks_view(old(self).tokens@)[old(self).idx as int] == TokenV::SetIn,
        ensures
            final(self).tokens@ == old(self).tokens@,
            parser_wf(*final(self)),
            old(self).idx <= final(self).idx,
            r is Ok ==> old(self).idx < final(self).idx,
            r matches Ok(e) ==> expr_valid(e@),
            r matches Ok(e) ==> atom_at(toks_view(old(self).tokens@), old(self).idx as int)
                == Some((e@, final(self).idx as int)),
            r is Err ==> atom_at(toks_view(old(self).tokens@), old(self).idx as int) is None,
        decreases old(self).tokens@.len() - old(self).idx, 0nat,
    {
        let ghost toks = toks_view(old(self).tokens@);
        let ghost i0 = old(self).idx as int;
        self.advance();
        let mut exprs: Vec<Expr> = Vec::new();
        proof {
            lemma_exprs_view(exprs@);
        }
        let ghost ia = exprs_view(exprs@);
        let ghost ij = self.idx as int;
        proof {
            assert(ia =~= Seq::<ExprV>::empty());
            assert((match elems_at(toks, TokenV::SetOut, ia, ij) {
                Some(p) => atom_at(toks, i0) == Some((ExprV::SetLit(p.0), p.1)),
                None => atom_at(toks, i0) is None,
            }));
        }
        loop
            invariant
                parser_wf(*self),
                self.tokens@ == old(self).tokens@,
                old(self).idx < self.idx,
                exprs_valid(exprs_view(exprs@)),
                toks == toks_view(old(self).tokens@),
                i0 == old(self).idx as int,
                elems_at(toks, TokenV::SetOut, exprs_view(exprs@), self.idx as int) == elems_at(
                    toks,
                    TokenV::SetOut,
                    ia,
                    ij,
                ),
                (match elems_at(toks, TokenV::SetOut, ia, ij) {
                    Some(p) => atom_at(toks, i0) == Some((ExprV::SetLit(p.0), p.1)),
                    None => atom_at(toks, i0) is None,
                }),
            ensures
                self.idx >= self.tokens@.len() || toks[self.idx as int] == TokenV::SetOut,
            decreases self.tokens@.len() - self.idx,
        {
            let done = match self.token() {
                Some(t) => match t {
                    Token::SetOut => true,
                    _ => false,
                },
                None => true,
            };
            if done {
                break ;
            }
            let ghost jj = self.idx as int;
            let ghost accv = exprs_view(exprs@);
            let next = match self.expr() {
                Ok(e) => e,
                Err(er) => {
                    proof {
                        assert(elems_at(toks, TokenV::SetOut, accv, jj) is None);
                    }
                    return Err(er);
                },
            };
            let ghost gn = next@;
            let ghost ovec = exprs@;
            exprs.push(next);
            proof {
                lemma_exprs_view(ovec);
                lemma_exprs_view(exprs@);
                assert(exprs_view(exprs@) =~= accv.push(gn));
                lemma_exprs_valid_push(accv, gn);
            }
            let at_sep = match self.token() {
                Some(t) => match t {
                    Token::Seperator => true,
                    _ => false,
                },
                None => false,
            };
            self.advance_if(at_sep);
            proof {
                assert(elems_at(toks, TokenV::SetOut, accv, jj) == elems_at(
                    toks,
                    TokenV::SetOut,
                    accv.push(gn),
                    self.idx as int,
                ));
            }
        }
        match self.expect_token_advance(Token::SetOut) {
            Ok(()) => {},
            Err(er) => {
                return Err(er);
            },
        }
        Ok(Expr::SetLit(exprs))
    }

    /// Parse an atom: a grouped expression or vector literal, an
    /// absolute-value form, a set literal, or a single leaf token.
    pub fn atom(&mut self) -> (r: ParseResult)
        requires
            parser_wf(*old(self)),
        ensures
            final(self).tokens@ == old(self).tokens@,
            parser_wf(*final(self)),
            old(self).idx <= final(self).idx,
            r is Ok ==> old(self).idx < final(self).idx,
            r matches Ok(e) ==> expr_valid(e@),
            r matches Ok(e) ==> atom_at(toks_view(old(self).tokens@), old(self).idx as int)
                == Some((e@, final(self).idx as int)),
            r is Err ==> atom_at(toks_view(old(self).tokens@), old(self).idx as int) is None,
            old(self).idx >= old(self).tokens@.len() ==> (r matches Err(pe) && pe matches
                ParseError::UnexpectedEnd { expected } && expected is None && final(self).idx
                == old(self).idx),
            (old(self).idx < old(self).tokens@.len() && !starts_atom(
                toks_view(old(self).tokens@)[old(self).idx as int],
            )) ==> (r matches Err(pe) && pe matches ParseError::UnexpectedToken { token }
                && token@ == toks_view(old(self).tokens@)[old(self).idx as int] && final(self).idx
                == old(self).idx),
        decreases old(self).tokens@.len() - old(self).idx, 1nat,
    {
        let ghost toks = toks_view(old(self).tokens@);
        let ghost i0 = old(self).idx as int;
        let cur = match self.token() {
            Some(t) => clone_token(t),
            None => {
                return Err(ParseError::UnexpectedEnd { expected: None });
            },
        };
        match cur {
            Token::EvalIn => self.group_atom(),
            Token::Pipe => self.abs_atom(),
            Token::SetIn => self.set_atom(),
            Token::ID(id) => {
                self.advance();
                Ok(Expr::ID(id))
            },
            Token::Int(v) => {
                self.advance();
                Ok(Expr::Int(v))
            },
            Token::Float(n) => {
                proof {
                    assert(tok_valid(toks_view(self.tokens@)[self.idx as int]));
                }
                self.advance();
                Ok(Expr::Float(n))
            },
            Token::Continue => {
                self.advance();
                Ok(Expr::Continue)
            },
            token => Err(ParseError::UnexpectedToken { token }),
        }
    }
}

/// Valid expressions stay valid after a push.
proof fn lemma_exprs_valid_push(s: Seq<ExprV>, x: ExprV)
    requires
        exprs_valid(s),
        expr_valid(x),
    ensures
        exprs_valid(s.push(x)),
    decreases s,
{
    let t = s.push(x);
    assert(t.len() == s.len() + 1);
    if s.len() == 0 {
        assert(t[0] == x);
        assert(t.drop_first() =~= Seq::<ExprV>::empty());
        assert(exprs_valid(Seq::<ExprV>::empty()));
        assert(exprs_valid(t));
    } else {
        lemma_exprs_valid_push(s.drop_first(), x);
        assert(t[0] == s[0]);
        assert(expr_valid(s[0]));
        assert(t.drop_first() =~= s.drop_first().push(x));
        assert(exprs_valid(t));
    }
}

/// Parse one complete expression out of a token stream.
pub fn parse(tokens: Vec<Token>) -> (r: ParseResult)
    requires
        toks_valid(toks_view(tokens@)),
    ensures
        r matches Ok(e) ==> expr_valid(e@),
        tokens@.len() == 0 ==> r is Err,
        r matches Ok(e) ==> spec_parse(toks_view(tokens@)) == Some(e@),
        r is Err ==> spec_parse(toks_view(tokens@)) is None,
        (expr_at(toks_view(tokens@), 0) is Some && expr_at(toks_view(tokens@), 0)->Some_0.1
            < tokens@.len()) ==> (r matches Err(pe) && pe matches ParseError::Trailing { token }
            && token@ == toks_view(tokens@)[expr_at(toks_view(tokens@), 0)->Some_0.1]),
{
    let mut p = Parser::new(tokens);
    p.parse()
}

} // verus!
