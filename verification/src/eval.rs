//! The evaluator: structural recursion over the syntax tree that returns
//! a fully resolved value, an equivalent partially simplified expression
//! when free identifiers remain, or the empty result for degenerate
//! literals. Chains of additions and subtractions around one symbolic
//! term fold their known constants into a single literal.
use crate::expr::Expr;
use crate::expr::ExprV;
use crate::expr::esize;
use crate::expr::exprs_esize;
use crate::expr::expr_valid;
use crate::expr::exprs_valid;
use crate::expr::msize;
use crate::expr::msize_elems;
use crate::expr::pure_lit;
use crate::expr::pure_lits;
use crate::number::Number;
use crate::token::Token;
use crate::token::clone_token;
use crate::token::TokenV;
use crate::value::Type;
use crate::value::Value;
use crate::value::ValueV;
use crate::value::spec_val_abs;
use crate::value::spec_val_binary;
use crate::value::spec_val_unary;
use crate::value::lemma_val_binary_valid;
use crate::value::lemma_val_unary_valid;
use crate::value::lemma_value_expr_pure;
use crate::value::lemma_value_expr_valid;
use crate::value::val_typ;
use crate::value::val_valid;
use crate::value::value_expr;
use vstd::prelude::*;

verus! {

broadcast use vstd::std_specs::vec::group_vec_axioms, vstd::seq::group_seq_axioms;

/// The tri-state result of an evaluation.
#[derive(Debug)]
pub enum Return {
    Value(Value),
    Expr(Expr),
    Nothing,
}

/// The mathematical view of an evaluation result.
pub enum ReturnV {
    Value(ValueV),
    Expr(ExprV),
    Nothing,
}

/// The view of one result.
pub open spec fn return_view(r: Return) -> ReturnV {
    match r {
        Return::Value(v) => ReturnV::Value(v@),
        Return::Expr(e) => ReturnV::Expr(e@),
        Return::Nothing => ReturnV::Nothing,
    }
}

impl View for Return {
    type V = ReturnV;

    open spec fn view(&self) -> ReturnV {
        return_view(*self)
    }
}

/// The ways an evaluation can fail.
#[derive(Debug)]
pub enum EvalError {
    /// An operator with no meaning between two numbers.
    IllegalBinaryOp { op: Token },
    /// An operator with no meaning on one number.
    IllegalUnaryOp { op: Token },
    /// A container literal whose element types disagree.
    TypeMismatch { expected: Type, got: Type },
    /// A binary operator applied to operand types it is not defined for.
    BinaryTypeError { op: Token, left: Type, right: Type },
    /// A value was required but the operand stayed symbolic or empty.
    ExpectedValue { got: Return },
    /// A continuation marker reached the evaluator.
    UnexpectedContinue,
    /// An exact result fell outside the representable range.
    OutOfRange,
}

/// The mathematical view of an evaluation error.
pub enum EvalErrorV {
    IllegalBinaryOp { op: TokenV },
    IllegalUnaryOp { op: TokenV },
    TypeMismatch { expected: Type, got: Type },
    BinaryTypeError { op: TokenV, left: Type, right: Type },
    ExpectedValue { got: ReturnV },
    UnexpectedContinue,
    OutOfRange,
}

/// The view of one error.
pub open spec fn eval_error_view(e: EvalError) -> EvalErrorV {
    match e {
        EvalError::IllegalBinaryOp { op } => EvalErrorV::IllegalBinaryOp { op: op@ },
        EvalError::IllegalUnaryOp { op } => EvalErrorV::IllegalUnaryOp { op: op@ },
        EvalError::TypeMismatch { expected, got } => EvalErrorV::TypeMismatch { expected, got },
        EvalError::BinaryTypeError { op, left, right } => EvalErrorV::BinaryTypeError {
            op: op@,
            left,
            right,
        },
        EvalError::ExpectedValue { got } => EvalErrorV::ExpectedValue { got: got@ },
        EvalError::UnexpectedContinue => EvalErrorV::UnexpectedContinue,
        EvalError::OutOfRange => EvalErrorV::OutOfRange,
    }
}

impl View for EvalError {
    type V = EvalErrorV;

    open spec fn view(&self) -> EvalErrorV {
        eval_error_view(*self)
    }
}

/// The outcome of one evaluation call.
pub type EvalResult = Result<Return, EvalError>;

/// A finite literal reduced to canonical form; specials and ill-formed
/// payloads pass through unchanged.
pub open spec fn norm_lit(n: Number) -> Number {
    match n {
        Number::Fin { num, den } => match crate::number::norm_pair(num as int, den as int) {
            Some(x) => x,
            None => n,
        },
        _ => n,
    }
}

/// A symbolic side wrapped plainly against a value side.
pub open spec fn plain_wrap(le: ExprV, rv: ValueV, op: TokenV) -> Result<ReturnV, EvalErrorV> {
    Ok(
        ReturnV::Expr(
            ExprV::BinaryOperation {
                left: Box::new(le),
                right: Box::new(value_expr(rv)),
                op: op,
            },
        ),
    )
}

/// One absolute-value step over an already evaluated operand.
pub open spec fn abs_step(inner: Result<ReturnV, EvalErrorV>) -> Result<ReturnV, EvalErrorV> {
    match inner {
        Err(e1) => Err(e1),
        Ok(ReturnV::Expr(sym)) => Ok(ReturnV::Expr(ExprV::Absolute(Box::new(sym)))),
        Ok(ReturnV::Value(v)) => match spec_val_abs(v) {
            Ok(av) => Ok(ReturnV::Value(av)),
            Err(er) => Err(er),
        },
        Ok(ReturnV::Nothing) => Err(EvalErrorV::ExpectedValue { got: ReturnV::Nothing }),
    }
}

/// The evaluation relation, defined with a fuel bound on the rewrite
/// step's re-evaluations; `spec_eval` instantiates the fuel with the
/// symbolic weight of the tree, which `lemma_eval_fuel_props` shows is
/// always enough.
pub open spec fn eval_fuel(e: ExprV, fuel: nat) -> Result<ReturnV, EvalErrorV>
    decreases fuel, e, 0nat,
{
    match e {
        ExprV::ID(s) => Ok(ReturnV::Expr(ExprV::ID(s))),
        ExprV::Int(v) => Ok(ReturnV::Value(ValueV::Number(Number::Fin { num: v, den: 1 }))),
        ExprV::Float(n) => Ok(ReturnV::Value(ValueV::Number(norm_lit(n)))),
        ExprV::Continue => Err(EvalErrorV::UnexpectedContinue),
        ExprV::BinaryOperation { left, right, op } => match eval_fuel(*left, fuel) {
            Err(e1) => Err(e1),
            Ok(lret) => match eval_fuel(*right, fuel) {
                Err(e2) => Err(e2),
                Ok(rret) => match (lret, rret) {
                    (ReturnV::Expr(le), ReturnV::Expr(re)) => Ok(
                        ReturnV::Expr(
                            ExprV::BinaryOperation {
                                left: Box::new(le),
                                right: Box::new(re),
                                op: op,
                            },
                        ),
                    ),
                    (ReturnV::Expr(le), ReturnV::Value(rv)) => if fuel == 0 {
                        arbitrary()
                    } else {
                        rewrite_step(le, op, rv, (fuel - 1) as nat)
                    },
                    (ReturnV::Value(lv), ReturnV::Expr(re)) => Ok(
                        ReturnV::Expr(
                            ExprV::BinaryOperation {
                                left: Box::new(value_expr(lv)),
                                right: Box::new(re),
                                op: op,
                            },
                        ),
                    ),
                    (ReturnV::Value(lv), ReturnV::Value(rv)) => match spec_val_binary(lv, rv, op) {
                        Ok(v) => Ok(ReturnV::Value(v)),
                        Err(er) => Err(er),
                    },
                    _ => Err(EvalErrorV::ExpectedValue { got: ReturnV::Nothing }),
                },
            },
        },
        ExprV::UnaryOperation { expr: x, op } => unary_step(eval_fuel(*x, fuel), op),
        ExprV::UnaryOperationRight { expr: x, op } => unary_step(eval_fuel(*x, fuel), op),
        ExprV::Absolute(inner) => abs_step(eval_fuel(*inner, fuel)),
        ExprV::Vector(es) => if es.len() == 0 {
            Ok(ReturnV::Nothing)
        } else {
            match eval_elems(es, Option::None, fuel) {
                Err(e1) => Err(e1),
                Ok(vals) => Ok(ReturnV::Value(ValueV::Vector(vals, val_typ(vals[0])))),
            }
        },
        ExprV::SetLit(es) => if es.len() == 0 {
            Ok(ReturnV::Nothing)
        } else {
            match eval_elems(es, Option::None, fuel) {
                Err(e1) => Err(e1),
                Ok(vals) => Ok(
                    ReturnV::Value(ValueV::SetVal(crate::value::dedup_vals(vals), val_typ(vals[0]))),
                ),
            }
        },
    }
}

/// The step taken when the left side stayed symbolic and the right side
/// resolved to a value. When the symbolic side is itself an addition or
/// subtraction whose re-evaluated children split into one symbolic term
/// and one value, the two known values fold into a single literal (with
/// the sign flipped when the symbolic side subtracts); otherwise the
/// value side is wrapped plainly as a literal beside the symbolic side.
pub open spec fn rewrite_step(le: ExprV, rop: TokenV, rv: ValueV, fuel: nat) -> Result<
    ReturnV,
    EvalErrorV,
>
    decreases fuel, le, 1nat,
{
    match le {
        ExprV::BinaryOperation { left: ll, right: lr2, op: lop } => match eval_fuel(*ll, fuel) {
            Err(e1) => Err(e1),
            Ok(llret) => match eval_fuel(*lr2, fuel) {
                Err(e2) => Err(e2),
                Ok(lrret) => match (llret, lrret) {
                    (ReturnV::Expr(sym), ReturnV::Value(lv)) => {
                        if lop == TokenV::Add && (rop == TokenV::Add || rop == TokenV::Sub) {
                            match spec_val_binary(lv, rv, rop) {
                                Ok(cv) => Ok(
                                    ReturnV::Expr(
                                        ExprV::BinaryOperation {
                                            left: Box::new(sym),
                                            right: Box::new(value_expr(cv)),
                                            op: lop,
                                        },
                                    ),
                                ),
                                Err(er) => Err(er),
                            }
                        } else if lop == TokenV::Sub && (rop == TokenV::Add || rop == TokenV::Sub) {
                            match spec_val_unary(rv, lop) {
                                Err(er) => Err(er),
                                Ok(rv2) => match spec_val_binary(lv, rv2, rop) {
                                    Ok(cv) => Ok(
                                        ReturnV::Expr(
                                            ExprV::BinaryOperation {
                                                left: Box::new(sym),
                                                right: Box::new(value_expr(cv)),
                                                op: lop,
                                            },
                                        ),
                                    ),
                                    Err(er) => Err(er),
                                },
                            }
                        } else {
                            plain_wrap(le, rv, rop)
                        }
                    },
                    (ReturnV::Value(lv), ReturnV::Expr(sym)) => {
                        if (lop == TokenV::Add || lop == TokenV::Sub) && (rop == TokenV::Add || rop
                            == TokenV::Sub) {
                            match spec_val_binary(lv, rv, rop) {
                                Ok(cv) => Ok(
                                    ReturnV::Expr(
                                        ExprV::BinaryOperation {
                                            left: Box::new(value_expr(cv)),
                                            right: Box::new(sym),
                                            op: lop,
                                        },
                                    ),
                                ),
                                Err(er) => Err(er),
                            }
                        } else {
                            plain_wrap(le, rv, rop)
                        }
                    },
                    _ => plain_wrap(le, rv, rop),
                },
            },
        },
        _ => plain_wrap(le, rv, rop),
    }
}

/// One unary evaluation step over an already evaluated operand.
pub open spec fn unary_step(inner: Result<ReturnV, EvalErrorV>, op: TokenV) -> Result<
    ReturnV,
    EvalErrorV,
> {
    match inner {
        Err(e1) => Err(e1),
        Ok(ReturnV::Expr(sym)) => Ok(
            ReturnV::Expr(ExprV::UnaryOperation { expr: Box::new(sym), op: op }),
        ),
        Ok(ReturnV::Value(v)) => match spec_val_unary(v, op) {
            Ok(rv) => Ok(ReturnV::Value(rv)),
            Err(er) => Err(er),
        },
        Ok(ReturnV::Nothing) => Err(EvalErrorV::ExpectedValue { got: ReturnV::Nothing }),
    }
}

/// Evaluate the elements of a container literal left to right: each must
/// resolve to a value, and each value's type must equal the first one's.
pub open spec fn eval_elems(es: Seq<ExprV>, t: Option<Type>, fuel: nat) -> Result<
    Seq<ValueV>,
    EvalErrorV,
>
    decreases fuel, es, 2nat,
{
    if es.len() == 0 {
        Ok(Seq::empty())
    } else {
        match eval_fuel(es[0], fuel) {
            Err(e1) => Err(e1),
            Ok(ReturnV::Value(v)) => {
                let vt = val_typ(v);
                match t {
                    Option::Some(t0) => if vt != t0 {
                        Err(EvalErrorV::TypeMismatch { expected: t0, got: vt })
                    } else {
                        match eval_elems(es.drop_first(), t, fuel) {
                            Err(e1) => Err(e1),
                            Ok(rest) => Ok(seq![v] + rest),
                        }
                    },
                    Option::None => match eval_elems(es.drop_first(), Option::Some(vt), fuel) {
                        Err(e1) => Err(e1),
                        Ok(rest) => Ok(seq![v] + rest),
                    },
                }
            },
            Ok(other) => Err(EvalErrorV::ExpectedValue { got: other }),
        }
    }
}

/// The meaning of evaluating an expression.
pub open spec fn spec_eval(e: ExprV) -> Result<ReturnV, EvalErrorV> {
    eval_fuel(e, msize(e))
}

/// Reducing a valid literal keeps it valid.
pub proof fn lemma_norm_lit_valid(n: Number)
    requires
        crate::number::num_valid(n),
    ensures
        crate::number::num_valid(norm_lit(n)),
{
    match n {
        Number::Fin { num, den } => {
            crate::number::lemma_norm_pair_wf(num as int, den as int);
        },
        _ => {},
    }
}

/// Fuel-stability and weight bounds for the rewrite step.
#[verifier::rlimit(100)]
#[verifier::spinoff_prover]
pub proof fn lemma_rewrite_step_props(le: ExprV, rop: TokenV, rv: ValueV, f1: nat, f2: nat)
    requires
        f1 >= msize(le),
        f2 >= msize(le),
        expr_valid(le),
        val_valid(rv),
    ensures
        rewrite_step(le, rop, rv, f1) == rewrite_step(le, rop, rv, f2),
        (match rewrite_step(le, rop, rv, f1) {
            Ok(ReturnV::Expr(out)) => msize(out) <= 1 + msize(le) && expr_valid(out),
            _ => true,
        }),
        (match rewrite_step(le, rop, rv, f1) {
            Ok(ReturnV::Value(v)) => val_valid(v),
            _ => true,
        }),
    decreases msize(le), le, 1nat,
{
    lemma_value_expr_pure(rv);
    lemma_value_expr_valid(rv);
    assert(msize(value_expr(rv)) == 0);
    assert(msize(
        ExprV::BinaryOperation { left: Box::new(le), right: Box::new(value_expr(rv)), op: rop },
    ) == 1 + msize(le));
    match le {
        ExprV::BinaryOperation { left: ll, right: lr2, op: lop } => {
            assert(!pure_lit(le));
            assert(msize(le) == 1 + msize(*ll) + msize(*lr2));
            lemma_eval_fuel_props(*ll, f1, f2);
            lemma_eval_fuel_props(*lr2, f1, f2);
            match (eval_fuel(*ll, f1), eval_fuel(*lr2, f1)) {
                (Ok(ReturnV::Expr(sym)), Ok(ReturnV::Value(lv))) => {
                    lemma_val_binary_valid(lv, rv, rop);
                    match spec_val_binary(lv, rv, rop) {
                        Ok(cv) => {
                            lemma_value_expr_pure(cv);
                            lemma_value_expr_valid(cv);
                            assert(msize(value_expr(cv)) == 0);
                            assert(msize(
                                ExprV::BinaryOperation {
                                    left: Box::new(sym),
                                    right: Box::new(value_expr(cv)),
                                    op: lop,
                                },
                            ) == 1 + msize(sym));
                        },
                        _ => {},
                    }
                    lemma_val_unary_valid(rv, lop);
                    match spec_val_unary(rv, lop) {
                        Ok(rv2) => {
                            lemma_val_binary_valid(lv, rv2, rop);
                            match spec_val_binary(lv, rv2, rop) {
                                Ok(cv) => {
                                    lemma_value_expr_pure(cv);
                                    lemma_value_expr_valid(cv);
                                    assert(msize(value_expr(cv)) == 0);
                                    assert(msize(
                                        ExprV::BinaryOperation {
                                            left: Box::new(sym),
                                            right: Box::new(value_expr(cv)),
                                            op: lop,
                                        },
                                    ) == 1 + msize(sym));
                                },
                                _ => {},
                            }
                        },
                        _ => {},
                    }
                },
                (Ok(ReturnV::Value(lv)), Ok(ReturnV::Expr(sym))) => {
                    lemma_val_binary_valid(lv, rv, rop);
                    match spec_val_binary(lv, rv, rop) {
                        Ok(cv) => {
                            lemma_value_expr_pure(cv);
                            lemma_value_expr_valid(cv);
                            assert(msize(value_expr(cv)) == 0);
                            assert(msize(
                                ExprV::BinaryOperation {
                                    left: Box::new(value_expr(cv)),
                                    right: Box::new(sym),
                                    op: lop,
                                },
                            ) == 1 + msize(sym));
                        },
                        _ => {},
                    }
                },
                _ => {},
            }
        },
        _ => {},
    }
}

/// Any fuel at least the symbolic weight of the tree gives one and the
/// same evaluation result; a symbolic result weighs no more than the
/// input and stays valid; a value result is valid.
#[verifier::rlimit(100)]
#[verifier::spinoff_prover]
pub proof fn lemma_eval_fuel_props(e: ExprV, f1: nat, f2: nat)
    requires
        f1 >= msize(e),
        f2 >= msize(e),
        expr_valid(e),
    ensures
        eval_fuel(e, f1) == eval_fuel(e, f2),
        (match eval_fuel(e, f1) {
            Ok(ReturnV::Expr(out)) => msize(out) <= msize(e) && expr_valid(out),
            _ => true,
        }),
        (match eval_fuel(e, f1) {
            Ok(ReturnV::Value(v)) => val_valid(v),
            _ => true,
        }),
    decreases msize(e), e, 0nat,
{
    match e {
        ExprV::ID(_) => {},
        ExprV::Int(_) => {},
        ExprV::Float(n) => {
            lemma_norm_lit_valid(n);
        },
        ExprV::Continue => {},
        ExprV::BinaryOperation { left, right, op } => {
            assert(!pure_lit(e));
            assert(msize(e) == 1 + msize(*left) + msize(*right));
            lemma_eval_fuel_props(*left, f1, f2);
            lemma_eval_fuel_props(*right, f1, f2);
            match (eval_fuel(*left, f1), eval_fuel(*right, f1)) {
                (Ok(ReturnV::Expr(le)), Ok(ReturnV::Expr(re))) => {
                    assert(msize(
                        ExprV::BinaryOperation { left: Box::new(le), right: Box::new(re), op: op },
                    ) == 1 + msize(le) + msize(re));
                },
                (Ok(ReturnV::Expr(le)), Ok(ReturnV::Value(rv))) => {
                    lemma_rewrite_step_props(le, op, rv, (f1 - 1) as nat, (f2 - 1) as nat);
                },
                (Ok(ReturnV::Value(lv)), Ok(ReturnV::Expr(re))) => {
                    lemma_value_expr_pure(lv);
                    lemma_value_expr_valid(lv);
                    assert(msize(value_expr(lv)) == 0);
                    assert(msize(
                        ExprV::BinaryOperation {
                            left: Box::new(value_expr(lv)),
                            right: Box::new(re),
                            op: op,
                        },
                    ) == 1 + msize(re));
                },
                (Ok(ReturnV::Value(lv)), Ok(ReturnV::Value(rv))) => {
                    lemma_val_binary_valid(lv, rv, op);
                },
                _ => {},
            }
        },
        ExprV::UnaryOperation { expr: x, op } => {
            assert(!pure_lit(e));
            assert(msize(e) == 1 + msize(*x));
            lemma_eval_fuel_props(*x, f1, f2);
            match eval_fuel(*x, f1) {
                Ok(ReturnV::Value(v)) => {
                    lemma_val_unary_valid(v, op);
                },
                Ok(ReturnV::Expr(sym)) => {
                    assert(msize(ExprV::UnaryOperation { expr: Box::new(sym), op: op }) == 1
                        + msize(sym));
                },
                _ => {},
            }
        },
        ExprV::UnaryOperationRight { expr: x, op } => {
            assert(!pure_lit(e));
            assert(msize(e) == 1 + msize(*x));
            lemma_eval_fuel_props(*x, f1, f2);
            match eval_fuel(*x, f1) {
                Ok(ReturnV::Value(v)) => {
                    lemma_val_unary_valid(v, op);
                },
                Ok(ReturnV::Expr(sym)) => {
                    assert(msize(ExprV::UnaryOperation { expr: Box::new(sym), op: op }) == 1
                        + msize(sym));
                },
                _ => {},
            }
        },
        ExprV::Absolute(inner) => {
            assert(!pure_lit(e));
            assert(msize(e) == 1 + msize(*inner));
            lemma_eval_fuel_props(*inner, f1, f2);
            match eval_fuel(*inner, f1) {
                Ok(ReturnV::Value(v)) => {
                    lemma_val_unary_valid(v, TokenV::Sub);
                },
                Ok(ReturnV::Expr(sym)) => {
                    assert(msize(ExprV::Absolute(Box::new(sym))) == 1 + msize(sym));
                },
                _ => {},
            }
        },
        ExprV::Vector(es) => {
            if es.len() > 0 {
                if pure_lit(e) {
                    crate::expr::lemma_pure_msize(es);
                }
                lemma_eval_elems_props(es, Option::None, f1, f2);
            }
        },
        ExprV::SetLit(es) => {
            if es.len() > 0 {
                if pure_lit(e) {
                    crate::expr::lemma_pure_msize(es);
                }
                lemma_eval_elems_props(es, Option::None, f1, f2);
                match eval_elems(es, Option::None, f1) {
                    Ok(vals) => {
                        crate::value::lemma_dedup_acc_valid(vals, Seq::empty());
                    },
                    _ => {},
                }
            }
        },
    }
}

/// Companion to `lemma_eval_fuel_props` for the elements of a container
/// literal.
pub proof fn lemma_eval_elems_props(es: Seq<ExprV>, t: Option<Type>, f1: nat, f2: nat)
    requires
        f1 >= msize_elems(es),
        f2 >= msize_elems(es),
        exprs_valid(es),
    ensures
        eval_elems(es, t, f1) == eval_elems(es, t, f2),
        (match eval_elems(es, t, f1) {
            Ok(vals) => crate::value::vals_valid(vals) && vals.len() == es.len(),
            _ => true,
        }),
    decreases msize_elems(es), es, 1nat,
{
    if es.len() > 0 {
        assert(msize_elems(es) == msize(es[0]) + msize_elems(es.drop_first()));
        lemma_eval_fuel_props(es[0], f1, f2);
        match eval_fuel(es[0], f1) {
            Ok(ReturnV::Value(v)) => {
                let vt = val_typ(v);
                match t {
                    Option::Some(t0) => {
                        if vt == t0 {
                            lemma_eval_elems_props(es.drop_first(), t, f1, f2);
                            match eval_elems(es.drop_first(), t, f1) {
                                Ok(rest) => {
                                    assert((seq![v] + rest)[0] == v);
                                    assert((seq![v] + rest).drop_first() =~= rest);
                                },
                                _ => {},
                            }
                        }
                    },
                    Option::None => {
                        lemma_eval_elems_props(es.drop_first(), Option::Some(vt), f1, f2);
                        match eval_elems(es.drop_first(), Option::Some(vt), f1) {
                            Ok(rest) => {
                                assert((seq![v] + rest)[0] == v);
                                assert((seq![v] + rest).drop_first() =~= rest);
                            },
                            _ => {},
                        }
                    },
                }
            },
            _ => {},
        }
    }
}

/// The view of an evaluation outcome.
pub open spec fn res_view(r: EvalResult) -> Result<ReturnV, EvalErrorV> {
    match r {
        Ok(ret) => Ok(return_view(ret)),
        Err(e) => Err(eval_error_view(e)),
    }
}

/// The rewrite attempted on the children of the symbolic left side:
/// `None` means it does not apply and the caller wraps plainly.
pub open spec fn spec_binary_expr(ll: ExprV, lr: ExprV, lop: TokenV, rop: TokenV, rv: ValueV) -> Option<
    Result<ReturnV, EvalErrorV>,
> {
    match spec_eval(ll) {
        Err(e1) => Some(Err(e1)),
        Ok(llret) => match spec_eval(lr) {
            Err(e2) => Some(Err(e2)),
            Ok(lrret) => match (llret, lrret) {
                (ReturnV::Expr(sym), ReturnV::Value(lv)) => {
                    if lop == TokenV::Add && (rop == TokenV::Add || rop == TokenV::Sub) {
                        match spec_val_binary(lv, rv, rop) {
                            Ok(cv) => Some(
                                Ok(
                                    ReturnV::Expr(
                                        ExprV::BinaryOperation {
                                            left: Box::new(sym),
                                            right: Box::new(value_expr(cv)),
                                            op: lop,
                                        },
                                    ),
                                ),
                            ),
                            Err(er) => Some(Err(er)),
                        }
                    } else if lop == TokenV::Sub && (rop == TokenV::Add || rop == TokenV::Sub) {
                        match spec_val_unary(rv, lop) {
                            Err(er) => Some(Err(er)),
                            Ok(rv2) => match spec_val_binary(lv, rv2, rop) {
                                Ok(cv) => Some(
                                    Ok(
                                        ReturnV::Expr(
                                            ExprV::BinaryOperation {
                                                left: Box::new(sym),
                                                right: Box::new(value_expr(cv)),
                                                op: lop,
                                            },
                                        ),
                                    ),
                                ),
                                Err(er) => Some(Err(er)),
                            },
                        }
                    } else {
                        None
                    }
                },
                (ReturnV::Value(lv), ReturnV::Expr(sym)) => {
                    if (lop == TokenV::Add || lop == TokenV::Sub) && (rop == TokenV::Add || rop
                        == TokenV::Sub) {
                        match spec_val_binary(lv, rv, rop) {
                            Ok(cv) => Some(
                                Ok(
                                    ReturnV::Expr(
                                        ExprV::BinaryOperation {
                                            left: Box::new(value_expr(cv)),
                                            right: Box::new(sym),
                                            op: lop,
                                        },
                                    ),
                                ),
                            ),
                            Err(er) => Some(Err(er)),
                        }
                    } else {
                        None
                    }
                },
                _ => None,
            },
        },
    }
}

/// The step taken once both operands of a binary node are evaluated.
pub open spec fn spec_combine(lret: ReturnV, rret: ReturnV, op: TokenV) -> Result<
    ReturnV,
    EvalErrorV,
> {
    match (lret, rret) {
        (ReturnV::Expr(le), ReturnV::Expr(re)) => Ok(
            ReturnV::Expr(
                ExprV::BinaryOperation { left: Box::new(le), right: Box::new(re), op: op },
            ),
        ),
        (ReturnV::Expr(le), ReturnV::Value(rv)) => match le {
            ExprV::BinaryOperation { left: ll, right: lr2, op: lop } => match spec_binary_expr(
                *ll,
                *lr2,
                lop,
                op,
                rv,
            ) {
                Some(res) => res,
                None => plain_wrap(le, rv, op),
            },
            _ => plain_wrap(le, rv, op),
        },
        (ReturnV::Value(lv), ReturnV::Expr(re)) => Ok(
            ReturnV::Expr(
                ExprV::BinaryOperation {
                    left: Box::new(value_expr(lv)),
                    right: Box::new(re),
                    op: op,
                },
            ),
        ),
        (ReturnV::Value(lv), ReturnV::Value(rv)) => match spec_val_binary(lv, rv, op) {
            Ok(v) => Ok(ReturnV::Value(v)),
            Err(er) => Err(er),
        },
        _ => Err(EvalErrorV::ExpectedValue { got: ReturnV::Nothing }),
    }
}

/// Evaluating both sides of a binary node and combining them.
pub open spec fn spec_binary(left: ExprV, right: ExprV, op: TokenV) -> Result<ReturnV, EvalErrorV> {
    match spec_eval(left) {
        Err(e1) => Err(e1),
        Ok(lret) => match spec_eval(right) {
            Err(e2) => Err(e2),
            Ok(rret) => spec_combine(lret, rret, op),
        },
    }
}

/// With enough fuel, the rewrite step is the rewrite attempt followed by
/// a plain wrap where it does not apply.
proof fn lemma_rewrite_is_binary_expr(
    ll: ExprV,
    lr: ExprV,
    lop: TokenV,
    rop: TokenV,
    rv: ValueV,
    fuel: nat,
)
    requires
        fuel >= msize(ExprV::BinaryOperation { left: Box::new(ll), right: Box::new(lr), op: lop }),
        expr_valid(ll),
        expr_valid(lr),
        val_valid(rv),
    ensures
        rewrite_step(
            ExprV::BinaryOperation { left: Box::new(ll), right: Box::new(lr), op: lop },
            rop,
            rv,
            fuel,
        ) == (match spec_binary_expr(ll, lr, lop, rop, rv) {
            Some(res) => res,
            None => plain_wrap(
                ExprV::BinaryOperation { left: Box::new(ll), right: Box::new(lr), op: lop },
                rv,
                rop,
            ),
        }),
{
    let le = ExprV::BinaryOperation { left: Box::new(ll), right: Box::new(lr), op: lop };
    assert(!pure_lit(le));
    assert(msize(le) == 1 + msize(ll) + msize(lr));
    lemma_eval_fuel_props(ll, fuel, msize(ll));
    lemma_eval_fuel_props(lr, fuel, msize(lr));
}

/// Evaluating a binary node is evaluating its sides and combining them.
pub proof fn lemma_spec_eval_binary(left: ExprV, right: ExprV, op: TokenV)
    requires
        expr_valid(left),
        expr_valid(right),
    ensures
        spec_eval(ExprV::BinaryOperation { left: Box::new(left), right: Box::new(right), op: op })
            == spec_binary(left, right, op),
{
    let e = ExprV::BinaryOperation { left: Box::new(left), right: Box::new(right), op: op };
    let m = msize(e);
    assert(!pure_lit(e));
    assert(m == 1 + msize(left) + msize(right));
    lemma_eval_fuel_props(left, m, msize(left));
    lemma_eval_fuel_props(right, m, msize(right));
    match (eval_fuel(left, m), eval_fuel(right, m)) {
        (Ok(ReturnV::Expr(le)), Ok(ReturnV::Value(rv))) => {
            match le {
                ExprV::BinaryOperation { left: ll, right: lr2, op: lop } => {
                    assert(msize(le) == 1 + msize(*ll) + msize(*lr2));
                    lemma_rewrite_is_binary_expr(*ll, *lr2, lop, op, rv, (m - 1) as nat);
                },
                _ => {},
            }
        },
        _ => {},
    }
}

/// Evaluating a unary node, of either orientation, is evaluating its
/// operand and taking one unary step.
pub proof fn lemma_spec_eval_unary(x: ExprV, op: TokenV)
    requires
        expr_valid(x),
    ensures
        spec_eval(ExprV::UnaryOperation { expr: Box::new(x), op: op }) == unary_step(
            spec_eval(x),
            op,
        ),
        spec_eval(ExprV::UnaryOperationRight { expr: Box::new(x), op: op }) == unary_step(
            spec_eval(x),
            op,
        ),
{
    let e1 = ExprV::UnaryOperation { expr: Box::new(x), op: op };
    let e2 = ExprV::UnaryOperationRight { expr: Box::new(x), op: op };
    assert(!pure_lit(e1));
    assert(!pure_lit(e2));
    assert(msize(e1) == 1 + msize(x));
    assert(msize(e2) == 1 + msize(x));
    lemma_eval_fuel_props(x, msize(e1), msize(x));
}

/// Evaluating an absolute-value node is evaluating its operand and
/// taking one absolute-value step.
pub proof fn lemma_spec_eval_absolute(x: ExprV)
    requires
        expr_valid(x),
    ensures
        spec_eval(ExprV::Absolute(Box::new(x))) == abs_step(spec_eval(x)),
{
    let e = ExprV::Absolute(Box::new(x));
    assert(!pure_lit(e));
    assert(msize(e) == 1 + msize(x));
    lemma_eval_fuel_props(x, msize(e), msize(x));
}

/// The view of an optional evaluation outcome.
pub open spec fn opt_res_view(r: Option<EvalResult>) -> Option<Result<ReturnV, EvalErrorV>> {
    match r {
        Some(res) => Some(res_view(res)),
        None => None,
    }
}

/// Re-evaluate the children of a symbolic addition or subtraction node
/// against the value on the other side of the outer operator, folding
/// the two known values into one literal when the rewrite applies;
/// `None` means it does not and the caller wraps plainly.
pub fn binary_expr(
    left_left_expr: &Expr,
    left_right_expr: &Expr,
    left_op: &Token,
    right_op: &Token,
    right_value: &Value,
) -> (r: Option<EvalResult>)
    requires
        expr_valid(left_left_expr@),
        expr_valid(left_right_expr@),
        val_valid(right_value@),
    ensures
        opt_res_view(r) == spec_binary_expr(
            left_left_expr@,
            left_right_expr@,
            left_op@,
            right_op@,
            right_value@,
        ),
    decreases
            msize(left_left_expr@) + msize(left_right_expr@),
            esize(left_left_expr@) + esize(left_right_expr@),
            1nat,
{
    proof {
        crate::expr::lemma_esize_pos(left_left_expr@);
        crate::expr::lemma_esize_pos(left_right_expr@);
    }
    let left_left_ret = match eval(left_left_expr) {
        Ok(rr) => rr,
        Err(e) => {
            return Some(Err(e));
        },
    };
    proof {
        lemma_eval_fuel_props(left_left_expr@, msize(left_left_expr@), msize(left_left_expr@));
    }
    let left_right_ret = match eval(left_right_expr) {
        Ok(rr) => rr,
        Err(e) => {
            return Some(Err(e));
        },
    };
    proof {
        lemma_eval_fuel_props(left_right_expr@, msize(left_right_expr@), msize(left_right_expr@));
    }
    match (left_left_ret, left_right_ret) {
        (Return::Expr(left_expr), Return::Value(left_value)) => match (left_op, right_op) {
            (Token::Add, Token::Add) | (Token::Add, Token::Sub) => match left_value.binary(
                right_value,
                right_op,
            ) {
                Ok(value) => Some(
                    Ok(
                        Return::Expr(
                            Expr::BinaryOperation {
                                left: Box::new(left_expr),
                                right: Box::new(value.expr()),
                                op: clone_token(left_op),
                            },
                        ),
                    ),
                ),
                Err(err) => Some(Err(err)),
            },
            (Token::Sub, Token::Add) | (Token::Sub, Token::Sub) => match right_value.unary(
                left_op,
            ) {
                Ok(rv2) => {
                    proof {
                        crate::value::lemma_val_unary_valid(right_value@, left_op@);
                    }
                    match left_value.binary(&rv2, right_op) {
                        Ok(value) => Some(
                            Ok(
                                Return::Expr(
                                    Expr::BinaryOperation {
                                        left: Box::new(left_expr),
                                        right: Box::new(value.expr()),
                                        op: clone_token(left_op),
                                    },
                                ),
                            ),
                        ),
                        Err(err) => Some(Err(err)),
                    }
                },
                Err(err) => Some(Err(err)),
            },
            _ => None,
        },
        (Return::Value(left_value), Return::Expr(left_expr)) => match (left_op, right_op) {
            (Token::Add, Token::Add)
            | (Token::Add, Token::Sub)
            | (Token::Sub, Token::Add)
            | (Token::Sub, Token::Sub) => match left_value.binary(right_value, right_op) {
                Ok(value) => Some(
                    Ok(
                        Return::Expr(
                            Expr::BinaryOperation {
                                left: Box::new(value.expr()),
                                right: Box::new(left_expr),
                                op: clone_token(left_op),
                            },
                        ),
                    ),
                ),
                Err(err) => Some(Err(err)),
            },
            _ => None,
        },
        _ => None,
    }
}

/// Evaluate both sides of a binary node and combine them: two values
/// meet the value-level operator contract, two symbolic sides are
/// wrapped anew, and a symbolic left side against a value attempts the
/// add/subtract rewrite before wrapping plainly.
pub fn binary(left: &Expr, right: &Expr, op: &Token) -> (r: EvalResult)
    requires
        expr_valid(left@),
        expr_valid(right@),
    ensures
        res_view(r) == spec_binary(left@, right@, op@),
    decreases msize(left@) + msize(right@), esize(left@) + esize(right@), 1nat,
{
    proof {
        crate::expr::lemma_esize_pos(left@);
        crate::expr::lemma_esize_pos(right@);
    }
    let left_ret = match eval(left) {
        Ok(x) => x,
        Err(e) => {
            return Err(e);
        },
    };
    proof {
        lemma_eval_fuel_props(left@, msize(left@), msize(left@));
    }
    let right_ret = match eval(right) {
        Ok(x) => x,
        Err(e) => {
            return Err(e);
        },
    };
    proof {
        lemma_eval_fuel_props(right@, msize(right@), msize(right@));
    }
    match left_ret {
        Return::Expr(left_expr) => match right_ret {
            Return::Expr(right_expr) => Ok(
                Return::Expr(
                    Expr::BinaryOperation {
                        left: Box::new(left_expr),
                        right: Box::new(right_expr),
                        op: clone_token(op),
                    },
                ),
            ),
            Return::Value(right_value) => match &left_expr {
                Expr::BinaryOperation { left: ll, right: lr2, op: lop } => {
                    proof {
                        assert(expr_valid(left_expr@));
                        assert(!crate::expr::pure_lit(left_expr@));
                        assert(msize(left_expr@) == 1 + msize((*ll)@) + msize((*lr2)@));
                        assert(msize(left_expr@) <= msize(left@));
                    }
                    match binary_expr(ll, lr2, lop, op, &right_value) {
                        Some(res) => res,
                        None => Ok(
                            Return::Expr(
                                Expr::BinaryOperation {
                                    left: Box::new(left_expr),
                                    right: Box::new(right_value.expr()),
                                    op: clone_token(op),
                                },
                            ),
                        ),
                    }
                },
                _ => Ok(
                    Return::Expr(
                        Expr::BinaryOperation {
                            left: Box::new(left_expr),
                            right: Box::new(right_value.expr()),
                            op: clone_token(op),
                        },
                    ),
                ),
            },
            Return::Nothing => Err(EvalError::ExpectedValue { got: Return::Nothing }),
        },
        Return::Value(left_value) => match right_ret {
            Return::Expr(right_expr) => Ok(
                Return::Expr(
                    Expr::BinaryOperation {
                        left: Box::new(left_value.expr()),
                        right: Box::new(right_expr),
                        op: clone_token(op),
                    },
                ),
            ),
            Return::Value(right_value) => match left_value.binary(&right_value, op) {
                Ok(v) => Ok(Return::Value(v)),
                Err(e) => Err(e),
            },
            Return::Nothing => Err(EvalError::ExpectedValue { got: Return::Nothing }),
        },
        Return::Nothing => Err(EvalError::ExpectedValue { got: Return::Nothing }),
    }
}

/// Evaluate the operand of a unary node and apply the operator when it
/// resolves, or rebuild a unary node over the rewritten operand.
pub fn unary(expr: &Expr, op: &Token) -> (r: EvalResult)
    requires
        expr_valid(expr@),
    ensures
        res_view(r) == unary_step(spec_eval(expr@), op@),
    decreases msize(expr@), esize(expr@), 1nat,
{
    let ret = match eval(expr) {
        Ok(x) => x,
        Err(e) => {
            return Err(e);
        },
    };
    proof {
        lemma_eval_fuel_props(expr@, msize(expr@), msize(expr@));
    }
    match ret {
        Return::Expr(sym) => Ok(
            Return::Expr(Expr::UnaryOperation { expr: Box::new(sym), op: clone_token(op) }),
        ),
        Return::Value(value) => match value.unary(op) {
            Ok(v) => Ok(Return::Value(v)),
            Err(e) => Err(e),
        },
        Return::Nothing => Err(EvalError::ExpectedValue { got: Return::Nothing }),
    }
}

/// Evaluate the operand of an absolute-value node and take its
/// magnitude when it resolves, or stay symbolic.
pub fn absolute(expr: &Expr) -> (r: EvalResult)
    requires
        expr_valid(expr@),
    ensures
        res_view(r) == abs_step(spec_eval(expr@)),
    decreases msize(expr@), esize(expr@), 1nat,
{
    let ret = match eval(expr) {
        Ok(x) => x,
        Err(e) => {
            return Err(e);
        },
    };
    proof {
        lemma_eval_fuel_props(expr@, msize(expr@), msize(expr@));
    }
    match ret {
        Return::Expr(sym) => Ok(Return::Expr(Expr::Absolute(Box::new(sym)))),
        Return::Value(value) => match value.abs() {
            Ok(v) => Ok(Return::Value(v)),
            Err(e) => Err(e),
        },
        Return::Nothing => Err(EvalError::ExpectedValue { got: Return::Nothing }),
    }
}

/// Evaluate every element of a container literal, enforcing that each
/// resolves to a value of the type the first element establishes.
fn eval_elements(es: &Vec<Expr>, Ghost(f): Ghost<nat>) -> (r: Result<(Vec<Value>, Type), EvalError>)
    requires
        exprs_valid(crate::expr::exprs_view(es@)),
        es@.len() > 0,
        f >= msize_elems(crate::expr::exprs_view(es@)),
    ensures
        (match r {
            Ok(p) => eval_elems(crate::expr::exprs_view(es@), Option::None, f) == Ok::<
                _,
                EvalErrorV,
            >(crate::value::vals_view(p.0@)) && p.0@.len() == es@.len()
                && crate::value::vals_view(p.0@).len() == es@.len() && p.1 == val_typ(
                crate::value::vals_view(p.0@)[0],
            ) && crate::value::vals_valid(crate::value::vals_view(p.0@)),
            Err(e) => eval_elems(crate::expr::exprs_view(es@), Option::None, f) == Err::<
                Seq<ValueV>,
                _,
            >(e@),
        }),
    decreases
            msize_elems(crate::expr::exprs_view(es@)),
            crate::expr::exprs_esize(crate::expr::exprs_view(es@)),
            1nat,
{
    proof {
        crate::expr::lemma_exprs_view(es@);
    }
    let ghost esv = crate::expr::exprs_view(es@);
    let mut values: Vec<Value> = Vec::new();
    let mut typ: Option<Type> = Option::None;
    let mut i: usize = 0;
    proof {
        assert(esv.skip(0) =~= esv);
    }
    while i < es.len()
        invariant
            0 < es@.len(),
            i <= es@.len(),
            esv == crate::expr::exprs_view(es@),
            esv.len() == es@.len(),
            forall|j: int|
                0 <= j < es@.len() ==> #[trigger] esv[j] == crate::expr::expr_view(es@[j]),
            exprs_valid(esv),
            f >= msize_elems(esv),
            values@.len() == i,
            crate::value::vals_view(values@).len() == i,
            crate::value::vals_valid(crate::value::vals_view(values@)),
            i == 0 ==> (typ matches Option::None),
            i > 0 ==> (typ matches Option::Some(t0) && t0 == val_typ(
                crate::value::vals_view(values@)[0],
            )),
            eval_elems(esv, Option::None, f) == (match eval_elems(esv.skip(i as int), typ, f) {
                Ok(rest) => Ok::<_, EvalErrorV>(crate::value::vals_view(values@) + rest),
                Err(e) => Err::<Seq<ValueV>, _>(e),
            }),
        decreases es.len() - i,
    {
        proof {
            assert(esv.skip(i as int)[0] == esv[i as int]);
            assert(esv.skip(i as int).drop_first() =~= esv.skip(i as int + 1));
            crate::expr::lemma_exprs_valid_elem(esv, i as int);
            crate::expr::lemma_msize_elem_bound(esv, i as int);
        }
        let ret = match eval(&es[i]) {
            Ok(x) => x,
            Err(e) => {
                proof {
                    lemma_eval_fuel_props(esv[i as int], f, msize(esv[i as int]));
                }
                return Err(e);
            },
        };
        proof {
            lemma_eval_fuel_props(esv[i as int], f, msize(esv[i as int]));
        }
        match ret {
            Return::Value(v) => {
                let vt = v.typ();
                match &typ {
                    Option::Some(t0) => {
                        if !crate::value::type_eq(t0, &vt) {
                            return Err(
                                EvalError::TypeMismatch {
                                    expected: crate::value::clone_type(t0),
                                    got: vt,
                                },
                            );
                        }
                    },
                    Option::None => {
                        typ = Option::Some(vt);
                    },
                }
                let ghost gv = v@;
                let ghost ovec = values@;
                let ghost old_out = crate::value::vals_view(values@);
                proof {
                    crate::value::lemma_vals_valid_push(old_out, gv);
                }
                values.push(v);
                proof {
                    crate::value::lemma_vals_view(ovec);
                    crate::value::lemma_vals_view(values@);
                    assert(crate::value::vals_view(values@) =~= old_out.push(gv));
                    assert forall|rest: Seq<ValueV>| true implies (old_out.push(gv) + rest) =~= (
                    old_out + (seq![gv] + rest)) by {}
                }
            },
            other => {
                return Err(EvalError::ExpectedValue { got: other });
            },
        }
        i = i + 1;
    }
    proof {
        assert(esv.skip(es@.len() as int) =~= Seq::<ExprV>::empty());
        assert(crate::value::vals_view(values@) + Seq::<ValueV>::empty() =~= crate::value::vals_view(
            values@,
        ));
    }
    match typ {
        Option::Some(t) => Ok((values, t)),
        Option::None => unreached(),
    }
}

/// Evaluate an expression: identifiers stay symbolic, literals become
/// values, containers collect and type-check their elements, operators
/// compute on values and partially simplify around symbolic terms.
pub fn eval(expr: &Expr) -> (r: EvalResult)
    requires
        expr_valid(expr@),
    ensures
        res_view(r) == spec_eval(expr@),
    decreases msize(expr@), esize(expr@), 0nat,
{
    match expr {
        Expr::ID(_) => Ok(Return::Expr(crate::expr::clone_expr(expr))),
        Expr::Int(v) => Ok(Return::Value(Value::Number(Number::Fin { num: *v, den: 1 }))),
        Expr::Float(n) => Ok(Return::Value(Value::Number(crate::number::num_reduce(*n)))),
        Expr::Continue => Err(EvalError::UnexpectedContinue),
        Expr::BinaryOperation { left, right, op } => {
            proof {
                assert(!crate::expr::pure_lit(expr@));
                assert(msize(expr@) == 1 + msize((*left)@) + msize((*right)@));
            }
            let r = binary(left, right, op);
            proof {
                lemma_spec_eval_binary((*left)@, (*right)@, op@);
            }
            r
        },
        Expr::UnaryOperation { expr: x, op } => {
            proof {
                assert(msize(expr@) == 1 + msize((*x)@));
            }
            let r = unary(x, op);
            proof {
                lemma_spec_eval_unary((*x)@, op@);
            }
            r
        },
        Expr::UnaryOperationRight { expr: x, op } => {
            proof {
                assert(msize(expr@) == 1 + msize((*x)@));
            }
            let r = unary(x, op);
            proof {
                lemma_spec_eval_unary((*x)@, op@);
            }
            r
        },
        Expr::Absolute(inner) => {
            proof {
                assert(msize(expr@) == 1 + msize((*inner)@));
            }
            let r = absolute(inner);
            proof {
                lemma_spec_eval_absolute((*inner)@);
            }
            r
        },
        Expr::Vector(es) => {
            proof {
                crate::expr::lemma_exprs_view(es@);
            }
            if es.len() == 0 {
                Ok(Return::Nothing)
            } else {
                proof {
                    if crate::expr::pure_lit(expr@) {
                        crate::expr::lemma_pure_msize(crate::expr::exprs_view(es@));
                    }
                }
                match eval_elements(es, Ghost(msize(expr@))) {
                    Ok((vals, t)) => Ok(Return::Value(Value::Vector(vals, t))),
                    Err(e) => Err(e),
                }
            }
        },
        Expr::SetLit(es) => {
            proof {
                crate::expr::lemma_exprs_view(es@);
            }
            if es.len() == 0 {
                Ok(Return::Nothing)
            } else {
                proof {
                    if crate::expr::pure_lit(expr@) {
                        crate::expr::lemma_pure_msize(crate::expr::exprs_view(es@));
                    }
                }
                match eval_elements(es, Ghost(msize(expr@))) {
                    Ok((vals, t)) => Ok(
                        Return::Value(Value::SetVal(crate::value::dedup_values(vals), t)),
                    ),
                    Err(e) => Err(e),
                }
            }
        },
    }
}

} // verus!
