//! The abstract syntax tree, with a mathematical view (`ExprV`) used by
//! every contract, a node count, and the structural predicates the
//! evaluator's termination argument rests on.
use crate::number::Number;
use crate::number::num_valid;
use crate::token::Token;
use crate::token::TokenV;
use crate::token::clone_token;
use vstd::prelude::*;

verus! {

broadcast use vstd::std_specs::vec::group_vec_axioms, vstd::seq::group_seq_axioms;

/// One node of the abstract syntax tree.
#[derive(Debug)]
pub enum Expr {
    ID(String),
    Int(i64),
    Float(Number),
    Continue,
    BinaryOperation { left: Box<Expr>, right: Box<Expr>, op: Token },
    UnaryOperation { expr: Box<Expr>, op: Token },
    UnaryOperationRight { expr: Box<Expr>, op: Token },
    Vector(Vec<Expr>),
    SetLit(Vec<Expr>),
    Absolute(Box<Expr>),
}

/// The mathematical view of a syntax tree.
pub enum ExprV {
    ID(Seq<char>),
    Int(i64),
    Float(Number),
    Continue,
    BinaryOperation { left: Box<ExprV>, right: Box<ExprV>, op: TokenV },
    UnaryOperation { expr: Box<ExprV>, op: TokenV },
    UnaryOperationRight { expr: Box<ExprV>, op: TokenV },
    Vector(Seq<ExprV>),
    SetLit(Seq<ExprV>),
    Absolute(Box<ExprV>),
}

/// The view of one node.
pub open spec fn expr_view(e: Expr) -> ExprV
    decreases e,
{
    match e {
        Expr::ID(s) => ExprV::ID(s@),
        Expr::Int(v) => ExprV::Int(v),
        Expr::Float(n) => ExprV::Float(n),
        Expr::Continue => ExprV::Continue,
        Expr::BinaryOperation { left, right, op } => ExprV::BinaryOperation {
            left: Box::new(expr_view(*left)),
            right: Box::new(expr_view(*right)),
            op: op@,
        },
        Expr::UnaryOperation { expr, op } => ExprV::UnaryOperation {
            expr: Box::new(expr_view(*expr)),
            op: op@,
        },
        Expr::UnaryOperationRight { expr, op } => ExprV::UnaryOperationRight {
            expr: Box::new(expr_view(*expr)),
            op: op@,
        },
        Expr::Vector(es) => ExprV::Vector(exprs_view(es@)),
        Expr::SetLit(es) => ExprV::SetLit(exprs_view(es@)),
        Expr::Absolute(inner) => ExprV::Absolute(Box::new(expr_view(*inner))),
    }
}

/// The views of a sequence of nodes.
pub open spec fn exprs_view(es: Seq<Expr>) -> Seq<ExprV>
    decreases es,
{
    if es.len() == 0 {
        Seq::empty()
    } else {
        seq![expr_view(es[0])] + exprs_view(es.drop_first())
    }
}

impl View for Expr {
    type V = ExprV;

    open spec fn view(&self) -> ExprV {
        expr_view(*self)
    }
}

/// `exprs_view` maps the sequence pointwise.
pub proof fn lemma_exprs_view(es: Seq<Expr>)
    ensures
        exprs_view(es).len() == es.len(),
        forall|i: int| 0 <= i < es.len() ==> #[trigger] exprs_view(es)[i] == expr_view(es[i]),
    decreases es,
{
    if es.len() > 0 {
        lemma_exprs_view(es.drop_first());
    }
}

/// The number of nodes in a tree.
pub open spec fn esize(e: ExprV) -> nat
    decreases e,
{
    match e {
        ExprV::ID(_) => 1,
        ExprV::Int(_) => 1,
        ExprV::Float(_) => 1,
        ExprV::Continue => 1,
        ExprV::BinaryOperation { left, right, op } => 1 + esize(*left) + esize(*right),
        ExprV::UnaryOperation { expr, op } => 1 + esize(*expr),
        ExprV::UnaryOperationRight { expr, op } => 1 + esize(*expr),
        ExprV::Vector(es) => 1 + exprs_esize(es),
        ExprV::SetLit(es) => 1 + exprs_esize(es),
        ExprV::Absolute(inner) => 1 + esize(*inner),
    }
}

/// Every tree has at least one node.
pub proof fn lemma_esize_pos(e: ExprV)
    ensures
        esize(e) >= 1,
{
    match e {
        ExprV::ID(_) => {},
        ExprV::Int(_) => {},
        ExprV::Float(_) => {},
        ExprV::Continue => {},
        ExprV::BinaryOperation { left, right, op } => {},
        ExprV::UnaryOperation { expr, op } => {},
        ExprV::UnaryOperationRight { expr, op } => {},
        ExprV::Vector(es) => {},
        ExprV::SetLit(es) => {},
        ExprV::Absolute(inner) => {},
    }
}

/// The number of nodes in each tree of a sequence, summed.
pub open spec fn exprs_esize(es: Seq<ExprV>) -> nat
    decreases es,
{
    if es.len() == 0 {
        0
    } else {
        esize(es[0]) + exprs_esize(es.drop_first())
    }
}

/// A tree shaped like a value literal: numeric leaves and containers of
/// such, with nothing symbolic inside.
pub open spec fn pure_lit(e: ExprV) -> bool
    decreases e,
{
    match e {
        ExprV::Int(_) => true,
        ExprV::Float(_) => true,
        ExprV::Vector(es) => pure_lits(es),
        ExprV::SetLit(es) => pure_lits(es),
        _ => false,
    }
}

/// Whether every tree of a sequence is a value literal.
pub open spec fn pure_lits(es: Seq<ExprV>) -> bool
    decreases es,
{
    if es.len() == 0 {
        true
    } else {
        pure_lit(es[0]) && pure_lits(es.drop_first())
    }
}

/// The symbolic weight of a tree: value literals weigh nothing, and every
/// other node weighs one plus its children. The evaluator's rewrite step
/// strictly shrinks this weight, which bounds its re-evaluations.
pub open spec fn msize(e: ExprV) -> nat
    decreases e,
{
    if pure_lit(e) {
        0
    } else {
        match e {
            ExprV::ID(_) => 1,
            ExprV::Int(_) => 1,
            ExprV::Float(_) => 1,
            ExprV::Continue => 1,
            ExprV::BinaryOperation { left, right, op } => 1 + msize(*left) + msize(*right),
            ExprV::UnaryOperation { expr, op } => 1 + msize(*expr),
            ExprV::UnaryOperationRight { expr, op } => 1 + msize(*expr),
            ExprV::Vector(es) => 1 + msize_elems(es),
            ExprV::SetLit(es) => 1 + msize_elems(es),
            ExprV::Absolute(inner) => 1 + msize(*inner),
        }
    }
}

/// The symbolic weight of a sequence of trees.
pub open spec fn msize_elems(es: Seq<ExprV>) -> nat
    decreases es,
{
    if es.len() == 0 {
        0
    } else {
        msize(es[0]) + msize_elems(es.drop_first())
    }
}

/// Every element weighs no more than the whole sequence.
pub proof fn lemma_msize_elem_bound(es: Seq<ExprV>, i: int)
    requires
        0 <= i < es.len(),
    ensures
        msize(es[i]) <= msize_elems(es),
        esize(es[i]) <= exprs_esize(es),
    decreases es,
{
    if i > 0 {
        lemma_msize_elem_bound(es.drop_first(), i - 1);
        assert(es.drop_first()[i - 1] == es[i]);
    }
}

/// A pure literal weighs nothing, and its elements weigh nothing.
pub proof fn lemma_pure_msize(es: Seq<ExprV>)
    requires
        pure_lits(es),
    ensures
        msize_elems(es) == 0,
    decreases es,
{
    if es.len() > 0 {
        assert(msize(es[0]) == 0);
        lemma_pure_msize(es.drop_first());
    }
}

/// Numeric payloads of a tree are meaningful numbers.
pub open spec fn expr_valid(e: ExprV) -> bool
    decreases e,
{
    match e {
        ExprV::Float(n) => num_valid(n),
        ExprV::BinaryOperation { left, right, op } => expr_valid(*left) && expr_valid(*right),
        ExprV::UnaryOperation { expr, op } => expr_valid(*expr),
        ExprV::UnaryOperationRight { expr, op } => expr_valid(*expr),
        ExprV::Vector(es) => exprs_valid(es),
        ExprV::SetLit(es) => exprs_valid(es),
        ExprV::Absolute(inner) => expr_valid(*inner),
        _ => true,
    }
}

/// Validity of every tree of a sequence.
pub open spec fn exprs_valid(es: Seq<ExprV>) -> bool
    decreases es,
{
    if es.len() == 0 {
        true
    } else {
        expr_valid(es[0]) && exprs_valid(es.drop_first())
    }
}

/// Every element of a valid sequence is valid.
pub proof fn lemma_exprs_valid_elem(es: Seq<ExprV>, i: int)
    requires
        exprs_valid(es),
        0 <= i < es.len(),
    ensures
        expr_valid(es[i]),
    decreases es,
{
    if i > 0 {
        lemma_exprs_valid_elem(es.drop_first(), i - 1);
        assert(es.drop_first()[i - 1] == es[i]);
    }
}

impl Expr {
    /// The kind of this node, as a word for error messages.
    pub fn name(&self) -> (r: &'static str)
        ensures
            r@ == spec_name(self@),
    {
        match self {
            Expr::ID(_) => "identifier",
            Expr::Int(_) => "integer",
            Expr::Float(_) => "number",
            Expr::Continue => "continuation",
            Expr::BinaryOperation { left, right, op } => "binary operation",
            Expr::UnaryOperation { expr, op } => "unary operation",
            Expr::UnaryOperationRight { expr, op } => "unary operation (right sided)",
            Expr::Vector(_) => "vector",
            Expr::SetLit(_) => "set",
            Expr::Absolute(_) => "absolute expression",
        }
    }

    /// The number of nodes of this tree.
    pub fn count(&self) -> (r: usize)
        requires
            esize(self@) <= usize::MAX,
        ensures
            r == esize(self@),
        decreases *self,
    {
        match self {
            Expr::ID(_) => 1,
            Expr::Int(_) => 1,
            Expr::Float(_) => 1,
            Expr::Continue => 1,
            Expr::BinaryOperation { left, right, op } => 1 + left.count() + right.count(),
            Expr::UnaryOperation { expr, op } => 1 + expr.count(),
            Expr::UnaryOperationRight { expr, op } => 1 + expr.count(),
            Expr::Vector(es) => 1 + count_all(es),
            Expr::SetLit(es) => 1 + count_all(es),
            Expr::Absolute(inner) => 1 + inner.count(),
        }
    }
}

/// The word naming a node kind.
pub open spec fn spec_name(e: ExprV) -> Seq<char> {
    match e {
        ExprV::ID(_) => "identifier"@,
        ExprV::Int(_) => "integer"@,
        ExprV::Float(_) => "number"@,
        ExprV::Continue => "continuation"@,
        ExprV::BinaryOperation { left, right, op } => "binary operation"@,
        ExprV::UnaryOperation { expr, op } => "unary operation"@,
        ExprV::UnaryOperationRight { expr, op } => "unary operation (right sided)"@,
        ExprV::Vector(_) => "vector"@,
        ExprV::SetLit(_) => "set"@,
        ExprV::Absolute(_) => "absolute expression"@,
    }
}

/// The node count of every tree in a vector, summed.
fn count_all(es: &Vec<Expr>) -> (r: usize)
    requires
        exprs_esize(exprs_view(es@)) <= usize::MAX,
    ensures
        r == exprs_esize(exprs_view(es@)),
    decreases *es,
{
    proof {
        lemma_exprs_view(es@);
    }
    let ghost vs = exprs_view(es@);
    proof {
        assert(vs.skip(0) =~= vs);
    }
    let mut total: usize = 0;
    let mut i: usize = 0;
    while i < es.len()
        invariant
            i <= es.len(),
            vs == exprs_view(es@),
            vs.len() == es@.len(),
            forall|j: int| 0 <= j < es@.len() ==> #[trigger] vs[j] == expr_view(es@[j]),
            exprs_esize(vs) <= usize::MAX,
            total + exprs_esize(vs.skip(i as int)) == exprs_esize(vs),
        decreases es.len() - i,
    {
        proof {
            assert(vs.skip(i as int).len() != 0);
            assert(vs.skip(i as int)[0] == vs[i as int]);
            assert(vs.skip(i as int).drop_first() =~= vs.skip(i as int + 1));
            assert(exprs_esize(vs.skip(i as int)) == esize(vs[i as int]) + exprs_esize(
                vs.skip(i as int + 1),
            ));
        }
        let c = es[i].count();
        total = total + c;
        i = i + 1;
    }
    proof {
        assert(vs.skip(es@.len() as int) =~= Seq::<ExprV>::empty());
    }
    total
}

/// Copy a syntax tree.
pub fn clone_expr(e: &Expr) -> (r: Expr)
    ensures
        r@ == e@,
    decreases *e,
{
    match e {
        Expr::ID(s) => Expr::ID(s.clone()),
        Expr::Int(v) => Expr::Int(*v),
        Expr::Float(n) => Expr::Float(*n),
        Expr::Continue => Expr::Continue,
        Expr::BinaryOperation { left, right, op } => Expr::BinaryOperation {
            left: Box::new(clone_expr(left)),
            right: Box::new(clone_expr(right)),
            op: clone_token(op),
        },
        Expr::UnaryOperation { expr, op } => Expr::UnaryOperation {
            expr: Box::new(clone_expr(expr)),
            op: clone_token(op),
        },
        Expr::UnaryOperationRight { expr, op } => Expr::UnaryOperationRight {
            expr: Box::new(clone_expr(expr)),
            op: clone_token(op),
        },
        Expr::Vector(es) => Expr::Vector(clone_exprs(es)),
        Expr::SetLit(es) => Expr::SetLit(clone_exprs(es)),
        Expr::Absolute(inner) => Expr::Absolute(Box::new(clone_expr(inner))),
    }
}

/// Copy a vector of syntax trees.
fn clone_exprs(es: &Vec<Expr>) -> (r: Vec<Expr>)
    ensures
        exprs_view(r@) == exprs_view(es@),
        r@.len() == es@.len(),
    decreases *es,
{
    proof {
        lemma_exprs_view(es@);
    }
    let mut out: Vec<Expr> = Vec::new();
    let mut i: usize = 0;
    while i < es.len()
        invariant
            i <= es.len(),
            out@.len() == i,
            forall|j: int| 0 <= j < i ==> #[trigger] expr_view(out@[j]) == expr_view(es@[j]),
        decreases es.len() - i,
    {
        let c = clone_expr(&es[i]);
        out.push(c);
        i = i + 1;
    }
    proof {
        lemma_exprs_view(out@);
        assert(exprs_view(out@) =~= exprs_view(es@));
    }
    out
}

} // verus!
