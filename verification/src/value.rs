//! The runtime value domain: numbers and two homogeneous container
//! kinds, their structural type, value equality, and the arithmetic
//! defined over them including broadcasting over containers.
use crate::eval::EvalError;
use crate::eval::EvalErrorV;
use crate::expr::ExprV;
use crate::expr::Expr;
use crate::expr::pure_lit;
use crate::expr::pure_lits;
use crate::number::Number;
use crate::number::num_abs;
use crate::number::num_add;
use crate::number::num_div;
use crate::number::num_eq;
use crate::number::num_mul;
use crate::number::num_neg;
use crate::number::num_percent;
use crate::number::num_pow;
use crate::number::num_sub;
use crate::number::num_valid;
use crate::number::spec_num_abs;
use crate::number::spec_num_add;
use crate::number::spec_num_div;
use crate::number::spec_num_eq;
use crate::number::spec_num_mul;
use crate::number::spec_num_neg;
use crate::number::spec_num_percent;
use crate::number::spec_num_pow;
use crate::number::spec_num_sub;
use crate::token::Token;
use crate::token::TokenV;
use crate::token::clone_token;
use vstd::prelude::*;

verus! {

broadcast use vstd::std_specs::vec::group_vec_axioms, vstd::seq::group_seq_axioms;

/// The structural type of a value.
#[derive(Debug)]
pub enum Type {
    Number,
    Vector(Box<Type>),
    SetOf(Box<Type>),
}

/// A runtime value. A vector is ordered; a set is kept as the sequence
/// of its distinct members in insertion order.
#[derive(Debug)]
pub enum Value {
    Number(Number),
    Vector(Vec<Value>, Type),
    SetVal(Vec<Value>, Type),
}

/// The mathematical view of a value.
pub enum ValueV {
    Number(Number),
    Vector(Seq<ValueV>, Type),
    SetVal(Seq<ValueV>, Type),
}

/// The view of one value.
pub open spec fn value_view(v: Value) -> ValueV
    decreases v,
{
    match v {
        Value::Number(n) => ValueV::Number(n),
        Value::Vector(vs, t) => ValueV::Vector(vals_view(vs@), t),
        Value::SetVal(vs, t) => ValueV::SetVal(vals_view(vs@), t),
    }
}

/// The views of a sequence of values.
pub open spec fn vals_view(vs: Seq<Value>) -> Seq<ValueV>
    decreases vs,
{
    if vs.len() == 0 {
        Seq::empty()
    } else {
        seq![value_view(vs[0])] + vals_view(vs.drop_first())
    }
}

impl View for Value {
    type V = ValueV;

    open spec fn view(&self) -> ValueV {
        value_view(*self)
    }
}

/// `vals_view` maps the sequence pointwise.
pub proof fn lemma_vals_view(vs: Seq<Value>)
    ensures
        vals_view(vs).len() == vs.len(),
        forall|i: int| 0 <= i < vs.len() ==> #[trigger] vals_view(vs)[i] == value_view(vs[i]),
    decreases vs,
{
    if vs.len() > 0 {
        lemma_vals_view(vs.drop_first());
    }
}

/// The number of nodes of a value tree.
pub open spec fn vsize(v: ValueV) -> nat
    decreases v,
{
    match v {
        ValueV::Number(_) => 1,
        ValueV::Vector(vs, t) => 1 + vssize(vs),
        ValueV::SetVal(vs, t) => 1 + vssize(vs),
    }
}

/// The node count of each value of a sequence, summed.
pub open spec fn vssize(vs: Seq<ValueV>) -> nat
    decreases vs,
{
    if vs.len() == 0 {
        0
    } else {
        vsize(vs[0]) + vssize(vs.drop_first())
    }
}

/// Every element counts no more than the whole sequence.
pub proof fn lemma_vsize_elem_bound(vs: Seq<ValueV>, i: int)
    requires
        0 <= i < vs.len(),
    ensures
        vsize(vs[i]) <= vssize(vs),
    decreases vs,
{
    if i > 0 {
        lemma_vsize_elem_bound(vs.drop_first(), i - 1);
        assert(vs.drop_first()[i - 1] == vs[i]);
    }
}

/// The structural type of a value.
pub open spec fn val_typ(v: ValueV) -> Type {
    match v {
        ValueV::Number(_) => Type::Number,
        ValueV::Vector(vs, t) => Type::Vector(Box::new(t)),
        ValueV::SetVal(vs, t) => Type::SetOf(Box::new(t)),
    }
}

/// Numbers inside a value are meaningful (no zero denominator).
pub open spec fn val_valid(v: ValueV) -> bool
    decreases v,
{
    match v {
        ValueV::Number(n) => num_valid(n),
        ValueV::Vector(vs, t) => vals_valid(vs),
        ValueV::SetVal(vs, t) => vals_valid(vs),
    }
}

/// Validity of every value of a sequence.
pub open spec fn vals_valid(vs: Seq<ValueV>) -> bool
    decreases vs,
{
    if vs.len() == 0 {
        true
    } else {
        val_valid(vs[0]) && vals_valid(vs.drop_first())
    }
}

/// Every element of a valid sequence is valid.
pub proof fn lemma_vals_valid_elem(vs: Seq<ValueV>, i: int)
    requires
        vals_valid(vs),
        0 <= i < vs.len(),
    ensures
        val_valid(vs[i]),
    decreases vs,
{
    if i > 0 {
        lemma_vals_valid_elem(vs.drop_first(), i - 1);
        assert(vs.drop_first()[i - 1] == vs[i]);
    }
}

/// Value equality: cross multiplication on numbers, pointwise on
/// vectors, mutual membership on sets.
pub open spec fn val_eq(a: ValueV, b: ValueV) -> bool
    decreases vsize(a) + vsize(b), 0nat,
{
    match (a, b) {
        (ValueV::Number(x), ValueV::Number(y)) => spec_num_eq(x, y),
        (ValueV::Vector(xs, tx), ValueV::Vector(ys, ty)) => vals_eq_pointwise(xs, ys),
        (ValueV::SetVal(xs, tx), ValueV::SetVal(ys, ty)) => subset_of(xs, ys) && subset_of(ys, xs),
        _ => false,
    }
}

/// Pointwise value equality of two sequences.
pub open spec fn vals_eq_pointwise(xs: Seq<ValueV>, ys: Seq<ValueV>) -> bool
    decreases vssize(xs) + vssize(ys), 1nat,
    via vals_eq_pointwise_decreases
{
    if xs.len() != ys.len() {
        false
    } else if xs.len() == 0 {
        true
    } else {
        val_eq(xs[0], ys[0]) && vals_eq_pointwise(xs.drop_first(), ys.drop_first())
    }
}

#[via_fn]
proof fn vals_eq_pointwise_decreases(xs: Seq<ValueV>, ys: Seq<ValueV>) {
    if xs.len() == ys.len() && xs.len() > 0 {
        lemma_vsize_pos(xs[0]);
        lemma_vsize_pos(ys[0]);
    }
}

/// Every value tree has at least one node.
pub proof fn lemma_vsize_pos(v: ValueV)
    ensures
        vsize(v) >= 1,
{
    match v {
        ValueV::Number(_) => {},
        ValueV::Vector(vs, t) => {},
        ValueV::SetVal(vs, t) => {},
    }
}

/// Whether some member of `ys` is value-equal to `x`.
pub open spec fn val_in_seq(x: ValueV, ys: Seq<ValueV>) -> bool
    decreases vsize(x) + vssize(ys), 1nat,
    via val_in_seq_decreases
{
    if ys.len() == 0 {
        false
    } else {
        val_eq(x, ys[0]) || val_in_seq(x, ys.drop_first())
    }
}

#[via_fn]
proof fn val_in_seq_decreases(x: ValueV, ys: Seq<ValueV>) {
    if ys.len() > 0 {
        lemma_vsize_pos(ys[0]);
    }
}

/// Whether every member of `xs` has a value-equal member in `ys`.
pub open spec fn subset_of(xs: Seq<ValueV>, ys: Seq<ValueV>) -> bool
    decreases vssize(xs) + vssize(ys), 2nat,
    via subset_of_decreases
{
    if xs.len() == 0 {
        true
    } else {
        val_in_seq(xs[0], ys) && subset_of(xs.drop_first(), ys)
    }
}

#[via_fn]
proof fn subset_of_decreases(xs: Seq<ValueV>, ys: Seq<ValueV>) {
    if xs.len() > 0 {
        lemma_vsize_pos(xs[0]);
    }
}

/// Keep the first occurrence of each value, dropping later value-equal
/// duplicates; `acc` holds what is already kept.
pub open spec fn dedup_acc(s: Seq<ValueV>, acc: Seq<ValueV>) -> Seq<ValueV>
    decreases s,
{
    if s.len() == 0 {
        acc
    } else {
        dedup_acc(
            s.drop_first(),
            if val_in_seq(s[0], acc) {
                acc
            } else {
                acc.push(s[0])
            },
        )
    }
}

/// The distinct members of `s`, first occurrences first.
pub open spec fn dedup_vals(s: Seq<ValueV>) -> Seq<ValueV> {
    dedup_acc(s, Seq::empty())
}

/// Copy a type.
pub fn clone_type(t: &Type) -> (r: Type)
    ensures
        r == *t,
    decreases *t,
{
    match t {
        Type::Number => Type::Number,
        Type::Vector(inner) => Type::Vector(Box::new(clone_type(inner))),
        Type::SetOf(inner) => Type::SetOf(Box::new(clone_type(inner))),
    }
}

/// Whether two types are the same type.
pub fn type_eq(a: &Type, b: &Type) -> (r: bool)
    ensures
        r == (*a == *b),
    decreases *a,
{
    match (a, b) {
        (Type::Number, Type::Number) => true,
        (Type::Vector(x), Type::Vector(y)) => type_eq(x, y),
        (Type::SetOf(x), Type::SetOf(y)) => type_eq(x, y),
        _ => false,
    }
}

/// Whether two values are equal as values.
pub fn value_eq(a: &Value, b: &Value) -> (r: bool)
    requires
        val_valid(a@),
        val_valid(b@),
    ensures
        r == val_eq(a@, b@),
    decreases vsize(a@) + vsize(b@), 0nat,
{
    match (a, b) {
        (Value::Number(x), Value::Number(y)) => num_eq(*x, *y),
        (Value::Vector(xs, tx), Value::Vector(ys, ty)) => {
            proof {
                lemma_vals_view(xs@);
                lemma_vals_view(ys@);
            }
            let ghost xv = vals_view(xs@);
            let ghost yv = vals_view(ys@);
            proof {
                assert(a@ == ValueV::Vector(xv, *tx));
                assert(b@ == ValueV::Vector(yv, *ty));
            }
            if xs.len() != ys.len() {
                proof {
                    assert(!vals_eq_pointwise(xv, yv));
                }
                return false;
            }
            let mut i: usize = 0;
            let mut ok = true;
            proof {
                assert(xv.skip(0) =~= xv);
                assert(yv.skip(0) =~= yv);
            }
            while i < xs.len()
                invariant
                    i <= xs.len(),
                    xs@.len() == ys@.len(),
                    xv == vals_view(xs@),
                    yv == vals_view(ys@),
                    xv.len() == xs@.len(),
                    yv.len() == ys@.len(),
                    vsize(a@) == 1 + vssize(xv),
                    vsize(b@) == 1 + vssize(yv),
                    forall|j: int| 0 <= j < xs@.len() ==> #[trigger] xv[j] == value_view(xs@[j]),
                    forall|j: int| 0 <= j < ys@.len() ==> #[trigger] yv[j] == value_view(ys@[j]),
                    vals_valid(xv),
                    vals_valid(yv),
                    vals_eq_pointwise(xv, yv) == (ok && vals_eq_pointwise(
                        xv.skip(i as int),
                        yv.skip(i as int),
                    )),
                decreases xs.len() - i,
            {
                proof {
                    assert(xv.skip(i as int)[0] == xv[i as int]);
                    assert(yv.skip(i as int)[0] == yv[i as int]);
                    assert(xv.skip(i as int).drop_first() =~= xv.skip(i as int + 1));
                    assert(yv.skip(i as int).drop_first() =~= yv.skip(i as int + 1));
                    lemma_vals_valid_elem(xv, i as int);
                    lemma_vals_valid_elem(yv, i as int);
                    lemma_vsize_elem_bound(xv, i as int);
                    lemma_vsize_elem_bound(yv, i as int);
                }
                let e = value_eq(&xs[i], &ys[i]);
                ok = ok && e;
                i = i + 1;
            }
            proof {
                assert(xv.skip(xs@.len() as int) =~= Seq::<ValueV>::empty());
                assert(yv.skip(ys@.len() as int) =~= Seq::<ValueV>::empty());
            }
            ok
        },
        (Value::SetVal(xs, tx), Value::SetVal(ys, ty)) => {
            proof {
                assert(a@ == ValueV::SetVal(vals_view(xs@), *tx));
                assert(b@ == ValueV::SetVal(vals_view(ys@), *ty));
            }
            let f = vals_subset(xs, ys);
            let g = vals_subset(ys, xs);
            f && g
        },
        _ => false,
    }
}

/// Whether every member of `xs` has a value-equal member in `ys`.
fn vals_subset(xs: &Vec<Value>, ys: &Vec<Value>) -> (r: bool)
    requires
        vals_valid(vals_view(xs@)),
        vals_valid(vals_view(ys@)),
    ensures
        r == subset_of(vals_view(xs@), vals_view(ys@)),
    decreases vssize(vals_view(xs@)) + vssize(vals_view(ys@)), 2nat,
{
    proof {
        lemma_vals_view(xs@);
        lemma_vals_view(ys@);
    }
    let ghost xv = vals_view(xs@);
    let ghost yv = vals_view(ys@);
    let mut i: usize = 0;
    let mut ok = true;
    proof {
        assert(xv.skip(0) =~= xv);
    }
    while i < xs.len()
        invariant
            i <= xs.len(),
            xv == vals_view(xs@),
            yv == vals_view(ys@),
            xv.len() == xs@.len(),
            yv.len() == ys@.len(),
            forall|j: int| 0 <= j < xs@.len() ==> #[trigger] xv[j] == value_view(xs@[j]),
            forall|j: int| 0 <= j < ys@.len() ==> #[trigger] yv[j] == value_view(ys@[j]),
            vals_valid(xv),
            vals_valid(yv),
            subset_of(xv, yv) == (ok && subset_of(xv.skip(i as int), yv)),
        decreases xs.len() - i,
    {
        proof {
            assert(xv.skip(i as int)[0] == xv[i as int]);
            assert(xv.skip(i as int).drop_first() =~= xv.skip(i as int + 1));
            lemma_vals_valid_elem(xv, i as int);
            lemma_vsize_elem_bound(xv, i as int);
        }
        let m = val_member(&xs[i], ys);
        ok = ok && m;
        i = i + 1;
    }
    proof {
        assert(xv.skip(xs@.len() as int) =~= Seq::<ValueV>::empty());
    }
    ok
}

/// Whether some member of `ys` is value-equal to `x`.
fn val_member(x: &Value, ys: &Vec<Value>) -> (r: bool)
    requires
        val_valid(x@),
        vals_valid(vals_view(ys@)),
    ensures
        r == val_in_seq(x@, vals_view(ys@)),
    decreases vsize(x@) + vssize(vals_view(ys@)), 1nat,
{
    proof {
        lemma_vals_view(ys@);
    }
    let ghost yv = vals_view(ys@);
    let mut j: usize = 0;
    let mut found = false;
    proof {
        assert(yv.skip(0) =~= yv);
    }
    while j < ys.len()
        invariant
            j <= ys.len(),
            yv == vals_view(ys@),
            yv.len() == ys@.len(),
            forall|k: int| 0 <= k < ys@.len() ==> #[trigger] yv[k] == value_view(ys@[k]),
            val_valid(x@),
            vals_valid(yv),
            val_in_seq(x@, yv) == (found || val_in_seq(x@, yv.skip(j as int))),
        decreases ys.len() - j,
    {
        proof {
            assert(yv.skip(j as int)[0] == yv[j as int]);
            assert(yv.skip(j as int).drop_first() =~= yv.skip(j as int + 1));
            lemma_vals_valid_elem(yv, j as int);
            lemma_vsize_elem_bound(yv, j as int);
        }
        let e = value_eq(x, &ys[j]);
        found = found || e;
        j = j + 1;
    }
    proof {
        assert(yv.skip(ys@.len() as int) =~= Seq::<ValueV>::empty());
    }
    found
}

/// A numeric operation result, as a value or a range error.
pub open spec fn num_result(o: Option<Number>) -> Result<ValueV, EvalErrorV> {
    match o {
        Some(n) => Ok(ValueV::Number(n)),
        None => Err(EvalErrorV::OutOfRange),
    }
}

/// The binary operator contract over values: arithmetic between two
/// numbers, broadcasting when either operand is a vector (the vector's
/// elements stand on the left of each recursive application), an error
/// for every other pairing.
pub open spec fn spec_val_binary(a: ValueV, b: ValueV, op: TokenV) -> Result<ValueV, EvalErrorV>
    decreases vsize(a) + vsize(b), 0nat,
{
    match (a, b) {
        (ValueV::Number(x), ValueV::Number(y)) => match op {
            TokenV::Add => num_result(spec_num_add(x, y)),
            TokenV::Sub => num_result(spec_num_sub(x, y)),
            TokenV::Mult => num_result(spec_num_mul(x, y)),
            TokenV::Div => num_result(spec_num_div(x, y)),
            TokenV::Power => num_result(spec_num_pow(x, y)),
            _ => Err(EvalErrorV::IllegalBinaryOp { op }),
        },
        (ValueV::Vector(vs, t), _) => match vals_binary_map(vs, b, op) {
            Ok(rs) => Ok(ValueV::Vector(rs, t)),
            Err(e) => Err(e),
        },
        (_, ValueV::Vector(ws, t)) => match vals_binary_map(ws, a, op) {
            Ok(rs) => Ok(ValueV::Vector(rs, t)),
            Err(e) => Err(e),
        },
        _ => Err(
            EvalErrorV::BinaryTypeError { op, left: val_typ(a), right: val_typ(b) },
        ),
    }
}

/// Apply the binary operator between every element of `vs` (on the left)
/// and `other` (on the right), stopping at the first error.
pub open spec fn vals_binary_map(vs: Seq<ValueV>, other: ValueV, op: TokenV) -> Result<
    Seq<ValueV>,
    EvalErrorV,
>
    decreases vssize(vs) + vsize(other), 1nat,
    via vals_binary_map_decreases
{
    if vs.len() == 0 {
        Ok(Seq::empty())
    } else {
        match spec_val_binary(vs[0], other, op) {
            Err(e) => Err(e),
            Ok(rv) => match vals_binary_map(vs.drop_first(), other, op) {
                Err(e) => Err(e),
                Ok(rest) => Ok(seq![rv] + rest),
            },
        }
    }
}

#[via_fn]
proof fn vals_binary_map_decreases(vs: Seq<ValueV>, other: ValueV, op: TokenV) {
    if vs.len() > 0 {
        lemma_vsize_pos(vs[0]);
    }
}

/// The unary operator contract over values: negation and percent on a
/// number, elementwise application over a vector, elementwise application
/// with re-deduplication over a set.
pub open spec fn spec_val_unary(a: ValueV, op: TokenV) -> Result<ValueV, EvalErrorV>
    decreases vsize(a), 0nat,
{
    match a {
        ValueV::Number(x) => match op {
            TokenV::Sub => num_result(spec_num_neg(x)),
            TokenV::Percent => num_result(spec_num_percent(x)),
            _ => Err(EvalErrorV::IllegalUnaryOp { op }),
        },
        ValueV::Vector(vs, t) => match vals_unary_map(vs, op) {
            Ok(rs) => Ok(ValueV::Vector(rs, t)),
            Err(e) => Err(e),
        },
        ValueV::SetVal(vs, t) => match vals_unary_map(vs, op) {
            Ok(rs) => Ok(ValueV::SetVal(dedup_vals(rs), t)),
            Err(e) => Err(e),
        },
    }
}

/// Apply the unary operator to every element, stopping at the first error.
pub open spec fn vals_unary_map(vs: Seq<ValueV>, op: TokenV) -> Result<Seq<ValueV>, EvalErrorV>
    decreases vssize(vs), 1nat,
    via vals_unary_map_decreases
{
    if vs.len() == 0 {
        Ok(Seq::empty())
    } else {
        match spec_val_unary(vs[0], op) {
            Err(e) => Err(e),
            Ok(rv) => match vals_unary_map(vs.drop_first(), op) {
                Err(e) => Err(e),
                Ok(rest) => Ok(seq![rv] + rest),
            },
        }
    }
}

#[via_fn]
proof fn vals_unary_map_decreases(vs: Seq<ValueV>, op: TokenV) {
    if vs.len() > 0 {
        lemma_vsize_pos(vs[0]);
    }
}

/// The absolute value of a value: magnitude of a number, elementwise over
/// a vector, elementwise with re-deduplication over a set.
pub open spec fn spec_val_abs(a: ValueV) -> Result<ValueV, EvalErrorV>
    decreases vsize(a), 0nat,
{
    match a {
        ValueV::Number(x) => num_result(spec_num_abs(x)),
        ValueV::Vector(vs, t) => match vals_abs_map(vs) {
            Ok(rs) => Ok(ValueV::Vector(rs, t)),
            Err(e) => Err(e),
        },
        ValueV::SetVal(vs, t) => match vals_abs_map(vs) {
            Ok(rs) => Ok(ValueV::SetVal(dedup_vals(rs), t)),
            Err(e) => Err(e),
        },
    }
}

/// The absolute value of every element, stopping at the first error.
pub open spec fn vals_abs_map(vs: Seq<ValueV>) -> Result<Seq<ValueV>, EvalErrorV>
    decreases vssize(vs), 1nat,
    via vals_abs_map_decreases
{
    if vs.len() == 0 {
        Ok(Seq::empty())
    } else {
        match spec_val_abs(vs[0]) {
            Err(e) => Err(e),
            Ok(rv) => match vals_abs_map(vs.drop_first()) {
                Err(e) => Err(e),
                Ok(rest) => Ok(seq![rv] + rest),
            },
        }
    }
}

#[via_fn]
proof fn vals_abs_map_decreases(vs: Seq<ValueV>) {
    if vs.len() > 0 {
        lemma_vsize_pos(vs[0]);
    }
}

/// The literal expression a value converts back to: an integer literal
/// for a whole number in lowest terms, a number literal otherwise, and a
/// container literal of the elements' conversions.
pub open spec fn value_expr(v: ValueV) -> ExprV
    decreases v,
{
    match v {
        ValueV::Number(n) => match n {
            Number::Fin { num, den } => if den == 1 {
                ExprV::Int(num)
            } else {
                ExprV::Float(n)
            },
            _ => ExprV::Float(n),
        },
        ValueV::Vector(vs, t) => ExprV::Vector(values_exprs(vs)),
        ValueV::SetVal(vs, t) => ExprV::SetLit(values_exprs(vs)),
    }
}

/// The literal expressions of a sequence of values.
pub open spec fn values_exprs(vs: Seq<ValueV>) -> Seq<ExprV>
    decreases vs,
{
    if vs.len() == 0 {
        Seq::empty()
    } else {
        seq![value_expr(vs[0])] + values_exprs(vs.drop_first())
    }
}

/// A value's literal expression is a pure literal.
pub proof fn lemma_value_expr_pure(v: ValueV)
    ensures
        pure_lit(value_expr(v)),
    decreases v,
{
    match v {
        ValueV::Number(n) => {},
        ValueV::Vector(vs, t) => {
            lemma_values_exprs_pure(vs);
        },
        ValueV::SetVal(vs, t) => {
            lemma_values_exprs_pure(vs);
        },
    }
}

/// Literal expressions of values are pure literals.
pub proof fn lemma_values_exprs_pure(vs: Seq<ValueV>)
    ensures
        pure_lits(values_exprs(vs)),
        values_exprs(vs).len() == vs.len(),
    decreases vs,
{
    if vs.len() > 0 {
        lemma_value_expr_pure(vs[0]);
        lemma_values_exprs_pure(vs.drop_first());
        assert(values_exprs(vs)[0] == value_expr(vs[0]));
        assert(values_exprs(vs).drop_first() =~= values_exprs(vs.drop_first()));
    }
}

/// The view of a result holding a value or an error.
pub open spec fn val_res_view(r: Result<Value, EvalError>) -> Result<ValueV, EvalErrorV> {
    match r {
        Ok(v) => Ok(v@),
        Err(e) => Err(e@),
    }
}

/// Values valid after a push of a valid value.
pub proof fn lemma_vals_valid_push(s: Seq<ValueV>, x: ValueV)
    requires
        vals_valid(s),
        val_valid(x),
    ensures
        vals_valid(s.push(x)),
    decreases s,
{
    let t = s.push(x);
    assert(t.len() == s.len() + 1);
    if s.len() == 0 {
        assert(t[0] == x);
        assert(t.drop_first() =~= Seq::<ValueV>::empty());
        assert(vals_valid(Seq::<ValueV>::empty()));
        assert(vals_valid(t));
    } else {
        lemma_vals_valid_push(s.drop_first(), x);
        assert(t[0] == s[0]);
        assert(val_valid(s[0]));
        assert(t.drop_first() =~= s.drop_first().push(x));
        assert(vals_valid(t));
    }
}

/// Deduplication keeps validity.
pub proof fn lemma_dedup_acc_valid(s: Seq<ValueV>, acc: Seq<ValueV>)
    requires
        vals_valid(s),
        vals_valid(acc),
    ensures
        vals_valid(dedup_acc(s, acc)),
    decreases s,
{
    if s.len() > 0 {
        assert(val_valid(s[0]));
        if val_in_seq(s[0], acc) {
            lemma_dedup_acc_valid(s.drop_first(), acc);
        } else {
            lemma_vals_valid_push(acc, s[0]);
            lemma_dedup_acc_valid(s.drop_first(), acc.push(s[0]));
        }
    }
}

/// Every defined result of the binary contract on valid values is valid.
pub proof fn lemma_val_binary_valid(a: ValueV, b: ValueV, op: TokenV)
    requires
        val_valid(a),
        val_valid(b),
    ensures
        spec_val_binary(a, b, op) matches Ok(v) ==> val_valid(v),
    decreases vsize(a) + vsize(b), 0nat,
{
    match (a, b) {
        (ValueV::Number(x), ValueV::Number(y)) => {
            crate::number::lemma_num_ops_valid(x, y);
        },
        (ValueV::Vector(vs, t), _) => {
            lemma_vals_binary_map_valid(vs, b, op);
        },
        (_, ValueV::Vector(ws, t)) => {
            lemma_vals_binary_map_valid(ws, a, op);
        },
        _ => {},
    }
}

proof fn lemma_vals_binary_map_valid(vs: Seq<ValueV>, other: ValueV, op: TokenV)
    requires
        vals_valid(vs),
        val_valid(other),
    ensures
        vals_binary_map(vs, other, op) matches Ok(rs) ==> vals_valid(rs),
    decreases vssize(vs) + vsize(other), 1nat,
{
    if vs.len() > 0 {
        lemma_vsize_pos(vs[0]);
        assert(val_valid(vs[0]));
        lemma_val_binary_valid(vs[0], other, op);
        lemma_vals_binary_map_valid(vs.drop_first(), other, op);
        match vals_binary_map(vs, other, op) {
            Ok(rs) => {
                let rv = spec_val_binary(vs[0], other, op)->Ok_0;
                let rest = vals_binary_map(vs.drop_first(), other, op)->Ok_0;
                assert(rs == seq![rv] + rest);
                assert(rs[0] == rv);
                assert(rs.drop_first() =~= rest);
            },
            _ => {},
        }
    }
}

/// Every defined result of the unary contract on valid values is valid,
/// and so is every defined absolute value.
pub proof fn lemma_val_unary_valid(a: ValueV, op: TokenV)
    requires
        val_valid(a),
    ensures
        spec_val_unary(a, op) matches Ok(v) ==> val_valid(v),
        spec_val_abs(a) matches Ok(v) ==> val_valid(v),
    decreases vsize(a), 0nat,
{
    match a {
        ValueV::Number(x) => {
            crate::number::lemma_num_ops_valid(x, x);
        },
        ValueV::Vector(vs, t) => {
            lemma_vals_unary_map_valid(vs, op);
        },
        ValueV::SetVal(vs, t) => {
            lemma_vals_unary_map_valid(vs, op);
            match vals_unary_map(vs, op) {
                Ok(rs) => {
                    lemma_dedup_acc_valid(rs, Seq::empty());
                },
                _ => {},
            }
            match vals_abs_map(vs) {
                Ok(rs) => {
                    lemma_dedup_acc_valid(rs, Seq::empty());
                },
                _ => {},
            }
        },
    }
}

proof fn lemma_vals_unary_map_valid(vs: Seq<ValueV>, op: TokenV)
    requires
        vals_valid(vs),
    ensures
        vals_unary_map(vs, op) matches Ok(rs) ==> vals_valid(rs),
        vals_abs_map(vs) matches Ok(rs) ==> vals_valid(rs),
    decreases vssize(vs), 1nat,
{
    if vs.len() > 0 {
        lemma_vsize_pos(vs[0]);
        assert(val_valid(vs[0]));
        lemma_val_unary_valid(vs[0], op);
        lemma_vals_unary_map_valid(vs.drop_first(), op);
        match vals_unary_map(vs, op) {
            Ok(rs) => {
                let rv = spec_val_unary(vs[0], op)->Ok_0;
                let rest = vals_unary_map(vs.drop_first(), op)->Ok_0;
                assert(rs == seq![rv] + rest);
                assert(rs[0] == rv);
                assert(rs.drop_first() =~= rest);
            },
            _ => {},
        }
        match vals_abs_map(vs) {
            Ok(rs) => {
                let rv = spec_val_abs(vs[0])->Ok_0;
                let rest = vals_abs_map(vs.drop_first())->Ok_0;
                assert(rs == seq![rv] + rest);
                assert(rs[0] == rv);
                assert(rs.drop_first() =~= rest);
            },
            _ => {},
        }
    }
}

/// A valid value's literal expression is a valid expression.
pub proof fn lemma_value_expr_valid(v: ValueV)
    requires
        val_valid(v),
    ensures
        crate::expr::expr_valid(value_expr(v)),
    decreases v,
{
    match v {
        ValueV::Number(n) => {},
        ValueV::Vector(vs, t) => {
            lemma_values_exprs_valid(vs);
        },
        ValueV::SetVal(vs, t) => {
            lemma_values_exprs_valid(vs);
        },
    }
}

proof fn lemma_values_exprs_valid(vs: Seq<ValueV>)
    requires
        vals_valid(vs),
    ensures
        crate::expr::exprs_valid(values_exprs(vs)),
    decreases vs,
{
    if vs.len() > 0 {
        lemma_value_expr_valid(vs[0]);
        lemma_values_exprs_valid(vs.drop_first());
        assert(values_exprs(vs)[0] == value_expr(vs[0]));
        assert(values_exprs(vs).drop_first() =~= values_exprs(vs.drop_first()));
    }
}

/// `values_exprs` maps the sequence pointwise.
pub proof fn lemma_values_exprs(vs: Seq<ValueV>)
    ensures
        values_exprs(vs).len() == vs.len(),
        forall|i: int| 0 <= i < vs.len() ==> #[trigger] values_exprs(vs)[i] == value_expr(vs[i]),
    decreases vs,
{
    if vs.len() > 0 {
        lemma_values_exprs(vs.drop_first());
    }
}

/// Copy a value.
pub fn clone_value(v: &Value) -> (r: Value)
    ensures
        r@ == v@,
    decreases *v,
{
    match v {
        Value::Number(n) => Value::Number(*n),
        Value::Vector(vs, t) => Value::Vector(clone_values(vs), clone_type(t)),
        Value::SetVal(vs, t) => Value::SetVal(clone_values(vs), clone_type(t)),
    }
}

/// Copy a vector of values.
fn clone_values(vs: &Vec<Value>) -> (r: Vec<Value>)
    ensures
        vals_view(r@) == vals_view(vs@),
        r@.len() == vs@.len(),
    decreases *vs,
{
    proof {
        lemma_vals_view(vs@);
    }
    let mut out: Vec<Value> = Vec::new();
    let mut i: usize = 0;
    while i < vs.len()
        invariant
            i <= vs.len(),
            out@.len() == i,
            forall|j: int| 0 <= j < i ==> #[trigger] value_view(out@[j]) == value_view(vs@[j]),
        decreases vs.len() - i,
    {
        let c = clone_value(&vs[i]);
        out.push(c);
        i = i + 1;
    }
    proof {
        lemma_vals_view(out@);
        assert(vals_view(out@) =~= vals_view(vs@));
    }
    out
}

impl Value {
    /// The structural type of this value.
    pub fn typ(&self) -> (r: Type)
        ensures
            r == val_typ(self@),
    {
        match self {
            Value::Number(_) => Type::Number,
            Value::Vector(_, t) => Type::Vector(Box::new(clone_type(t))),
            Value::SetVal(_, t) => Type::SetOf(Box::new(clone_type(t))),
        }
    }

    /// The literal expression this value converts back to.
    pub fn expr(&self) -> (r: Expr)
        ensures
            r@ == value_expr(self@),
        decreases *self,
    {
        match self {
            Value::Number(n) => match n {
                Number::Fin { num, den } => if *den == 1 {
                    Expr::Int(*num)
                } else {
                    Expr::Float(*n)
                },
                _ => Expr::Float(*n),
            },
            Value::Vector(vs, t) => Expr::Vector(exprs_of_values(vs)),
            Value::SetVal(vs, t) => Expr::SetLit(exprs_of_values(vs)),
        }
    }

    /// Apply a binary operator between this value and another.
    pub fn binary(&self, other: &Self, op: &Token) -> (r: Result<Value, EvalError>)
        requires
            val_valid(self@),
            val_valid(other@),
        ensures
            val_res_view(r) == spec_val_binary(self@, other@, op@),
        decreases vsize(self@) + vsize(other@), 0nat,
    {
        match (self, other) {
            (Value::Number(x), Value::Number(y)) => {
                let o = match op {
                    Token::Add => num_add(*x, *y),
                    Token::Sub => num_sub(*x, *y),
                    Token::Mult => num_mul(*x, *y),
                    Token::Div => num_div(*x, *y),
                    Token::Power => num_pow(*x, *y),
                    _ => {
                        return Err(EvalError::IllegalBinaryOp { op: clone_token(op) });
                    },
                };
                match o {
                    Some(n) => Ok(Value::Number(n)),
                    None => Err(EvalError::OutOfRange),
                }
            },
            (Value::Vector(vs, t), _) => {
                proof {
                    assert(self@ == ValueV::Vector(vals_view(vs@), *t));
                }
                match broadcast_left(vs, other, op) {
                    Ok(rs) => Ok(Value::Vector(rs, clone_type(t))),
                    Err(e) => Err(e),
                }
            },
            (_, Value::Vector(ws, t)) => {
                proof {
                    assert(other@ == ValueV::Vector(vals_view(ws@), *t));
                }
                match broadcast_left(ws, self, op) {
                    Ok(rs) => Ok(Value::Vector(rs, clone_type(t))),
                    Err(e) => Err(e),
                }
            },
            _ => Err(
                EvalError::BinaryTypeError {
                    op: clone_token(op),
                    left: self.typ(),
                    right: other.typ(),
                },
            ),
        }
    }

    /// Apply a unary operator to this value.
    pub fn unary(&self, op: &Token) -> (r: Result<Value, EvalError>)
        requires
            val_valid(self@),
        ensures
            val_res_view(r) == spec_val_unary(self@, op@),
        decreases vsize(self@), 0nat,
    {
        match self {
            Value::Number(x) => {
                let o = match op {
                    Token::Sub => num_neg(*x),
                    Token::Percent => num_percent(*x),
                    _ => {
                        return Err(EvalError::IllegalUnaryOp { op: clone_token(op) });
                    },
                };
                match o {
                    Some(n) => Ok(Value::Number(n)),
                    None => Err(EvalError::OutOfRange),
                }
            },
            Value::Vector(vs, t) => {
                proof {
                    assert(self@ == ValueV::Vector(vals_view(vs@), *t));
                }
                match unary_all(vs, op) {
                    Ok(rs) => Ok(Value::Vector(rs, clone_type(t))),
                    Err(e) => Err(e),
                }
            },
            Value::SetVal(vs, t) => {
                proof {
                    assert(self@ == ValueV::SetVal(vals_view(vs@), *t));
                }
                match unary_all(vs, op) {
                    Ok(rs) => {
                        proof {
                            lemma_vals_unary_map_valid(vals_view(vs@), op@);
                        }
                        Ok(Value::SetVal(dedup_values(rs), clone_type(t)))
                    },
                    Err(e) => Err(e),
                }
            },
        }
    }

    /// The absolute value of this value.
    pub fn abs(&self) -> (r: Result<Value, EvalError>)
        requires
            val_valid(self@),
        ensures
            val_res_view(r) == spec_val_abs(self@),
        decreases vsize(self@), 0nat,
    {
        match self {
            Value::Number(x) => match num_abs(*x) {
                Some(n) => Ok(Value::Number(n)),
                None => Err(EvalError::OutOfRange),
            },
            Value::Vector(vs, t) => {
                proof {
                    assert(self@ == ValueV::Vector(vals_view(vs@), *t));
                }
                match abs_all(vs) {
                    Ok(rs) => Ok(Value::Vector(rs, clone_type(t))),
                    Err(e) => Err(e),
                }
            },
            Value::SetVal(vs, t) => {
                proof {
                    assert(self@ == ValueV::SetVal(vals_view(vs@), *t));
                }
                match abs_all(vs) {
                    Ok(rs) => {
                        proof {
                            lemma_vals_unary_map_valid(vals_view(vs@), TokenV::Sub);
                        }
                        Ok(Value::SetVal(dedup_values(rs), clone_type(t)))
                    },
                    Err(e) => Err(e),
                }
            },
        }
    }
}

/// The literal expressions of every value in a vector.
fn exprs_of_values(vs: &Vec<Value>) -> (r: Vec<Expr>)
    ensures
        crate::expr::exprs_view(r@) == values_exprs(vals_view(vs@)),
    decreases *vs,
{
    proof {
        lemma_vals_view(vs@);
        lemma_values_exprs(vals_view(vs@));
    }
    let mut out: Vec<Expr> = Vec::new();
    let mut i: usize = 0;
    while i < vs.len()
        invariant
            i <= vs.len(),
            out@.len() == i,
            forall|j: int| 0 <= j < vs@.len() ==> #[trigger] vals_view(vs@)[j] == value_view(
                vs@[j],
            ),
            forall|j: int|
                0 <= j < i ==> #[trigger] crate::expr::expr_view(out@[j]) == value_expr(
                    vals_view(vs@)[j],
                ),
        decreases vs.len() - i,
    {
        let e = vs[i].expr();
        out.push(e);
        i = i + 1;
    }
    proof {
        crate::expr::lemma_exprs_view(out@);
        lemma_values_exprs(vals_view(vs@));
        assert(crate::expr::exprs_view(out@) =~= values_exprs(vals_view(vs@)));
    }
    out
}

/// Apply the binary operator between every element (left) and `other`.
fn broadcast_left(vs: &Vec<Value>, other: &Value, op: &Token) -> (r: Result<Vec<Value>, EvalError>)
    requires
        vals_valid(vals_view(vs@)),
        val_valid(other@),
    ensures
        match r {
            Ok(rs) => vals_binary_map(vals_view(vs@), other@, op@) == Ok::<_, EvalErrorV>(
                vals_view(rs@),
            ),
            Err(e) => vals_binary_map(vals_view(vs@), other@, op@) == Err::<Seq<ValueV>, _>(e@),
        },
    decreases vssize(vals_view(vs@)) + vsize(other@), 1nat,
{
    proof {
        lemma_vals_view(vs@);
    }
    let ghost vv = vals_view(vs@);
    let mut out: Vec<Value> = Vec::new();
    let mut i: usize = 0;
    proof {
        assert(vv.skip(0) =~= vv);
    }
    while i < vs.len()
        invariant
            i <= vs.len(),
            vv == vals_view(vs@),
            vv.len() == vs@.len(),
            forall|j: int| 0 <= j < vs@.len() ==> #[trigger] vv[j] == value_view(vs@[j]),
            vals_valid(vv),
            val_valid(other@),
            vals_binary_map(vv, other@, op@) == match vals_binary_map(
                vv.skip(i as int),
                other@,
                op@,
            ) {
                Ok(rest) => Ok::<_, EvalErrorV>(vals_view(out@) + rest),
                Err(e) => Err::<Seq<ValueV>, _>(e),
            },
        decreases vs.len() - i,
    {
        proof {
            assert(vv.skip(i as int)[0] == vv[i as int]);
            assert(vv.skip(i as int).drop_first() =~= vv.skip(i as int + 1));
            lemma_vals_valid_elem(vv, i as int);
            lemma_vsize_elem_bound(vv, i as int);
        }
        match vs[i].binary(other, op) {
            Ok(v) => {
                let ghost gv = v@;
                let ghost ovec = out@;
                let ghost old_out = vals_view(out@);
                out.push(v);
                proof {
                    lemma_vals_view(ovec);
                    lemma_vals_view(out@);
                    assert(vals_view(out@) =~= old_out.push(gv));
                    assert forall|rest: Seq<ValueV>| true implies (old_out.push(gv) + rest)
                        =~= (old_out + (seq![gv] + rest)) by {}
                }
            },
            Err(e) => {
                return Err(e);
            },
        }
        i = i + 1;
    }
    proof {
        assert(vv.skip(vs@.len() as int) =~= Seq::<ValueV>::empty());
        assert(vals_view(out@) + Seq::<ValueV>::empty() =~= vals_view(out@));
    }
    Ok(out)
}

/// Apply the unary operator to every element.
fn unary_all(vs: &Vec<Value>, op: &Token) -> (r: Result<Vec<Value>, EvalError>)
    requires
        vals_valid(vals_view(vs@)),
    ensures
        match r {
            Ok(rs) => vals_unary_map(vals_view(vs@), op@) == Ok::<_, EvalErrorV>(vals_view(rs@))
                && vals_valid(vals_view(rs@)),
            Err(e) => vals_unary_map(vals_view(vs@), op@) == Err::<Seq<ValueV>, _>(e@),
        },
    decreases vssize(vals_view(vs@)), 1nat,
{
    proof {
        lemma_vals_view(vs@);
    }
    let ghost vv = vals_view(vs@);
    let mut out: Vec<Value> = Vec::new();
    let mut i: usize = 0;
    proof {
        assert(vv.skip(0) =~= vv);
    }
    while i < vs.len()
        invariant
            i <= vs.len(),
            vv == vals_view(vs@),
            vv.len() == vs@.len(),
            forall|j: int| 0 <= j < vs@.len() ==> #[trigger] vv[j] == value_view(vs@[j]),
            vals_valid(vv),
            vals_valid(vals_view(out@)),
            vals_unary_map(vv, op@) == match vals_unary_map(vv.skip(i as int), op@) {
                Ok(rest) => Ok::<_, EvalErrorV>(vals_view(out@) + rest),
                Err(e) => Err::<Seq<ValueV>, _>(e),
            },
        decreases vs.len() - i,
    {
        proof {
            assert(vv.skip(i as int)[0] == vv[i as int]);
            assert(vv.skip(i as int).drop_first() =~= vv.skip(i as int + 1));
            lemma_vals_valid_elem(vv, i as int);
            lemma_vsize_elem_bound(vv, i as int);
        }
        match vs[i].unary(op) {
            Ok(v) => {
                let ghost gv = v@;
                let ghost ovec = out@;
                let ghost old_out = vals_view(out@);
                proof {
                    lemma_val_unary_valid(vv[i as int], op@);
                    lemma_vals_valid_push(old_out, gv);
                }
                out.push(v);
                proof {
                    lemma_vals_view(ovec);
                    lemma_vals_view(out@);
                    assert(vals_view(out@) =~= old_out.push(gv));
                    assert forall|rest: Seq<ValueV>| true implies (old_out.push(gv) + rest)
                        =~= (old_out + (seq![gv] + rest)) by {}
                }
            },
            Err(e) => {
                return Err(e);
            },
        }
        i = i + 1;
    }
    proof {
        assert(vv.skip(vs@.len() as int) =~= Seq::<ValueV>::empty());
        assert(vals_view(out@) + Seq::<ValueV>::empty() =~= vals_view(out@));
    }
    Ok(out)
}

/// The absolute value of every element.
fn abs_all(vs: &Vec<Value>) -> (r: Result<Vec<Value>, EvalError>)
    requires
        vals_valid(vals_view(vs@)),
    ensures
        match r {
            Ok(rs) => vals_abs_map(vals_view(vs@)) == Ok::<_, EvalErrorV>(vals_view(rs@))
                && vals_valid(vals_view(rs@)),
            Err(e) => vals_abs_map(vals_view(vs@)) == Err::<Seq<ValueV>, _>(e@),
        },
    decreases vssize(vals_view(vs@)), 1nat,
{
    proof {
        lemma_vals_view(vs@);
    }
    let ghost vv = vals_view(vs@);
    let mut out: Vec<Value> = Vec::new();
    let mut i: usize = 0;
    proof {
        assert(vv.skip(0) =~= vv);
    }
    while i < vs.len()
        invariant
            i <= vs.len(),
            vv == vals_view(vs@),
            vv.len() == vs@.len(),
            forall|j: int| 0 <= j < vs@.len() ==> #[trigger] vv[j] == value_view(vs@[j]),
            vals_valid(vv),
            vals_valid(vals_view(out@)),
            vals_abs_map(vv) == match vals_abs_map(vv.skip(i as int)) {
                Ok(rest) => Ok::<_, EvalErrorV>(vals_view(out@) + rest),
                Err(e) => Err::<Seq<ValueV>, _>(e),
            },
        decreases vs.len() - i,
    {
        proof {
            assert(vv.skip(i as int)[0] == vv[i as int]);
            assert(vv.skip(i as int).drop_first() =~= vv.skip(i as int + 1));
            lemma_vals_valid_elem(vv, i as int);
            lemma_vsize_elem_bound(vv, i as int);
        }
        match vs[i].abs() {
            Ok(v) => {
                let ghost gv = v@;
                let ghost ovec = out@;
                let ghost old_out = vals_view(out@);
                proof {
                    lemma_val_unary_valid(vv[i as int], TokenV::Sub);
                    lemma_vals_valid_push(old_out, gv);
                }
                out.push(v);
                proof {
                    lemma_vals_view(ovec);
                    lemma_vals_view(out@);
                    assert(vals_view(out@) =~= old_out.push(gv));
                    assert forall|rest: Seq<ValueV>| true implies (old_out.push(gv) + rest)
                        =~= (old_out + (seq![gv] + rest)) by {}
                }
            },
            Err(e) => {
                return Err(e);
            },
        }
        i = i + 1;
    }
    proof {
        assert(vv.skip(vs@.len() as int) =~= Seq::<ValueV>::empty());
        assert(vals_view(out@) + Seq::<ValueV>::empty() =~= vals_view(out@));
    }
    Ok(out)
}

/// Keep the first occurrence of each distinct value of `vs`.
pub fn dedup_values(vs: Vec<Value>) -> (r: Vec<Value>)
    requires
        vals_valid(vals_view(vs@)),
    ensures
        vals_view(r@) == dedup_vals(vals_view(vs@)),
        vals_valid(vals_view(r@)),
{
    proof {
        lemma_vals_view(vs@);
    }
    let ghost vv = vals_view(vs@);
    let mut out: Vec<Value> = Vec::new();
    let mut i: usize = 0;
    proof {
        assert(vv.skip(0) =~= vv);
    }
    while i < vs.len()
        invariant
            i <= vs.len(),
            vv == vals_view(vs@),
            vv.len() == vs@.len(),
            forall|j: int| 0 <= j < vs@.len() ==> #[trigger] vv[j] == value_view(vs@[j]),
            vals_valid(vv),
            vals_valid(vals_view(out@)),
            dedup_acc(vv.skip(i as int), vals_view(out@)) == dedup_vals(vv),
        decreases vs.len() - i,
    {
        proof {
            assert(vv.skip(i as int)[0] == vv[i as int]);
            assert(vv.skip(i as int).drop_first() =~= vv.skip(i as int + 1));
            lemma_vals_valid_elem(vv, i as int);
        }
        let m = val_member(&vs[i], &out);
        if !m {
            let c = clone_value(&vs[i]);
            let ghost gv = c@;
            let ghost ovec = out@;
            let ghost old_out = vals_view(out@);
            proof {
                lemma_vals_valid_push(old_out, gv);
            }
            out.push(c);
            proof {
                lemma_vals_view(ovec);
                lemma_vals_view(out@);
                assert(vals_view(out@) =~= old_out.push(gv));
                assert(gv == vv[i as int]);
            }
        }
        i = i + 1;
    }
    proof {
        assert(vv.skip(vs@.len() as int) =~= Seq::<ValueV>::empty());
    }
    out
}

} // verus!
