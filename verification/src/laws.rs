//! The general laws of the library, each proved over the same spec
//! functions the executable contracts use.
use crate::eval::EvalErrorV;
use crate::eval::ReturnV;
use crate::eval::eval_elems;
use crate::eval::eval_fuel;
use crate::eval::norm_lit;
use crate::eval::spec_eval;
use crate::expr::ExprV;
use crate::expr::msize;
use crate::number::Number;
use crate::number::lemma_norm_pair_identity;
use crate::number::num_valid;
use crate::number::num_wf;
use crate::value::Type;
use crate::value::ValueV;
use crate::value::dedup_acc;
use crate::value::dedup_vals;
use crate::value::lemma_value_expr_pure;
use crate::value::lemma_value_expr_valid;
use crate::value::lemma_values_exprs;
use crate::value::val_eq;
use crate::value::val_in_seq;
use crate::value::val_typ;
use crate::value::val_valid;
use crate::value::vals_valid;
use crate::value::value_expr;
use crate::value::values_exprs;
use vstd::prelude::*;

verus! {

broadcast use vstd::std_specs::vec::group_vec_axioms, vstd::seq::group_seq_axioms;

/// A value in canonical form: its numbers are in lowest terms, its
/// containers are nonempty and homogeneous at their declared element
/// type, and a set holds no two value-equal members.
pub open spec fn val_wf(v: ValueV) -> bool
    decreases v,
{
    match v {
        ValueV::Number(n) => num_wf(n),
        ValueV::Vector(vs, t) => vs.len() > 0 && vals_wf_typed(vs, t),
        ValueV::SetVal(vs, t) => vs.len() > 0 && vals_wf_typed(vs, t) && vals_distinct(vs),
    }
}

/// Every value of the sequence is canonical and of type `t`.
pub open spec fn vals_wf_typed(vs: Seq<ValueV>, t: Type) -> bool
    decreases vs,
{
    if vs.len() == 0 {
        true
    } else {
        val_wf(vs[0]) && val_typ(vs[0]) == t && vals_wf_typed(vs.drop_first(), t)
    }
}

/// No two members of the sequence are value-equal.
pub open spec fn vals_distinct(vs: Seq<ValueV>) -> bool {
    forall|i: int, j: int|
        0 <= i < vs.len() && 0 <= j < vs.len() && i != j ==> !val_eq(vs[i], vs[j])
}

/// A canonical value is a valid one.
pub proof fn lemma_val_wf_valid(v: ValueV)
    requires
        val_wf(v),
    ensures
        val_valid(v),
    decreases v,
{
    match v {
        ValueV::Number(n) => {},
        ValueV::Vector(vs, t) => {
            lemma_vals_wf_typed_valid(vs, t);
        },
        ValueV::SetVal(vs, t) => {
            lemma_vals_wf_typed_valid(vs, t);
        },
    }
}

proof fn lemma_vals_wf_typed_valid(vs: Seq<ValueV>, t: Type)
    requires
        vals_wf_typed(vs, t),
    ensures
        vals_valid(vs),
    decreases vs,
{
    if vs.len() > 0 {
        lemma_val_wf_valid(vs[0]);
        lemma_vals_wf_typed_valid(vs.drop_first(), t);
    }
}

/// Membership under value equality is existence of a value-equal member.
proof fn lemma_val_in_seq_iff(x: ValueV, ys: Seq<ValueV>)
    ensures
        val_in_seq(x, ys) <==> exists|i: int| 0 <= i < ys.len() && val_eq(x, #[trigger] ys[i]),
    decreases ys.len(),
{
    if ys.len() > 0 {
        lemma_val_in_seq_iff(x, ys.drop_first());
        if val_in_seq(x, ys) {
            if val_eq(x, ys[0]) {
                assert(val_eq(x, ys[0]));
            } else {
                let i = choose|i: int|
                    0 <= i < ys.drop_first().len() && val_eq(x, #[trigger] ys.drop_first()[i]);
                assert(ys.drop_first()[i] == ys[i + 1]);
            }
        }
        if exists|i: int| 0 <= i < ys.len() && val_eq(x, #[trigger] ys[i]) {
            let i = choose|i: int| 0 <= i < ys.len() && val_eq(x, #[trigger] ys[i]);
            if i > 0 {
                assert(ys.drop_first()[i - 1] == ys[i]);
            }
        }
    }
}

/// Deduplication leaves a sequence of pairwise distinct values, none of
/// them already kept, unchanged.
proof fn lemma_dedup_distinct(s: Seq<ValueV>, acc: Seq<ValueV>)
    requires
        vals_distinct(s),
        forall|i: int| 0 <= i < s.len() ==> !val_in_seq(#[trigger] s[i], acc),
    ensures
        dedup_acc(s, acc) == acc + s,
    decreases s,
{
    if s.len() == 0 {
        assert(acc + s =~= acc);
    } else {
        let x = s[0];
        assert(!val_in_seq(x, acc));
        let acc2 = acc.push(x);
        assert forall|i: int| 0 <= i < s.drop_first().len() implies !val_in_seq(
            #[trigger] s.drop_first()[i],
            acc2,
        ) by {
            let y = s.drop_first()[i];
            assert(y == s[i + 1]);
            lemma_val_in_seq_iff(y, acc2);
            lemma_val_in_seq_iff(y, acc);
            if val_in_seq(y, acc2) {
                let k = choose|k: int| 0 <= k < acc2.len() && val_eq(y, #[trigger] acc2[k]);
                if k < acc.len() {
                    assert(acc2[k] == acc[k]);
                } else {
                    assert(acc2[k] == x);
                    assert(!val_eq(s[i + 1], s[0]));
                }
            }
        }
        assert(vals_distinct(s.drop_first())) by {
            assert forall|i: int, j: int|
                0 <= i < s.drop_first().len() && 0 <= j < s.drop_first().len() && i != j implies
                !val_eq(s.drop_first()[i], s.drop_first()[j]) by {
                assert(s.drop_first()[i] == s[i + 1]);
                assert(s.drop_first()[j] == s[j + 1]);
            }
        }
        lemma_dedup_distinct(s.drop_first(), acc2);
        assert(acc2 + s.drop_first() =~= acc + s);
    }
}

/// Round trip: a canonical value, converted to its literal expression
/// and evaluated, comes back as exactly that value. Containers must be
/// nonempty, which `val_wf` requires: an empty container literal
/// evaluates to the empty result instead of a value.
pub proof fn lemma_round_trip(v: ValueV)
    requires
        val_wf(v),
    ensures
        spec_eval(value_expr(v)) == Ok::<ReturnV, EvalErrorV>(ReturnV::Value(v)),
    decreases v, 1nat,
{
    lemma_val_wf_valid(v);
    lemma_value_expr_pure(v);
    lemma_value_expr_valid(v);
    let e = value_expr(v);
    assert(msize(e) == 0);
    match v {
        ValueV::Number(n) => {
            match n {
                Number::Fin { num, den } => {
                    if den == 1 {
                        assert(eval_fuel(e, 0) == Ok::<ReturnV, EvalErrorV>(
                            ReturnV::Value(ValueV::Number(Number::Fin { num: num, den: 1 })),
                        ));
                    } else {
                        lemma_norm_pair_identity(n);
                        assert(norm_lit(n) == n);
                    }
                },
                _ => {
                    assert(norm_lit(n) == n);
                },
            }
        },
        ValueV::Vector(vs, t) => {
            lemma_values_exprs(vs);
            lemma_round_trip_elems(vs, t, Option::None, 0);
            assert(val_typ(vs[0]) == t);
        },
        ValueV::SetVal(vs, t) => {
            lemma_values_exprs(vs);
            lemma_round_trip_elems(vs, t, Option::None, 0);
            assert(val_typ(vs[0]) == t);
            assert forall|i: int| 0 <= i < vs.len() implies !val_in_seq(
                #[trigger] vs[i],
                Seq::<ValueV>::empty(),
            ) by {
                lemma_val_in_seq_iff(vs[i], Seq::<ValueV>::empty());
            }
            lemma_dedup_distinct(vs, Seq::empty());
            assert(dedup_vals(vs) == Seq::<ValueV>::empty() + vs);
            assert(Seq::<ValueV>::empty() + vs =~= vs);
        },
    }
}

/// Companion to the round trip for the elements of a container literal.
proof fn lemma_round_trip_elems(vs: Seq<ValueV>, t: Type, topt: Option<Type>, fuel: nat)
    requires
        vals_wf_typed(vs, t),
        topt matches Some(t0) ==> t0 == t,
    ensures
        eval_elems(values_exprs(vs), topt, fuel) == Ok::<Seq<ValueV>, EvalErrorV>(vs),
    decreases vs, 0nat,
{
    lemma_values_exprs(vs);
    if vs.len() == 0 {
        assert(values_exprs(vs) =~= Seq::<ExprV>::empty());
        assert(vs =~= Seq::<ValueV>::empty());
    } else {
        let es = values_exprs(vs);
        assert(es[0] == value_expr(vs[0]));
        lemma_round_trip(vs[0]);
        lemma_val_wf_valid(vs[0]);
        lemma_value_expr_pure(vs[0]);
        lemma_value_expr_valid(vs[0]);
        assert(msize(value_expr(vs[0])) == 0);
        crate::eval::lemma_eval_fuel_props(value_expr(vs[0]), fuel, 0);
        assert(eval_fuel(es[0], fuel) == Ok::<ReturnV, EvalErrorV>(ReturnV::Value(vs[0])));
        assert(val_typ(vs[0]) == t);
        assert(es.drop_first() =~= values_exprs(vs.drop_first()));
        lemma_round_trip_elems(vs.drop_first(), t, Option::Some(t), fuel);
        assert(seq![vs[0]] + vs.drop_first() =~= vs);
    }
}

/// Evaluation is a function of the expression alone: two evaluations of
/// one expression give one and the same result.
pub proof fn lemma_eval_deterministic(
    e: ExprV,
    r1: Result<ReturnV, EvalErrorV>,
    r2: Result<ReturnV, EvalErrorV>,
)
    requires
        r1 == spec_eval(e),
        r2 == spec_eval(e),
    ensures
        r1 == r2,
{
}

/// Container homogeneity: when a vector or set literal evaluates to a
/// value, every element of that value has the container's element type;
/// a literal mixing element types never evaluates to a value.
pub proof fn lemma_literal_homogeneous(es: Seq<ExprV>, topt: Option<Type>, fuel: nat)
    ensures
        eval_elems(es, topt, fuel) matches Ok(vals) ==> forall|i: int|
            0 <= i < vals.len() ==> val_typ(#[trigger] vals[i]) == (match topt {
                Some(t0) => t0,
                None => if vals.len() > 0 {
                    val_typ(vals[0])
                } else {
                    arbitrary()
                },
            }),
    decreases es,
{
    if es.len() > 0 {
        match eval_fuel(es[0], fuel) {
            Ok(ReturnV::Value(v)) => {
                let vt = val_typ(v);
                match topt {
                    Option::Some(t0) => {
                        if vt == t0 {
                            lemma_literal_homogeneous(es.drop_first(), topt, fuel);
                            match eval_elems(es.drop_first(), topt, fuel) {
                                Ok(rest) => {
                                    let vals = seq![v] + rest;
                                    assert(vals[0] == v);
                                    assert forall|i: int| 0 <= i < vals.len() implies val_typ(
                                        #[trigger] vals[i],
                                    ) == t0 by {
                                        if i > 0 {
                                            assert(vals[i] == rest[i - 1]);
                                        }
                                    }
                                },
                                _ => {},
                            }
                        }
                    },
                    Option::None => {
                        lemma_literal_homogeneous(es.drop_first(), Option::Some(vt), fuel);
                        match eval_elems(es.drop_first(), Option::Some(vt), fuel) {
                            Ok(rest) => {
                                let vals = seq![v] + rest;
                                assert(vals[0] == v);
                                assert forall|i: int| 0 <= i < vals.len() implies val_typ(
                                    #[trigger] vals[i],
                                ) == vt by {
                                    if i > 0 {
                                        assert(vals[i] == rest[i - 1]);
                                    }
                                }
                            },
                            _ => {},
                        }
                    },
                }
            },
            _ => {},
        }
    }
}

/// The homogeneity law at the surface: a vector literal that evaluates
/// to a value yields a vector whose every element has its declared
/// element type, and likewise for a set literal.
pub proof fn lemma_vector_literal_homogeneous(es: Seq<ExprV>)
    ensures
        spec_eval(ExprV::Vector(es)) matches Ok(ReturnV::Value(ValueV::Vector(vals, t)))
            ==> forall|i: int| 0 <= i < vals.len() ==> val_typ(#[trigger] vals[i]) == t,
{
    let e = ExprV::Vector(es);
    if es.len() > 0 {
        lemma_literal_homogeneous(es, Option::None, msize(e));
    }
}

/// Division of a finite number by finite zero follows the
/// floating-point rule: it yields an infinity signed like the dividend,
/// or not-a-number for zero over zero — never an error and never a
/// finite value.
pub proof fn lemma_division_by_zero(a: Number, b: Number)
    requires
        num_valid(a),
        num_valid(b),
        a is Fin,
        b is Fin,
        b->Fin_num == 0,
    ensures
        crate::number::spec_num_div(a, b) == Some(
            if a->Fin_num == 0 {
                Number::NaN
            } else if a->Fin_num > 0 {
                Number::PosInf
            } else {
                Number::NegInf
            },
        ),
{
}

/// Whether `x` is one of the values of `acc` or of `s`.
spec fn came_from(x: ValueV, acc: Seq<ValueV>, s: Seq<ValueV>) -> bool {
    (exists|i: int| 0 <= i < acc.len() && x == #[trigger] acc[i]) || (exists|i: int|
        0 <= i < s.len() && x == #[trigger] s[i])
}

/// Every member of a deduplicated sequence came from the kept prefix or
/// from the sequence itself.
proof fn lemma_dedup_members(s: Seq<ValueV>, acc: Seq<ValueV>)
    ensures
        forall|k: int|
            0 <= k < dedup_acc(s, acc).len() ==> came_from(
                #[trigger] dedup_acc(s, acc)[k],
                acc,
                s,
            ),
    decreases s,
{
    if s.len() == 0 {
        assert forall|k: int| 0 <= k < dedup_acc(s, acc).len() implies came_from(
            #[trigger] dedup_acc(s, acc)[k],
            acc,
            s,
        ) by {
            assert(dedup_acc(s, acc)[k] == acc[k]);
        }
    } else {
        let x = s[0];
        let acc2 = if val_in_seq(x, acc) {
            acc
        } else {
            acc.push(x)
        };
        lemma_dedup_members(s.drop_first(), acc2);
        assert forall|k: int| 0 <= k < dedup_acc(s, acc).len() implies came_from(
            #[trigger] dedup_acc(s, acc)[k],
            acc,
            s,
        ) by {
            assert(dedup_acc(s, acc) == dedup_acc(s.drop_first(), acc2));
            let d = dedup_acc(s.drop_first(), acc2);
            assert(came_from(d[k], acc2, s.drop_first()));
            if exists|i: int| 0 <= i < acc2.len() && d[k] == #[trigger] acc2[i] {
                let i = choose|i: int| 0 <= i < acc2.len() && d[k] == #[trigger] acc2[i];
                if i < acc.len() {
                    assert(acc2[i] == acc[i]);
                } else {
                    assert(acc2[i] == x);
                    assert(d[k] == s[0]);
                }
            } else {
                let i = choose|i: int|
                    0 <= i < s.drop_first().len() && d[k] == #[trigger] s.drop_first()[i];
                assert(s.drop_first()[i] == s[i + 1]);
            }
        }
    }
}

/// The homogeneity law for set literals: a set literal that evaluates to
/// a value yields a set whose every member has its declared element type.
pub proof fn lemma_set_literal_homogeneous(es: Seq<ExprV>)
    ensures
        spec_eval(ExprV::SetLit(es)) matches Ok(ReturnV::Value(ValueV::SetVal(vals, t)))
            ==> forall|i: int| 0 <= i < vals.len() ==> val_typ(#[trigger] vals[i]) == t,
{
    let e = ExprV::SetLit(es);
    if es.len() > 0 {
        let fuel = msize(e);
        lemma_literal_homogeneous(es, Option::None, fuel);
        match eval_elems(es, Option::None, fuel) {
            Ok(raw) => {
                lemma_dedup_members(raw, Seq::empty());
                assert forall|k: int| 0 <= k < dedup_vals(raw).len() implies val_typ(
                    #[trigger] dedup_vals(raw)[k],
                ) == (if raw.len() > 0 {
                    val_typ(raw[0])
                } else {
                    arbitrary()
                }) by {
                    assert(came_from(dedup_vals(raw)[k], Seq::empty(), raw));
                    let i = choose|i: int|
                        0 <= i < raw.len() && dedup_vals(raw)[k] == #[trigger] raw[i];
                    assert(val_typ(raw[i]) == val_typ(raw[0]));
                }
            },
            _ => {},
        }
    }
}

} // verus!
