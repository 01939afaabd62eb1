//! The numeric scalar of the language: an exact rational kept in lowest
//! terms, extended with the three special points of the floating-point
//! line (positive infinity, negative infinity, not-a-number) so that
//! division by zero yields an infinite or not-a-number result instead of
//! an error.
use vstd::prelude::*;
use vstd::arithmetic::div_mod::lemma_fundamental_div_mod;
use vstd::arithmetic::div_mod::lemma_mod_multiples_basic;

verus! {

/// A number: `Fin { num, den }` stands for the rational `num / den`
/// (with `den >= 1`), and the three special values mirror the IEEE
/// special points.
#[derive(Clone, Copy, Debug, PartialEq, Eq, Structural)]
pub enum Number {
    Fin { num: i64, den: u64 },
    PosInf,
    NegInf,
    NaN,
}

/// Absolute value on mathematical integers.
pub open spec fn iabs(x: int) -> int {
    if x < 0 {
        -x
    } else {
        x
    }
}

/// Greatest common divisor by Euclid's rule.
pub open spec fn gcd(a: nat, b: nat) -> nat
    decreases b,
{
    if b == 0 {
        a
    } else {
        gcd(b, a % b)
    }
}

/// A number whose representation is meaningful: a finite value never has
/// a zero denominator.
pub open spec fn num_valid(a: Number) -> bool {
    match a {
        Number::Fin { num, den } => den >= 1,
        _ => true,
    }
}

/// A number in canonical form: valid, and the fraction is in lowest terms.
pub open spec fn num_wf(a: Number) -> bool {
    match a {
        Number::Fin { num, den } => den >= 1 && gcd(iabs(num as int) as nat, den as nat) == 1,
        _ => true,
    }
}

/// The canonical representation of the rational `n / d`, or `None` when
/// the reduced numerator or denominator falls outside the machine range.
pub open spec fn norm_pair(n: int, d: int) -> Option<Number> {
    let g = gcd(iabs(n) as nat, d as nat) as int;
    let m = iabs(n) / g;
    let rd = d / g;
    let rn: int = if n < 0 {
        -m
    } else {
        m
    };
    if rn < i64::MIN as int || rn > i64::MAX as int || rd > u64::MAX as int {
        None
    } else {
        Some(Number::Fin { num: rn as i64, den: rd as u64 })
    }
}

proof fn lemma_gcd_divides(a: nat, b: nat)
    requires
        a >= 1 || b >= 1,
    ensures
        gcd(a, b) >= 1,
        a % gcd(a, b) == 0,
        b % gcd(a, b) == 0,
    decreases b,
{
    let g = gcd(a, b);
    if b == 0 {
        assert(g == a);
        assert(a % a == 0) by {
            lemma_mod_multiples_basic(1, a as int);
        }
        assert(0int % a as int == 0) by {
            lemma_mod_multiples_basic(0, a as int);
        }
    } else {
        lemma_gcd_divides(b, a % b);
        assert(g == gcd(b, (a % b) as nat));
        assert(g >= 1);
        assert(b % g == 0);
        assert((a % b) % g == 0);
        // a == b * (a / b) + a % b, and both addends are multiples of g.
        lemma_fundamental_div_mod(a as int, b as int);
        lemma_fundamental_div_mod(b as int, g as int);
        lemma_fundamental_div_mod((a % b) as int, g as int);
        let kb = b as int / g as int;
        let kr = (a % b) as int / g as int;
        assert(b as int == g * kb);
        assert((a % b) as int == g * kr);
        let q = a as int / b as int;
        assert(a as int == b * q + (a % b)) ;
        assert(a as int == g * (kb * q + kr)) by (nonlinear_arith)
            requires
                a as int == b * q + (a % b),
                b as int == g * kb,
                (a % b) as int == g * kr,
        ;
        assert(((kb * q + kr) * g as int) % g as int == 0) by {
            lemma_mod_multiples_basic(kb * q + kr, g as int);
        }
        assert(a as int == (kb * q + kr) * g as int) by (nonlinear_arith)
            requires
                a as int == g * (kb * q + kr),
        ;
        assert(a % g == 0);
    }
}

proof fn lemma_divides_gcd(c: nat, a: nat, b: nat)
    requires
        c >= 1,
        a % c == 0,
        b % c == 0,
    ensures
        gcd(a, b) % c == 0,
    decreases b,
{
    if b == 0 {
        assert(gcd(a, b) == a);
    } else {
        // a % b is a multiple of c as well.
        lemma_fundamental_div_mod(a as int, b as int);
        lemma_fundamental_div_mod(a as int, c as int);
        lemma_fundamental_div_mod(b as int, c as int);
        let ka = a as int / c as int;
        let kb = b as int / c as int;
        let q = a as int / b as int;
        assert(a as int == c * ka);
        assert(b as int == c * kb);
        let r = (a % b) as int;
        assert(r == a as int - b as int * q);
        assert(r == (ka - kb * q) * c as int) by (nonlinear_arith)
            requires
                r == a as int - b as int * q,
                a as int == c * ka,
                b as int == c * kb,
        ;
        assert(r % c as int == 0) by {
            lemma_mod_multiples_basic(ka - kb * q, c as int);
        }
        lemma_divides_gcd(c, b, (a % b) as nat);
    }
}

proof fn lemma_divides_le(c: nat, x: nat)
    requires
        c >= 1,
        x >= 1,
        x % c == 0,
    ensures
        c <= x,
        x / c >= 1,
{
    lemma_fundamental_div_mod(x as int, c as int);
    let k = x as int / c as int;
    assert(x as int == c * k);
    if k <= 0 {
        assert(x as int <= 0) by (nonlinear_arith)
            requires
                x as int == c * k,
                k <= 0,
                c >= 1,
        ;
    }
    assert(k >= 1);
    assert(x as int >= c) by (nonlinear_arith)
        requires
            x as int == c * k,
            k >= 1,
            c >= 1,
    ;
}

/// Dividing both sides of a fraction by their greatest common divisor
/// leaves a fraction in lowest terms.
proof fn lemma_coprime_quotients(a: nat, b: nat)
    requires
        b >= 1,
    ensures
        gcd(a, b) >= 1,
        gcd(a, b) <= b,
        b / gcd(a, b) >= 1,
        (a / gcd(a, b)) * gcd(a, b) == a,
        (b / gcd(a, b)) * gcd(a, b) == b,
        gcd(a / gcd(a, b), b / gcd(a, b)) == 1,
{
    let g = gcd(a, b);
    lemma_gcd_divides(a, b);
    lemma_divides_le(g, b);
    let qa = a / g;
    let qb = b / g;
    lemma_fundamental_div_mod(a as int, g as int);
    lemma_fundamental_div_mod(b as int, g as int);
    assert(a as int == g * qa);
    assert(b as int == g * qb);
    assert(qa * g == a) by (nonlinear_arith)
        requires
            a as int == g * qa,
    ;
    assert(qb * g == b) by (nonlinear_arith)
        requires
            b as int == g * qb,
    ;
    let h = gcd(qa, qb);
    lemma_gcd_divides(qa, qb);
    assert(h >= 1);
    lemma_fundamental_div_mod(qa as int, h as int);
    lemma_fundamental_div_mod(qb as int, h as int);
    let pa = qa as int / h as int;
    let pb = qb as int / h as int;
    assert(qa as int == h * pa);
    assert(qb as int == h * pb);
    let hg = h * g;
    assert(hg >= 1) by (nonlinear_arith)
        requires
            h >= 1,
            g >= 1,
            hg == h * g,
    ;
    assert(a as int == pa * hg as int) by (nonlinear_arith)
        requires
            a as int == g * qa,
            qa as int == h * pa,
            hg == h * g,
    ;
    assert(b as int == pb * hg as int) by (nonlinear_arith)
        requires
            b as int == g * qb,
            qb as int == h * pb,
            hg == h * g,
    ;
    assert(a % hg == 0) by {
        lemma_mod_multiples_basic(pa, hg as int);
    }
    assert(b % hg == 0) by {
        lemma_mod_multiples_basic(pb, hg as int);
    }
    lemma_divides_gcd(hg, a, b);
    assert(g % hg == 0);
    lemma_divides_le(hg, g);
    assert(h == 1) by (nonlinear_arith)
        requires
            hg == h * g,
            hg <= g,
            h >= 1,
            g >= 1,
    ;
}

/// A reduced result of `norm_pair` is well formed.
pub proof fn lemma_norm_pair_wf(n: int, d: int)
    requires
        d >= 1,
    ensures
        norm_pair(n, d) matches Some(x) ==> num_wf(x),
        norm_pair(n, d) matches Some(x) ==> (x matches Number::Fin { num, den } && den >= 1),
{
    lemma_coprime_quotients(iabs(n) as nat, d as nat);
}

/// The exact sum of two numbers, `None` when it cannot be represented.
pub open spec fn spec_num_add(a: Number, b: Number) -> Option<Number> {
    match (a, b) {
        (Number::NaN, _) => Some(Number::NaN),
        (_, Number::NaN) => Some(Number::NaN),
        (Number::PosInf, Number::NegInf) => Some(Number::NaN),
        (Number::NegInf, Number::PosInf) => Some(Number::NaN),
        (Number::PosInf, _) => Some(Number::PosInf),
        (_, Number::PosInf) => Some(Number::PosInf),
        (Number::NegInf, _) => Some(Number::NegInf),
        (_, Number::NegInf) => Some(Number::NegInf),
        (Number::Fin { num: n1, den: d1 }, Number::Fin { num: n2, den: d2 }) => {
            let n = n1 * d2 + n2 * d1;
            if n > i128::MAX as int || n < -(i128::MAX as int) {
                None
            } else {
                norm_pair(n, d1 * d2)
            }
        },
    }
}

/// The exact difference of two numbers.
pub open spec fn spec_num_sub(a: Number, b: Number) -> Option<Number> {
    match (a, b) {
        (Number::NaN, _) => Some(Number::NaN),
        (_, Number::NaN) => Some(Number::NaN),
        (Number::PosInf, Number::PosInf) => Some(Number::NaN),
        (Number::NegInf, Number::NegInf) => Some(Number::NaN),
        (Number::PosInf, _) => Some(Number::PosInf),
        (Number::NegInf, _) => Some(Number::NegInf),
        (_, Number::PosInf) => Some(Number::NegInf),
        (_, Number::NegInf) => Some(Number::PosInf),
        (Number::Fin { num: n1, den: d1 }, Number::Fin { num: n2, den: d2 }) => {
            let n = n1 * d2 - n2 * d1;
            if n > i128::MAX as int || n < -(i128::MAX as int) {
                None
            } else {
                norm_pair(n, d1 * d2)
            }
        },
    }
}

/// The exact product of two numbers, with the IEEE rule that zero times
/// an infinity is not a number.
pub open spec fn spec_num_mul(a: Number, b: Number) -> Option<Number> {
    match (a, b) {
        (Number::NaN, _) => Some(Number::NaN),
        (_, Number::NaN) => Some(Number::NaN),
        (Number::PosInf, Number::PosInf) => Some(Number::PosInf),
        (Number::NegInf, Number::NegInf) => Some(Number::PosInf),
        (Number::PosInf, Number::NegInf) => Some(Number::NegInf),
        (Number::NegInf, Number::PosInf) => Some(Number::NegInf),
        (Number::PosInf, Number::Fin { num, den }) => if num == 0 {
            Some(Number::NaN)
        } else if num > 0 {
            Some(Number::PosInf)
        } else {
            Some(Number::NegInf)
        },
        (Number::Fin { num, den }, Number::PosInf) => if num == 0 {
            Some(Number::NaN)
        } else if num > 0 {
            Some(Number::PosInf)
        } else {
            Some(Number::NegInf)
        },
        (Number::NegInf, Number::Fin { num, den }) => if num == 0 {
            Some(Number::NaN)
        } else if num > 0 {
            Some(Number::NegInf)
        } else {
            Some(Number::PosInf)
        },
        (Number::Fin { num, den }, Number::NegInf) => if num == 0 {
            Some(Number::NaN)
        } else if num > 0 {
            Some(Number::NegInf)
        } else {
            Some(Number::PosInf)
        },
        (Number::Fin { num: n1, den: d1 }, Number::Fin { num: n2, den: d2 }) => norm_pair(
            n1 * n2,
            d1 * d2,
        ),
    }
}

/// The exact quotient of two numbers: division of a nonzero finite value
/// by zero yields a signed infinity, zero by zero yields not-a-number.
pub open spec fn spec_num_div(a: Number, b: Number) -> Option<Number> {
    match (a, b) {
        (Number::NaN, _) => Some(Number::NaN),
        (_, Number::NaN) => Some(Number::NaN),
        (Number::PosInf, Number::PosInf) => Some(Number::NaN),
        (Number::PosInf, Number::NegInf) => Some(Number::NaN),
        (Number::NegInf, Number::PosInf) => Some(Number::NaN),
        (Number::NegInf, Number::NegInf) => Some(Number::NaN),
        (Number::PosInf, Number::Fin { num, den }) => if num >= 0 {
            Some(Number::PosInf)
        } else {
            Some(Number::NegInf)
        },
        (Number::NegInf, Number::Fin { num, den }) => if num >= 0 {
            Some(Number::NegInf)
        } else {
            Some(Number::PosInf)
        },
        (Number::Fin { num, den }, Number::PosInf) => Some(Number::Fin { num: 0, den: 1 }),
        (Number::Fin { num, den }, Number::NegInf) => Some(Number::Fin { num: 0, den: 1 }),
        (Number::Fin { num: n1, den: d1 }, Number::Fin { num: n2, den: d2 }) => if n2 == 0 {
            if n1 == 0 {
                Some(Number::NaN)
            } else if n1 > 0 {
                Some(Number::PosInf)
            } else {
                Some(Number::NegInf)
            }
        } else {
            let n: int = if n2 < 0 {
                -(n1 * d2)
            } else {
                n1 * d2
            };
            norm_pair(n, d1 * iabs(n2 as int))
        },
    }
}

/// The negation of a number.
pub open spec fn spec_num_neg(a: Number) -> Option<Number> {
    match a {
        Number::NaN => Some(Number::NaN),
        Number::PosInf => Some(Number::NegInf),
        Number::NegInf => Some(Number::PosInf),
        Number::Fin { num, den } => if num == i64::MIN {
            None
        } else {
            Some(Number::Fin { num: (-(num as int)) as i64, den: den })
        },
    }
}

/// The absolute value of a number; both infinities map to the positive one.
pub open spec fn spec_num_abs(a: Number) -> Option<Number> {
    match a {
        Number::NaN => Some(Number::NaN),
        Number::PosInf => Some(Number::PosInf),
        Number::NegInf => Some(Number::PosInf),
        Number::Fin { num, den } => if num == i64::MIN {
            None
        } else if num < 0 {
            Some(Number::Fin { num: (-(num as int)) as i64, den: den })
        } else {
            Some(a)
        },
    }
}

/// A hundredth of a number: the meaning of the postfix percent operator.
pub open spec fn spec_num_percent(a: Number) -> Option<Number> {
    spec_num_div(a, Number::Fin { num: 100, den: 1 })
}

/// `b` raised to the exponent `e` over the integers.
pub open spec fn pow_int(b: int, e: nat) -> int
    decreases e,
{
    if e == 0 {
        1
    } else {
        b * pow_int(b, (e - 1) as nat)
    }
}

/// The power `a ^ b`. Only an integral finite exponent yields a definite
/// value; any other exponent yields not-a-number, except that an exponent
/// of zero always yields one. A result whose exact numerator or
/// denominator exceeds the machine range is `None`.
pub open spec fn spec_num_pow(a: Number, b: Number) -> Option<Number> {
    if !(b matches Number::Fin { num: en, den: ed } && ed == 1) {
        Some(Number::NaN)
    } else {
        let e = b->Fin_num as int;
        if e == 0 {
            Some(Number::Fin { num: 1, den: 1 })
        } else {
            match a {
                Number::NaN => Some(Number::NaN),
                Number::PosInf => if e > 0 {
                    Some(Number::PosInf)
                } else {
                    Some(Number::Fin { num: 0, den: 1 })
                },
                Number::NegInf => if e > 0 {
                    if e % 2 == 0 {
                        Some(Number::PosInf)
                    } else {
                        Some(Number::NegInf)
                    }
                } else {
                    Some(Number::Fin { num: 0, den: 1 })
                },
                Number::Fin { num: n, den: d } => {
                    if n == 0 {
                        if e > 0 {
                            Some(Number::Fin { num: 0, den: 1 })
                        } else {
                            Some(Number::PosInf)
                        }
                    } else {
                        let ea = iabs(e) as nat;
                        let pn = pow_int(n as int, ea);
                        let pd = pow_int(d as int, ea);
                        if e > 0 {
                            if pn > i128::MAX as int || pn < -(i128::MAX as int) || pd
                                > u128::MAX as int {
                                None
                            } else {
                                norm_pair(pn, pd)
                            }
                        } else {
                            let sn: int = if n < 0 && ea % 2 == 1 {
                                -pd
                            } else {
                                pd
                            };
                            if iabs(pn) > u128::MAX as int || pd > i128::MAX as int {
                                None
                            } else {
                                norm_pair(sn, iabs(pn))
                            }
                        }
                    }
                },
            }
        }
    }
}

/// Value equality of two numbers: cross multiplication for finite values,
/// like signs for infinities, and not-a-number equal to nothing, itself
/// included.
pub open spec fn spec_num_eq(a: Number, b: Number) -> bool {
    match (a, b) {
        (Number::NaN, _) => false,
        (_, Number::NaN) => false,
        (Number::PosInf, Number::PosInf) => true,
        (Number::NegInf, Number::NegInf) => true,
        (Number::Fin { num: n1, den: d1 }, Number::Fin { num: n2, den: d2 }) => n1 * d2 == n2 * d1,
        _ => false,
    }
}

/// `norm_pair` leaves a fraction that is already in lowest terms unchanged.
pub proof fn lemma_norm_pair_identity(a: Number)
    requires
        num_wf(a),
        a is Fin,
    ensures
        norm_pair(a->Fin_num as int, a->Fin_den as int) == Some(a),
{
    let n = a->Fin_num as int;
    let d = a->Fin_den as int;
    assert(gcd(iabs(n) as nat, d as nat) == 1);
    assert(iabs(n) / 1int == iabs(n));
    assert(d / 1int == d);
}

/// Every defined result of the arithmetic on valid numbers is valid.
pub proof fn lemma_num_ops_valid(a: Number, b: Number)
    requires
        num_valid(a),
        num_valid(b),
    ensures
        spec_num_add(a, b) matches Some(x) ==> num_valid(x),
        spec_num_sub(a, b) matches Some(x) ==> num_valid(x),
        spec_num_mul(a, b) matches Some(x) ==> num_valid(x),
        spec_num_div(a, b) matches Some(x) ==> num_valid(x),
        spec_num_pow(a, b) matches Some(x) ==> num_valid(x),
        spec_num_neg(a) matches Some(x) ==> num_valid(x),
        spec_num_abs(a) matches Some(x) ==> num_valid(x),
        spec_num_percent(a) matches Some(x) ==> num_valid(x),
{
    if a is Fin && b is Fin {
        let n1 = a->Fin_num as int;
        let d1 = a->Fin_den as int;
        let n2 = b->Fin_num as int;
        let d2 = b->Fin_den as int;
        assert(d1 * d2 >= 1) by (nonlinear_arith)
            requires
                d1 >= 1,
                d2 >= 1,
        ;
        lemma_norm_pair_wf(n1 * d2 + n2 * d1, d1 * d2);
        lemma_norm_pair_wf(n1 * d2 - n2 * d1, d1 * d2);
        lemma_norm_pair_wf(n1 * n2, d1 * d2);
        if n2 != 0 {
            assert(d1 * iabs(n2) >= 1) by (nonlinear_arith)
                requires
                    d1 >= 1,
                    iabs(n2) >= 1,
            ;
            lemma_norm_pair_wf(n1 * d2, d1 * iabs(n2));
            lemma_norm_pair_wf(-(n1 * d2), d1 * iabs(n2));
        }
    }
    if a is Fin {
        let d1 = a->Fin_den as int;
        assert(d1 * 100 >= 1) by (nonlinear_arith)
            requires
                d1 >= 1,
        ;
        lemma_norm_pair_wf(a->Fin_num as int, d1 * 100);
        lemma_norm_pair_wf(-(a->Fin_num as int), d1 * 100);
    }
    lemma_num_pow_valid(a, b);
}

proof fn lemma_num_pow_valid(a: Number, b: Number)
    requires
        num_valid(a),
        num_valid(b),
    ensures
        spec_num_pow(a, b) matches Some(x) ==> num_valid(x),
{
    match (a, b) {
        (Number::Fin { num: n, den: d }, Number::Fin { num: en, den: ed }) => {
            if ed == 1 && en != 0 && n != 0 {
                let e = en as int;
                let ea = iabs(e) as nat;
                lemma_pow_int_abs(n as int, ea);
                lemma_pow_int_mono(d as int, 0, ea);
                let pn = pow_int(n as int, ea);
                let pd = pow_int(d as int, ea);
                if e > 0 {
                    lemma_norm_pair_wf(pn, pd);
                } else {
                    if iabs(pn) >= 1 {
                        lemma_norm_pair_wf(pd, iabs(pn));
                        lemma_norm_pair_wf(-pd, iabs(pn));
                    }
                }
            }
        },
        _ => {},
    }
}

proof fn lemma_prod_i64_u64_fits(x: int, y: int)
    requires
        i64::MIN as int <= x <= i64::MAX as int,
        0 <= y <= u64::MAX as int,
    ensures
        -(i128::MAX as int) <= x * y <= i128::MAX as int,
{
    assert(-(i128::MAX as int) <= x * y <= i128::MAX as int) by (nonlinear_arith)
        requires
            i64::MIN as int <= x <= i64::MAX as int,
            0 <= y <= u64::MAX as int,
    ;
}

proof fn lemma_prod_u64_fits(x: int, y: int)
    requires
        0 <= x <= u64::MAX as int,
        0 <= y <= u64::MAX as int,
    ensures
        0 <= x * y <= u128::MAX as int,
        x >= 1 && y >= 1 ==> x * y >= 1,
{
    assert(0 <= x * y <= u128::MAX as int && (x >= 1 && y >= 1 ==> x * y >= 1))
        by (nonlinear_arith)
        requires
            0 <= x <= u64::MAX as int,
            0 <= y <= u64::MAX as int,
    ;
}

/// Greatest common divisor, executed by Euclid's rule.
pub fn gcd_u128(a: u128, b: u128) -> (g: u128)
    ensures
        g as nat == gcd(a as nat, b as nat),
{
    let mut x: u128 = a;
    let mut y: u128 = b;
    while y != 0
        invariant
            gcd(x as nat, y as nat) == gcd(a as nat, b as nat),
        decreases y,
    {
        let t: u128 = x % y;
        proof {
            assert(gcd(x as nat, y as nat) == gcd(y as nat, (x as nat % y as nat)));
        }
        x = y;
        y = t;
    }
    x
}

/// Reduce the fraction `n / d` to lowest terms and narrow it to the
/// machine representation.
fn norm128(n: i128, d: u128) -> (r: Option<Number>)
    requires
        d >= 1,
        n != i128::MIN,
    ensures
        r == norm_pair(n as int, d as int),
{
    let nabs: u128 = if n < 0 {
        (-n) as u128
    } else {
        n as u128
    };
    let g: u128 = gcd_u128(nabs, d);
    proof {
        lemma_gcd_divides(nabs as nat, d as nat);
        lemma_divides_le(g as nat, d as nat);
    }
    let m: u128 = nabs / g;
    let rd: u128 = d / g;
    if rd > u64::MAX as u128 {
        return None;
    }
    if n < 0 {
        if m > 9223372036854775808u128 {
            None
        } else {
            Some(Number::Fin { num: (-(m as i128)) as i64, den: rd as u64 })
        }
    } else {
        if m > i64::MAX as u128 {
            None
        } else {
            Some(Number::Fin { num: m as i64, den: rd as u64 })
        }
    }
}

/// Add two numbers.
pub fn num_add(a: Number, b: Number) -> (r: Option<Number>)
    requires
        num_valid(a),
        num_valid(b),
    ensures
        r == spec_num_add(a, b),
{
    match (a, b) {
        (Number::NaN, _) => Some(Number::NaN),
        (_, Number::NaN) => Some(Number::NaN),
        (Number::PosInf, Number::NegInf) => Some(Number::NaN),
        (Number::NegInf, Number::PosInf) => Some(Number::NaN),
        (Number::PosInf, _) => Some(Number::PosInf),
        (_, Number::PosInf) => Some(Number::PosInf),
        (Number::NegInf, _) => Some(Number::NegInf),
        (_, Number::NegInf) => Some(Number::NegInf),
        (Number::Fin { num: n1, den: d1 }, Number::Fin { num: n2, den: d2 }) => {
            proof {
                lemma_prod_i64_u64_fits(n1 as int, d2 as int);
                lemma_prod_i64_u64_fits(n2 as int, d1 as int);
                lemma_prod_u64_fits(d1 as int, d2 as int);
            }
            let p1: i128 = (n1 as i128) * (d2 as i128);
            let p2: i128 = (n2 as i128) * (d1 as i128);
            match p1.checked_add(p2) {
                None => None,
                Some(n) => if n == i128::MIN {
                    None
                } else {
                    norm128(n, (d1 as u128) * (d2 as u128))
                },
            }
        },
    }
}

/// Subtract `b` from `a`.
pub fn num_sub(a: Number, b: Number) -> (r: Option<Number>)
    requires
        num_valid(a),
        num_valid(b),
    ensures
        r == spec_num_sub(a, b),
{
    match (a, b) {
        (Number::NaN, _) => Some(Number::NaN),
        (_, Number::NaN) => Some(Number::NaN),
        (Number::PosInf, Number::PosInf) => Some(Number::NaN),
        (Number::NegInf, Number::NegInf) => Some(Number::NaN),
        (Number::PosInf, _) => Some(Number::PosInf),
        (Number::NegInf, _) => Some(Number::NegInf),
        (_, Number::PosInf) => Some(Number::NegInf),
        (_, Number::NegInf) => Some(Number::PosInf),
        (Number::Fin { num: n1, den: d1 }, Number::Fin { num: n2, den: d2 }) => {
            proof {
                lemma_prod_i64_u64_fits(n1 as int, d2 as int);
                lemma_prod_i64_u64_fits(n2 as int, d1 as int);
                lemma_prod_u64_fits(d1 as int, d2 as int);
            }
            let p1: i128 = (n1 as i128) * (d2 as i128);
            let p2: i128 = (n2 as i128) * (d1 as i128);
            match p1.checked_sub(p2) {
                None => None,
                Some(n) => if n == i128::MIN {
                    None
                } else {
                    norm128(n, (d1 as u128) * (d2 as u128))
                },
            }
        },
    }
}

/// Multiply two numbers.
pub fn num_mul(a: Number, b: Number) -> (r: Option<Number>)
    requires
        num_valid(a),
        num_valid(b),
    ensures
        r == spec_num_mul(a, b),
{
    match (a, b) {
        (Number::NaN, _) => Some(Number::NaN),
        (_, Number::NaN) => Some(Number::NaN),
        (Number::PosInf, Number::PosInf) => Some(Number::PosInf),
        (Number::NegInf, Number::NegInf) => Some(Number::PosInf),
        (Number::PosInf, Number::NegInf) => Some(Number::NegInf),
        (Number::NegInf, Number::PosInf) => Some(Number::NegInf),
        (Number::PosInf, Number::Fin { num, den }) => if num == 0 {
            Some(Number::NaN)
        } else if num > 0 {
            Some(Number::PosInf)
        } else {
            Some(Number::NegInf)
        },
        (Number::Fin { num, den }, Number::PosInf) => if num == 0 {
            Some(Number::NaN)
        } else if num > 0 {
            Some(Number::PosInf)
        } else {
            Some(Number::NegInf)
        },
        (Number::NegInf, Number::Fin { num, den }) => if num == 0 {
            Some(Number::NaN)
        } else if num > 0 {
            Some(Number::NegInf)
        } else {
            Some(Number::PosInf)
        },
        (Number::Fin { num, den }, Number::NegInf) => if num == 0 {
            Some(Number::NaN)
        } else if num > 0 {
            Some(Number::NegInf)
        } else {
            Some(Number::PosInf)
        },
        (Number::Fin { num: n1, den: d1 }, Number::Fin { num: n2, den: d2 }) => {
            proof {
                assert(-(i128::MAX as int) <= n1 as int * n2 as int <= i128::MAX as int)
                    by (nonlinear_arith)
                    requires
                        i64::MIN as int <= n1 as int <= i64::MAX as int,
                        i64::MIN as int <= n2 as int <= i64::MAX as int,
                ;
                lemma_prod_u64_fits(d1 as int, d2 as int);
            }
            let n: i128 = (n1 as i128) * (n2 as i128);
            norm128(n, (d1 as u128) * (d2 as u128))
        },
    }
}

/// Divide `a` by `b`.
pub fn num_div(a: Number, b: Number) -> (r: Option<Number>)
    requires
        num_valid(a),
        num_valid(b),
    ensures
        r == spec_num_div(a, b),
{
    match (a, b) {
        (Number::NaN, _) => Some(Number::NaN),
        (_, Number::NaN) => Some(Number::NaN),
        (Number::PosInf, Number::PosInf) => Some(Number::NaN),
        (Number::PosInf, Number::NegInf) => Some(Number::NaN),
        (Number::NegInf, Number::PosInf) => Some(Number::NaN),
        (Number::NegInf, Number::NegInf) => Some(Number::NaN),
        (Number::PosInf, Number::Fin { num, den }) => if num >= 0 {
            Some(Number::PosInf)
        } else {
            Some(Number::NegInf)
        },
        (Number::NegInf, Number::Fin { num, den }) => if num >= 0 {
            Some(Number::NegInf)
        } else {
            Some(Number::PosInf)
        },
        (Number::Fin { num, den }, Number::PosInf) => Some(Number::Fin { num: 0, den: 1 }),
        (Number::Fin { num, den }, Number::NegInf) => Some(Number::Fin { num: 0, den: 1 }),
        (Number::Fin { num: n1, den: d1 }, Number::Fin { num: n2, den: d2 }) => {
            if n2 == 0 {
                if n1 == 0 {
                    Some(Number::NaN)
                } else if n1 > 0 {
                    Some(Number::PosInf)
                } else {
                    Some(Number::NegInf)
                }
            } else {
                proof {
                    lemma_prod_i64_u64_fits(n1 as int, d2 as int);
                    assert(0 <= d1 as int * iabs(n2 as int) <= u128::MAX as int && d1 as int * iabs(
                        n2 as int,
                    ) >= 1) by (nonlinear_arith)
                        requires
                            1 <= d1 as int <= u64::MAX as int,
                            1 <= iabs(n2 as int) <= 9223372036854775808,
                    ;
                }
                let p: i128 = (n1 as i128) * (d2 as i128);
                let n: i128 = if n2 < 0 {
                    -p
                } else {
                    p
                };
                let n2a: u128 = if n2 < 0 {
                    (-(n2 as i128)) as u128
                } else {
                    n2 as u128
                };
                norm128(n, (d1 as u128) * n2a)
            }
        },
    }
}

/// Negate a number.
pub fn num_neg(a: Number) -> (r: Option<Number>)
    requires
        num_valid(a),
    ensures
        r == spec_num_neg(a),
{
    match a {
        Number::NaN => Some(Number::NaN),
        Number::PosInf => Some(Number::NegInf),
        Number::NegInf => Some(Number::PosInf),
        Number::Fin { num, den } => if num == i64::MIN {
            None
        } else {
            Some(Number::Fin { num: -num, den: den })
        },
    }
}

/// The absolute value of a number.
pub fn num_abs(a: Number) -> (r: Option<Number>)
    requires
        num_valid(a),
    ensures
        r == spec_num_abs(a),
{
    match a {
        Number::NaN => Some(Number::NaN),
        Number::PosInf => Some(Number::PosInf),
        Number::NegInf => Some(Number::PosInf),
        Number::Fin { num, den } => if num == i64::MIN {
            None
        } else if num < 0 {
            Some(Number::Fin { num: -num, den: den })
        } else {
            Some(Number::Fin { num: num, den: den })
        },
    }
}

/// Divide a number by one hundred.
pub fn num_percent(a: Number) -> (r: Option<Number>)
    requires
        num_valid(a),
    ensures
        r == spec_num_percent(a),
{
    num_div(a, Number::Fin { num: 100, den: 1 })
}

/// Value equality of two numbers.
pub fn num_eq(a: Number, b: Number) -> (r: bool)
    requires
        num_valid(a),
        num_valid(b),
    ensures
        r == spec_num_eq(a, b),
{
    match (a, b) {
        (Number::NaN, _) => false,
        (_, Number::NaN) => false,
        (Number::PosInf, Number::PosInf) => true,
        (Number::NegInf, Number::NegInf) => true,
        (Number::Fin { num: n1, den: d1 }, Number::Fin { num: n2, den: d2 }) => {
            proof {
                lemma_prod_i64_u64_fits(n1 as int, d2 as int);
                lemma_prod_i64_u64_fits(n2 as int, d1 as int);
            }
            (n1 as i128) * (d2 as i128) == (n2 as i128) * (d1 as i128)
        },
        _ => false,
    }
}

proof fn lemma_pow_int_mono(b: int, e1: nat, e2: nat)
    requires
        b >= 1,
        e1 <= e2,
    ensures
        1 <= pow_int(b, e1) <= pow_int(b, e2),
    decreases e2,
{
    if e2 == 0 {
    } else if e1 == e2 {
        lemma_pow_int_mono(b, (e2 - 1) as nat, (e2 - 1) as nat);
        assert(pow_int(b, e2) == b * pow_int(b, (e2 - 1) as nat));
        assert(b * pow_int(b, (e2 - 1) as nat) >= pow_int(b, (e2 - 1) as nat))
            by (nonlinear_arith)
            requires
                b >= 1,
                pow_int(b, (e2 - 1) as nat) >= 1,
        ;
    } else {
        lemma_pow_int_mono(b, e1, (e2 - 1) as nat);
        assert(pow_int(b, e2) == b * pow_int(b, (e2 - 1) as nat));
        assert(b * pow_int(b, (e2 - 1) as nat) >= pow_int(b, (e2 - 1) as nat))
            by (nonlinear_arith)
            requires
                b >= 1,
                pow_int(b, (e2 - 1) as nat) >= 1,
        ;
    }
}

proof fn lemma_pow_int_abs(n: int, e: nat)
    requires
        n != 0,
    ensures
        pow_int(n, e) == if n < 0 && e % 2 == 1 {
            -pow_int(iabs(n), e)
        } else {
            pow_int(iabs(n), e)
        },
        pow_int(iabs(n), e) >= 1,
    decreases e,
{
    if e == 0 {
    } else {
        lemma_pow_int_abs(n, (e - 1) as nat);
        let p = pow_int(iabs(n), (e - 1) as nat);
        assert(pow_int(iabs(n), e) == iabs(n) * p);
        assert(iabs(n) * p >= 1) by (nonlinear_arith)
            requires
                iabs(n) >= 1,
                p >= 1,
        ;
        if n < 0 {
            if (e - 1) as nat % 2 == 1 {
                assert(pow_int(n, e) == n * (-p));
                assert(n * (-p) == iabs(n) * p) by (nonlinear_arith)
                    requires
                        n < 0,
                        iabs(n) == -n,
                ;
            } else {
                assert(pow_int(n, e) == n * p);
                assert(n * p == -(iabs(n) * p)) by (nonlinear_arith)
                    requires
                        n < 0,
                        iabs(n) == -n,
                ;
            }
        }
    }
}

/// Raise `base` to the power `e`, reporting `None` when the result does
/// not fit in the machine word.
fn pow_u128(base: u128, e: u64) -> (r: Option<u128>)
    requires
        base >= 1,
    ensures
        r matches Some(p) ==> p as int == pow_int(base as int, e as nat),
        r is None ==> pow_int(base as int, e as nat) > u128::MAX as int,
{
    let mut acc: u128 = 1;
    let mut i: u64 = 0;
    while i < e
        invariant
            i <= e,
            base >= 1,
            acc >= 1,
            acc as int == pow_int(base as int, i as nat),
        decreases e - i,
    {
        match acc.checked_mul(base) {
            None => {
                proof {
                    lemma_pow_int_mono(base as int, (i + 1) as nat, e as nat);
                    assert(pow_int(base as int, (i + 1) as nat) == base as int * pow_int(
                        base as int,
                        i as nat,
                    ));
                    assert(base as int * acc as int == acc as int * base as int)
                        by (nonlinear_arith)
                    ;
                }
                return None;
            },
            Some(next) => {
                proof {
                    assert(pow_int(base as int, (i + 1) as nat) == base as int * pow_int(
                        base as int,
                        i as nat,
                    ));
                    assert(base as int * acc as int == acc as int * base as int)
                        by (nonlinear_arith)
                    ;
                    assert(next as int >= 1) by (nonlinear_arith)
                        requires
                            next as int == acc as int * base as int,
                            acc >= 1,
                            base >= 1,
                    ;
                }
                acc = next;
            },
        }
        i = i + 1;
    }
    Some(acc)
}

/// Raise `a` to the power `b`.
pub fn num_pow(a: Number, b: Number) -> (r: Option<Number>)
    requires
        num_valid(a),
        num_valid(b),
    ensures
        r == spec_num_pow(a, b),
{
    let (en, is_int) = match b {
        Number::Fin { num, den } => (num, den == 1),
        _ => (0i64, false),
    };
    if !is_int {
        return Some(Number::NaN);
    }
    if en == 0 {
        return Some(Number::Fin { num: 1, den: 1 });
    }
    match a {
        Number::NaN => Some(Number::NaN),
        Number::PosInf => if en > 0 {
            Some(Number::PosInf)
        } else {
            Some(Number::Fin { num: 0, den: 1 })
        },
        Number::NegInf => if en > 0 {
            if en % 2 == 0 {
                Some(Number::PosInf)
            } else {
                Some(Number::NegInf)
            }
        } else {
            Some(Number::Fin { num: 0, den: 1 })
        },
        Number::Fin { num: n, den: d } => {
            if n == 0 {
                if en > 0 {
                    Some(Number::Fin { num: 0, den: 1 })
                } else {
                    Some(Number::PosInf)
                }
            } else {
                let ea: u64 = if en < 0 {
                    (-(en as i128)) as u64
                } else {
                    en as u64
                };
                let na: u64 = if n < 0 {
                    (-(n as i128)) as u64
                } else {
                    n as u64
                };
                let neg = n < 0 && ea % 2 == 1;
                proof {
                    lemma_pow_int_abs(n as int, ea as nat);
                    lemma_pow_int_mono(d as int, 0, ea as nat);
                }
                let pn_abs = pow_u128(na as u128, ea);
                let pd = pow_u128(d as u128, ea);
                if en > 0 {
                    match (pn_abs, pd) {
                        (Some(pa), Some(pdv)) => {
                            if pa > i128::MAX as u128 {
                                None
                            } else {
                                let sn: i128 = if neg {
                                    -(pa as i128)
                                } else {
                                    pa as i128
                                };
                                norm128(sn, pdv)
                            }
                        },
                        _ => None,
                    }
                } else {
                    match (pn_abs, pd) {
                        (Some(pa), Some(pdv)) => {
                            if pdv > i128::MAX as u128 {
                                None
                            } else {
                                let sn: i128 = if neg {
                                    -(pdv as i128)
                                } else {
                                    pdv as i128
                                };
                                norm128(sn, pa)
                            }
                        },
                        _ => None,
                    }
                }
            }
        },
    }
}

/// Reduce a number to canonical form; a value whose reduced form would
/// not fit (which cannot happen for a valid input) is left unchanged.
pub fn num_reduce(n: Number) -> (r: Number)
    requires
        num_valid(n),
    ensures
        r == (match n {
            Number::Fin { num, den } => match norm_pair(num as int, den as int) {
                Some(x) => x,
                None => n,
            },
            _ => n,
        }),
{
    match n {
        Number::Fin { num, den } => match norm128(num as i128, den as u128) {
            Some(x) => x,
            None => n,
        },
        _ => n,
    }
}

} // verus!
