//! Evaluation behaviour on concrete inputs: full resolution, partial
//! evaluation with the add/subtract rewrite, containers, and the
//! floating-point-style special values.
use vac::eval::Return;
use vac::number::Number;
use vac::run;
use vac::value::Value;
use vac::value::value_eq;

fn evaluated(input: &str) -> Return {
    run(input.to_string()).expect("runs")
}

fn number_of(input: &str) -> Number {
    match evaluated(input) {
        Return::Value(Value::Number(n)) => n,
        other => panic!("expected a number, got {}", other.text()),
    }
}

#[test]
fn left_fold_evaluates() {
    // `1 - 2 - 3` evaluates to -4.
    assert_eq!(number_of("1 - 2 - 3"), Number::Fin { num: -4, den: 1 });
}

#[test]
fn precedence_evaluates() {
    // Power binds tighter than multiplication binds tighter than addition.
    assert_eq!(number_of("2 + 3 * 4 ^ 2"), Number::Fin { num: 50, den: 1 });
}

#[test]
fn partial_evaluation_folds_constants() {
    // `x + 1 - 2` stays symbolic with the two constants folded into one.
    match evaluated("x + 1 - 2") {
        Return::Expr(e) => assert_eq!(e.text(), "(x + -1)"),
        other => panic!("expected a symbolic result, got {}", other.text()),
    }
}

#[test]
fn partial_evaluation_folds_on_the_left() {
    match evaluated("1 - x + 2") {
        Return::Expr(e) => assert_eq!(e.text(), "(3 - x)"),
        other => panic!("expected a symbolic result, got {}", other.text()),
    }
}

#[test]
fn partial_evaluation_subtraction_chain() {
    match evaluated("x - 1 - 2") {
        Return::Expr(e) => assert_eq!(e.text(), "(x - 3)"),
        other => panic!("expected a symbolic result, got {}", other.text()),
    }
}

#[test]
fn multiplication_never_rewrites() {
    match evaluated("x * 2 + 1") {
        Return::Expr(e) => assert_eq!(e.text(), "((x * 2) + 1)"),
        other => panic!("expected a symbolic result, got {}", other.text()),
    }
}

#[test]
fn unresolved_identifier_stays() {
    match evaluated("x") {
        Return::Expr(e) => assert_eq!(e.text(), "x"),
        other => panic!("expected a symbolic result, got {}", other.text()),
    }
}

#[test]
fn division_by_zero_is_infinite_not_an_error() {
    assert_eq!(number_of("1 / 0"), Number::PosInf);
    assert_eq!(number_of("0 - 1 / 0"), Number::NegInf);
    assert_eq!(number_of("0 / 0"), Number::NaN);
}

#[test]
fn exact_rational_arithmetic() {
    assert_eq!(number_of("0.1 + 0.2"), Number::Fin { num: 3, den: 10 });
    assert_eq!(number_of("1 / 3"), Number::Fin { num: 1, den: 3 });
    assert_eq!(number_of("50%"), Number::Fin { num: 1, den: 2 });
    assert_eq!(number_of("2 ^ -2"), Number::Fin { num: 1, den: 4 });
    assert_eq!(number_of("2 ^ 0.5"), Number::NaN);
}

#[test]
fn mixed_container_types_fail() {
    // A vector literal mixing numbers and vectors is a type mismatch.
    match run("(1, (2, 3))".to_string()) {
        Err(e) => assert_eq!(e.message(), "expected type number, got vector of number"),
        Ok(r) => panic!("expected a type mismatch, got {}", r.text()),
    }
    assert!(run("(1, 2.0)".to_string()).is_ok());
    assert!(run("{1, (2, 3)}".to_string()).is_err());
}

#[test]
fn vector_broadcast() {
    match evaluated("(1, 2) + 1") {
        Return::Value(v) => assert_eq!(v.text(), "( 2 3 )"),
        other => panic!("expected a value, got {}", other.text()),
    }
}

#[test]
fn broadcast_puts_elements_on_the_left() {
    // With the vector on the right, its elements stand on the left of
    // each recursive application: 10 - (1, 2) is (1-10, 2-10).
    match evaluated("10 - (1, 2)") {
        Return::Value(v) => assert_eq!(v.text(), "( -9 -8 )"),
        other => panic!("expected a value, got {}", other.text()),
    }
}

#[test]
fn set_literal_deduplicates() {
    match evaluated("{1, 2, 2, 1}") {
        Return::Value(v) => assert_eq!(v.text(), "{ 1 2 }"),
        other => panic!("expected a value, got {}", other.text()),
    }
}

#[test]
fn empty_containers_are_nothing() {
    match evaluated("{}") {
        Return::Nothing => {},
        other => panic!("expected nothing, got {}", other.text()),
    }
}

#[test]
fn set_value_equality_ignores_order() {
    let a = match evaluated("{1, 2}") {
        Return::Value(v) => v,
        other => panic!("expected a value, got {}", other.text()),
    };
    let b = match evaluated("{2, 1}") {
        Return::Value(v) => v,
        other => panic!("expected a value, got {}", other.text()),
    };
    assert!(value_eq(&a, &b));
    let c = match evaluated("{1, 3}") {
        Return::Value(v) => v,
        other => panic!("expected a value, got {}", other.text()),
    };
    assert!(!value_eq(&a, &c));
}

#[test]
fn not_a_number_equals_nothing() {
    let a = match evaluated("{0 / 0}") {
        Return::Value(v) => v,
        other => panic!("expected a value, got {}", other.text()),
    };
    assert!(!value_eq(&a, &a));
}

#[test]
fn round_trip_through_literal() {
    // A resolved value, re-expressed as a literal and evaluated, comes
    // back as the same value.
    let v = match evaluated("(1, 2.5)") {
        Return::Value(v) => v,
        other => panic!("expected a value, got {}", other.text()),
    };
    let e = v.expr();
    match vac::eval::eval(&e).expect("evaluates") {
        Return::Value(w) => assert!(value_eq(&v, &w)),
        other => panic!("expected a value, got {}", other.text()),
    }
}

#[test]
fn evaluation_is_repeatable() {
    let a = evaluated("2 ^ 10 - 24");
    let b = evaluated("2 ^ 10 - 24");
    assert_eq!(a.text(), b.text());
    assert_eq!(number_of("2 ^ 10 - 24"), Number::Fin { num: 1000, den: 1 });
}

#[test]
fn absolute_value_semantics() {
    assert_eq!(number_of("|0 - 5|"), Number::Fin { num: 5, den: 1 });
    match evaluated("|x|") {
        Return::Expr(e) => assert_eq!(e.text(), "| x |"),
        other => panic!("expected a symbolic result, got {}", other.text()),
    }
    match evaluated("|(0 - 1, 2)|") {
        Return::Value(v) => assert_eq!(v.text(), "( 1 2 )"),
        other => panic!("expected a value, got {}", other.text()),
    }
}

#[test]
fn evaluation_errors() {
    match run("...".to_string()) {
        Err(e) => assert_eq!(e.message(), "unexpected continuation"),
        Ok(r) => panic!("expected an error, got {}", r.text()),
    }
    match run("+5".to_string()) {
        Err(e) => assert_eq!(e.message(), "illegal unary operator for number '+'"),
        Ok(r) => panic!("expected an error, got {}", r.text()),
    }
    match run("5!".to_string()) {
        Err(e) => assert_eq!(e.message(), "illegal unary operator for number '!'"),
        Ok(r) => panic!("expected an error, got {}", r.text()),
    }
    match run("{1} + 1".to_string()) {
        Err(e) => assert_eq!(e.message(), "cannot '+' the values of type set of number and number"),
        Ok(r) => panic!("expected an error, got {}", r.text()),
    }
    match run("(x, 1)".to_string()) {
        Err(e) => assert_eq!(e.message(), "expected a value, got the expression x"),
        Ok(r) => panic!("expected an error, got {}", r.text()),
    }
}

#[test]
fn out_of_range_is_reported() {
    match run("9223372036854775807 + 1".to_string()) {
        Err(e) => assert_eq!(e.message(), "number out of range"),
        Ok(r) => panic!("expected an error, got {}", r.text()),
    }
}

#[test]
fn rendered_results() {
    assert_eq!(evaluated("1 + 1").text(), "the value 2");
    assert_eq!(evaluated("x + 1").text(), "the expression (x + 1)");
    assert_eq!(evaluated("{}").text(), "nothing");
    assert_eq!(evaluated("1 / 0").text(), "the value inf");
    assert_eq!(evaluated("0 - 1 / 0").text(), "the value -inf");
    assert_eq!(evaluated("0 / 0").text(), "the value NaN");
}
