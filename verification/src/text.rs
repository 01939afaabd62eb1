//! Canonical textual renderings: every token, expression, value, type
//! and result has one, specified exactly as a character sequence.
use crate::eval::EvalError;
use crate::eval::EvalErrorV;
use crate::eval::Return;
use crate::eval::ReturnV;
use crate::expr::Expr;
use crate::expr::ExprV;
use crate::expr::exprs_view;
use crate::expr::lemma_exprs_view;
use crate::lexer::LexError;
use crate::number::Number;
use crate::number::iabs;
use crate::parser::ParseError;
use crate::token::Token;
use crate::token::TokenV;
use crate::value::Type;
use crate::value::Value;
use crate::value::ValueV;
use crate::value::lemma_vals_view;
use crate::value::vals_view;
use crate::value::value_view;
use vstd::prelude::*;
use vstd::string::StringExecFns;

verus! {

broadcast use vstd::std_specs::vec::group_vec_axioms, vstd::seq::group_seq_axioms;

/// The digit character of one decimal digit.
pub open spec fn digit_char(d: nat) -> char {
    if d == 0 {
        '0'
    } else if d == 1 {
        '1'
    } else if d == 2 {
        '2'
    } else if d == 3 {
        '3'
    } else if d == 4 {
        '4'
    } else if d == 5 {
        '5'
    } else if d == 6 {
        '6'
    } else if d == 7 {
        '7'
    } else if d == 8 {
        '8'
    } else {
        '9'
    }
}

/// The decimal digits of a natural number, most significant first.
pub open spec fn dec_digits(n: nat) -> Seq<char>
    decreases n,
{
    if n < 10 {
        seq![digit_char(n)]
    } else {
        dec_digits(n / 10).push(digit_char(n % 10))
    }
}

/// The decimal text of an integer, with a leading minus sign when it is
/// negative.
pub open spec fn int_text(v: int) -> Seq<char> {
    if v < 0 {
        seq!['-'] + dec_digits(iabs(v) as nat)
    } else {
        dec_digits(v as nat)
    }
}

/// The text of a number: plain decimal for a whole value, a fraction
/// `numerator/denominator` otherwise, and the special spellings of the
/// special points.
pub open spec fn num_text(n: Number) -> Seq<char> {
    match n {
        Number::Fin { num, den } => if den == 1 {
            int_text(num as int)
        } else {
            int_text(num as int) + seq!['/'] + dec_digits(den as nat)
        },
        Number::PosInf => "inf"@,
        Number::NegInf => "-inf"@,
        Number::NaN => "NaN"@,
    }
}

/// The text of a token.
pub open spec fn token_text(t: TokenV) -> Seq<char> {
    match t {
        TokenV::ID(s) => s,
        TokenV::Int(v) => int_text(v as int),
        TokenV::Float(n) => num_text(n),
        TokenV::EvalIn => "("@,
        TokenV::EvalOut => ")"@,
        TokenV::SetIn => "{"@,
        TokenV::SetOut => "}"@,
        TokenV::Seperator => ","@,
        TokenV::Represent => ":"@,
        TokenV::Address => "@"@,
        TokenV::Hash => "#"@,
        TokenV::Percent => "%"@,
        TokenV::Pipe => "|"@,
        TokenV::Continue => "..."@,
        TokenV::Add => "+"@,
        TokenV::Sub => "-"@,
        TokenV::Mult => "*"@,
        TokenV::Div => "/"@,
        TokenV::Power => "^"@,
        TokenV::Fraction => "!"@,
        TokenV::Not => "~"@,
        TokenV::Equal => "="@,
        TokenV::Store => "<-"@,
        TokenV::Into => "->"@,
        TokenV::LessEqual => "<="@,
        TokenV::GreaterEqual => ">="@,
        TokenV::Less => "<"@,
        TokenV::Greater => ">"@,
    }
}

/// The fully parenthesized text of an expression.
pub open spec fn expr_text(e: ExprV) -> Seq<char>
    decreases e,
{
    match e {
        ExprV::ID(s) => s,
        ExprV::Int(v) => int_text(v as int),
        ExprV::Float(n) => num_text(n),
        ExprV::Continue => "..."@,
        ExprV::BinaryOperation { left, right, op } => seq!['('] + expr_text(*left) + seq![' ']
            + token_text(op) + seq![' '] + expr_text(*right) + seq![')'],
        ExprV::UnaryOperation { expr, op } => seq!['('] + token_text(op) + seq![' '] + expr_text(
            *expr,
        ) + seq![')'],
        ExprV::UnaryOperationRight { expr, op } => seq!['('] + expr_text(*expr) + seq![' ']
            + token_text(op) + seq![')'],
        ExprV::Vector(es) => "( "@ + exprs_join(es) + " )"@,
        ExprV::SetLit(es) => "{ "@ + exprs_join(es) + " }"@,
        ExprV::Absolute(inner) => "| "@ + expr_text(*inner) + " |"@,
    }
}

/// The texts of a sequence of expressions, joined by single spaces.
pub open spec fn exprs_join(es: Seq<ExprV>) -> Seq<char>
    decreases es,
{
    if es.len() == 0 {
        Seq::empty()
    } else if es.len() == 1 {
        expr_text(es[0])
    } else {
        expr_text(es[0]) + seq![' '] + exprs_join(es.drop_first())
    }
}

/// The text of a type.
pub open spec fn type_text(t: Type) -> Seq<char>
    decreases t,
{
    match t {
        Type::Number => "number"@,
        Type::Vector(inner) => "vector of "@ + type_text(*inner),
        Type::SetOf(inner) => "set of "@ + type_text(*inner),
    }
}

/// The text of a value.
pub open spec fn value_text(v: ValueV) -> Seq<char>
    decreases v,
{
    match v {
        ValueV::Number(n) => num_text(n),
        ValueV::Vector(vs, t) => "( "@ + vals_join(vs) + " )"@,
        ValueV::SetVal(vs, t) => "{ "@ + vals_join(vs) + " }"@,
    }
}

/// The texts of a sequence of values, joined by single spaces.
pub open spec fn vals_join(vs: Seq<ValueV>) -> Seq<char>
    decreases vs,
{
    if vs.len() == 0 {
        Seq::empty()
    } else if vs.len() == 1 {
        value_text(vs[0])
    } else {
        value_text(vs[0]) + seq![' '] + vals_join(vs.drop_first())
    }
}

/// The text of an evaluation result.
pub open spec fn return_text(r: ReturnV) -> Seq<char> {
    match r {
        ReturnV::Value(v) => "the value "@ + value_text(v),
        ReturnV::Expr(e) => "the expression "@ + expr_text(e),
        ReturnV::Nothing => "nothing"@,
    }
}

/// One decimal digit as borrowed text.
fn digit_str(d: u64) -> (r: &'static str)
    requires
        d < 10,
    ensures
        r@ == seq![digit_char(d as nat)],
{
    proof {
        reveal_strlit("0");
        reveal_strlit("1");
        reveal_strlit("2");
        reveal_strlit("3");
        reveal_strlit("4");
        reveal_strlit("5");
        reveal_strlit("6");
        reveal_strlit("7");
        reveal_strlit("8");
        reveal_strlit("9");
    }
    let r = if d == 0 {
        "0"
    } else if d == 1 {
        "1"
    } else if d == 2 {
        "2"
    } else if d == 3 {
        "3"
    } else if d == 4 {
        "4"
    } else if d == 5 {
        "5"
    } else if d == 6 {
        "6"
    } else if d == 7 {
        "7"
    } else if d == 8 {
        "8"
    } else {
        "9"
    };
    proof {
        assert(r@ =~= seq![digit_char(d as nat)]);
    }
    r
}

/// Append the decimal digits of `n`.
fn push_u64(n: u64, out: &mut String)
    ensures
        final(out)@ == old(out)@ + dec_digits(n as nat),
    decreases n,
{
    if n < 10 {
        out.append(digit_str(n));
        proof {
            assert(final(out)@ =~= old(out)@ + dec_digits(n as nat));
        }
    } else {
        push_u64(n / 10, out);
        out.append(digit_str(n % 10));
        proof {
            assert(final(out)@ =~= old(out)@ + dec_digits(n as nat));
        }
    }
}

/// Append the decimal text of `v`.
fn push_i64(v: i64, out: &mut String)
    ensures
        final(out)@ == old(out)@ + int_text(v as int),
{
    proof {
        reveal_strlit("-");
    }
    if v < 0 {
        out.append("-");
        let m: u64 = (-(v as i128)) as u64;
        push_u64(m, out);
        proof {
            assert(final(out)@ =~= old(out)@ + int_text(v as int));
        }
    } else {
        push_u64(v as u64, out);
    }
}

/// Append the text of a number.
fn push_num(n: Number, out: &mut String)
    ensures
        final(out)@ == old(out)@ + num_text(n),
{
    proof {
        reveal_strlit("/");
        reveal_strlit("inf");
        reveal_strlit("-inf");
        reveal_strlit("NaN");
    }
    match n {
        Number::Fin { num, den } => {
            if den == 1 {
                push_i64(num, out);
            } else {
                push_i64(num, out);
                out.append("/");
                push_u64(den, out);
                proof {
                    assert(final(out)@ =~= old(out)@ + num_text(n));
                }
            }
        },
        Number::PosInf => out.append("inf"),
        Number::NegInf => out.append("-inf"),
        Number::NaN => out.append("NaN"),
    }
}

impl Token {
    /// The canonical text of this token.
    pub fn text(&self) -> (r: String)
        ensures
            r@ == token_text(self@),
    {
        let mut out = String::new();
        push_token(self, &mut out);
        proof {
            assert(out@ =~= token_text(self@));
        }
        out
    }
}

/// Append the text of a token.
fn push_token(t: &Token, out: &mut String)
    ensures
        final(out)@ == old(out)@ + token_text(t@),
{
    match t {
        Token::ID(s) => out.append(s.as_str()),
        Token::Int(v) => push_i64(*v, out),
        Token::Float(n) => push_num(*n, out),
        Token::EvalIn => {
            proof {
                reveal_strlit("(");
            }
            out.append("(")
        },
        Token::EvalOut => {
            proof {
                reveal_strlit(")");
            }
            out.append(")")
        },
        Token::SetIn => {
            proof {
                reveal_strlit("{");
            }
            out.append("{")
        },
        Token::SetOut => {
            proof {
                reveal_strlit("}");
            }
            out.append("}")
        },
        Token::Seperator => {
            proof {
                reveal_strlit(",");
            }
            out.append(",")
        },
        Token::Represent => {
            proof {
                reveal_strlit(":");
            }
            out.append(":")
        },
        Token::Address => {
            proof {
                reveal_strlit("@");
            }
            out.append("@")
        },
        Token::Hash => {
            proof {
                reveal_strlit("#");
            }
            out.append("#")
        },
        Token::Percent => {
            proof {
                reveal_strlit("%");
            }
            out.append("%")
        },
        Token::Pipe => {
            proof {
                reveal_strlit("|");
            }
            out.append("|")
        },
        Token::Continue => {
            proof {
                reveal_strlit("...");
            }
            out.append("...")
        },
        Token::Add => {
            proof {
                reveal_strlit("+");
            }
            out.append("+")
        },
        Token::Sub => {
            proof {
                reveal_strlit("-");
            }
            out.append("-")
        },
        Token::Mult => {
            proof {
                reveal_strlit("*");
            }
            out.append("*")
        },
        Token::Div => {
            proof {
                reveal_strlit("/");
            }
            out.append("/")
        },
        Token::Power => {
            proof {
                reveal_strlit("^");
            }
            out.append("^")
        },
        Token::Fraction => {
            proof {
                reveal_strlit("!");
            }
            out.append("!")
        },
        Token::Not => {
            proof {
                reveal_strlit("~");
            }
            out.append("~")
        },
        Token::Equal => {
            proof {
                reveal_strlit("=");
            }
            out.append("=")
        },
        Token::Store => {
            proof {
                reveal_strlit("<-");
            }
            out.append("<-")
        },
        Token::Into => {
            proof {
                reveal_strlit("->");
            }
            out.append("->")
        },
        Token::LessEqual => {
            proof {
                reveal_strlit("<=");
            }
            out.append("<=")
        },
        Token::GreaterEqual => {
            proof {
                reveal_strlit(">=");
            }
            out.append(">=")
        },
        Token::Less => {
            proof {
                reveal_strlit("<");
            }
            out.append("<")
        },
        Token::Greater => {
            proof {
                reveal_strlit(">");
            }
            out.append(">")
        },
    }
}

/// Append the text of an expression.
fn push_expr(e: &Expr, out: &mut String)
    ensures
        final(out)@ == old(out)@ + expr_text(e@),
    decreases *e,
{
    proof {
        reveal_strlit("(");
        reveal_strlit(")");
        reveal_strlit(" ");
        reveal_strlit("...");
        reveal_strlit("( ");
        reveal_strlit(" )");
        reveal_strlit("{ ");
        reveal_strlit(" }");
        reveal_strlit("| ");
        reveal_strlit(" |");
    }
    match e {
        Expr::ID(s) => out.append(s.as_str()),
        Expr::Int(v) => push_i64(*v, out),
        Expr::Float(n) => push_num(*n, out),
        Expr::Continue => out.append("..."),
        Expr::BinaryOperation { left, right, op } => {
            out.append("(");
            push_expr(left, out);
            out.append(" ");
            push_token(op, out);
            out.append(" ");
            push_expr(right, out);
            out.append(")");
            proof {
                assert(final(out)@ =~= old(out)@ + expr_text(e@));
            }
        },
        Expr::UnaryOperation { expr, op } => {
            out.append("(");
            push_token(op, out);
            out.append(" ");
            push_expr(expr, out);
            out.append(")");
            proof {
                assert(final(out)@ =~= old(out)@ + expr_text(e@));
            }
        },
        Expr::UnaryOperationRight { expr, op } => {
            out.append("(");
            push_expr(expr, out);
            out.append(" ");
            push_token(op, out);
            out.append(")");
            proof {
                assert(final(out)@ =~= old(out)@ + expr_text(e@));
            }
        },
        Expr::Vector(es) => {
            out.append("( ");
            push_exprs(es, out);
            out.append(" )");
            proof {
                assert(final(out)@ =~= old(out)@ + expr_text(e@));
            }
        },
        Expr::SetLit(es) => {
            out.append("{ ");
            push_exprs(es, out);
            out.append(" }");
            proof {
                assert(final(out)@ =~= old(out)@ + expr_text(e@));
            }
        },
        Expr::Absolute(inner) => {
            out.append("| ");
            push_expr(inner, out);
            out.append(" |");
            proof {
                assert(final(out)@ =~= old(out)@ + expr_text(e@));
            }
        },
    }
}

/// Append the space-joined texts of a vector of expressions.
fn push_exprs(es: &Vec<Expr>, out: &mut String)
    ensures
        final(out)@ == old(out)@ + exprs_join(exprs_view(es@)),
    decreases *es,
{
    proof {
        reveal_strlit(" ");
        lemma_exprs_view(es@);
    }
    let ghost esv = exprs_view(es@);
    proof {
        assert(old(out)@ + join_prefix(esv, 0) =~= old(out)@);
        assert(" "@ =~= seq![' ']);
    }
    let mut i: usize = 0;
    while i < es.len()
        invariant
            i <= es@.len(),
            esv == exprs_view(es@),
            esv.len() == es@.len(),
            forall|j: int| 0 <= j < es@.len() ==> #[trigger] esv[j] == crate::expr::expr_view(
                es@[j],
            ),
            " "@ == seq![' '],
            out@ == old(out)@ + join_prefix(esv, i as int),
        decreases es@.len() - i,
    {
        if i > 0 {
            out.append(" ");
        }
        push_expr(&es[i], out);
        proof {
            lemma_join_prefix_step(esv, i as int);
            assert(out@ =~= old(out)@ + join_prefix(esv, i as int + 1));
        }
        i = i + 1;
    }
    proof {
        lemma_join_prefix_all(esv);
    }
}

/// The join of the first `k` texts.
spec fn join_prefix(es: Seq<ExprV>, k: int) -> Seq<char>
    decreases k,
{
    if k <= 0 {
        Seq::empty()
    } else if k == 1 {
        expr_text(es[0])
    } else {
        join_prefix(es, k - 1) + seq![' '] + expr_text(es[k - 1])
    }
}

proof fn lemma_join_prefix_step(es: Seq<ExprV>, i: int)
    requires
        0 <= i < es.len(),
    ensures
        i == 0 ==> join_prefix(es, 1) == expr_text(es[0]),
        i > 0 ==> join_prefix(es, i + 1) == join_prefix(es, i) + seq![' '] + expr_text(es[i]),
{
}

proof fn lemma_join_prefix_all(es: Seq<ExprV>)
    ensures
        join_prefix(es, es.len() as int) == exprs_join(es),
    decreases es.len(),
{
    let n = es.len() as int;
    if n == 0 {
        assert(exprs_join(es) =~= Seq::<char>::empty());
    } else if n == 1 {
    } else {
        lemma_join_prefix_all(es.drop_first());
        lemma_join_shift(es, n);
    }
}

proof fn lemma_join_shift(es: Seq<ExprV>, k: int)
    requires
        es.len() >= 2,
        2 <= k <= es.len(),
    ensures
        join_prefix(es, k) == expr_text(es[0]) + seq![' '] + join_prefix(es.drop_first(), k - 1),
    decreases k,
{
    if k == 2 {
        assert(es.drop_first()[0] == es[1]);
        assert(join_prefix(es, 1) == expr_text(es[0]));
        assert(join_prefix(es.drop_first(), 1) == expr_text(es.drop_first()[0]));
        assert(join_prefix(es, 2) =~= expr_text(es[0]) + seq![' '] + join_prefix(
            es.drop_first(),
            1,
        ));
    } else {
        lemma_join_shift(es, k - 1);
        let d = es.drop_first();
        assert(d[k - 2] == es[k - 1]);
        assert(join_prefix(es, k) == join_prefix(es, k - 1) + seq![' '] + expr_text(es[k - 1]));
        assert(join_prefix(d, k - 1) == join_prefix(d, k - 2) + seq![' '] + expr_text(d[k - 2]));
        assert(join_prefix(es, k - 1) == expr_text(es[0]) + seq![' '] + join_prefix(d, k - 2));
        assert(join_prefix(es, k) =~= expr_text(es[0]) + seq![' '] + join_prefix(d, k - 1));
    }
}

impl Expr {
    /// The canonical, fully parenthesized text of this expression.
    pub fn text(&self) -> (r: String)
        ensures
            r@ == expr_text(self@),
    {
        let mut out = String::new();
        push_expr(self, &mut out);
        proof {
            assert(out@ =~= expr_text(self@));
        }
        out
    }
}

/// Append the text of a type.
fn push_type(t: &Type, out: &mut String)
    ensures
        final(out)@ == old(out)@ + type_text(*t),
    decreases *t,
{
    proof {
        reveal_strlit("number");
        reveal_strlit("vector of ");
        reveal_strlit("set of ");
    }
    match t {
        Type::Number => out.append("number"),
        Type::Vector(inner) => {
            out.append("vector of ");
            push_type(inner, out);
            proof {
                assert(final(out)@ =~= old(out)@ + type_text(*t));
            }
        },
        Type::SetOf(inner) => {
            out.append("set of ");
            push_type(inner, out);
            proof {
                assert(final(out)@ =~= old(out)@ + type_text(*t));
            }
        },
    }
}

impl Type {
    /// The canonical text of this type.
    pub fn text(&self) -> (r: String)
        ensures
            r@ == type_text(*self),
    {
        let mut out = String::new();
        push_type(self, &mut out);
        proof {
            assert(out@ =~= type_text(*self));
        }
        out
    }
}

/// Append the text of a value.
fn push_value(v: &Value, out: &mut String)
    ensures
        final(out)@ == old(out)@ + value_text(v@),
    decreases *v,
{
    proof {
        reveal_strlit("( ");
        reveal_strlit(" )");
        reveal_strlit("{ ");
        reveal_strlit(" }");
    }
    match v {
        Value::Number(n) => push_num(*n, out),
        Value::Vector(vs, t) => {
            out.append("( ");
            push_values(vs, out);
            out.append(" )");
            proof {
                assert(final(out)@ =~= old(out)@ + value_text(v@));
            }
        },
        Value::SetVal(vs, t) => {
            out.append("{ ");
            push_values(vs, out);
            out.append(" }");
            proof {
                assert(final(out)@ =~= old(out)@ + value_text(v@));
            }
        },
    }
}

/// Append the space-joined texts of a vector of values.
fn push_values(vs: &Vec<Value>, out: &mut String)
    ensures
        final(out)@ == old(out)@ + vals_join(vals_view(vs@)),
    decreases *vs,
{
    proof {
        reveal_strlit(" ");
        lemma_vals_view(vs@);
    }
    let ghost vsv = vals_view(vs@);
    proof {
        assert(old(out)@ + vjoin_prefix(vsv, 0) =~= old(out)@);
        assert(" "@ =~= seq![' ']);
    }
    let mut i: usize = 0;
    while i < vs.len()
        invariant
            i <= vs@.len(),
            vsv == vals_view(vs@),
            vsv.len() == vs@.len(),
            forall|j: int| 0 <= j < vs@.len() ==> #[trigger] vsv[j] == value_view(vs@[j]),
            " "@ == seq![' '],
            out@ == old(out)@ + vjoin_prefix(vsv, i as int),
        decreases vs@.len() - i,
    {
        if i > 0 {
            out.append(" ");
        }
        push_value(&vs[i], out);
        proof {
            lemma_vjoin_prefix_step(vsv, i as int);
            assert(out@ =~= old(out)@ + vjoin_prefix(vsv, i as int + 1));
        }
        i = i + 1;
    }
    proof {
        lemma_vjoin_prefix_all(vsv);
    }
}

/// The join of the first `k` value texts.
spec fn vjoin_prefix(vs: Seq<ValueV>, k: int) -> Seq<char>
    decreases k,
{
    if k <= 0 {
        Seq::empty()
    } else if k == 1 {
        value_text(vs[0])
    } else {
        vjoin_prefix(vs, k - 1) + seq![' '] + value_text(vs[k - 1])
    }
}

proof fn lemma_vjoin_prefix_step(vs: Seq<ValueV>, i: int)
    requires
        0 <= i < vs.len(),
    ensures
        i == 0 ==> vjoin_prefix(vs, 1) == value_text(vs[0]),
        i > 0 ==> vjoin_prefix(vs, i + 1) == vjoin_prefix(vs, i) + seq![' '] + value_text(vs[i]),
{
}

proof fn lemma_vjoin_prefix_all(vs: Seq<ValueV>)
    ensures
        vjoin_prefix(vs, vs.len() as int) == vals_join(vs),
    decreases vs.len(),
{
    let n = vs.len() as int;
    if n == 0 {
        assert(vals_join(vs) =~= Seq::<char>::empty());
    } else if n == 1 {
    } else {
        lemma_vjoin_prefix_all(vs.drop_first());
        lemma_vjoin_shift(vs, n);
    }
}

proof fn lemma_vjoin_shift(vs: Seq<ValueV>, k: int)
    requires
        vs.len() >= 2,
        2 <= k <= vs.len(),
    ensures
        vjoin_prefix(vs, k) == value_text(vs[0]) + seq![' '] + vjoin_prefix(vs.drop_first(), k - 1),
    decreases k,
{
    if k == 2 {
        assert(vs.drop_first()[0] == vs[1]);
        assert(vjoin_prefix(vs, 1) == value_text(vs[0]));
        assert(vjoin_prefix(vs.drop_first(), 1) == value_text(vs.drop_first()[0]));
        assert(vjoin_prefix(vs, 2) =~= value_text(vs[0]) + seq![' '] + vjoin_prefix(
            vs.drop_first(),
            1,
        ));
    } else {
        lemma_vjoin_shift(vs, k - 1);
        let d = vs.drop_first();
        assert(d[k - 2] == vs[k - 1]);
        assert(vjoin_prefix(vs, k) == vjoin_prefix(vs, k - 1) + seq![' '] + value_text(vs[k - 1]));
        assert(vjoin_prefix(d, k - 1) == vjoin_prefix(d, k - 2) + seq![' '] + value_text(d[k - 2]));
        assert(vjoin_prefix(vs, k - 1) == value_text(vs[0]) + seq![' '] + vjoin_prefix(d, k - 2));
        assert(vjoin_prefix(vs, k) =~= value_text(vs[0]) + seq![' '] + vjoin_prefix(d, k - 1));
    }
}

impl Value {
    /// The canonical text of this value.
    pub fn text(&self) -> (r: String)
        ensures
            r@ == value_text(self@),
    {
        let mut out = String::new();
        push_value(self, &mut out);
        proof {
            assert(out@ =~= value_text(self@));
        }
        out
    }
}

impl Return {
    /// The canonical text of this result.
    pub fn text(&self) -> (r: String)
        ensures
            r@ == return_text(self@),
    {
        proof {
            reveal_strlit("the value ");
            reveal_strlit("the expression ");
            reveal_strlit("nothing");
        }
        let mut out = String::new();
        match self {
            Return::Value(v) => {
                out.append("the value ");
                push_value(v, &mut out);
            },
            Return::Expr(e) => {
                out.append("the expression ");
                push_expr(e, &mut out);
            },
            Return::Nothing => {
                out.append("nothing");
            },
        }
        proof {
            assert(out@ =~= return_text(self@));
        }
        out
    }
}

/// The message of a lexical error.
pub open spec fn lex_error_text(text: Seq<char>) -> Seq<char> {
    "unexpected "@ + text
}

impl LexError {
    /// The single-line message of this error.
    pub fn message(&self) -> (r: String)
        ensures
            self matches LexError::Unexpected { text } ==> r@ == lex_error_text(text@),
    {
        proof {
            reveal_strlit("unexpected ");
        }
        let mut out = String::new();
        match self {
            LexError::Unexpected { text } => {
                out.append("unexpected ");
                out.append(text.as_str());
            },
        }
        proof {
            assert forall|t: Seq<char>| true implies ("unexpected "@ + t == lex_error_text(t)) by {}
        }
        out
    }
}

/// The message of a parse error.
pub open spec fn parse_error_text(e: crate::parser::ParseError) -> Seq<char> {
    match e {
        ParseError::UnexpectedToken { token } => "unexpected token '"@ + token_text(token@) + "'"@,
        ParseError::UnexpectedEnd { expected } => match expected {
            Some(t) => "unexpected end, expected token '"@ + token_text(t@) + "'"@,
            None => "unexpected end of input"@,
        },
        ParseError::Expected { expected, got } => "expected token '"@ + token_text(expected@)
            + "', got '"@ + token_text(got@) + "'"@,
        ParseError::Trailing { token } => "cannot handle '"@ + token_text(token@)
            + "' at the end of input"@,
    }
}

impl ParseError {
    /// The single-line message of this error.
    pub fn message(&self) -> (r: String)
        ensures
            r@ == parse_error_text(*self),
    {
        proof {
            reveal_strlit("unexpected token '");
            reveal_strlit("'");
            reveal_strlit("unexpected end, expected token '");
            reveal_strlit("unexpected end of input");
            reveal_strlit("expected token '");
            reveal_strlit("', got '");
            reveal_strlit("cannot handle '");
            reveal_strlit("' at the end of input");
        }
        let mut out = String::new();
        match self {
            ParseError::UnexpectedToken { token } => {
                out.append("unexpected token '");
                push_token(token, &mut out);
                out.append("'");
            },
            ParseError::UnexpectedEnd { expected } => match expected {
                Some(t) => {
                    out.append("unexpected end, expected token '");
                    push_token(t, &mut out);
                    out.append("'");
                },
                None => {
                    out.append("unexpected end of input");
                },
            },
            ParseError::Expected { expected, got } => {
                out.append("expected token '");
                push_token(expected, &mut out);
                out.append("', got '");
                push_token(got, &mut out);
                out.append("'");
            },
            ParseError::Trailing { token } => {
                out.append("cannot handle '");
                push_token(token, &mut out);
                out.append("' at the end of input");
            },
        }
        proof {
            assert(out@ =~= parse_error_text(*self));
        }
        out
    }
}

/// The message of an evaluation error.
pub open spec fn eval_error_text(e: EvalErrorV) -> Seq<char> {
    match e {
        EvalErrorV::IllegalBinaryOp { op } => "illegal binary operator '"@ + token_text(op) + "'"@,
        EvalErrorV::IllegalUnaryOp { op } => "illegal unary operator for number '"@ + token_text(op)
            + "'"@,
        EvalErrorV::TypeMismatch { expected, got } => "expected type "@ + type_text(expected)
            + ", got "@ + type_text(got),
        EvalErrorV::BinaryTypeError { op, left, right } => "cannot '"@ + token_text(op)
            + "' the values of type "@ + type_text(left) + " and "@ + type_text(right),
        EvalErrorV::ExpectedValue { got } => "expected a value, got "@ + return_text(got),
        EvalErrorV::UnexpectedContinue => "unexpected continuation"@,
        EvalErrorV::OutOfRange => "number out of range"@,
    }
}

impl EvalError {
    /// The single-line message of this error.
    pub fn message(&self) -> (r: String)
        ensures
            r@ == eval_error_text(self@),
    {
        proof {
            reveal_strlit("illegal binary operator '");
            reveal_strlit("illegal unary operator for number '");
            reveal_strlit("'");
            reveal_strlit("expected type ");
            reveal_strlit(", got ");
            reveal_strlit("cannot '");
            reveal_strlit("' the values of type ");
            reveal_strlit(" and ");
            reveal_strlit("expected a value, got ");
            reveal_strlit("unexpected continuation");
            reveal_strlit("number out of range");
        }
        let mut out = String::new();
        match self {
            EvalError::IllegalBinaryOp { op } => {
                out.append("illegal binary operator '");
                push_token(op, &mut out);
                out.append("'");
            },
            EvalError::IllegalUnaryOp { op } => {
                out.append("illegal unary operator for number '");
                push_token(op, &mut out);
                out.append("'");
            },
            EvalError::TypeMismatch { expected, got } => {
                out.append("expected type ");
                push_type(expected, &mut out);
                out.append(", got ");
                push_type(got, &mut out);
            },
            EvalError::BinaryTypeError { op, left, right } => {
                out.append("cannot '");
                push_token(op, &mut out);
                out.append("' the values of type ");
                push_type(left, &mut out);
                out.append(" and ");
                push_type(right, &mut out);
            },
            EvalError::ExpectedValue { got } => {
                out.append("expected a value, got ");
                match got {
                    Return::Value(v) => {
                        out.append("the value ");
                        push_value(v, &mut out);
                    },
                    Return::Expr(e) => {
                        out.append("the expression ");
                        push_expr(e, &mut out);
                    },
                    Return::Nothing => {
                        out.append("nothing");
                    },
                }
            },
            EvalError::UnexpectedContinue => {
                out.append("unexpected continuation");
            },
            EvalError::OutOfRange => {
                out.append("number out of range");
            },
        }
        proof {
            reveal_strlit("the value ");
            reveal_strlit("the expression ");
            reveal_strlit("nothing");
            assert(out@ =~= eval_error_text(self@));
        }
        out
    }
}

} // verus!
