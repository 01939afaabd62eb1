//! The lexer: one left-to-right pass that greedily matches the longest
//! token at each position, skips whitespace, and stops at the first
//! slice no rule accepts. A numeric literal whose value does not fit the
//! machine word is reported as unexpected input, as is any unknown
//! character. The whole pass is specified by `spec_lex`, a recursive
//! function over the input characters that the contract of `lex` equates
//! with what the pass returns.
use crate::number::Number;
use crate::parser::toks_valid;
use crate::parser::toks_view;
use crate::token::Token;
use crate::token::TokenV;
use crate::token::tok_valid;
use vstd::prelude::*;
use vstd::string::StrSliceExecFns;

verus! {

broadcast use vstd::std_specs::vec::group_vec_axioms, vstd::seq::group_seq_axioms;

/// The failure of lexing: the slice of input no rule accepts.
#[derive(Debug)]
pub enum LexError {
    Unexpected { text: String },
}

/// Whether a character is insignificant whitespace.
pub open spec fn spec_is_ws(c: char) -> bool {
    c == ' ' || c == '\t' || c == '\n' || c == '\r' || c == '\u{c}'
}

/// Whether a character is a decimal digit.
pub open spec fn spec_is_digit(c: char) -> bool {
    48 <= c as u32 <= 57
}

/// Whether a character can start an identifier.
pub open spec fn spec_is_ident_start(c: char) -> bool {
    (65 <= c as u32 <= 90) || (97 <= c as u32 <= 122) || c as u32 == 95
}

/// Whether a character can continue an identifier.
pub open spec fn spec_is_ident_part(c: char) -> bool {
    spec_is_ident_start(c) || spec_is_digit(c)
}

/// The first position at or after `j` whose character cannot continue an
/// identifier, or the end of the input.
pub open spec fn ident_end(s: Seq<char>, j: int) -> int
    decreases s.len() - j,
{
    if j < s.len() && spec_is_ident_part(s[j]) {
        ident_end(s, j + 1)
    } else {
        j
    }
}

/// The first position at or after `j` whose character is no digit, or the
/// end of the input.
pub open spec fn digit_end(s: Seq<char>, j: int) -> int
    decreases s.len() - j,
{
    if j < s.len() && spec_is_digit(s[j]) {
        digit_end(s, j + 1)
    } else {
        j
    }
}

/// The numeric value of a digit character.
pub open spec fn dval(c: char) -> int {
    c as u32 - 48
}

/// The value of the digit run from `i` up to `j`, read in base ten.
pub open spec fn digits_val(s: Seq<char>, i: int, j: int) -> int
    decreases j - i,
{
    if j <= i {
        0
    } else {
        digits_val(s, i, j - 1) * 10 + dval(s[j - 1])
    }
}

/// Ten to the power `k`.
pub open spec fn pow10_spec(k: nat) -> int
    decreases k,
{
    if k == 0 {
        1
    } else {
        10 * pow10_spec((k - 1) as nat)
    }
}

/// A power of ten is at least one.
pub proof fn lemma_pow10_pos(k: nat)
    ensures
        pow10_spec(k) >= 1,
    decreases k,
{
    if k > 0 {
        lemma_pow10_pos((k - 1) as nat);
    }
}

/// Powers of ten grow with the exponent.
pub proof fn lemma_pow10_mono(a: nat, b: nat)
    requires
        a <= b,
    ensures
        pow10_spec(a) <= pow10_spec(b),
    decreases b,
{
    if a < b {
        lemma_pow10_mono(a, (b - 1) as nat);
        lemma_pow10_pos((b - 1) as nat);
    }
}

/// The scans stay inside the input and pass digits only.
pub proof fn lemma_scan_bounds(s: Seq<char>, j: int)
    requires
        0 <= j <= s.len(),
    ensures
        j <= ident_end(s, j) <= s.len(),
        j <= digit_end(s, j) <= s.len(),
        forall|m: int| j <= m < digit_end(s, j) ==> spec_is_digit(#[trigger] s[m]),
    decreases s.len() - j,
{
    if j < s.len() {
        lemma_scan_bounds(s, j + 1);
    }
}

/// A run of digits is non-negative and smaller than ten to its length.
pub proof fn lemma_digits_val_bound(s: Seq<char>, a: int, b: int)
    requires
        a <= b,
        forall|m: int| a <= m < b ==> spec_is_digit(#[trigger] s[m]),
    ensures
        0 <= digits_val(s, a, b) < pow10_spec((b - a) as nat),
    decreases b - a,
{
    if b > a {
        lemma_digits_val_bound(s, a, b - 1);
        assert(spec_is_digit(s[b - 1]));
        assert(pow10_spec((b - a) as nat) == 10 * pow10_spec((b - a - 1) as nat));
    }
}

/// The token rule for a position that starts with a digit: the digit run,
/// then, when a dot with another digit follows, the fractional run; the
/// literal is refused where its denominator leaves the machine word or its
/// scaled numerator leaves the signed word.
pub open spec fn num_step(s: Seq<char>, i: int) -> Result<(TokenV, int), Seq<char>> {
    let j = digit_end(s, i);
    if j < s.len() && s[j] == '.' && j + 1 < s.len() && spec_is_digit(s[j + 1]) {
        let k = digit_end(s, j + 1);
        let den = pow10_spec((k - (j + 1)) as nat);
        let num = digits_val(s, i, j) * den + digits_val(s, j + 1, k);
        if den <= u64::MAX && num <= i64::MAX {
            Ok((TokenV::Float(Number::Fin { num: num as i64, den: den as u64 }), k))
        } else {
            Err(s.subrange(i, k))
        }
    } else {
        if digits_val(s, i, j) <= i64::MAX {
            Ok((TokenV::Int(digits_val(s, i, j) as i64), j))
        } else {
            Err(s.subrange(i, j))
        }
    }
}

/// The token rule for a position that starts with a dot: three dots make
/// the continuation mark, a following digit run makes a leading-dot
/// number, anything else is refused.
pub open spec fn dot_step(s: Seq<char>, i: int) -> Result<(TokenV, int), Seq<char>> {
    if i + 2 < s.len() && s[i + 1] == '.' && s[i + 2] == '.' {
        Ok((TokenV::Continue, i + 3))
    } else if i + 1 < s.len() && spec_is_digit(s[i + 1]) {
        let k = digit_end(s, i + 1);
        let den = pow10_spec((k - (i + 1)) as nat);
        let num = digits_val(s, i + 1, k);
        if den <= u64::MAX && num <= i64::MAX {
            Ok((TokenV::Float(Number::Fin { num: num as i64, den: den as u64 }), k))
        } else {
            Err(s.subrange(i, k))
        }
    } else {
        Err(s.subrange(i, i + 1))
    }
}

/// The longest token at a non-whitespace position `i`, with the position
/// just past it, or the refused slice. Two-character operators win over
/// their one-character prefixes by being tried first.
pub open spec fn lex_step(s: Seq<char>, i: int) -> Result<(TokenV, int), Seq<char>> {
    let c = s[i];
    if spec_is_ident_start(c) {
        Ok((TokenV::ID(s.subrange(i, ident_end(s, i + 1))), ident_end(s, i + 1)))
    } else if spec_is_digit(c) {
        num_step(s, i)
    } else if c == '.' {
        dot_step(s, i)
    } else if c == '<' {
        if i + 1 < s.len() && s[i + 1] == '=' {
            Ok((TokenV::LessEqual, i + 2))
        } else if i + 1 < s.len() && s[i + 1] == '-' {
            Ok((TokenV::Store, i + 2))
        } else {
            Ok((TokenV::Less, i + 1))
        }
    } else if c == '>' {
        if i + 1 < s.len() && s[i + 1] == '=' {
            Ok((TokenV::GreaterEqual, i + 2))
        } else {
            Ok((TokenV::Greater, i + 1))
        }
    } else if c == '-' {
        if i + 1 < s.len() && s[i + 1] == '>' {
            Ok((TokenV::Into, i + 2))
        } else {
            Ok((TokenV::Sub, i + 1))
        }
    } else if c == '(' || c == '[' {
        Ok((TokenV::EvalIn, i + 1))
    } else if c == ')' || c == ']' {
        Ok((TokenV::EvalOut, i + 1))
    } else if c == '{' {
        Ok((TokenV::SetIn, i + 1))
    } else if c == '}' {
        Ok((TokenV::SetOut, i + 1))
    } else if c == ',' {
        Ok((TokenV::Seperator, i + 1))
    } else if c == ':' {
        Ok((TokenV::Represent, i + 1))
    } else if c == '@' {
        Ok((TokenV::Address, i + 1))
    } else if c == '#' {
        Ok((TokenV::Hash, i + 1))
    } else if c == '%' {
        Ok((TokenV::Percent, i + 1))
    } else if c == '|' {
        Ok((TokenV::Pipe, i + 1))
    } else if c == '+' {
        Ok((TokenV::Add, i + 1))
    } else if c == '*' {
        Ok((TokenV::Mult, i + 1))
    } else if c == '/' {
        Ok((TokenV::Div, i + 1))
    } else if c == '^' {
        Ok((TokenV::Power, i + 1))
    } else if c == '!' {
        Ok((TokenV::Fraction, i + 1))
    } else if c == '~' {
        Ok((TokenV::Not, i + 1))
    } else if c == '=' {
        Ok((TokenV::Equal, i + 1))
    } else {
        Err(s.subrange(i, i + 1))
    }
}

/// The tokens of the input from position `i` on: whitespace is skipped,
/// each token is the longest match at its position, and the first refused
/// slice ends the whole pass with that slice. The bounds guard on the
/// returned position only makes termination evident; every rule in fact
/// moves forward and stays inside the input, so on reachable results it
/// always holds.
pub open spec fn lex_at(s: Seq<char>, i: int) -> Result<Seq<TokenV>, Seq<char>>
    decreases s.len() - i,
{
    if i >= s.len() {
        Ok(Seq::empty())
    } else if spec_is_ws(s[i]) {
        lex_at(s, i + 1)
    } else {
        match lex_step(s, i) {
            Ok(p) => if i < p.1 <= s.len() {
                match lex_at(s, p.1) {
                    Ok(rest) => Ok(seq![p.0] + rest),
                    Err(e) => Err(e),
                }
            } else {
                Err(s.subrange(i, i + 1))
            },
            Err(e) => Err(e),
        }
    }
}

/// The meaning of lexing a whole line.
pub open spec fn spec_lex(s: Seq<char>) -> Result<Seq<TokenV>, Seq<char>> {
    lex_at(s, 0)
}

/// Whether a character is insignificant whitespace.
fn is_ws(c: char) -> (r: bool)
    ensures
        r == spec_is_ws(c),
{
    c == ' ' || c == '\t' || c == '\n' || c == '\r' || c == '\u{c}'
}

/// Whether a character is a decimal digit.
fn is_digit(c: char) -> (r: bool)
    ensures
        r == spec_is_digit(c),
{
    let u = c as u32;
    48 <= u && u <= 57
}

/// Whether a character can start an identifier.
fn is_ident_start(c: char) -> (r: bool)
    ensures
        r == spec_is_ident_start(c),
{
    let u = c as u32;
    (65 <= u && u <= 90) || (97 <= u && u <= 122) || u == 95
}

/// Whether a character can continue an identifier.
fn is_ident_part(c: char) -> (r: bool)
    ensures
        r == spec_is_ident_part(c),
{
    is_ident_start(c) || is_digit(c)
}

/// The slice of the input from `from` to `to`, as owned text.
fn slice_of(s: &str, from: usize, to: usize) -> (r: String)
    requires
        from <= to <= s@.len(),
    ensures
        r@ == s@.subrange(from as int, to as int),
{
    let sub = s.substring_char(from, to);
    sub.to_owned()
}

/// Scan the run of decimal digits starting at the digit `i`, returning its
/// end and its value, or `None` for the value when it exceeds the machine
/// word.
fn digit_run(s: &str, n: usize, i: usize) -> (r: (usize, Option<u64>))
    requires
        n == s@.len(),
        i < n,
        spec_is_digit(s@[i as int]),
    ensures
        i < r.0 <= n,
        r.0 == digit_end(s@, i as int),
        r.1 matches Some(v) ==> v == digits_val(s@, i as int, r.0 as int),
        r.1 is None <==> digits_val(s@, i as int, r.0 as int) > u64::MAX,
{
    let mut j: usize = i;
    let mut val: Option<u64> = Some(0u64);
    while j < n
        invariant
            i <= j <= n,
            n == s@.len(),
            digit_end(s@, i as int) == digit_end(s@, j as int),
            val matches Some(v) ==> v == digits_val(s@, i as int, j as int),
            val is None ==> digits_val(s@, i as int, j as int) > u64::MAX,
        ensures
            i <= j <= n,
            j == digit_end(s@, i as int),
            val matches Some(v) ==> v == digits_val(s@, i as int, j as int),
            val is None ==> digits_val(s@, i as int, j as int) > u64::MAX,
        decreases n - j,
    {
        let c = s.get_char(j);
        if !is_digit(c) {
            break ;
        }
        let d: u64 = ((c as u32) - 48) as u64;
        val = match val {
            Some(v) => match v.checked_mul(10) {
                Some(v10) => v10.checked_add(d),
                None => None,
            },
            None => None,
        };
        j = j + 1;
    }
    proof {
        if j == i {
            lemma_scan_bounds(s@, i as int + 1);
            assert(digit_end(s@, i as int) == digit_end(s@, i as int + 1));
            assert(false);
        }
    }
    (j, val)
}

/// Ten to the power `k`, or `None` past the machine word.
fn pow10(k: usize) -> (r: Option<u64>)
    ensures
        r matches Some(d) ==> d >= 1,
        r matches Some(d) ==> d == pow10_spec(k as nat),
        r is Some <==> pow10_spec(k as nat) <= u64::MAX,
{
    let mut acc: u64 = 1;
    let mut i: usize = 0;
    while i < k
        invariant
            i <= k,
            acc >= 1,
            acc == pow10_spec(i as nat),
        decreases k - i,
    {
        match acc.checked_mul(10) {
            Some(a) => {
                acc = a;
            },
            None => {
                proof {
                    assert(pow10_spec((i + 1) as nat) == 10 * pow10_spec(i as nat));
                    lemma_pow10_mono((i + 1) as nat, k as nat);
                }
                return None;
            },
        }
        i = i + 1;
    }
    Some(acc)
}

/// Scan the numeric literal starting at the digit `i`.
fn scan_number(s: &str, n: usize, i: usize) -> (r: Result<(Token, usize), LexError>)
    requires
        n == s@.len(),
        i < n,
        spec_is_digit(s@[i as int]),
    ensures
        r matches Ok(p) ==> (num_step(s@, i as int) == Ok::<(TokenV, int), Seq<char>>(
            (p.0@, p.1 as int),
        ) && i < p.1 <= n && tok_valid(p.0@)),
        r matches Err(le) ==> (le matches LexError::Unexpected { text } && num_step(
            s@,
            i as int,
        ) is Err && text@ == num_step(s@, i as int)->Err_0),
{
    let (j, vi) = digit_run(s, n, i);
    proof {
        lemma_scan_bounds(s@, i as int);
        lemma_digits_val_bound(s@, i as int, j as int);
    }
    let mut is_float = false;
    if j < n {
        if s.get_char(j) == '.' {
            if j + 1 < n {
                if is_digit(s.get_char(j + 1)) {
                    is_float = true;
                }
            }
        }
    }
    if is_float {
        let (k, vf) = digit_run(s, n, j + 1);
        let fl = k - (j + 1);
        proof {
            lemma_scan_bounds(s@, (j + 1) as int);
            lemma_digits_val_bound(s@, (j + 1) as int, k as int);
            lemma_pow10_pos(fl as nat);
        }
        let ghost iv = digits_val(s@, i as int, j as int);
        let ghost fv = digits_val(s@, (j + 1) as int, k as int);
        let ghost dens = pow10_spec(fl as nat);
        match (vi, vf) {
            (Some(ip), Some(fp)) => match pow10(fl) {
                Some(den) => {
                    let scaled = ip.checked_mul(den);
                    match scaled {
                        Some(sc) => match sc.checked_add(fp) {
                            Some(num) => {
                                if num > i64::MAX as u64 {
                                    Err(LexError::Unexpected { text: slice_of(s, i, k) })
                                } else {
                                    Ok((Token::Float(Number::Fin { num: num as i64, den: den }), k))
                                }
                            },
                            None => Err(LexError::Unexpected { text: slice_of(s, i, k) }),
                        },
                        None => Err(LexError::Unexpected { text: slice_of(s, i, k) }),
                    }
                },
                None => Err(LexError::Unexpected { text: slice_of(s, i, k) }),
            },
            (None, _) => {
                proof {
                    assert(iv * dens >= iv) by (nonlinear_arith)
                        requires
                            iv >= 0,
                            dens >= 1,
                    ;
                }
                Err(LexError::Unexpected { text: slice_of(s, i, k) })
            },
            (Some(_), None) => Err(LexError::Unexpected { text: slice_of(s, i, k) }),
        }
    } else {
        match vi {
            Some(v) => {
                if v > i64::MAX as u64 {
                    Err(LexError::Unexpected { text: slice_of(s, i, j) })
                } else {
                    Ok((Token::Int(v as i64), j))
                }
            },
            None => Err(LexError::Unexpected { text: slice_of(s, i, j) }),
        }
    }
}

/// Scan the token starting at the dot `i`.
fn scan_dot(s: &str, n: usize, i: usize) -> (r: Result<(Token, usize), LexError>)
    requires
        n == s@.len(),
        i < n,
        s@[i as int] == '.',
    ensures
        r matches Ok(p) ==> (dot_step(s@, i as int) == Ok::<(TokenV, int), Seq<char>>(
            (p.0@, p.1 as int),
        ) && i < p.1 <= n && tok_valid(p.0@)),
        r matches Err(le) ==> (le matches LexError::Unexpected { text } && dot_step(
            s@,
            i as int,
        ) is Err && text@ == dot_step(s@, i as int)->Err_0),
{
    if n - i > 2 {
        if s.get_char(i + 1) == '.' {
            if s.get_char(i + 2) == '.' {
                return Ok((Token::Continue, i + 3));
            }
        }
    }
    let mut fracd = false;
    if i + 1 < n {
        if is_digit(s.get_char(i + 1)) {
            fracd = true;
        }
    }
    if fracd {
        let (k, vf) = digit_run(s, n, i + 1);
        let fl = k - (i + 1);
        proof {
            lemma_scan_bounds(s@, (i + 1) as int);
            lemma_digits_val_bound(s@, (i + 1) as int, k as int);
            lemma_pow10_pos(fl as nat);
        }
        match vf {
            Some(fp) => match pow10(fl) {
                Some(den) => {
                    if fp > i64::MAX as u64 {
                        Err(LexError::Unexpected { text: slice_of(s, i, k) })
                    } else {
                        Ok((Token::Float(Number::Fin { num: fp as i64, den: den }), k))
                    }
                },
                None => Err(LexError::Unexpected { text: slice_of(s, i, k) }),
            },
            None => Err(LexError::Unexpected { text: slice_of(s, i, k) }),
        }
    } else {
        Err(LexError::Unexpected { text: slice_of(s, i, i + 1) })
    }
}

/// Tokenize a line of input.
pub fn lex(input: String) -> (r: Result<Vec<Token>, LexError>)
    ensures
        r matches Ok(ts) ==> toks_valid(toks_view(ts@)),
        input@.len() == 0 ==> (r matches Ok(ts) && ts@.len() == 0),
        r matches Ok(ts) ==> spec_lex(input@) == Ok::<Seq<TokenV>, Seq<char>>(toks_view(ts@)),
        r matches Err(le) ==> (le matches LexError::Unexpected { text } && spec_lex(
            input@,
        ) is Err && text@ == spec_lex(input@)->Err_0),
{
    let s = input.as_str();
    let n = s.unicode_len();
    let mut tokens: Vec<Token> = Vec::new();
    let mut i: usize = 0;
    proof {
        if let Ok(rest) = lex_at(s@, 0) {
            assert(toks_view(tokens@) + rest =~= rest);
        }
    }
    while i < n
        invariant
            i <= n,
            n == s@.len(),
            s@ == input@,
            n == 0 ==> tokens@.len() == 0,
            forall|k: int| 0 <= k < tokens@.len() ==> tok_valid(#[trigger] tokens@[k]@),
            (match lex_at(s@, i as int) {
                Ok(rest) => lex_at(s@, 0) == Ok::<Seq<TokenV>, Seq<char>>(
                    toks_view(tokens@) + rest,
                ),
                Err(e) => lex_at(s@, 0) == Err::<Seq<TokenV>, Seq<char>>(e),
            }),
        decreases n - i,
    {
        let c = s.get_char(i);
        if is_ws(c) {
            proof {
                assert(lex_at(s@, i as int) == lex_at(s@, i as int + 1));
            }
            i = i + 1;
            continue ;
        }
        let ghost prev = tokens@;
        let mut next_i: usize = i + 1;
        if is_ident_start(c) {
            let mut j: usize = i + 1;
            while j < n
                invariant
                    i < j <= n,
                    n == s@.len(),
                    ident_end(s@, i as int + 1) == ident_end(s@, j as int),
                ensures
                    i < j <= n,
                    j == ident_end(s@, i as int + 1),
                decreases n - j,
            {
                let cc = s.get_char(j);
                if !is_ident_part(cc) {
                    break ;
                }
                j = j + 1;
            }
            tokens.push(Token::ID(slice_of(s, i, j)));
            next_i = j;
        } else if is_digit(c) {
            match scan_number(s, n, i) {
                Ok(p) => {
                    let (t, ni) = p;
                    tokens.push(t);
                    next_i = ni;
                },
                Err(e) => {
                    proof {
                        assert(lex_at(s@, i as int) == Err::<Seq<TokenV>, Seq<char>>(
                            num_step(s@, i as int)->Err_0,
                        ));
                    }
                    return Err(e);
                },
            }
        } else if c == '.' {
            match scan_dot(s, n, i) {
                Ok(p) => {
                    let (t, ni) = p;
                    tokens.push(t);
                    next_i = ni;
                },
                Err(e) => {
                    proof {
                        assert(lex_at(s@, i as int) == Err::<Seq<TokenV>, Seq<char>>(
                            dot_step(s@, i as int)->Err_0,
                        ));
                    }
                    return Err(e);
                },
            }
        } else if c == '<' {
            let mut two = false;
            if i + 1 < n {
                let c2 = s.get_char(i + 1);
                if c2 == '=' {
                    tokens.push(Token::LessEqual);
                    next_i = i + 2;
                    two = true;
                } else if c2 == '-' {
                    tokens.push(Token::Store);
                    next_i = i + 2;
                    two = true;
                }
            }
            if !two {
                tokens.push(Token::Less);
            }
        } else if c == '>' {
            let mut two = false;
            if i + 1 < n {
                if s.get_char(i + 1) == '=' {
                    tokens.push(Token::GreaterEqual);
                    next_i = i + 2;
                    two = true;
                }
            }
            if !two {
                tokens.push(Token::Greater);
            }
        } else if c == '-' {
            let mut two = false;
            if i + 1 < n {
                if s.get_char(i + 1) == '>' {
                    tokens.push(Token::Into);
                    next_i = i + 2;
                    two = true;
                }
            }
            if !two {
                tokens.push(Token::Sub);
            }
        } else if c == '(' || c == '[' {
            tokens.push(Token::EvalIn);
        } else if c == ')' || c == ']' {
            tokens.push(Token::EvalOut);
        } else if c == '{' {
            tokens.push(Token::SetIn);
        } else if c == '}' {
            tokens.push(Token::SetOut);
        } else if c == ',' {
            tokens.push(Token::Seperator);
        } else if c == ':' {
            tokens.push(Token::Represent);
        } else if c == '@' {
            tokens.push(Token::Address);
        } else if c == '#' {
            tokens.push(Token::Hash);
        } else if c == '%' {
            tokens.push(Token::Percent);
        } else if c == '|' {
            tokens.push(Token::Pipe);
        } else if c == '+' {
            tokens.push(Token::Add);
        } else if c == '*' {
            tokens.push(Token::Mult);
        } else if c == '/' {
            tokens.push(Token::Div);
        } else if c == '^' {
            tokens.push(Token::Power);
        } else if c == '!' {
            tokens.push(Token::Fraction);
        } else if c == '~' {
            tokens.push(Token::Not);
        } else if c == '=' {
            tokens.push(Token::Equal);
        } else {
            proof {
                assert(lex_step(s@, i as int) == Err::<(TokenV, int), Seq<char>>(
                    s@.subrange(i as int, i as int + 1),
                ));
                assert(lex_at(s@, i as int) is Err);
            }
            return Err(LexError::Unexpected { text: slice_of(s, i, i + 1) });
        }
        proof {
            let tk = tokens@.last();
            assert(tokens@ =~= prev.push(tk));
            assert(lex_step(s@, i as int) == Ok::<(TokenV, int), Seq<char>>(
                (tk@, next_i as int),
            ));
            assert(i < next_i <= n);
            if let Ok(rest) = lex_at(s@, next_i as int) {
                assert(lex_at(s@, i as int) == Ok::<Seq<TokenV>, Seq<char>>(seq![tk@] + rest));
                assert(toks_view(tokens@) + rest =~= toks_view(prev) + (seq![tk@] + rest));
            }
            assert(forall|k: int| 0 <= k < tokens@.len() ==> tok_valid(#[trigger] tokens@[k]@));
        }
        i = next_i;
    }
    proof {
        assert(lex_at(s@, n as int) == Ok::<Seq<TokenV>, Seq<char>>(Seq::empty()));
        assert(toks_view(tokens@) + Seq::<TokenV>::empty() =~= toks_view(tokens@));
    }
    Ok(tokens)
}

} // verus!
