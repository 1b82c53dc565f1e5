//! A calculator for integer expressions: `+ - * / % ^` and parentheses.

use crate::number::{
    digits_value, is_digit_in, lemma_digits_value_nonneg, push_signed_decimal, read_unsigned,
    signed_decimal,
};
use crate::text::{char_is_whitespace, chars_of, is_whitespace};
use vstd::prelude::*;
use vstd::slice::slice_subrange;
use vstd::string::StringExecFns;

verus! {

/// One token of an expression.
#[derive(Clone, Copy, PartialEq, Eq, Debug, Structural)]
pub enum Token {
    Plus,
    Minus,
    Star,
    Slash,
    Percent,
    Hat,
    LeftParen,
    RightParen,
    Int(i64),
}

/// The token that the character `c` stands for.
pub open spec fn token_of_char(c: char) -> Option<Token> {
    if c == '+' {
        Some(Token::Plus)
    } else if c == '-' {
        Some(Token::Minus)
    } else if c == '*' {
        Some(Token::Star)
    } else if c == '/' {
        Some(Token::Slash)
    } else if c == '%' {
        Some(Token::Percent)
    } else if c == '^' {
        Some(Token::Hat)
    } else if c == '(' {
        Some(Token::LeftParen)
    } else if c == ')' {
        Some(Token::RightParen)
    } else {
        None
    }
}

/// Whether `c` is one of `0` to `9`.
pub open spec fn is_decimal_digit(c: char) -> bool {
    '0' <= c <= '9'
}

/// The token that the character `c` stands for.
pub fn char_to_token(c: char) -> (r: Option<Token>)
    ensures
        r == token_of_char(c),
{
    if c == '+' {
        Some(Token::Plus)
    } else if c == '-' {
        Some(Token::Minus)
    } else if c == '*' {
        Some(Token::Star)
    } else if c == '/' {
        Some(Token::Slash)
    } else if c == '%' {
        Some(Token::Percent)
    } else if c == '^' {
        Some(Token::Hat)
    } else if c == '(' {
        Some(Token::LeftParen)
    } else if c == ')' {
        Some(Token::RightParen)
    } else {
        None
    }
}

/// Whether `c` is one of `0` to `9`.
pub fn is_digit(c: char) -> (r: bool)
    ensures
        r == is_decimal_digit(c),
{
    '0' <= c && c <= '9'
}

/// Where the run of decimal digits that starts at `from` ends.
pub open spec fn digits_end(s: Seq<char>, from: int) -> int
    decreases s.len() - from,
{
    if from < 0 || from >= s.len() || !is_decimal_digit(s[from]) {
        from
    } else {
        digits_end(s, from + 1)
    }
}

/// What reading tokens gives: the tokens, or the first character that is
/// neither white space nor part of a token.
pub type Scan = Result<Seq<Token>, char>;

/// `first` before the tokens of `rest`, where there are any.
pub open spec fn with_first(first: Token, rest: Option<Scan>) -> Option<Scan> {
    match rest {
        Some(Ok(tokens)) => Some(Ok(seq![first] + tokens)),
        other => other,
    }
}

/// The tokens of `s` from `from` on. White space is skipped, a run of digits
/// is one number, and each of `+ - * / % ^ ( )` is a token. The first other
/// character is an error. There is no result where a number before that does
/// not fit `i64`.
pub open spec fn tokens_from(s: Seq<char>, from: int) -> Option<Scan>
    decreases s.len() - from,
{
    if from < 0 || from >= s.len() {
        Some(Ok(Seq::empty()))
    } else if is_whitespace(s[from]) {
        tokens_from(s, from + 1)
    } else if is_decimal_digit(s[from]) {
        let end = digits_end(s, from + 1);
        let value = digits_value(s.subrange(from, end), 10);
        if value > i64::MAX {
            None
        } else {
            proof {
                lemma_digits_end(s, from + 1);
            }
            with_first(Token::Int(value as i64), tokens_from(s, end))
        }
    } else {
        match token_of_char(s[from]) {
            Some(t) => with_first(t, tokens_from(s, from + 1)),
            None => Some(Err(s[from])),
        }
    }
}

/// The tokens of `s`.
pub open spec fn tokens_of(s: Seq<char>) -> Option<Scan> {
    tokens_from(s, 0)
}

/// The message for a character that no token starts with.
pub open spec fn unexpected_character(c: char) -> Seq<char> {
    "Unexpected character: "@ + seq![c]
}

/// A run of digits ends at or after its start, within the text, and holds
/// digits only.
pub proof fn lemma_digits_end(s: Seq<char>, from: int)
    requires
        0 <= from <= s.len(),
    ensures
        from <= digits_end(s, from) <= s.len(),
        forall|k: int| from <= k < digits_end(s, from) ==> is_decimal_digit(s[k]),
    decreases s.len() - from,
{
    if from < s.len() && is_decimal_digit(s[from]) {
        lemma_digits_end(s, from + 1);
    }
}

/// Reads the tokens of `input`. There is a result for every text but one with
/// a number that does not fit `i64`.
pub fn try_tokenize(input: &str) -> (r: Option<Result<Vec<Token>, String>>)
    ensures
        match r {
            Some(Ok(tokens)) => tokens_of(input@) == Some(Ok::<Seq<Token>, char>(tokens@)),
            Some(Err(message)) => tokens_of(input@) matches Some(Err(c)) && message@
                == unexpected_character(c),
            None => tokens_of(input@) is None,
        },
{
    let chars = chars_of(input);
    let s = chars.as_slice();
    let mut tokens: Vec<Token> = Vec::new();
    let mut i: usize = 0;
    while i < s.len()
        invariant
            i <= s@.len(),
            s@ == input@,
            match tokens_from(s@, i as int) {
                Some(Ok(rest)) => tokens_of(s@) == Some(Ok::<Seq<Token>, char>(tokens@ + rest)),
                other => tokens_of(s@) == other,
            },
        decreases s@.len() - i,
    {
        let c: char = s[i];
        let ghost before = tokens@;
        if char_is_whitespace(c) {
            i += 1;
        } else if is_digit(c) {
            let mut end: usize = i + 1;
            while end < s.len() && is_digit(s[end])
                invariant
                    i < end <= s@.len(),
                    digits_end(s@, i + 1) == digits_end(s@, end as int),
                decreases s@.len() - end,
            {
                end += 1;
            }
            let run = slice_subrange(s, i, end);
            proof {
                lemma_digits_end(s@, i + 1);
                assert forall|k: int| 0 <= k < run@.len() implies is_digit_in(
                    #[trigger] run@[k],
                    10,
                ) by {
                    assert(run@[k] == s@[i + k]);
                    assert(is_decimal_digit(s@[i + k]));
                }
                assert(run@[0] != '+');
                lemma_digits_value_nonneg(run@, 10);
            }
            match read_unsigned(run, 10, i64::MAX as u64) {
                Some(value) => {
                    tokens.push(Token::Int(value as i64));
                    proof {
                        if let Some(Ok(rest)) = tokens_from(s@, end as int) {
                            assert(before + (seq![Token::Int(value as i64)] + rest) =~= tokens@
                                + rest);
                        }
                    }
                    i = end;
                },
                None => {
                    return None;
                },
            }
        } else {
            match char_to_token(c) {
                Some(token) => {
                    tokens.push(token);
                    proof {
                        if let Some(Ok(rest)) = tokens_from(s@, i + 1) {
                            assert(before + (seq![token] + rest) =~= tokens@ + rest);
                        }
                    }
                    i += 1;
                },
                None => {
                    let mut message = "Unexpected character: ".to_owned();
                    message.push(c);
                    return Some(Err(message));
                },
            }
        }
    }
    assert(tokens@ + Seq::<Token>::empty() =~= tokens@);
    Some(Ok(tokens))
}

/// Reads the tokens of `input`, in which every number must fit `i64`.
pub fn tokenizer(input: String) -> (r: Result<Vec<Token>, String>)
    requires
        tokens_of(input@) is Some,
    ensures
        match r {
            Ok(tokens) => tokens_of(input@) == Some(Ok::<Seq<Token>, char>(tokens@)),
            Err(message) => tokens_of(input@) matches Some(Err(c)) && message@
                == unexpected_character(c),
        },
{
    match try_tokenize(input.as_str()) {
        Some(r) => r,
        None => Ok(Vec::new()),
    }
}

/// How an evaluation ends: with a value, at a token that stands where a
/// number is needed, or with no result (a number is missing at the edge of
/// the expression, a parenthesis is not closed, a result does not fit `i64`,
/// or a division is by zero).
#[derive(Clone, Copy, PartialEq, Eq, Debug, Structural)]
pub enum Outcome {
    Value(i64),
    Unexpected(Token),
    Undefined,
}

/// The rank of a token among the operators: the parenthesis that opens is
/// first, then `^`, then `* / %`, then `+ -`.
pub open spec fn level_of(t: Token) -> int {
    match t {
        Token::LeftParen => 0,
        Token::Hat => 1,
        Token::Star | Token::Slash | Token::Percent => 2,
        Token::Plus | Token::Minus => 3,
        _ => 4,
    }
}

/// The first index at or after `from` with a token of the level.
pub open spec fn first_at_level(ts: Seq<Token>, level: int, from: int) -> Option<int>
    decreases ts.len() - from,
{
    if from < 0 || from >= ts.len() {
        None
    } else if level_of(ts[from]) == level {
        Some(from)
    } else {
        first_at_level(ts, level, from + 1)
    }
}

/// `base` to the power `exp`.
pub open spec fn power(base: int, exp: nat) -> int
    decreases exp,
{
    if exp == 0 {
        1
    } else {
        base * power(base, (exp - 1) as nat)
    }
}

/// `v` as an `i64`, where it fits.
pub open spec fn fits(v: int) -> Option<i64> {
    if i64::MIN <= v <= i64::MAX {
        Some(v as i64)
    } else {
        None
    }
}

/// The exponent that `r` stands for: its low 32 bits, as a number from 0 on.
pub open spec fn exponent_of(r: i64) -> nat {
    (r as int % 0x1_0000_0000) as nat
}

/// What the operator gives for `l` and `r`, or nothing where the result does
/// not fit `i64` or the divisor is 0. Division rounds towards 0 and the
/// remainder has the sign of `l`.
pub open spec fn apply(op: Token, l: i64, r: i64) -> Option<i64> {
    match op {
        Token::Plus => l.checked_add(r),
        Token::Minus => l.checked_sub(r),
        Token::Star => l.checked_mul(r),
        Token::Slash => l.checked_div(r),
        Token::Percent => l.checked_rem(r),
        Token::Hat => fits(power(l as int, exponent_of(r))),
        _ => None,
    }
}

/// `ts` with the tokens from `upto` to `from` replaced by `value`.
pub open spec fn spliced(ts: Seq<Token>, upto: int, value: Token, from: int) -> Seq<Token> {
    ts.take(upto) + seq![value] + ts.skip(from)
}

/// `ts` after every operator of the level was applied, the leftmost first:
/// each takes the number before it and the number after it, and the three
/// tokens become the result.
pub open spec fn reduce(ts: Seq<Token>, level: int) -> Result<Seq<Token>, Outcome>
    decreases ts.len(),
{
    match first_at_level(ts, level, 0) {
        None => Ok(ts),
        Some(i) => if i <= 0 || i >= ts.len() {
            Err(Outcome::Undefined)
        } else {
            match ts[i - 1] {
                Token::Int(l) => if i + 1 >= ts.len() {
                    Err(Outcome::Undefined)
                } else {
                    match ts[i + 1] {
                        Token::Int(r) => match apply(ts[i], l, r) {
                            Some(v) => reduce(spliced(ts, i - 1, Token::Int(v), i + 2), level),
                            None => Err(Outcome::Undefined),
                        },
                        other => Err(Outcome::Unexpected(other)),
                    }
                },
                other => Err(Outcome::Unexpected(other)),
            }
        },
    }
}

/// Where the parenthesis closes that is open `depth` deep at `from`: the index
/// behind the token that closes it.
pub open spec fn close_of(ts: Seq<Token>, from: int, depth: nat) -> Option<int>
    decreases ts.len() - from,
{
    if depth == 0 {
        Some(from)
    } else if from < 0 || from >= ts.len() {
        None
    } else {
        close_of(
            ts,
            from + 1,
            match ts[from] {
                Token::LeftParen => depth + 1,
                Token::RightParen => (depth - 1) as nat,
                _ => depth,
            },
        )
    }
}

/// The outcome of an expression without a parenthesis that opens: `^` is
/// applied first, then `* / %`, then `+ -`, each from the left. The first
/// token of what is left must be a number; what follows it is not looked at.
pub open spec fn eval_flat(ts: Seq<Token>) -> Outcome {
    match reduce(ts, 1) {
        Err(o) => o,
        Ok(t1) => match reduce(t1, 2) {
            Err(o) => o,
            Ok(t2) => match reduce(t2, 3) {
                Err(o) => o,
                Ok(t3) => if t3.len() == 0 {
                    Outcome::Undefined
                } else {
                    match t3[0] {
                        Token::Int(v) => Outcome::Value(v),
                        other => Outcome::Unexpected(other),
                    }
                },
            },
        },
    }
}

/// The outcome of the expression `ts`. The first parenthesis that opens is
/// evaluated with what it holds, up to the one that closes it, and replaced by
/// its value; an expression without one is evaluated by the ranks of its
/// operators.
pub open spec fn eval_tokens(ts: Seq<Token>) -> Outcome
    decreases ts.len(),
{
    match first_at_level(ts, 0, 0) {
        Some(i) => match close_of(ts, i + 1, 1) {
            Some(j) => if 0 <= i && i + 2 <= j <= ts.len() {
                match eval_tokens(ts.subrange(i + 1, j - 1)) {
                    Outcome::Value(v) => eval_tokens(spliced(ts, i, Token::Int(v), j)),
                    other => other,
                }
            } else {
                Outcome::Undefined
            },
            None => Outcome::Undefined,
        },
        None => eval_flat(ts),
    }
}

/// The name of a token in a message.
pub open spec fn token_name(t: Token) -> Seq<char> {
    match t {
        Token::Plus => "Plus"@,
        Token::Minus => "Minus"@,
        Token::Star => "Star"@,
        Token::Slash => "Slash"@,
        Token::Percent => "Percent"@,
        Token::Hat => "Hat"@,
        Token::LeftParen => "LeftParen"@,
        Token::RightParen => "RightParen"@,
        Token::Int(n) => "Int("@ + signed_decimal(n as int) + ")"@,
    }
}

/// The text that an outcome is reported with: the value in decimal, or the
/// message that names the unexpected token. `Undefined` has none.
pub open spec fn report(o: Outcome) -> Option<Result<Seq<char>, Seq<char>>> {
    match o {
        Outcome::Value(v) => Some(Ok(signed_decimal(v as int))),
        Outcome::Unexpected(t) => Some(Err("Unexpected token: "@ + token_name(t))),
        Outcome::Undefined => None,
    }
}

/// The text that evaluating `s` is reported with: the message of the
/// tokenizer, or the report of the outcome.
pub open spec fn eval_text(s: Seq<char>) -> Option<Result<Seq<char>, Seq<char>>> {
    match tokens_of(s) {
        Some(Ok(ts)) => report(eval_tokens(ts)),
        Some(Err(c)) => Some(Err(unexpected_character(c))),
        None => None,
    }
}

/// The view of a reported text.
pub open spec fn report_view(r: Result<String, String>) -> Result<Seq<char>, Seq<char>> {
    match r {
        Ok(s) => Ok(s@),
        Err(s) => Err(s@),
    }
}

/// The magnitude of `v`.
pub open spec fn magnitude(v: int) -> int {
    if v < 0 {
        -v
    } else {
        v
    }
}

/// A power of a base of magnitude 2 or more at least doubles in magnitude
/// with each greater exponent.
pub proof fn lemma_power_grows(base: int, m: nat, n: nat)
    requires
        magnitude(base) >= 2,
        m < n,
    ensures
        magnitude(power(base, n)) >= 2 * magnitude(power(base, m)),
    decreases n,
{
    let p = power(base, (n - 1) as nat);
    assert(magnitude(base * p) >= 2 * magnitude(p)) by (nonlinear_arith)
        requires
            magnitude(base) >= 2,
    ;
    if n - 1 > m {
        lemma_power_grows(base, m, (n - 1) as nat);
    }
}

/// The powers of 0, 1 and -1.
pub proof fn lemma_power_of_unit(base: int, exp: nat)
    requires
        -1 <= base <= 1,
    ensures
        power(base, exp) == if exp == 0 {
            1int
        } else if base == 0 {
            0int
        } else if base == 1 || exp % 2 == 0 {
            1int
        } else {
            -1int
        },
    decreases exp,
{
    if exp > 0 {
        lemma_power_of_unit(base, (exp - 1) as nat);
        let p = power(base, (exp - 1) as nat);
        if base == 0 {
            assert(base * p == 0);
        } else if base == 1 {
            assert(base * p == p);
        } else {
            assert(base * p == -p) by (nonlinear_arith)
                requires
                    base == -1,
            ;
        }
    }
}

/// `base` to the power `exp`, where it fits `i64`.
pub fn int_power(base: i64, exp: u32) -> (r: Option<i64>)
    ensures
        r == fits(power(base as int, exp as nat)),
{
    proof {
        if -1 <= base <= 1 {
            lemma_power_of_unit(base as int, exp as nat);
        }
    }
    if exp == 0 {
        return Some(1);
    }
    if base == 0 {
        return Some(0);
    }
    if base == 1 {
        return Some(1);
    }
    if base == -1 {
        return if exp % 2 == 0 {
            Some(1)
        } else {
            Some(-1)
        };
    }
    let mut acc: i64 = 1;
    let mut k: u32 = 0;
    while k < exp
        invariant
            k <= exp,
            magnitude(base as int) >= 2,
            acc as int == power(base as int, k as nat),
        decreases exp - k,
    {
        match acc.checked_mul(base) {
            Some(next) => {
                acc = next;
                k += 1;
            },
            None => {
                proof {
                    let over = power(base as int, (k + 1) as nat);
                    assert(over == base * acc);
                    assert(over == acc * base) by (nonlinear_arith)
                        requires
                            over == base * acc,
                    ;
                    if exp > k + 1 {
                        lemma_power_grows(base as int, (k + 1) as nat, exp as nat);
                    }
                }
                return None;
            },
        }
    }
    Some(acc)
}

/// What the operator gives for `l` and `r`.
pub fn apply_operator(op: Token, l: i64, r: i64) -> (v: Option<i64>)
    ensures
        v == apply(op, l, r),
{
    match op {
        Token::Plus => l.checked_add(r),
        Token::Minus => l.checked_sub(r),
        Token::Star => l.checked_mul(r),
        Token::Slash => l.checked_div(r),
        Token::Percent => l.checked_rem(r),
        Token::Hat => {
            match r.checked_rem_euclid(0x1_0000_0000) {
                Some(e) => int_power(l, e as u32),
                None => None,
            }
        },
        _ => None,
    }
}

/// Whether the token has the level.
fn has_level(t: Token, level: u8) -> (r: bool)
    ensures
        r == (level_of(t) == level as int),
{
    match t {
        Token::LeftParen => level == 0,
        Token::Hat => level == 1,
        Token::Star => level == 2,
        Token::Slash => level == 2,
        Token::Percent => level == 2,
        Token::Plus => level == 3,
        Token::Minus => level == 3,
        _ => level == 4,
    }
}

/// The first index with a token of the level.
fn find_level(ts: &Vec<Token>, level: u8) -> (r: Option<usize>)
    ensures
        match r {
            Some(i) => first_at_level(ts@, level as int, 0) == Some(i as int) && i < ts@.len(),
            None => first_at_level(ts@, level as int, 0) is None,
        },
{
    let mut i: usize = 0;
    while i < ts.len()
        invariant
            i <= ts@.len(),
            first_at_level(ts@, level as int, 0) == first_at_level(ts@, level as int, i as int),
        decreases ts@.len() - i,
    {
        if has_level(ts[i], level) {
            return Some(i);
        }
        i += 1;
    }
    None
}

/// The tokens of `ts` with those from `upto` to `from` replaced by `value`.
fn splice(ts: &Vec<Token>, upto: usize, value: Token, from: usize) -> (r: Vec<Token>)
    requires
        upto <= from <= ts@.len(),
    ensures
        r@ == spliced(ts@, upto as int, value, from as int),
{
    let mut r: Vec<Token> = Vec::new();
    let mut i: usize = 0;
    while i < upto
        invariant
            i <= upto <= ts@.len(),
            r@ == ts@.take(i as int),
        decreases upto - i,
    {
        r.push(ts[i]);
        i += 1;
        assert(r@ =~= ts@.take(i as int));
    }
    r.push(value);
    let mut k: usize = from;
    assert(ts@.subrange(from as int, k as int) =~= Seq::<Token>::empty());
    assert(r@ =~= ts@.take(upto as int) + seq![value] + ts@.subrange(from as int, k as int));
    while k < ts.len()
        invariant
            upto <= from <= k <= ts@.len(),
            r@ == ts@.take(upto as int) + seq![value] + ts@.subrange(from as int, k as int),
        decreases ts@.len() - k,
    {
        r.push(ts[k]);
        k += 1;
        assert(r@ =~= ts@.take(upto as int) + seq![value] + ts@.subrange(from as int, k as int));
    }
    assert(ts@.subrange(from as int, k as int) =~= ts@.skip(from as int));
    r
}

/// Applies every operator of the level, the leftmost first.
fn reduce_level(tokens: Vec<Token>, level: u8) -> (r: Result<Vec<Token>, Outcome>)
    ensures
        match r {
            Ok(ts) => reduce(tokens@, level as int) == Ok::<Seq<Token>, Outcome>(ts@),
            Err(o) => reduce(tokens@, level as int) == Err::<Seq<Token>, Outcome>(o),
        },
{
    let mut ts = tokens;
    loop
        invariant
            reduce(tokens@, level as int) == reduce(ts@, level as int),
        decreases ts@.len(),
    {
        let i: usize = match find_level(&ts, level) {
            Some(i) => i,
            None => {
                return Ok(ts);
            },
        };
        if i == 0 {
            return Err(Outcome::Undefined);
        }
        let l: i64 = match ts[i - 1] {
            Token::Int(l) => l,
            other => {
                return Err(Outcome::Unexpected(other));
            },
        };
        if i + 1 >= ts.len() {
            return Err(Outcome::Undefined);
        }
        let r: i64 = match ts[i + 1] {
            Token::Int(r) => r,
            other => {
                return Err(Outcome::Unexpected(other));
            },
        };
        match apply_operator(ts[i], l, r) {
            Some(v) => {
                ts = splice(&ts, i - 1, Token::Int(v), i + 2);
            },
            None => {
                return Err(Outcome::Undefined);
            },
        }
    }
}

/// Where the parenthesis closes that opens before `from`.
fn find_close(ts: &Vec<Token>, from: usize) -> (r: Option<usize>)
    requires
        1 <= from <= ts@.len(),
    ensures
        match r {
            Some(j) => close_of(ts@, from as int, 1) == Some(j as int) && from < j <= ts@.len(),
            None => close_of(ts@, from as int, 1) is None,
        },
{
    let mut depth: usize = 1;
    let mut j: usize = from;
    while depth > 0
        invariant
            1 <= from <= j <= ts@.len(),
            depth <= 1 + j - from,
            close_of(ts@, from as int, 1) == close_of(ts@, j as int, depth as nat),
            depth == 0 ==> j > from,
        decreases ts@.len() - j,
    {
        if j >= ts.len() {
            return None;
        }
        match ts[j] {
            Token::LeftParen => {
                depth += 1;
            },
            Token::RightParen => {
                depth -= 1;
            },
            _ => {},
        }
        j += 1;
    }
    Some(j)
}

/// The tokens of `ts` from `from` to `to`.
fn copy_range(ts: &Vec<Token>, from: usize, to: usize) -> (r: Vec<Token>)
    requires
        from <= to <= ts@.len(),
    ensures
        r@ == ts@.subrange(from as int, to as int),
{
    let mut r: Vec<Token> = Vec::new();
    let mut i: usize = from;
    while i < to
        invariant
            from <= i <= to <= ts@.len(),
            r@ == ts@.subrange(from as int, i as int),
        decreases to - i,
    {
        r.push(ts[i]);
        i += 1;
        assert(r@ =~= ts@.subrange(from as int, i as int));
    }
    r
}

/// Evaluates an expression without a parenthesis that opens.
fn evaluate_flat(tokens: Vec<Token>) -> (o: Outcome)
    ensures
        o == eval_flat(tokens@),
{
    let t1 = match reduce_level(tokens, 1) {
        Ok(ts) => ts,
        Err(o) => {
            return o;
        },
    };
    let t2 = match reduce_level(t1, 2) {
        Ok(ts) => ts,
        Err(o) => {
            return o;
        },
    };
    let t3 = match reduce_level(t2, 3) {
        Ok(ts) => ts,
        Err(o) => {
            return o;
        },
    };
    if t3.len() == 0 {
        return Outcome::Undefined;
    }
    match t3[0] {
        Token::Int(v) => Outcome::Value(v),
        other => Outcome::Unexpected(other),
    }
}

/// Evaluates the expression `tokens`. Every sequence of tokens has an outcome.
pub fn evaluate(tokens: Vec<Token>) -> (o: Outcome)
    ensures
        o == eval_tokens(tokens@),
    decreases tokens@.len(),
{
    let i: usize = match find_level(&tokens, 0) {
        Some(i) => i,
        None => {
            return evaluate_flat(tokens);
        },
    };
    let j: usize = match find_close(&tokens, i + 1) {
        Some(j) => j,
        None => {
            return Outcome::Undefined;
        },
    };
    let inner = copy_range(&tokens, i + 1, j - 1);
    match evaluate(inner) {
        Outcome::Value(v) => evaluate(splice(&tokens, i, Token::Int(v), j)),
        other => other,
    }
}

/// Appends the name of a token to `out`.
fn push_token_name(out: &mut String, t: Token)
    ensures
        final(out)@ == old(out)@ + token_name(t),
{
    match t {
        Token::Plus => out.append("Plus"),
        Token::Minus => out.append("Minus"),
        Token::Star => out.append("Star"),
        Token::Slash => out.append("Slash"),
        Token::Percent => out.append("Percent"),
        Token::Hat => out.append("Hat"),
        Token::LeftParen => out.append("LeftParen"),
        Token::RightParen => out.append("RightParen"),
        Token::Int(n) => {
            out.append("Int(");
            push_signed_decimal(out, n);
            out.append(")");
            assert(final(out)@ =~= old(out)@ + token_name(t));
        },
    }
}

/// The text that an outcome is reported with.
pub fn report_outcome(o: Outcome) -> (r: Option<Result<String, String>>)
    ensures
        match r {
            Some(text) => report(o) == Some(report_view(text)),
            None => report(o) is None,
        },
{
    match o {
        Outcome::Value(v) => {
            let mut text = String::new();
            push_signed_decimal(&mut text, v);
            assert(text@ =~= signed_decimal(v as int));
            Some(Ok(text))
        },
        Outcome::Unexpected(t) => {
            let mut text = "Unexpected token: ".to_owned();
            push_token_name(&mut text, t);
            Some(Err(text))
        },
        Outcome::Undefined => None,
    }
}

/// Evaluates the expression `tokens`, which must have a defined outcome, and
/// reports its value or the token that is in the way.
pub fn parse(tokens: Vec<Token>) -> (r: Result<String, String>)
    requires
        eval_tokens(tokens@) != Outcome::Undefined,
    ensures
        report(eval_tokens(tokens@)) == Some(report_view(r)),
{
    match report_outcome(evaluate(tokens)) {
        Some(r) => r,
        None => Err(String::new()),
    }
}

/// Evaluates the expression that `s` writes, or gives `None` where it has no
/// defined outcome.
pub fn try_eval(s: &str) -> (r: Option<Result<String, String>>)
    ensures
        match r {
            Some(text) => eval_text(s@) == Some(report_view(text)),
            None => eval_text(s@) is None,
        },
{
    match try_tokenize(s) {
        Some(Ok(tokens)) => report_outcome(evaluate(tokens)),
        Some(Err(message)) => Some(Err(message)),
        None => None,
    }
}

/// Evaluates the expression that `s` writes, which must have a defined
/// outcome.
pub fn safe_eval(s: String) -> (r: Result<String, String>)
    requires
        eval_text(s@) is Some,
    ensures
        eval_text(s@) == Some(report_view(r)),
{
    match try_eval(s.as_str()) {
        Some(r) => r,
        None => Err(String::new()),
    }
}

/// The reply of the calculator to `eval_target`: the expression, ` = `, and
/// its value or the message of what is in the way.
pub open spec fn reply_text(eval_target: Seq<char>) -> Seq<char> {
    eval_target + " = "@ + match eval_text(eval_target) {
        Some(Ok(value)) => value,
        Some(Err(message)) => message,
        None => Seq::empty(),
    }
}

/// The reply of the calculator to `eval_target`, which must have a defined
/// outcome.
pub fn run(eval_target: &str) -> (reply: String)
    requires
        eval_text(eval_target@) is Some,
    ensures
        reply@ == reply_text(eval_target@),
{
    let result = match try_eval(eval_target) {
        Some(Ok(result)) => result,
        Some(Err(err)) => err,
        None => String::new(),
    };
    let mut reply = eval_target.to_owned();
    reply.append(" = ");
    reply.append(result.as_str());
    reply
}

} // verus!
