//! Evaluator for arithmetic expressions over base-3 numerals.
//!
//! Grammar, whitespace allowed between tokens:
//! `expr := term (('+' | '-') term)*`, `term := factor (('*' | '/') factor)*`,
//! `factor := '(' expr ')' | digit+` with digits `0`, `1`, `2`.
//! Arithmetic is on `i32`; a result outside its range is reported as
//! `Overflow`, division truncates toward zero.
use vstd::prelude::*;
use crate::text::{is_space, push_char, white_space};

verus! {

#[derive(Debug, Clone, Copy, PartialEq, Eq, Structural)]
pub enum ParseError {
    InvalidDigit(char),
    UnexpectedChar(char),
    MissingClosingParen,
    DivisionByZero,
    EmptyExpression,
    Overflow,
}

/// Text describing an evaluation error.
pub open spec fn message_text(e: ParseError) -> Seq<char> {
    match e {
        ParseError::InvalidDigit(c) => "Invalid digit '"@ + seq![c] + "': expected 0, 1, or 2"@,
        ParseError::UnexpectedChar(c) => "Unexpected character '"@ + seq![c] + "'"@,
        ParseError::MissingClosingParen => "Missing closing parenthesis"@,
        ParseError::DivisionByZero => "Division by zero"@,
        ParseError::EmptyExpression => "Expression is empty"@,
        ParseError::Overflow => "Result does not fit in 32 bits"@,
    }
}

impl ParseError {
    /// A human-readable description of the error.
    pub fn message(&self) -> (r: String)
        ensures
            r@ == message_text(*self),
    {
        match self {
            ParseError::InvalidDigit(c) => {
                let mut s = "Invalid digit '".to_owned();
                push_char(&mut s, *c);
                s.append("': expected 0, 1, or 2");
                s
            },
            ParseError::UnexpectedChar(c) => {
                let mut s = "Unexpected character '".to_owned();
                push_char(&mut s, *c);
                s.append("'");
                s
            },
            ParseError::MissingClosingParen => "Missing closing parenthesis".to_owned(),
            ParseError::DivisionByZero => "Division by zero".to_owned(),
            ParseError::EmptyExpression => "Expression is empty".to_owned(),
            ParseError::Overflow => "Result does not fit in 32 bits".to_owned(),
        }
    }
}

/// Outcome of parsing from a position: the value and the position after it.
pub type Parsed = Result<(i32, int), ParseError>;

pub open spec fn is_trit(c: char) -> bool {
    '0' <= c && c <= '2'
}

pub open spec fn trit_value(c: char) -> i32 {
    (c as u32 - '0' as u32) as i32
}

/// First position at or after `p` that is not whitespace.
pub open spec fn skip_ws(s: Seq<char>, p: int) -> int
    decreases s.len() - p,
{
    if 0 <= p < s.len() && white_space(s[p]) {
        skip_ws(s, p + 1)
    } else {
        p
    }
}

/// Horner accumulation of the run of digits starting at `p`.
pub open spec fn digit_run(s: Seq<char>, p: int, acc: i32) -> Parsed
    decreases s.len() - p,
{
    if 0 <= p < s.len() && is_trit(s[p]) {
        match acc.checked_mul(3) {
            None => Err(ParseError::Overflow),
            Some(m) => match m.checked_add(trit_value(s[p])) {
                None => Err(ParseError::Overflow),
                Some(v) => digit_run(s, p + 1, v),
            },
        }
    } else {
        Ok((acc, p))
    }
}

pub open spec fn number_at(s: Seq<char>, p: int) -> Parsed {
    let q = skip_ws(s, p);
    if q >= s.len() {
        Err(ParseError::UnexpectedChar('\0'))
    } else if !is_trit(s[q]) {
        Err(ParseError::InvalidDigit(s[q]))
    } else {
        digit_run(s, q, 0)
    }
}

/// A parse step that moved forward and stayed within the input. Every
/// successful step does; testing it (and that skipping whitespace never moves
/// back) lets the grammar's recursion show its progress.
pub open spec fn advances(s: Seq<char>, p: int, r: int) -> bool {
    p < r <= s.len()
}

pub open spec fn expr_at(s: Seq<char>, p: int) -> Parsed
    decreases s.len() - p, 5int,
{
    match term_at(s, p) {
        Err(e) => Err(e),
        Ok((v, r)) => if advances(s, p, r) {
            expr_rest(s, r, v)
        } else {
            Ok((v, r))
        },
    }
}

pub open spec fn expr_rest(s: Seq<char>, p: int, acc: i32) -> Parsed
    decreases s.len() - p, 1int,
{
    if p < 0 || p >= s.len() {
        Ok((acc, p))
    } else {
        let q = skip_ws(s, p);
        if p <= q < s.len() && (s[q] == '+' || s[q] == '-') {
            match term_at(s, q + 1) {
                Err(e) => Err(e),
                Ok((v, r)) => {
                    let next = if s[q] == '+' {
                        acc.checked_add(v)
                    } else {
                        acc.checked_sub(v)
                    };
                    match next {
                        None => Err(ParseError::Overflow),
                        Some(n) => if advances(s, p, r) {
                            expr_rest(s, r, n)
                        } else {
                            Ok((n, r))
                        },
                    }
                },
            }
        } else {
            Ok((acc, q))
        }
    }
}

pub open spec fn term_at(s: Seq<char>, p: int) -> Parsed
    decreases s.len() - p, 4int,
{
    match factor_at(s, p) {
        Err(e) => Err(e),
        Ok((v, r)) => if advances(s, p, r) {
            term_rest(s, r, v)
        } else {
            Ok((v, r))
        },
    }
}

pub open spec fn term_rest(s: Seq<char>, p: int, acc: i32) -> Parsed
    decreases s.len() - p, 2int,
{
    if p < 0 || p >= s.len() {
        Ok((acc, p))
    } else {
        let q = skip_ws(s, p);
        if p <= q < s.len() && (s[q] == '*' || s[q] == '/') {
            match factor_at(s, q + 1) {
                Err(e) => Err(e),
                Ok((v, r)) => {
                    if s[q] == '/' && v == 0 {
                        Err(ParseError::DivisionByZero)
                    } else {
                        let next = if s[q] == '*' {
                            acc.checked_mul(v)
                        } else {
                            acc.checked_div(v)
                        };
                        match next {
                            None => Err(ParseError::Overflow),
                            Some(n) => if advances(s, p, r) {
                                term_rest(s, r, n)
                            } else {
                                Ok((n, r))
                            },
                        }
                    }
                },
            }
        } else {
            Ok((acc, q))
        }
    }
}

pub open spec fn factor_at(s: Seq<char>, p: int) -> Parsed
    decreases s.len() - p, 3int,
{
    let q = skip_ws(s, p);
    if q >= s.len() || q < p || p < 0 {
        Err(ParseError::UnexpectedChar('\0'))
    } else if s[q] == '(' {
        match expr_at(s, q + 1) {
            Err(e) => Err(e),
            Ok((v, r)) => {
                let c = skip_ws(s, r);
                if c >= s.len() || c < 0 || s[c] != ')' {
                    Err(ParseError::MissingClosingParen)
                } else {
                    Ok((v, c + 1))
                }
            },
        }
    } else {
        number_at(s, q)
    }
}

/// Whether every character is whitespace.
pub open spec fn blank(s: Seq<char>) -> bool {
    forall|i: int| 0 <= i < s.len() ==> white_space(#[trigger] s[i])
}

/// Value of a whole expression text.
pub open spec fn eval_spec(s: Seq<char>) -> Result<i32, ParseError> {
    if blank(s) {
        Err(ParseError::EmptyExpression)
    } else {
        match expr_at(s, 0) {
            Err(e) => Err(e),
            Ok((v, r)) => {
                let q = skip_ws(s, r);
                if q < s.len() {
                    Err(ParseError::UnexpectedChar(s[q]))
                } else {
                    Ok(v)
                }
            },
        }
    }
}

/// Relates an executable outcome and end position to a `Parsed` value.
pub open spec fn outcome(r: Result<i32, ParseError>, pos: usize) -> Parsed {
    match r {
        Ok(v) => Ok((v, pos as int)),
        Err(e) => Err(e),
    }
}

proof fn lemma_skip_ws_bounds(s: Seq<char>, p: int)
    requires
        0 <= p <= s.len(),
    ensures
        p <= skip_ws(s, p) <= s.len(),
    decreases s.len() - p,
{
    if p < s.len() && white_space(s[p]) {
        lemma_skip_ws_bounds(s, p + 1);
    }
}

/// Advances the position past any whitespace characters.
pub fn skip_whitespace(chars: &[char], pos: &mut usize)
    requires
        *old(pos) <= chars@.len(),
    ensures
        *final(pos) as int == skip_ws(chars@, *old(pos) as int),
        *old(pos) <= *final(pos) <= chars@.len(),
{
    proof {
        lemma_skip_ws_bounds(chars@, *pos as int);
    }
    while *pos < chars.len() && is_space(chars[*pos])
        invariant
            *pos <= chars@.len(),
            *old(pos) <= *pos <= chars@.len(),
            skip_ws(chars@, *pos as int) == skip_ws(chars@, *old(pos) as int),
        decreases chars@.len() - *pos,
    {
        *pos += 1;
    }
}

/// Parses a run of base-3 digits, after optional whitespace.
pub fn parse_number(chars: &[char], pos: &mut usize) -> (r: Result<i32, ParseError>)
    requires
        *old(pos) <= chars@.len(),
    ensures
        outcome(r, *final(pos)) == number_at(chars@, *old(pos) as int),
        r is Ok ==> *old(pos) < *final(pos) <= chars@.len(),
        (r is Err && r->Err_0 != ParseError::Overflow) ==> *final(pos) as int == skip_ws(
            chars@,
            *old(pos) as int,
        ),
{
    skip_whitespace(chars, pos);
    if *pos >= chars.len() {
        return Err(ParseError::UnexpectedChar('\0'));
    }
    if !('0' <= chars[*pos] && chars[*pos] <= '2') {
        return Err(ParseError::InvalidDigit(chars[*pos]));
    }
    let ghost start = *pos as int;
    let mut value: i32 = 0;
    while *pos < chars.len() && '0' <= chars[*pos] && chars[*pos] <= '2'
        invariant
            start <= *pos <= chars@.len(),
            start < chars@.len() && is_trit(chars@[start]),
            number_at(chars@, *old(pos) as int) == digit_run(chars@, start, 0),
            *old(pos) <= start,
            digit_run(chars@, *pos as int, value) == digit_run(chars@, start, 0),
        decreases chars@.len() - *pos,
    {
        let ghost p = *pos as int;
        let d = (chars[*pos] as u32 - '0' as u32) as i32;
        assert(d == trit_value(chars@[p]));
        let m = match value.checked_mul(3) {
            Some(m) => m,
            None => return Err(ParseError::Overflow),
        };
        value = match m.checked_add(d) {
            Some(v) => v,
            None => return Err(ParseError::Overflow),
        };
        *pos += 1;
    }
    Ok(value)
}

/// Parses a parenthesised expression or a number.
pub fn parse_factor(chars: &[char], pos: &mut usize) -> (r: Result<i32, ParseError>)
    requires
        *old(pos) <= chars@.len(),
    ensures
        outcome(r, *final(pos)) == factor_at(chars@, *old(pos) as int),
        r is Ok ==> *old(pos) < *final(pos) <= chars@.len(),
    decreases chars@.len() - *old(pos), 3int,
{
    skip_whitespace(chars, pos);
    if *pos >= chars.len() {
        return Err(ParseError::UnexpectedChar('\0'));
    }
    if chars[*pos] == '(' {
        *pos += 1;
        let value = parse_expr(chars, pos)?;
        skip_whitespace(chars, pos);
        if *pos >= chars.len() || chars[*pos] != ')' {
            return Err(ParseError::MissingClosingParen);
        }
        *pos += 1;
        Ok(value)
    } else {
        parse_number(chars, pos)
    }
}

/// Parses factors joined by `*` and `/`.
pub fn parse_term(chars: &[char], pos: &mut usize) -> (r: Result<i32, ParseError>)
    requires
        *old(pos) <= chars@.len(),
    ensures
        outcome(r, *final(pos)) == term_at(chars@, *old(pos) as int),
        r is Ok ==> *old(pos) < *final(pos) <= chars@.len(),
    decreases chars@.len() - *old(pos), 4int,
{
    let ghost start = *pos as int;
    let mut value = parse_factor(chars, pos)?;
    loop
        invariant
            start == *old(pos) as int,
            start < *pos <= chars@.len(),
            term_at(chars@, start) == term_rest(chars@, *pos as int, value),
        decreases chars@.len() - *pos,
    {
        if *pos >= chars.len() {
            return Ok(value);
        }
        skip_whitespace(chars, pos);
        if *pos < chars.len() && (chars[*pos] == '*' || chars[*pos] == '/') {
            let op = chars[*pos];
            *pos += 1;
            let next = match parse_factor(chars, pos) {
                Ok(v) => v,
                Err(e) => return Err(e),
            };
            if op == '/' && next == 0 {
                return Err(ParseError::DivisionByZero);
            }
            let combined = if op == '*' {
                value.checked_mul(next)
            } else {
                value.checked_div(next)
            };
            value = match combined {
                Some(v) => v,
                None => return Err(ParseError::Overflow),
            };
        } else {
            return Ok(value);
        }
    }
}

/// Parses terms joined by `+` and `-`.
pub fn parse_expr(chars: &[char], pos: &mut usize) -> (r: Result<i32, ParseError>)
    requires
        *old(pos) <= chars@.len(),
    ensures
        outcome(r, *final(pos)) == expr_at(chars@, *old(pos) as int),
        r is Ok ==> *old(pos) < *final(pos) <= chars@.len(),
    decreases chars@.len() - *old(pos), 5int,
{
    let ghost start = *pos as int;
    let mut value = parse_term(chars, pos)?;
    loop
        invariant
            start == *old(pos) as int,
            start < *pos <= chars@.len(),
            expr_at(chars@, start) == expr_rest(chars@, *pos as int, value),
        decreases chars@.len() - *pos,
    {
        if *pos >= chars.len() {
            return Ok(value);
        }
        skip_whitespace(chars, pos);
        if *pos < chars.len() && (chars[*pos] == '+' || chars[*pos] == '-') {
            let op = chars[*pos];
            *pos += 1;
            let next = match parse_term(chars, pos) {
                Ok(v) => v,
                Err(e) => return Err(e),
            };
            let combined = if op == '+' {
                value.checked_add(next)
            } else {
                value.checked_sub(next)
            };
            value = match combined {
                Some(v) => v,
                None => return Err(ParseError::Overflow),
            };
        } else {
            return Ok(value);
        }
    }
}

/// Evaluates a base-3 arithmetic expression.
pub fn tritjs_eval_expression(expr: &str) -> (r: Result<i32, ParseError>)
    ensures
        r == eval_spec(expr@),
{
    let n = expr.unicode_len();
    let mut chars: Vec<char> = Vec::new();
    let mut all_blank = true;
    let mut i: usize = 0;
    while i < n
        invariant
            n == expr@.len(),
            i <= n,
            chars@ == expr@.subrange(0, i as int),
            all_blank == (forall|k: int| 0 <= k < i ==> white_space(#[trigger] expr@[k])),
        decreases n - i,
    {
        let c = expr.get_char(i);
        if !is_space(c) {
            all_blank = false;
        }
        chars.push(c);
        i += 1;
    }
    assert(chars@ =~= expr@);
    if all_blank {
        return Err(ParseError::EmptyExpression);
    }
    let mut pos: usize = 0;
    let result = match parse_expr(chars.as_slice(), &mut pos) {
        Ok(v) => v,
        Err(e) => return Err(e),
    };
    let ghost end = pos as int;
    while pos < chars.len()
        invariant
            chars@ == expr@,
            pos <= chars@.len(),
            skip_ws(chars@, pos as int) == skip_ws(chars@, end),
            expr_at(chars@, 0) == Ok::<(i32, int), ParseError>((result, end)),
            !blank(expr@),
        decreases chars.len() - pos,
    {
        if !is_space(chars[pos]) {
            assert(skip_ws(chars@, pos as int) == pos as int);
            assert(!blank(expr@));
            return Err(ParseError::UnexpectedChar(chars[pos]));
        }
        pos += 1;
    }
    Ok(result)
}

} // verus!

verus! {

pub open spec fn trit_char(d: nat) -> char {
    if d == 0 {
        '0'
    } else if d == 1 {
        '1'
    } else {
        '2'
    }
}

/// Base-3 digits of `m`, most significant first; empty for zero.
pub open spec fn trits(m: nat) -> Seq<char>
    decreases m,
{
    if m == 0 {
        Seq::empty()
    } else {
        trits(m / 3).push(trit_char(m % 3))
    }
}

/// Base-3 text of an integer: `0`, or an optional `-` and the digits of |n|.
pub open spec fn ternary_text(n: int) -> Seq<char> {
    if n == 0 {
        seq!['0']
    } else if n < 0 {
        seq!['-'] + trits((-n) as nat)
    } else {
        trits(n as nat)
    }
}

/// Converts an integer to its base-3 text.
pub fn int_to_ternary(n: i32) -> (r: String)
    ensures
        r@ == ternary_text(n as int),
{
    let mut text = String::new();
    if n == 0 {
        push_char(&mut text, '0');
        assert(text@ =~= seq!['0']);
        return text;
    }
    let magnitude: u32 = if n < 0 {
        (-(n as i64)) as u32
    } else {
        n as u32
    };
    let ghost m0 = magnitude as nat;
    let mut num: u32 = magnitude;
    let mut digits: Vec<char> = Vec::new();
    while num > 0
        invariant
            trits(m0) == trits(num as nat) + digits@,
        decreases num,
    {
        let d = num % 3;
        let c = if d == 0 {
            '0'
        } else if d == 1 {
            '1'
        } else {
            '2'
        };
        assert(trits(num as nat) == trits((num / 3) as nat).push(c));
        assert(trits((num / 3) as nat).push(c) + digits@ =~= trits((num / 3) as nat) + (
        seq![c] + digits@));
        digits.insert(0, c);
        num = num / 3;
    }
    assert(trits(0) + digits@ =~= digits@);
    if n < 0 {
        push_char(&mut text, '-');
    }
    let ghost prefix = text@;
    let mut i: usize = 0;
    while i < digits.len()
        invariant
            i <= digits@.len(),
            text@ == prefix + digits@.subrange(0, i as int),
        decreases digits@.len() - i,
    {
        push_char(&mut text, digits[i]);
        assert(prefix + digits@.subrange(0, i + 1) =~= (prefix + digits@.subrange(0, i as int)).push(digits@[i as int]));
        i += 1;
    }
    assert(digits@.subrange(0, digits@.len() as int) =~= digits@);
    text
}

} // verus!
