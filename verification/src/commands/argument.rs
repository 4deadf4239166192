use vstd::prelude::*;

use super::error::CommandError;
use crate::text::text_equals;

verus! {

/// The type of a command argument.
#[derive(Debug, Clone, Copy, PartialEq, Eq)]
pub enum ArgType {
    Int,
    Str,
    Bool,
}

/// One word of a command line, as typed.
#[derive(Debug, Clone)]
pub struct ArgToken {
    text: String,
}

impl View for ArgToken {
    type V = Seq<char>;

    closed spec fn view(&self) -> Seq<char> {
        self.text@
    }
}

impl ArgToken {
    pub fn new(text: String) -> (token: ArgToken)
        ensures
            token@ == text@,
    {
        ArgToken { text }
    }

    pub fn as_str(&self) -> (text: &str)
        ensures
            text@ == self@,
    {
        self.text.as_str()
    }
}

/// An argument read as its type.
#[derive(Debug, Clone, PartialEq)]
pub enum EvaluatedArg {
    Int(i64),
    Str(String),
    Bool(bool),
}

/// The value of an evaluated argument.
pub enum ArgValue {
    Int(i64),
    Str(Seq<char>),
    Bool(bool),
}

impl View for EvaluatedArg {
    type V = ArgValue;

    open spec fn view(&self) -> ArgValue {
        match self {
            EvaluatedArg::Int(n) => ArgValue::Int(*n),
            EvaluatedArg::Str(s) => ArgValue::Str(s@),
            EvaluatedArg::Bool(b) => ArgValue::Bool(*b),
        }
    }
}

impl EvaluatedArg {
    pub fn get_int(&self) -> (n: Option<i64>)
        ensures
            n == (match self@ {
                ArgValue::Int(v) => Some(v),
                _ => None::<i64>,
            }),
    {
        match self {
            EvaluatedArg::Int(v) => Some(*v),
            _ => None,
        }
    }

    pub fn get_str(&self) -> (s: Option<String>)
        ensures
            s is Some <==> self@ is Str,
            s matches Some(text) ==> self@ == ArgValue::Str(text@),
    {
        match self {
            EvaluatedArg::Str(v) => Some(v.clone()),
            _ => None,
        }
    }

    pub fn get_bool(&self) -> (b: Option<bool>)
        ensures
            b == (match self@ {
                ArgValue::Bool(v) => Some(v),
                _ => None::<bool>,
            }),
    {
        match self {
            EvaluatedArg::Bool(v) => Some(*v),
            _ => None,
        }
    }
}

/// A decimal digit.
pub open spec fn is_digit(c: char) -> bool {
    48 <= (c as u32) <= 57
}

/// The value of a string of decimal digits.
pub open spec fn digits_value(s: Seq<char>) -> nat
    decreases s.len(),
{
    if s.len() == 0 {
        0
    } else {
        digits_value(s.drop_last()) * 10 + ((s.last() as u32) - 48) as nat
    }
}

/// The digits of an integer token: the token without its sign, if it has one.
pub open spec fn int_digits(s: Seq<char>) -> Seq<char> {
    if s.len() > 0 && (s[0] == '-' || s[0] == '+') {
        s.drop_first()
    } else {
        s
    }
}

/// Every character is a decimal digit.
pub open spec fn all_digits(s: Seq<char>) -> bool {
    forall|i: int| 0 <= i < s.len() ==> is_digit(#[trigger] s[i])
}

/// The value an integer token denotes, if it is well formed.
pub open spec fn int_value(s: Seq<char>) -> int {
    if s.len() > 0 && s[0] == '-' {
        -digits_value(int_digits(s))
    } else {
        digits_value(int_digits(s)) as int
    }
}

/// How a token reads as a 64-bit integer: an optional `+` or `-` sign
/// followed by at least one decimal digit and nothing else, whose value lies
/// in the range of `i64`.
pub open spec fn spec_parse_int(s: Seq<char>) -> Option<i64> {
    if int_digits(s).len() == 0 || !all_digits(int_digits(s)) {
        None
    } else if i64::MIN <= int_value(s) <= i64::MAX {
        Some(int_value(s) as i64)
    } else {
        None
    }
}

/// How a token reads as a boolean: exactly `true` or `false`.
pub open spec fn spec_parse_bool(s: Seq<char>) -> Option<bool> {
    if s == "true"@ {
        Some(true)
    } else if s == "false"@ {
        Some(false)
    } else {
        None
    }
}

/// How a token reads as an argument of type `arg_type`.
pub open spec fn spec_evaluate(arg_type: ArgType, token: Seq<char>) -> Option<ArgValue> {
    match arg_type {
        ArgType::Int => match spec_parse_int(token) {
            Some(v) => Some(ArgValue::Int(v)),
            None => None,
        },
        ArgType::Str => Some(ArgValue::Str(token)),
        ArgType::Bool => match spec_parse_bool(token) {
            Some(v) => Some(ArgValue::Bool(v)),
            None => None,
        },
    }
}

/// In a string of digits, a longer prefix has a value at least as large.
proof fn lemma_digits_prefix_grows(s: Seq<char>, k: int)
    requires
        0 <= k <= s.len(),
        all_digits(s),
    ensures
        digits_value(s.take(k)) <= digits_value(s),
    decreases s.len(),
{
    if k < s.len() {
        let p = s.drop_last();
        assert(p.take(k) =~= s.take(k));
        lemma_digits_prefix_grows(p, k);
    } else {
        assert(s.take(k) =~= s);
    }
}

/// Reading one more digit.
proof fn lemma_digits_step(s: Seq<char>, j: int)
    requires
        0 <= j < s.len(),
    ensures
        digits_value(s.take(j + 1)) == digits_value(s.take(j)) * 10 + ((s[j] as u32) - 48) as nat,
{
    assert(s.take(j + 1).drop_last() =~= s.take(j));
}

/// A `str` argument is the word exactly as typed, whatever it holds.
pub proof fn law_str_argument_is_the_token(token: Seq<char>)
    ensures
        spec_evaluate(ArgType::Str, token) matches Some(value) && (value matches ArgValue::Str(
            text,
        ) && text == token),
{
}

/// The decimal digit of `d < 10`.
pub open spec fn digit_char(d: nat) -> char {
    (48 + d) as char
}

/// The decimal writing of `n`, without sign or leading zeros.
pub open spec fn decimal(n: nat) -> Seq<char>
    decreases n,
{
    if n < 10 {
        seq![digit_char(n)]
    } else {
        decimal(n / 10).push(digit_char(n % 10))
    }
}

proof fn lemma_decimal(n: nat)
    ensures
        decimal(n).len() > 0,
        all_digits(decimal(n)),
        digits_value(decimal(n)) == n,
        is_digit(decimal(n)[0]),
    decreases n,
{
    if n < 10 {
        assert(digit_char(n) as u32 == 48 + n);
        assert(decimal(n).drop_last() =~= Seq::<char>::empty());
        assert(digits_value(decimal(n).drop_last()) == 0);
        assert(decimal(n).last() == digit_char(n));
    } else {
        lemma_decimal(n / 10);
        let d = n % 10;
        assert(digit_char(d) as u32 == 48 + d);
        let s = decimal(n);
        assert(s.drop_last() =~= decimal(n / 10));
        assert(s[0] == decimal(n / 10)[0]);
        assert forall|i: int| 0 <= i < s.len() implies is_digit(#[trigger] s[i]) by {
            if i < s.len() - 1 {
                assert(s[i] == decimal(n / 10)[i]);
            }
        }
        vstd::arithmetic::div_mod::lemma_fundamental_div_mod(n as int, 10);
        assert(s.last() == digit_char(d));
        assert(digits_value(s) == digits_value(decimal(n / 10)) * 10 + ((s.last() as u32) - 48) as nat);
        assert(digits_value(s) == (n / 10) * 10 + d);
    }
}

/// Reading an integer gives back the number that was written: the decimal
/// writing of any `i64`, with a `-` before it when it is negative, reads as
/// that number.
pub proof fn law_int_reads_its_decimal_writing(n: nat)
    ensures
        n <= i64::MAX ==> spec_parse_int(decimal(n)) == Some(n as i64),
        n <= I64_MAGNITUDE_BOUND ==> spec_parse_int(seq!['-'] + decimal(n)) == Some((-n) as i64),
{
    lemma_decimal(n);
    let d = decimal(n);
    assert(d[0] != '-' && d[0] != '+') by {
        assert(is_digit(d[0]));
    }
    assert(int_digits(d) == d);
    let m = seq!['-'] + d;
    assert(m.drop_first() =~= d);
    assert(int_digits(m) == d);
}

/// The largest magnitude of an `i64`, that of `i64::MIN`.
pub const I64_MAGNITUDE_BOUND: u64 = 9223372036854775808;

/// Reads a token as a 64-bit integer, as `str::parse::<i64>` does.
pub fn parse_int(text: &str) -> (n: Option<i64>)
    ensures
        n == spec_parse_int(text@),
{
    let len = text.unicode_len();
    if len == 0 {
        return None;
    }
    let first = text.get_char(0);
    let negative = first == '-';
    let start: usize = if first == '-' || first == '+' {
        1
    } else {
        0
    };
    let ghost body = int_digits(text@);
    assert(body =~= text@.subrange(start as int, len as int));
    if start == len {
        return None;
    }
    let mut magnitude: u64 = 0;
    let mut i: usize = start;
    assert(body.take(0) =~= Seq::<char>::empty());
    while i < len
        invariant
            start <= i <= len,
            start <= 1,
            len == text@.len(),
            body == text@.subrange(start as int, len as int),
            body == int_digits(text@),
            negative == (text@[0] == '-'),
            forall|k: int| 0 <= k < i - start ==> is_digit(#[trigger] body[k]),
            magnitude == digits_value(body.take(i - start)),
            magnitude <= I64_MAGNITUDE_BOUND,
        decreases len - i,
    {
        let c = text.get_char(i);
        let code = c as u32;
        proof {
            assert(body[i - start] == c);
        }
        if code < 48 || code > 57 {
            assert(!is_digit(body[i - start]));
            assert(!all_digits(body));
            return None;
        }
        let d = (code - 48) as u64;
        proof {
            lemma_digits_step(body, i - start);
        }
        if magnitude > (I64_MAGNITUDE_BOUND - d) / 10 {
            proof {
                assert(magnitude * 10 + d > I64_MAGNITUDE_BOUND) by (nonlinear_arith)
                    requires
                        magnitude > (I64_MAGNITUDE_BOUND - d) / 10,
                        d <= 9,
                ;
                if all_digits(body) {
                    lemma_digits_prefix_grows(body, i - start + 1);
                }
            }
            return None;
        }
        assert(magnitude * 10 + d <= I64_MAGNITUDE_BOUND) by (nonlinear_arith)
            requires
                magnitude <= (I64_MAGNITUDE_BOUND - d) / 10,
                d <= 9,
        ;
        magnitude = magnitude * 10 + d;
        i = i + 1;
    }
    assert(body.take(len - start) =~= body);
    if negative {
        if magnitude == I64_MAGNITUDE_BOUND {
            Some(i64::MIN)
        } else {
            Some(-(magnitude as i64))
        }
    } else if magnitude <= 9223372036854775807 {
        Some(magnitude as i64)
    } else {
        None
    }
}

/// Reads a token as a boolean, as `str::parse::<bool>` does.
pub fn parse_bool(text: &str) -> (b: Option<bool>)
    ensures
        b == spec_parse_bool(text@),
{
    if text_equals(text, "true") {
        Some(true)
    } else if text_equals(text, "false") {
        Some(false)
    } else {
        None
    }
}

impl ArgType {
    /// Reads `token` as an argument of this type.
    pub fn evaluate(&self, token: &ArgToken) -> (res: Result<EvaluatedArg, CommandError>)
        ensures
            match spec_evaluate(*self, token@) {
                Some(v) => res matches Ok(arg) && arg@ == v,
                None => res matches Err(CommandError::InvalidArgument(text, t)) && text@ == token@
                    && t == *self,
            },
    {
        let parsed = match self {
            ArgType::Int => match parse_int(token.text.as_str()) {
                Some(v) => Some(EvaluatedArg::Int(v)),
                None => None,
            },
            ArgType::Str => Some(EvaluatedArg::Str(token.text.clone())),
            ArgType::Bool => match parse_bool(token.text.as_str()) {
                Some(v) => Some(EvaluatedArg::Bool(v)),
                None => None,
            },
        };
        match parsed {
            Some(arg) => Ok(arg),
            None => Err(CommandError::InvalidArgument(token.text.clone(), *self)),
        }
    }
}

} // verus!
