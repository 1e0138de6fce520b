//! Decimal integers, and arrays of them separated by whitespace.

use crate::error::{FormatError, FormatFault};
use crate::text::{
    is_digit, lemma_token_len, lemma_trim_start, skip_whitespace, to_chars, to_string, token_end,
    token_len, trim_start,
};
use vstd::prelude::*;

verus! {

/// The number that a decimal digit stands for.
pub open spec fn digit_value(c: char) -> int {
    c as int - '0' as int
}

/// Whether `s` is a decimal numeral: one digit or more, and nothing else.
pub open spec fn is_decimal(s: Seq<char>) -> bool {
    s.len() > 0 && forall|i: int| 0 <= i < s.len() ==> is_digit(#[trigger] s[i])
}

/// The number that a string of digits denotes, leading zeros allowed.
pub open spec fn decimal_value(s: Seq<char>) -> int
    decreases s.len(),
{
    if s.len() == 0 {
        0
    } else {
        10 * decimal_value(s.drop_last()) + digit_value(s.last())
    }
}

/// The number that `s` denotes, where `s` is a decimal numeral whose value
/// does not exceed `max`.
pub open spec fn decimal_up_to(s: Seq<char>, max: int) -> Option<int> {
    if is_decimal(s) && decimal_value(s) <= max {
        Some(decimal_value(s))
    } else {
        None
    }
}

/// `s` read as an unsigned 32-bit integer.
pub open spec fn decimal_u32(s: Seq<char>) -> Option<u32> {
    match decimal_up_to(s, u32::MAX as int) {
        Some(v) => Some(v as u32),
        None => None,
    }
}

/// `s` read as an unsigned 8-bit integer.
pub open spec fn decimal_u8(s: Seq<char>) -> Option<u8> {
    match decimal_up_to(s, u8::MAX as int) {
        Some(v) => Some(v as u8),
        None => None,
    }
}

/// The tokens of `s`: its maximal runs of characters between whitespace, in
/// order. Leading whitespace of any kind is passed over; a token ends at
/// the first ASCII whitespace character.
pub open spec fn tokens(s: Seq<char>) -> Seq<Seq<char>>
    decreases s.len(),
    via tokens_decreases
{
    let t = trim_start(s);
    if t.len() == 0 {
        Seq::empty()
    } else {
        seq![t.take(token_len(t))] + tokens(t.skip(token_len(t)))
    }
}

#[via_fn]
proof fn tokens_decreases(s: Seq<char>) {
    lemma_trim_start(s);
    lemma_token_len(trim_start(s));
}

/// The numbers that `tokens` denote, or the fault of the first token that
/// denotes none.
pub open spec fn u32_values(tokens: Seq<Seq<char>>) -> Result<Seq<u32>, FormatFault>
    decreases tokens.len(),
{
    if tokens.len() == 0 {
        Ok(Seq::empty())
    } else {
        match decimal_u32(tokens[0]) {
            None => Err(FormatFault::InvalidInteger { token: tokens[0] }),
            Some(v) => prepend(seq![v], u32_values(tokens.drop_first())),
        }
    }
}

/// `r` with `head` put in front of what it holds on success.
pub open spec fn prepend(head: Seq<u32>, r: Result<Seq<u32>, FormatFault>) -> Result<
    Seq<u32>,
    FormatFault,
> {
    match r {
        Ok(values) => Ok(head + values),
        Err(e) => Err(e),
    }
}

/// The array of unsigned 32-bit integers that `s` spells out.
pub open spec fn u32_array(s: Seq<char>) -> Result<Seq<u32>, FormatFault> {
    u32_values(tokens(s))
}

/// A prefix of a string of digits denotes no more than the whole.
pub proof fn lemma_decimal_prefix(s: Seq<char>, k: int)
    requires
        forall|i: int| 0 <= i < s.len() ==> is_digit(#[trigger] s[i]),
        0 <= k <= s.len(),
    ensures
        0 <= decimal_value(s.take(k)) <= decimal_value(s),
    decreases s.len(),
{
    if k == s.len() {
        assert(s.take(k) == s);
        if s.len() > 0 {
            lemma_decimal_prefix(s.drop_last(), k - 1);
        }
    } else {
        let t = s.drop_last();
        lemma_decimal_prefix(t, k);
        assert(t.take(k) == s.take(k));
    }
}

/// Reads `token` as a decimal numeral of value `max` at most.
fn parse_decimal(token: &[char], max: u64) -> (r: Option<u64>)
    requires
        max <= u32::MAX,
    ensures
        match r {
            Some(v) => decimal_up_to(token@, max as int) == Some(v as int),
            None => decimal_up_to(token@, max as int) is None,
        },
{
    if token.len() == 0 {
        return None;
    }
    let ghost s = token@;
    let mut value: u64 = 0;
    let mut i: usize = 0;
    while i < token.len()
        invariant
            s == token@,
            max <= u32::MAX,
            i <= token.len(),
            value == decimal_value(s.take(i as int)),
            value <= max,
            forall|j: int| 0 <= j < i ==> is_digit(#[trigger] s[j]),
        decreases token.len() - i,
    {
        let c = token[i];
        if c < '0' || c > '9' {
            return None;
        }
        let digit: u64 = (c as u32 - '0' as u32) as u64;
        proof {
            assert(s.take(i + 1).drop_last() == s.take(i as int));
        }
        value = value * 10 + digit;
        if value > max {
            proof {
                if is_decimal(s) {
                    lemma_decimal_prefix(s, i + 1);
                }
            }
            return None;
        }
        i += 1;
    }
    proof {
        assert(s.take(s.len() as int) == s);
    }
    Some(value)
}

/// Reads `token` as an unsigned 32-bit integer in decimal notation.
pub fn parse_u32(token: &[char]) -> (r: Option<u32>)
    ensures
        r == decimal_u32(token@),
{
    match parse_decimal(token, u32::MAX as u64) {
        Some(v) => Some(v as u32),
        None => None,
    }
}

/// Reads `token` as an unsigned 8-bit integer in decimal notation.
pub fn parse_u8(token: &[char]) -> (r: Option<u8>)
    ensures
        r == decimal_u8(token@),
{
    match parse_decimal(token, u8::MAX as u64) {
        Some(v) => Some(v as u8),
        None => None,
    }
}

/// Reads the tokens of `input` as unsigned 32-bit integers, in order.
pub fn scan_u32_array(input: &[char]) -> (r: Result<Vec<u32>, FormatError>)
    ensures
        match (r, u32_array(input@)) {
            (Ok(values), Ok(v)) => values@ == v,
            (Err(e), Err(f)) => e@ == f,
            _ => false,
        },
{
    let mut values: Vec<u32> = Vec::new();
    let mut rest: &[char] = input;
    loop
        invariant
            u32_array(input@) == prepend(values@, u32_array(rest@)),
        decreases rest@.len(),
    {
        let ghost before = rest@;
        proof {
            lemma_trim_start(before);
        }
        rest = skip_whitespace(rest);
        if rest.len() == 0 {
            return Ok(values);
        }
        proof {
            lemma_token_len(rest@);
        }
        let n = token_end(rest);
        let token = &rest[0..n];
        let ghost after = rest@.skip(n as int);
        proof {
            let all = seq![token@] + tokens(after);
            assert(all.drop_first() == tokens(after));
        }
        match parse_u32(token) {
            None => {
                return Err(FormatError::InvalidInteger { token: to_string(token) });
            },
            Some(v) => {
                proof {
                    let tail = u32_array(after);
                    if tail is Ok {
                        assert(values@.push(v) + tail->Ok_0 == values@ + (seq![v] + tail->Ok_0));
                    }
                }
                values.push(v);
            },
        }
        rest = &rest[n..rest.len()];
    }
}

/// Reads `input` as an array of unsigned 32-bit integers: decimal tokens
/// separated by whitespace. The values come in the order of the text, and
/// a value that occurs twice is kept twice. The first token that is no such
/// integer ends the scan, and is reported.
pub fn parse_array_u32(input: &str) -> (r: Result<Vec<u32>, FormatError>)
    ensures
        match (r, u32_array(input@)) {
            (Ok(values), Ok(v)) => values@ == v,
            (Err(e), Err(f)) => e@ == f,
            _ => false,
        },
{
    let chars = to_chars(input);
    scan_u32_array(chars.as_slice())
}

} // verus!
