//! Character classes and the scanning primitives the grammar is built from.
//!
//! Text is modelled as a sequence of characters. The executable primitives
//! work on character slices and hand back sub-slices of their input, so a
//! scan never copies what it steps over.

use vstd::prelude::*;

verus! {

/// Whether `c` carries the Unicode `White_Space` property.
pub open spec fn is_whitespace(c: char) -> bool {
    ||| '\u{9}' <= c <= '\u{d}'
    ||| c == ' '
    ||| c == '\u{85}'
    ||| c == '\u{a0}'
    ||| c == '\u{1680}'
    ||| '\u{2000}' <= c <= '\u{200a}'
    ||| c == '\u{2028}'
    ||| c == '\u{2029}'
    ||| c == '\u{202f}'
    ||| c == '\u{205f}'
    ||| c == '\u{3000}'
}

/// Whether `c` is one of the five ASCII whitespace characters: space, tab,
/// line feed, form feed, carriage return.
pub open spec fn is_ascii_whitespace(c: char) -> bool {
    c == ' ' || c == '\t' || c == '\n' || c == '\u{c}' || c == '\r'
}

/// Whether `c` is an ASCII decimal digit.
pub open spec fn is_digit(c: char) -> bool {
    '0' <= c <= '9'
}

/// `s` without its leading whitespace.
pub open spec fn trim_start(s: Seq<char>) -> Seq<char>
    decreases s.len(),
{
    if s.len() > 0 && is_whitespace(s[0]) {
        trim_start(s.drop_first())
    } else {
        s
    }
}

/// `s` without its trailing whitespace.
pub open spec fn trim_end(s: Seq<char>) -> Seq<char>
    decreases s.len(),
{
    if s.len() > 0 && is_whitespace(s.last()) {
        trim_end(s.drop_last())
    } else {
        s
    }
}

/// The index of the first `c` in `s`, or `s.len()` where `s` holds none.
pub open spec fn first_index(s: Seq<char>, c: char) -> int
    decreases s.len(),
{
    if s.len() == 0 || s[0] == c {
        0
    } else {
        1 + first_index(s.drop_first(), c)
    }
}

/// The length of the token that `s` starts with: the index of its first ASCII
/// whitespace character, or `s.len()` where it holds none.
pub open spec fn token_len(s: Seq<char>) -> int
    decreases s.len(),
{
    if s.len() == 0 || is_ascii_whitespace(s[0]) {
        0
    } else {
        1 + token_len(s.drop_first())
    }
}

/// `trim_start` cuts a prefix made of whitespace only, and what is left does
/// not begin with whitespace.
pub proof fn lemma_trim_start(s: Seq<char>)
    ensures
        trim_start(s).len() <= s.len(),
        trim_start(s) == s.skip(s.len() - trim_start(s).len()),
        forall|i: int| 0 <= i < s.len() - trim_start(s).len() ==> is_whitespace(#[trigger] s[i]),
        trim_start(s).len() > 0 ==> !is_whitespace(trim_start(s)[0]),
    decreases s.len(),
{
    if s.len() > 0 && is_whitespace(s[0]) {
        let t = s.drop_first();
        lemma_trim_start(t);
        assert forall|i: int| 0 <= i < s.len() - trim_start(s).len() implies is_whitespace(
            #[trigger] s[i],
        ) by {
            if i > 0 {
                assert(s[i] == t[i - 1]);
            }
        }
    }
}

/// `trim_end` cuts a suffix made of whitespace only, and what is left does
/// not end with whitespace.
pub proof fn lemma_trim_end(s: Seq<char>)
    ensures
        trim_end(s).len() <= s.len(),
        trim_end(s) == s.take(trim_end(s).len() as int),
        forall|i: int| trim_end(s).len() <= i < s.len() ==> is_whitespace(#[trigger] s[i]),
        trim_end(s).len() > 0 ==> !is_whitespace(trim_end(s).last()),
    decreases s.len(),
{
    if s.len() > 0 && is_whitespace(s.last()) {
        let t = s.drop_last();
        lemma_trim_end(t);
        assert forall|i: int| trim_end(s).len() <= i < s.len() implies is_whitespace(
            #[trigger] s[i],
        ) by {
            if i < t.len() {
                assert(s[i] == t[i]);
            }
        }
    }
}

/// `first_index` is the least index at which `c` stands.
pub proof fn lemma_first_index(s: Seq<char>, c: char)
    ensures
        0 <= first_index(s, c) <= s.len(),
        first_index(s, c) < s.len() ==> s[first_index(s, c)] == c,
        forall|i: int| 0 <= i < first_index(s, c) ==> #[trigger] s[i] != c,
    decreases s.len(),
{
    if s.len() == 0 || s[0] == c {
    } else {
        let t = s.drop_first();
        lemma_first_index(t, c);
        assert forall|i: int| 0 <= i < first_index(s, c) implies #[trigger] s[i] != c by {
            if i > 0 {
                assert(s[i] == t[i - 1]);
            }
        }
    }
}

/// `token_len` is the least index at which an ASCII whitespace character
/// stands.
pub proof fn lemma_token_len(s: Seq<char>)
    ensures
        0 <= token_len(s) <= s.len(),
        token_len(s) < s.len() ==> is_ascii_whitespace(s[token_len(s)]),
        forall|i: int| 0 <= i < token_len(s) ==> !is_ascii_whitespace(#[trigger] s[i]),
    decreases s.len(),
{
    if s.len() == 0 || is_ascii_whitespace(s[0]) {
    } else {
        let t = s.drop_first();
        lemma_token_len(t);
        assert forall|i: int| 0 <= i < token_len(s) implies !is_ascii_whitespace(
            #[trigger] s[i],
        ) by {
            if i > 0 {
                assert(s[i] == t[i - 1]);
            }
        }
    }
}

/// Tests a character for the `White_Space` property.
pub fn whitespace(c: char) -> (b: bool)
    ensures
        b == is_whitespace(c),
{
    (c >= '\u{9}' && c <= '\u{d}') || c == ' ' || c == '\u{85}' || c == '\u{a0}' || c
        == '\u{1680}' || (c >= '\u{2000}' && c <= '\u{200a}') || c == '\u{2028}' || c
        == '\u{2029}' || c == '\u{202f}' || c == '\u{205f}' || c == '\u{3000}'
}

/// Tests a character for being ASCII whitespace.
pub fn ascii_whitespace(c: char) -> (b: bool)
    ensures
        b == is_ascii_whitespace(c),
{
    c == ' ' || c == '\t' || c == '\n' || c == '\u{c}' || c == '\r'
}

/// `String::push` appends one character to the end of the string and leaves
/// what it held before in place.
pub assume_specification[ String::push ](s: &mut String, c: char)
    ensures
        final(s)@ == old(s)@.push(c),
;

/// The characters of `text`, in order.
pub fn to_chars(text: &str) -> (out: Vec<char>)
    ensures
        out@ == text@,
{
    let mut out: Vec<char> = Vec::new();
    for c in it: text.chars()
        invariant
            out@ == it.seq().take(it.index() as int),
            it.seq() == text@,
    {
        out.push(c);
    }
    out
}

/// A string made of `chars`, in order.
pub fn to_string(chars: &[char]) -> (out: String)
    ensures
        out@ == chars@,
{
    let mut out = String::new();
    let mut i: usize = 0;
    while i < chars.len()
        invariant
            i <= chars.len(),
            out@ == chars@.take(i as int),
        decreases chars.len() - i,
    {
        out.push(chars[i]);
        i += 1;
    }
    out
}

/// The part of `input` that follows its leading whitespace.
pub fn skip_whitespace<'a>(input: &'a [char]) -> (rest: &'a [char])
    ensures
        rest@ == trim_start(input@),
{
    let mut i: usize = 0;
    assert(input@.skip(0) == input@);
    while i < input.len() && whitespace(input[i])
        invariant
            i <= input.len(),
            trim_start(input@) == trim_start(input@.skip(i as int)),
        decreases input.len() - i,
    {
        assert(input@.skip(i as int).drop_first() == input@.skip(i + 1));
        i += 1;
    }
    &input[i..input.len()]
}

/// The part of `input` that precedes its trailing whitespace.
pub fn drop_trailing_whitespace<'a>(input: &'a [char]) -> (rest: &'a [char])
    ensures
        rest@ == trim_end(input@),
{
    let mut n: usize = input.len();
    assert(input@.take(n as int) == input@);
    while n > 0 && whitespace(input[n - 1])
        invariant
            n <= input.len(),
            trim_end(input@) == trim_end(input@.take(n as int)),
        decreases n,
    {
        assert(input@.take(n as int).drop_last() == input@.take(n - 1));
        n -= 1;
    }
    &input[0..n]
}

/// Where the first `c` of `input` stands, if there is one.
pub fn find(input: &[char], c: char) -> (found: Option<usize>)
    ensures
        match found {
            Some(i) => i < input@.len() && i == first_index(input@, c),
            None => first_index(input@, c) == input@.len(),
        },
{
    let mut i: usize = 0;
    assert(input@.skip(0) == input@);
    while i < input.len()
        invariant
            i <= input.len(),
            first_index(input@, c) == i + first_index(input@.skip(i as int), c),
        decreases input.len() - i,
    {
        if input[i] == c {
            return Some(i);
        }
        assert(input@.skip(i as int).drop_first() == input@.skip(i + 1));
        i += 1;
    }
    None
}

/// The length of the token at the start of `input`.
pub fn token_end(input: &[char]) -> (n: usize)
    ensures
        n == token_len(input@),
        n <= input@.len(),
{
    let mut i: usize = 0;
    assert(input@.skip(0) == input@);
    while i < input.len() && !ascii_whitespace(input[i])
        invariant
            i <= input.len(),
            token_len(input@) == i + token_len(input@.skip(i as int)),
        decreases input.len() - i,
    {
        assert(input@.skip(i as int).drop_first() == input@.skip(i + 1));
        i += 1;
    }
    i
}

} // verus!
