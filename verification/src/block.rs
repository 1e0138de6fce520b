//! Balanced-brace blocks: the text between a `{` and the `}` that matches it.
//!
//! Braces are counted wherever they stand; there is no escaping and no
//! notion of a quoted string.

use crate::error::{FormatError, FormatFault};
use crate::text::{to_chars, to_string};
use vstd::prelude::*;

verus! {

/// What one character adds to the nesting depth.
pub open spec fn brace_step(c: char) -> int {
    if c == '{' {
        1
    } else if c == '}' {
        -1
    } else {
        0
    }
}

/// The number of opening braces in `s` minus the number of closing braces.
pub open spec fn brace_balance(s: Seq<char>) -> int
    decreases s.len(),
{
    if s.len() == 0 {
        0
    } else {
        brace_balance(s.drop_last()) + brace_step(s.last())
    }
}

/// Whether the closing brace at index `i` ends the block that `s` opens with
/// its first character: the depth returns to zero there, and nowhere before.
pub open spec fn block_ends_at(s: Seq<char>, i: int) -> bool {
    &&& 0 < i < s.len()
    &&& brace_balance(s.take(i + 1)) == 0
    &&& forall|n: int| 0 < n <= i ==> brace_balance(#[trigger] s.take(n)) != 0
}

/// Whether `s` is made of balanced brace pairs and of other characters: no
/// prefix closes more braces than it opens, and all that are opened are
/// closed.
pub open spec fn is_balanced(s: Seq<char>) -> bool {
    &&& brace_balance(s) == 0
    &&& forall|n: int| 0 <= n <= s.len() ==> brace_balance(#[trigger] s.take(n)) >= 0
}

/// The block at the start of `s`: the text inside its outermost braces and
/// the text after them. Without a `{` in front there is no block; if the
/// text ends before the block does, the fault tells how many closing braces
/// were still owed.
pub open spec fn block_parts(s: Seq<char>) -> Result<(Seq<char>, Seq<char>), FormatFault> {
    if s.len() == 0 || s[0] != '{' {
        Err(FormatFault::MissingOpeningBrace)
    } else if exists|i: int| block_ends_at(s, i) {
        let i = choose|i: int| block_ends_at(s, i);
        Ok((s.subrange(1, i), s.skip(i + 1)))
    } else {
        Err(FormatFault::UnbalancedBlock { missing: brace_balance(s) })
    }
}

/// A longer prefix has the balance of the shorter one, plus the step of the
/// character that was added.
pub proof fn lemma_balance_next(s: Seq<char>, n: int)
    requires
        0 <= n < s.len(),
    ensures
        brace_balance(s.take(n + 1)) == brace_balance(s.take(n)) + brace_step(s[n]),
{
    assert(s.take(n + 1).drop_last() == s.take(n));
}

/// The balance of a concatenation is the sum of the balances.
pub proof fn lemma_balance_concat(a: Seq<char>, b: Seq<char>)
    ensures
        brace_balance(a + b) == brace_balance(a) + brace_balance(b),
    decreases b.len(),
{
    if b.len() > 0 {
        lemma_balance_concat(a, b.drop_last());
        assert((a + b).drop_last() == a + b.drop_last());
    }
}

/// A block ends at one place at most.
pub proof fn lemma_block_end_unique(s: Seq<char>, i: int, j: int)
    requires
        block_ends_at(s, i),
        block_ends_at(s, j),
    ensures
        i == j,
{
}

/// A block whose inside is balanced is split into exactly that inside and
/// what follows the closing brace.
pub proof fn lemma_block_of_balanced(inner: Seq<char>, tail: Seq<char>)
    requires
        is_balanced(inner),
    ensures
        block_parts(seq!['{'] + inner + seq!['}'] + tail) == Ok::<
            (Seq<char>, Seq<char>),
            FormatFault,
        >((inner, tail)),
{
    let open = seq!['{'];
    let s = open + inner + seq!['}'] + tail;
    let i: int = inner.len() as int + 1;
    assert(brace_balance(open) == 1) by {
        assert(brace_balance(open.drop_last()) == 0);
    }
    assert forall|n: int| 0 < n <= i implies brace_balance(#[trigger] s.take(n)) != 0 by {
        assert(s.take(n) == open + inner.take(n - 1));
        lemma_balance_concat(open, inner.take(n - 1));
    }
    assert(brace_balance(s.take(i + 1)) == 0) by {
        assert(s.take(i) == open + inner.take(inner.len() as int));
        assert(inner.take(inner.len() as int) == inner);
        lemma_balance_concat(open, inner);
        lemma_balance_next(s, i);
    }
    let k = choose|k: int| block_ends_at(s, k);
    lemma_block_end_unique(s, i, k);
    assert(s.subrange(1, i) == inner);
    assert(s.skip(i + 1) == tail);
}

/// Splits the block at the start of `input` from what follows it, without
/// copying either part.
pub fn match_block<'a>(input: &'a [char]) -> (r: Result<(&'a [char], &'a [char]), FormatError>)
    ensures
        match (r, block_parts(input@)) {
            (Ok((inner, tail)), Ok((i, t))) => inner@ == i && tail@ == t,
            (Err(e), Err(f)) => e@ == f,
            _ => false,
        },
{
    if input.len() == 0 || input[0] != '{' {
        return Err(FormatError::MissingOpeningBrace);
    }
    let ghost s = input@;
    let mut depth: usize = 1;
    let mut i: usize = 1;
    proof {
        assert(brace_balance(s.take(1).drop_last()) == 0);
    }
    while i < input.len()
        invariant
            s == input@,
            s[0] == '{',
            1 <= i <= input.len(),
            1 <= depth <= i,
            depth == brace_balance(s.take(i as int)),
            forall|n: int| 0 < n <= i ==> brace_balance(#[trigger] s.take(n)) != 0,
        decreases input.len() - i,
    {
        let c = input[i];
        proof {
            lemma_balance_next(s, i as int);
        }
        if c == '{' {
            depth += 1;
        } else if c == '}' {
            depth -= 1;
            if depth == 0 {
                proof {
                    let k = choose|k: int| block_ends_at(s, k);
                    lemma_block_end_unique(s, i as int, k);
                }
                return Ok((&input[1..i], &input[i + 1..input.len()]));
            }
        }
        i += 1;
    }
    proof {
        assert(s.take(s.len() as int) == s);
    }
    Err(FormatError::UnbalancedBlock { missing: depth })
}

/// Splits the block at the start of `input` from what follows it: the text
/// strictly between the first `{` and the `}` that matches it, and the text
/// after that `}`.
pub fn block(input: &str) -> (r: Result<(String, String), FormatError>)
    ensures
        match (r, block_parts(input@)) {
            (Ok((inner, tail)), Ok((i, t))) => inner@ == i && tail@ == t,
            (Err(e), Err(f)) => e@ == f,
            _ => false,
        },
{
    let chars = to_chars(input);
    match match_block(chars.as_slice()) {
        Ok((inner, tail)) => Ok((to_string(inner), to_string(tail))),
        Err(e) => Err(e),
    }
}

} // verus!
