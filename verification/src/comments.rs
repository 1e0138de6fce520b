//! Line comments: a `#` and all that follows it up to the end of its line.

use crate::text::{find, first_index, lemma_first_index, to_chars, to_string};
use vstd::prelude::*;

verus! {

/// `s` without its comments. A comment runs from a `#` through the next line
/// feed, which goes with it; where no line feed follows, it runs to the end
/// of the text. Every other character stays, in its place.
pub open spec fn without_comments(s: Seq<char>) -> Seq<char>
    decreases s.len(),
    via without_comments_decreases
{
    if s.len() == 0 {
        Seq::empty()
    } else if s[0] == '#' {
        let n = first_index(s, '\n');
        if n < s.len() {
            without_comments(s.skip(n + 1))
        } else {
            Seq::empty()
        }
    } else {
        seq![s[0]] + without_comments(s.drop_first())
    }
}

#[via_fn]
proof fn without_comments_decreases(s: Seq<char>) {
    lemma_first_index(s, '\n');
}

/// Text that holds no `#` holds no comment, and is left as it is.
pub proof fn lemma_without_hash_unchanged(s: Seq<char>)
    requires
        forall|i: int| 0 <= i < s.len() ==> s[i] != '#',
    ensures
        without_comments(s) == s,
    decreases s.len(),
{
    if s.len() > 0 {
        lemma_without_hash_unchanged(s.drop_first());
    }
}

/// A `#` followed by text without a line feed is one comment, and nothing
/// is left of it.
pub proof fn lemma_unterminated_comment_vanishes(rest: Seq<char>)
    requires
        forall|i: int| 0 <= i < rest.len() ==> rest[i] != '\n',
    ensures
        without_comments(seq!['#'] + rest) == Seq::<char>::empty(),
{
    lemma_first_index(seq!['#'] + rest, '\n');
}

/// What is left after the comments are gone holds no `#`.
pub proof fn lemma_without_comments_has_no_hash(s: Seq<char>)
    ensures
        forall|i: int| 0 <= i < without_comments(s).len() ==> without_comments(s)[i] != '#',
    decreases s.len(),
{
    if s.len() == 0 {
    } else if s[0] == '#' {
        lemma_first_index(s, '\n');
        let n = first_index(s, '\n');
        if n < s.len() {
            lemma_without_comments_has_no_hash(s.skip(n + 1));
            assert(without_comments(s) == without_comments(s.skip(n + 1)));
        }
    } else {
        let rest = without_comments(s.drop_first());
        lemma_without_comments_has_no_hash(s.drop_first());
        assert forall|i: int| 0 <= i < without_comments(s).len() implies without_comments(s)[i]
            != '#' by {
            if i > 0 {
                assert(without_comments(s)[i] == rest[i - 1]);
            }
        }
    }
}

/// The characters of `input` that stand outside comments.
pub fn strip_comment_chars(input: &[char]) -> (out: Vec<char>)
    ensures
        out@ == without_comments(input@),
{
    let ghost s = input@;
    let mut out: Vec<char> = Vec::new();
    let mut i: usize = 0;
    assert(s.skip(0) == s);
    while i < input.len()
        invariant
            s == input@,
            i <= input.len(),
            without_comments(s) == out@ + without_comments(s.skip(i as int)),
        decreases input.len() - i,
    {
        let ghost t = s.skip(i as int);
        let c = input[i];
        if c == '#' {
            let line = &input[i..input.len()];
            match find(line, '\n') {
                Some(n) => {
                    assert(t.skip(n + 1) == s.skip(i + n + 1));
                    i = i + n + 1;
                },
                None => {
                    i = input.len();
                },
            }
        } else {
            assert(t.drop_first() == s.skip(i + 1));
            assert(out@.push(c) + without_comments(s.skip(i + 1)) == out@ + (seq![c]
                + without_comments(s.skip(i + 1))));
            out.push(c);
            i += 1;
        }
    }
    out
}

/// `text` with its comments removed.
pub fn strip_comments(text: &str) -> (out: String)
    ensures
        out@ == without_comments(text@),
{
    let chars = to_chars(text);
    let kept = strip_comment_chars(chars.as_slice());
    to_string(kept.as_slice())
}

} // verus!
