//! Pairs of the form `key = value`, one after the other, where a value is a
//! brace block or a bare token.

use crate::block::{block_ends_at, block_parts, match_block};
use crate::error::{FormatError, FormatFault};
use crate::text::{
    drop_trailing_whitespace, find, first_index, is_whitespace, lemma_first_index,
    lemma_token_len, lemma_trim_end, lemma_trim_start, skip_whitespace, to_chars, to_string,
    token_end, token_len, trim_end, trim_start,
};
use vstd::hash_map::StringHashMap;
use vstd::prelude::*;

verus! {

/// The raw value at the start of `s`, and the text that follows it. A value
/// that opens with `{` is the inside of that block; any other value is the
/// token that `s` starts with.
pub open spec fn value_parts(s: Seq<char>) -> Result<(Seq<char>, Seq<char>), FormatFault> {
    if s.len() > 0 && s[0] == '{' {
        block_parts(s)
    } else {
        Ok((s.take(token_len(s)), s.skip(token_len(s))))
    }
}

/// The pairs of `s`, added to those in `found`.
///
/// The scan goes from left to right. Whitespace before a key is passed over;
/// the key is what stands before the next `=`, without the whitespace at its
/// end; the value is what `value_parts` finds after the `=` and the
/// whitespace behind it. The first fault ends the scan: text without a `=`,
/// a key of no characters, a block that does not end, or a key that `found`
/// already holds.
pub open spec fn key_values_from(s: Seq<char>, found: Map<Seq<char>, Seq<char>>) -> Result<
    Map<Seq<char>, Seq<char>>,
    FormatFault,
>
    decreases s.len(),
    via key_values_from_decreases
{
    let t = trim_start(s);
    if t.len() == 0 {
        Ok(found)
    } else {
        let e = first_index(t, '=');
        if e == t.len() {
            Err(FormatFault::MissingAssignment)
        } else {
            let key = trim_end(t.take(e));
            if key.len() == 0 {
                Err(FormatFault::EmptyKey)
            } else {
                match value_parts(trim_start(t.skip(e + 1))) {
                    Err(fault) => Err(fault),
                    Ok((value, rest)) => if found.contains_key(key) {
                        Err(FormatFault::DuplicateKey { key, first: found[key], second: value })
                    } else {
                        key_values_from(rest, found.insert(key, value))
                    },
                }
            }
        }
    }
}

#[via_fn]
proof fn key_values_from_decreases(s: Seq<char>, found: Map<Seq<char>, Seq<char>>) {
    let t = trim_start(s);
    lemma_trim_start(s);
    lemma_first_index(t, '=');
    let e = first_index(t, '=');
    if t.len() != 0 && e != t.len() {
        lemma_value_parts_shorten(trim_start(t.skip(e + 1)));
        lemma_trim_start(t.skip(e + 1));
    }
}

/// The pairs of `s`, as a map from each key to its raw value.
pub open spec fn key_values(s: Seq<char>) -> Result<Map<Seq<char>, Seq<char>>, FormatFault> {
    key_values_from(s, Map::empty())
}

/// A value and the text after it are no longer than the text they were
/// taken from.
pub proof fn lemma_value_parts_shorten(s: Seq<char>)
    ensures
        match value_parts(s) {
            Ok((value, rest)) => value.len() + rest.len() <= s.len(),
            Err(_) => true,
        },
{
    if s.len() > 0 && s[0] == '{' {
        if exists|i: int| block_ends_at(s, i) {
            let i = choose|i: int| block_ends_at(s, i);
            assert(0 < i < s.len());
        }
    } else {
        lemma_token_len(s);
    }
}

/// Whether `key` can come out of a scan: it has a character, neither its
/// first nor its last is whitespace, and none is a `=`.
pub open spec fn is_key(key: Seq<char>) -> bool {
    &&& key.len() > 0
    &&& !is_whitespace(key[0])
    &&& !is_whitespace(key.last())
    &&& forall|i: int| 0 <= i < key.len() ==> key[i] != '='
}

/// A scan keeps the pairs it was given, and every key it adds is a trimmed
/// token of one character at least.
pub proof fn lemma_scanned_keys(s: Seq<char>, found: Map<Seq<char>, Seq<char>>)
    requires
        forall|k: Seq<char>| found.contains_key(k) ==> is_key(k),
    ensures
        match key_values_from(s, found) {
            Ok(pairs) => {
                &&& found.submap_of(pairs)
                &&& forall|k: Seq<char>| pairs.contains_key(k) ==> is_key(k)
            },
            Err(_) => true,
        },
    decreases s.len(),
{
    let t = trim_start(s);
    lemma_trim_start(s);
    if t.len() != 0 {
        lemma_first_index(t, '=');
        let e = first_index(t, '=');
        if e != t.len() {
            let head = t.take(e);
            let key = trim_end(head);
            lemma_trim_end(head);
            if key.len() != 0 {
                let u = trim_start(t.skip(e + 1));
                lemma_trim_start(t.skip(e + 1));
                lemma_value_parts_shorten(u);
                match value_parts(u) {
                    Err(_) => {},
                    Ok((value, rest)) => {
                        if !found.contains_key(key) {
                            assert(is_key(key)) by {
                                assert(key[0] == t[0]);
                                assert forall|i: int| 0 <= i < key.len() implies key[i]
                                    != '=' by {
                                    assert(key[i] == t[i]);
                                }
                            }
                            let next = found.insert(key, value);
                            lemma_scanned_keys(rest, next);
                            if let Ok(pairs) = key_values_from(rest, next) {
                                assert forall|k: Seq<char>| #[trigger]
                                    found.dom().contains(k) implies pairs.dom().contains(k)
                                    && found[k] == pairs[k] by {
                                    assert(next.dom().contains(k) && next[k] == found[k]);
                                }
                            }
                        }
                    },
                }
            }
        }
    }
}

/// Every key of a scan is a trimmed token of one character at least.
pub proof fn lemma_keys_are_trimmed(s: Seq<char>)
    ensures
        match key_values(s) {
            Ok(pairs) => forall|k: Seq<char>| pairs.contains_key(k) ==> is_key(k),
            Err(_) => true,
        },
{
    lemma_scanned_keys(s, Map::empty());
}

/// A mapping from keys to raw values, in which each key stands once.
pub struct KeyValueMap {
    entries: StringHashMap<String>,
}

impl View for KeyValueMap {
    type V = Map<Seq<char>, Seq<char>>;

    closed spec fn view(&self) -> Map<Seq<char>, Seq<char>> {
        Map::new(|k: Seq<char>| self.entries@.contains_key(k), |k: Seq<char>| self.entries@[k]@)
    }
}

impl KeyValueMap {
    /// A mapping without entries.
    pub fn new() -> (m: KeyValueMap)
        ensures
            m@ == Map::<Seq<char>, Seq<char>>::empty(),
    {
        KeyValueMap { entries: StringHashMap::new() }
    }

    /// The number of entries.
    pub fn len(&self) -> (n: usize)
        ensures
            n == self@.len(),
    {
        assert(self@.dom() =~= self.entries@.dom());
        self.entries.len()
    }

    /// Whether `key` has a value.
    pub fn contains_key(&self, key: &str) -> (b: bool)
        ensures
            b == self@.contains_key(key@),
    {
        self.entries.contains_key(key)
    }

    /// The raw value of `key`, where it has one.
    pub fn get(&self, key: &str) -> (value: Option<&str>)
        ensures
            match value {
                Some(v) => self@.contains_key(key@) && v@ == self@[key@],
                None => !self@.contains_key(key@),
            },
    {
        match self.entries.get(key) {
            Some(v) => Some(v.as_str()),
            None => None,
        }
    }

    /// Gives `key` the value `value`, and returns the value it had before.
    pub fn insert(&mut self, key: String, value: String) -> (previous: Option<String>)
        ensures
            final(self)@ == old(self)@.insert(key@, value@),
            match previous {
                Some(p) => old(self)@.contains_key(key@) && p@ == old(self)@[key@],
                None => !old(self)@.contains_key(key@),
            },
    {
        let previous = match self.entries.get(key.as_str()) {
            Some(p) => Some(p.clone()),
            None => None,
        };
        self.entries.insert(key, value);
        previous
    }
}

/// Scans the pairs of `input` into a mapping.
pub fn scan_key_values(input: &[char]) -> (r: Result<KeyValueMap, FormatError>)
    ensures
        match (r, key_values(input@)) {
            (Ok(found), Ok(m)) => found@ == m,
            (Err(e), Err(f)) => e@ == f,
            _ => false,
        },
{
    let mut found = KeyValueMap::new();
    let mut rest: &[char] = input;
    loop
        invariant
            key_values(input@) == key_values_from(rest@, found@),
        decreases rest@.len(),
    {
        proof {
            lemma_trim_start(rest@);
        }
        let t = skip_whitespace(rest);
        if t.len() == 0 {
            return Ok(found);
        }
        let e = match find(t, '=') {
            Some(e) => e,
            None => {
                return Err(FormatError::MissingAssignment);
            },
        };
        let key = drop_trailing_whitespace(&t[0..e]);
        if key.len() == 0 {
            return Err(FormatError::EmptyKey);
        }
        let u = skip_whitespace(&t[e + 1..t.len()]);
        proof {
            lemma_trim_start(t@.skip(e + 1));
            lemma_value_parts_shorten(u@);
        }
        let (value, tail) = if u.len() > 0 && u[0] == '{' {
            match match_block(u) {
                Ok(parts) => parts,
                Err(fault) => {
                    return Err(fault);
                },
            }
        } else {
            let n = token_end(u);
            (&u[0..n], &u[n..u.len()])
        };
        let key_text = to_string(key);
        let value_text = to_string(value);
        match found.insert(key_text, value_text) {
            Some(first) => {
                return Err(
                    FormatError::DuplicateKey {
                        key: to_string(key),
                        first,
                        second: to_string(value),
                    },
                );
            },
            None => {},
        }
        rest = tail;
    }
}

/// Scans `input` for pairs `key = value` and returns the mapping from each
/// key to its raw value: the inside of a brace block, not parsed further, or
/// a bare token.
pub fn parse_kv(input: &str) -> (r: Result<KeyValueMap, FormatError>)
    ensures
        match (r, key_values(input@)) {
            (Ok(found), Ok(m)) => found@ == m,
            (Err(e), Err(f)) => e@ == f,
            _ => false,
        },
{
    let chars = to_chars(input);
    scan_key_values(chars.as_slice())
}

} // verus!
