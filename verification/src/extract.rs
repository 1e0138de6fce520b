//! The provinces of a state: comments are stripped, the key `state` is looked
//! up among the pairs of the text, the key `provinces` among the pairs of its
//! value, and that value is read as an array of integers.

use crate::comments::{strip_comments, without_comments};
use crate::error::{ExtractError, ExtractFault, FormatFault};
use crate::integers::{parse_array_u32, u32_array};
use crate::keyvalue::{key_values, parse_kv};
use vstd::prelude::*;

verus! {

/// The raw value that the pairs of `s` give to `key`.
pub open spec fn value_of(s: Seq<char>, key: Seq<char>) -> Result<Seq<char>, ExtractFault> {
    match key_values(s) {
        Err(fault) => Err(ExtractFault::Format(fault)),
        Ok(pairs) => if pairs.contains_key(key) {
            Ok(pairs[key])
        } else {
            Err(ExtractFault::MissingKey { key })
        },
    }
}

/// The province identifiers that `text` lists under `state`, then
/// `provinces`, in the order of the text; or the first fault met on the way.
pub open spec fn state_provinces(text: Seq<char>) -> Result<Seq<u32>, ExtractFault> {
    match value_of(without_comments(text), "state"@) {
        Err(fault) => Err(fault),
        Ok(state) => match value_of(state, "provinces"@) {
            Err(fault) => Err(fault),
            Ok(provinces) => match u32_array(provinces) {
                Err(fault) => Err(ExtractFault::Format(fault)),
                Ok(ids) => Ok(ids),
            },
        },
    }
}

/// What a run of the extraction returned, over sequences.
pub open spec fn outcome(r: Result<Vec<u32>, ExtractError>) -> Result<Seq<u32>, ExtractFault> {
    match r {
        Ok(ids) => Ok(ids@),
        Err(e) => Err(e@),
    }
}

/// Where the text parses, holds a `state` whose value parses, and that value
/// holds no `provinces`, the extraction fails for want of that key, and not
/// for a fault of form.
pub proof fn lemma_missing_provinces(
    text: Seq<char>,
    top: Map<Seq<char>, Seq<char>>,
    inner: Map<Seq<char>, Seq<char>>,
)
    requires
        key_values(without_comments(text)) == Ok::<Map<Seq<char>, Seq<char>>, FormatFault>(top),
        top.contains_key("state"@),
        key_values(top["state"@]) == Ok::<Map<Seq<char>, Seq<char>>, FormatFault>(inner),
        !inner.contains_key("provinces"@),
    ensures
        state_provinces(text) == Err::<Seq<u32>, ExtractFault>(
            ExtractFault::MissingKey { key: "provinces"@ },
        ),
{
}

/// Two runs of the extraction on one text return the same: the result is a
/// function of the text, and of nothing else.
pub proof fn lemma_extraction_repeatable(
    text: Seq<char>,
    first: Result<Vec<u32>, ExtractError>,
    second: Result<Vec<u32>, ExtractError>,
)
    requires
        outcome(first) == state_provinces(text),
        outcome(second) == state_provinces(text),
    ensures
        outcome(first) == outcome(second),
{
}

/// The raw value that the pairs of `input` give to `key`: the scan of
/// `input` has to succeed, and `key` has to be among its keys.
pub fn find_value(input: &str, key: &str) -> (r: Result<String, ExtractError>)
    ensures
        match (r, value_of(input@, key@)) {
            (Ok(value), Ok(v)) => value@ == v,
            (Err(e), Err(f)) => e@ == f,
            _ => false,
        },
{
    match parse_kv(input) {
        Err(fault) => Err(ExtractError::Format(fault)),
        Ok(pairs) => match pairs.get(key) {
            Some(value) => Ok(value.to_owned()),
            None => Err(ExtractError::MissingKey { key: key.to_owned() }),
        },
    }
}

/// Extracts the province identifiers of the state that `text` defines.
///
/// Succeeds exactly where `state_provinces` does, with the same identifiers
/// in the same order, and fails with the same fault otherwise: a fault of
/// form from any of the scans, or a missing key where the syntax was sound
/// and `state` or `provinces` is absent.
pub fn parse_state_provinces(text: &str) -> (r: Result<Vec<u32>, ExtractError>)
    ensures
        outcome(r) == state_provinces(text@),
{
    let stripped = strip_comments(text);
    let state = match find_value(stripped.as_str(), "state") {
        Ok(state) => state,
        Err(e) => {
            return Err(e);
        },
    };
    let provinces = match find_value(state.as_str(), "provinces") {
        Ok(provinces) => provinces,
        Err(e) => {
            return Err(e);
        },
    };
    match parse_array_u32(provinces.as_str()) {
        Ok(ids) => Ok(ids),
        Err(fault) => Err(ExtractError::Format(fault)),
    }
}

} // verus!
