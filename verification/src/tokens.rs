//! Token counts of text.
use std::collections::HashSet;
use vstd::prelude::*;

verus! {

/// The number of tokens of a text in the encoding `o200k_base`, where the text
/// can be encoded.
pub uninterp spec fn token_count(text: Seq<char>) -> Option<nat>;

/// A count as a number without bound.
pub open spec fn counted(count: Option<usize>) -> Option<nat> {
    match count {
        Some(count) => Some(count as nat),
        None => None,
    }
}

/// The length of what `encode` of `tiktoken_rs::o200k_base_singleton()` returns
/// where no special token is allowed; nothing where it returns an error, which
/// it does on a text that takes its regular expression over a fixed limit. The
/// vocabulary and the limits are part of the crates, so the result depends on
/// the text alone.
#[verifier::external_body]
fn encoded_length(text: &str) -> (count: Option<usize>)
    ensures
        counted(count) == token_count(text@),
{
    match tiktoken_rs::o200k_base_singleton().encode(text, &HashSet::new()) {
        Ok((tokens, _)) => Some(tokens.len()),
        Err(_) => None,
    }
}

/// The number of tokens of `text`, where it can be encoded.
pub fn text_tokens(text: &str) -> (count: Option<usize>)
    ensures
        counted(count) == token_count(text@),
{
    encoded_length(text)
}

} // verus!
