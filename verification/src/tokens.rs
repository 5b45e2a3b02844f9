//! Token counts of texts under the cl100k_base encoding.

use vstd::prelude::*;

verus! {

/// What tiktoken's cl100k_base encoder gives for a text with every special
/// token allowed: the token sequence, or `None` where the encoder reports an
/// error (its regular-expression engine stops at a backtracking limit).
pub uninterp spec fn cl100k_encoding(text: Seq<char>) -> Option<Seq<u32>>;

/// Number of cl100k_base tokens of a text, `None` where it cannot be encoded.
pub open spec fn cl100k_count(text: Seq<char>) -> Option<nat> {
    match cl100k_encoding(text) {
        Some(tokens) => Some(tokens.len()),
        None => None,
    }
}

/// Calls `encode` on tiktoken's shared cl100k_base encoder
/// (`cl100k_base_singleton`), allowing every special token the encoder has
/// (`special_tokens`). Claimed: the outcome, tokens or error, is a function of
/// the text alone (the regular-expression limits are step counts, not time).
/// `encode` reports the errors of its splitting expression; the special-token
/// search that it unwraps has no backtracking construct, which fancy-regex
/// hands to the `regex` crate, and does not fail.
#[verifier::external_body]
fn cl100k_encode(text: &str) -> (r: Option<Vec<u32>>)
    ensures
        match r {
            Some(tokens) => cl100k_encoding(text@) == Some(tokens@),
            None => cl100k_encoding(text@) is None,
        },
{
    let bpe = tiktoken_rs::cl100k_base_singleton();
    bpe.encode(text, &bpe.special_tokens()).ok().map(|(tokens, _)| tokens)
}

/// Number of cl100k_base tokens in `text`, `None` where the encoder fails.
pub fn count_tokens(text: &str) -> (r: Option<usize>)
    ensures
        match r {
            Some(n) => cl100k_count(text@) == Some(n as nat),
            None => cl100k_count(text@) is None,
        },
{
    match cl100k_encode(text) {
        Some(tokens) => Some(tokens.len()),
        None => None,
    }
}

/// A JSON value of serde_json.
#[verifier::external_type_specification]
#[verifier::external_body]
pub struct ExJsonValue(serde_json::Value);

/// The text that `serde_json::to_string` gives for a value: compact, with the
/// keys of each object in sorted order (the empty text where it reports an
/// error).
pub uninterp spec fn json_compact(value: serde_json::Value) -> Seq<char>;

/// Calls `serde_json::to_string` on a value, with the empty text in place of
/// an error. Claimed: the text is a function of the value alone.
#[verifier::external_body]
pub(crate) fn json_compact_text(value: &serde_json::Value) -> (r: String)
    ensures
        r@ == json_compact(*value),
{
    serde_json::to_string(value).unwrap_or_default()
}

/// Number of cl100k_base tokens of a JSON value's compact text.
pub open spec fn json_token_count(value: serde_json::Value) -> Option<nat> {
    cl100k_count(json_compact(value))
}

/// Number of cl100k_base tokens in the compact JSON text of `value`, `None`
/// where the encoder fails on that text.
pub fn count_tokens_json(value: &serde_json::Value) -> (r: Option<usize>)
    ensures
        match r {
            Some(n) => json_token_count(*value) == Some(n as nat),
            None => json_token_count(*value) is None,
        },
{
    let text = json_compact_text(value);
    count_tokens(text.as_str())
}

} // verus!
