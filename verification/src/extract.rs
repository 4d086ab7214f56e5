//! Trusted bridge to `serde_json` for reading provider response payloads,
//! and to `std`'s lossy UTF-8 decoding for error bodies.
//!
//! What a JSON lookup returns is a function of the payload bytes alone, but
//! takes pages to state; each result is therefore given a name that the
//! callers' contracts speak of exactly.

use vstd::prelude::*;

verus! {

/// The string at `choices[0].delta.content` of the parsed JSON payload, if
/// the payload parses and that path holds a string.
pub uninterp spec fn delta_content_of(payload: Seq<u8>) -> Option<Seq<char>>;

/// The string at `choices[0].message.content` of the parsed JSON payload, if
/// the payload parses and that path holds a string.
pub uninterp spec fn message_content_of(payload: Seq<u8>) -> Option<Seq<char>>;

/// The text that lossy UTF-8 decoding yields for a byte sequence.
pub uninterp spec fn lossy_text_of(bytes: Seq<u8>) -> Seq<char>;

/// Relies on `serde_json::from_slice` and `serde_json::Value::{get, as_str}`:
/// parses the payload and reads the string at `choices[0].delta.content`,
/// a function of the payload bytes alone.
#[verifier::external_body]
pub(crate) fn extract_delta_content(payload: &[u8]) -> (r: Option<String>)
    ensures
        match r {
            Some(s) => delta_content_of(payload@) == Some(s@),
            None => delta_content_of(payload@) is None,
        },
{
    let v: serde_json::Value = match serde_json::from_slice(payload) {
        Ok(v) => v,
        Err(_) => return None,
    };
    v.get("choices")
        .and_then(|c| c.get(0))
        .and_then(|c| c.get("delta"))
        .and_then(|d| d.get("content"))
        .and_then(|c| c.as_str())
        .map(|s| s.to_string())
}

/// Relies on `serde_json::from_slice` and `serde_json::Value::{get, as_str}`:
/// parses the payload and reads the string at `choices[0].message.content`,
/// a function of the payload bytes alone.
#[verifier::external_body]
pub(crate) fn extract_message_content(payload: &[u8]) -> (r: Option<String>)
    ensures
        match r {
            Some(s) => message_content_of(payload@) == Some(s@),
            None => message_content_of(payload@) is None,
        },
{
    let v: serde_json::Value = match serde_json::from_slice(payload) {
        Ok(v) => v,
        Err(_) => return None,
    };
    v.get("choices")
        .and_then(|c| c.get(0))
        .and_then(|c| c.get("message"))
        .and_then(|m| m.get("content"))
        .and_then(|c| c.as_str())
        .map(|s| s.to_string())
}

/// Relies on `String::from_utf8_lossy`: the decoded text is a function of
/// the bytes alone.
#[verifier::external_body]
pub(crate) fn bytes_to_text(bytes: &[u8]) -> (r: String)
    ensures
        r@ == lossy_text_of(bytes@),
{
    String::from_utf8_lossy(bytes).into_owned()
}

} // verus!
