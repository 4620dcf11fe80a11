//! The calls into outside crates that read and rewrite JSON bodies, join
//! URLs, and decode hex. Each result that takes pages to state is given a
//! name; the routing logic is stated over these names.
use vstd::prelude::*;

verus! {

/// A `String` option as plain text.
pub open spec fn opt_view(o: Option<String>) -> Option<Seq<char>> {
    match o {
        Some(s) => Some(s@),
        None => None,
    }
}

/// What `serde_json` makes of a request body: `Ok` with the `model` member
/// when it is a JSON string and the `stream` member when it is a JSON
/// boolean (members of a top-level object), or `Err` with the text of the
/// parse error.
pub uninterp spec fn request_json(body: Seq<u8>) -> Result<(Option<Seq<char>>, Option<bool>), Seq<char>>;

/// The body re-serialized by `serde_json` with its `model` member set to
/// `model`.
pub uninterp spec fn json_with_model(body: Seq<u8>, model: Seq<char>) -> Seq<u8>;

/// What `serde_json` reads of a response body's token usage: `None` when the
/// body is not JSON, else `usage.prompt_tokens` and `usage.completion_tokens`,
/// each when present as a `u64`.
pub uninterp spec fn json_usage_reads(body: Seq<u8>) -> Option<(Option<u64>, Option<u64>)>;

/// `error.message` of a JSON error text, when it is a JSON string.
pub uninterp spec fn json_error_message(text: Seq<char>) -> Option<Seq<char>>;

/// `String::from_utf8_lossy` of `bytes`.
pub uninterp spec fn lossy_utf8(bytes: Seq<u8>) -> Seq<char>;

/// The URL `reqwest::Url` makes of `path` relative to `base`, when `base`
/// parses and the join succeeds.
pub uninterp spec fn joined_url(base: Seq<char>, path: Seq<char>) -> Option<Seq<char>>;

/// Parses a request body with `serde_json::from_slice::<Value>` and reads its
/// `model` (`Value::get` + `Value::as_str`) and `stream` (`Value::get` +
/// `Value::as_bool`) members; the error is rendered with its `Display`.
/// Claims only that the outcome is `request_json` of the body.
#[verifier::external_body]
pub(crate) fn inspect_request(body: &[u8]) -> (r: Result<(Option<String>, Option<bool>), String>)
    ensures
        match r {
            Ok((m, s)) => request_json(body@) == Ok::<(Option<Seq<char>>, Option<bool>), Seq<char>>((opt_view(m), s)),
            Err(e) => request_json(body@) == Err::<(Option<Seq<char>>, Option<bool>), Seq<char>>(e@),
        },
{
    match serde_json::from_slice::<serde_json::Value>(body) {
        Ok(v) => Ok(
            (
                v.get("model").and_then(|m| m.as_str()).map(|m| m.to_string()),
                v.get("stream").and_then(|s| s.as_bool()),
            ),
        ),
        Err(e) => Err(e.to_string()),
    }
}

/// Parses the body with `serde_json::from_slice::<Value>`, assigns
/// `payload["model"]` and serializes with `serde_json::to_vec`. A body whose
/// `model` member is a string is a JSON object, so neither the parse, the
/// assignment nor the serialization fails. Claims only that the bytes are
/// `json_with_model` of the arguments.
#[verifier::external_body]
pub(crate) fn rewrite_model(body: &[u8], model: &str) -> (r: Vec<u8>)
    requires
        request_json(body@) matches Ok((Some(_), _)),
    ensures
        r@ == json_with_model(body@, model@),
{
    let mut payload: serde_json::Value = serde_json::from_slice(body).unwrap();
    payload["model"] = serde_json::Value::String(model.to_string());
    serde_json::to_vec(&payload).unwrap()
}

/// Reads the token usage of a response body with `serde_json::from_slice`,
/// `Value::get` and `Value::as_u64`. Claims only that the outcome is
/// `json_usage_reads` of the body.
#[verifier::external_body]
pub(crate) fn usage_reads(body: &[u8]) -> (r: Option<(Option<u64>, Option<u64>)>)
    ensures
        r == json_usage_reads(body@),
{
    serde_json::from_slice::<serde_json::Value>(body).ok().map(
        |v| {
            let usage = v.get("usage");
            (
                usage.and_then(|u| u.get("prompt_tokens")).and_then(|t| t.as_u64()),
                usage.and_then(|u| u.get("completion_tokens")).and_then(|t| t.as_u64()),
            )
        },
    )
}

/// Reads `error.message` of an upstream error text with
/// `serde_json::from_str`, `Value::get` and `Value::as_str`. Claims only that
/// the outcome is `json_error_message` of the text.
#[verifier::external_body]
pub(crate) fn error_message(text: &str) -> (r: Option<String>)
    ensures
        opt_view(r) == json_error_message(text@),
{
    serde_json::from_str::<serde_json::Value>(text).ok().and_then(
        |v| v.get("error").and_then(|e| e.get("message")).and_then(|m| m.as_str().map(String::from)),
    )
}

/// `String::from_utf8_lossy`. Claims only that the text is `lossy_utf8` of
/// the bytes.
#[verifier::external_body]
pub(crate) fn utf8_lossy(bytes: &[u8]) -> (r: String)
    ensures
        r@ == lossy_utf8(bytes@),
{
    String::from_utf8_lossy(bytes).to_string()
}

/// `reqwest::Url::parse(base)` then `Url::join(path)`, rendered as a string.
/// Claims only that the outcome is `joined_url` of the arguments.
#[verifier::external_body]
pub(crate) fn join_url(base: &str, path: &str) -> (r: Option<String>)
    ensures
        opt_view(r) == joined_url(base@, path@),
{
    match reqwest::Url::parse(base) {
        Ok(u) => u.join(path).ok().map(|j| j.to_string()),
        Err(_) => None,
    }
}

/// Value of a hexadecimal digit, upper or lower case.
pub open spec fn hex_value(c: char) -> Option<int> {
    if '0' <= c && c <= '9' {
        Some(c as int - 48)
    } else if 'a' <= c && c <= 'f' {
        Some(c as int - 87)
    } else if 'A' <= c && c <= 'F' {
        Some(c as int - 55)
    } else {
        None
    }
}

/// Hex decoding: an even number of hex digits decodes to one byte per pair,
/// high digit first; anything else is an error.
pub open spec fn hex_decoded(s: Seq<char>) -> Option<Seq<u8>> {
    if s.len() % 2 == 0 && forall|i: int| 0 <= i < s.len() ==> (#[trigger] hex_value(s[i])) is Some {
        Some(
            Seq::new(
                (s.len() / 2) as nat,
                |k: int| (hex_value(s[2 * k])->0 * 16 + hex_value(s[2 * k + 1])->0) as u8,
            ),
        )
    } else {
        None
    }
}

/// `hex::decode` of the text's UTF-8 bytes. Per the crate's source it fails
/// on an odd byte length or a byte that is not a hex digit, and otherwise
/// yields `val(hi) << 4 | val(lo)` per pair; a text that is not all ASCII
/// hex digits therefore fails whatever its length, and an ASCII one has as
/// many bytes as characters. The contract states exactly that, with the
/// error mapped to `None`.
#[verifier::external_body]
pub(crate) fn hex_decode(s: &str) -> (r: Option<Vec<u8>>)
    ensures
        match r {
            Some(v) => hex_decoded(s@) == Some(v@),
            None => hex_decoded(s@) is None,
        },
{
    hex::decode(s).ok()
}

} // verus!
