//! The calls this library makes into other crates. Nothing in this file is
//! proved: each contract states what the called function is documented to do.

use vstd::prelude::*;
use base64::Engine;

verus! {

/// The padded standard-alphabet base64 text of a byte string.
pub uninterp spec fn base64_text(bytes: Seq<u8>) -> Seq<char>;

/// The text of a JSON array of `[name, value]` string pairs, where the
/// serializer produces one.
pub uninterp spec fn json_pairs_text(pairs: Seq<(Seq<char>, Seq<char>)>) -> Option<Seq<char>>;

/// The string found under `key` when `text` parses as JSON and holds a string
/// there.
pub uninterp spec fn json_field_text(text: Seq<char>, key: Seq<char>) -> Option<Seq<char>>;

/// The instant that an RFC 3339 date-time denotes, in milliseconds since the
/// Unix epoch.
pub uninterp spec fn rfc3339_millis(text: Seq<char>) -> Option<int>;

/// `base64::Engine::encode` on `general_purpose::STANDARD`. Trusted: the
/// result is the encoding of the input and depends on nothing else. The
/// bound keeps the encoded length inside `usize`, where the encoder would
/// otherwise panic; every slice meets it.
#[verifier::external_body]
pub(crate) fn encode_base64(bytes: &[u8]) -> (text: String)
    requires
        bytes@.len() <= isize::MAX,
    ensures
        text@ == base64_text(bytes@),
{
    base64::engine::general_purpose::STANDARD.encode(bytes)
}

/// `base64::Engine::decode` on `general_purpose::STANDARD`. Trusted: that
/// engine accepts canonical padded text only, so it decodes exactly the texts
/// that the encoder produces, each to the bytes it was produced from.
#[verifier::external_body]
pub(crate) fn decode_base64(text: &str) -> (decoded: Option<Vec<u8>>)
    ensures
        decoded matches Some(v) ==> base64_text(v@) == text@,
        forall|b: Seq<u8>| base64_text(b) == text@ ==> decoded.deep_view() == Some(b),
{
    base64::engine::general_purpose::STANDARD.decode(text).ok()
}

/// `uuid::Uuid::new_v4` rendered with `to_string`. The id is random: nothing
/// is claimed of it, not even that it is new.
#[verifier::external_body]
pub(crate) fn fresh_id() -> (id: String) {
    uuid::Uuid::new_v4().to_string()
}

/// `chrono::Utc::now` as `timestamp_millis`. The clock decides: nothing is
/// claimed of the value. chrono panics where the system clock stands before
/// the Unix epoch.
#[verifier::external_body]
pub(crate) fn now_millis() -> (t: i64) {
    chrono::Utc::now().timestamp_millis()
}

/// `chrono::DateTime::parse_from_rfc3339`, then `timestamp_millis`. Trusted:
/// the result depends on the text alone.
#[verifier::external_body]
pub(crate) fn parse_rfc3339(text: &str) -> (t: Option<i64>)
    ensures
        crate::store::cursor_of(t) == rfc3339_millis(text@),
{
    match chrono::DateTime::parse_from_rfc3339(text) {
        Ok(d) => Some(d.timestamp_millis()),
        Err(_) => None,
    }
}

/// `serde_json::to_string` on a list of string pairs. Trusted: the result
/// depends on the pairs alone; a serializer error becomes `None`.
#[verifier::external_body]
pub(crate) fn pairs_to_json(pairs: &Vec<(String, String)>) -> (text: Option<String>)
    ensures
        text.deep_view() == json_pairs_text(pairs.deep_view()),
{
    serde_json::to_string(pairs).ok()
}

/// `serde_json::from_str` into a `Value`, then `Value::get` and
/// `Value::as_str`. Trusted: the result depends on the text and the key
/// alone; text that does not parse, a missing key and a value that is no
/// string all give `None`.
#[verifier::external_body]
pub(crate) fn json_string_field(text: &str, key: &str) -> (field: Option<String>)
    ensures
        field.deep_view() == json_field_text(text@, key@),
{
    match serde_json::from_str::<serde_json::Value>(text) {
        Ok(value) => match value.get(key) {
            Some(found) => match found.as_str() {
                Some(s) => Some(s.to_string()),
                None => None,
            },
            None => None,
        },
        Err(_) => None,
    }
}

} // verus!
