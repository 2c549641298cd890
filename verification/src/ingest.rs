use vstd::prelude::*;
use vstd::string::StringExecFns;
use crate::codec::{base64_text, encode_base64, decode_base64, fresh_id, json_pairs_text, now_millis, pairs_to_json};
use crate::record::{Record, RecordView};
use crate::store::{has_id, insert_spec, trim_spec, Store};

verus! {

/// The stored header text: the serialized pairs, or an empty JSON array where
/// they could not be serialized.
pub open spec fn headers_text(serialized: Option<Seq<char>>) -> Seq<char> {
    match serialized {
        Some(text) => text,
        None => "[]"@,
    }
}

/// `decoded` is what decoding `text` gives: the bytes that `text` encodes,
/// whichever they are, and nothing where it encodes none.
pub open spec fn decodes_to(text: Seq<char>, decoded: Option<Seq<u8>>) -> bool {
    &&& decoded matches Some(v) ==> base64_text(v) == text
    &&& forall|b: Seq<u8>| base64_text(b) == text ==> decoded == Some(b)
}

/// What a store holds after it was offered `r` and then cut to `max` records.
/// A record whose id is already stored leaves the contents alone.
pub open spec fn ingest_spec(s: Seq<RecordView>, r: RecordView, max: nat) -> Seq<RecordView> {
    if has_id(s, r.id) {
        trim_spec(s, max)
    } else {
        trim_spec(insert_spec(s, r), max)
    }
}

/// Puts a record together from its parts once the headers and the body have
/// been turned into text.
pub fn assemble(
    id: String,
    timestamp: i64,
    method: String,
    url: String,
    headers: Option<String>,
    body: String,
    body_size: u64,
) -> (r: Record)
    ensures
        r@ == (RecordView {
            id: id@,
            timestamp: timestamp as int,
            method: method@,
            url: url@,
            headers: headers_text(headers.deep_view()),
            body: body@,
            body_size: body_size as nat,
        }),
{
    let headers = match headers {
        Some(text) => text,
        None => String::from_str("[]"),
    };
    Record { id, timestamp, method, url, headers, body, body_size }
}

/// Normalizes one inbound request into a record: the header pairs as JSON
/// text, the body as base64 text, and the size of the raw body.
pub fn build_record(
    id: String,
    timestamp: i64,
    method: String,
    url: String,
    headers: &Vec<(String, String)>,
    body: &[u8],
) -> (r: Record)
    requires
        body@.len() <= isize::MAX,
    ensures
        r@ == (RecordView {
            id: id@,
            timestamp: timestamp as int,
            method: method@,
            url: url@,
            headers: headers_text(json_pairs_text(headers.deep_view())),
            body: base64_text(body@),
            body_size: body@.len(),
        }),
{
    let serialized = pairs_to_json(headers);
    let text = encode_base64(body);
    assemble(id, timestamp, method, url, serialized, text, body.len() as u64)
}

/// The raw body of a record: the bytes its body text encodes, or `None`
/// where the text is no base64 encoding.
pub fn decode_body(record: &Record) -> (bytes: Option<Vec<u8>>)
    ensures
        decodes_to(record@.body, bytes.deep_view()),
{
    let bytes = decode_base64(record.body.as_str());
    proof {
        if bytes is Some {
            assert(bytes->0.deep_view() =~= bytes->0@);
        }
    }
    bytes
}

/// Offers a record to the store and enforces the retention limit in the same
/// step. Returns whether the record was stored; one with a known id is not.
pub fn store_and_trim(store: &mut Store, record: Record, max_count: usize) -> (stored: bool)
    requires
        old(store).wf(),
    ensures
        final(store).wf(),
        stored == !has_id(old(store)@, record@.id),
        final(store)@ == ingest_spec(old(store)@, record@, max_count as nat),
        final(store)@.len() <= max_count,
{
    let stored = store.insert(record).is_ok();
    store.trim_to_limit(max_count);
    stored
}

/// Captures one inbound request: builds its record under a fresh id and the
/// current time, stores it, trims the store, and returns the record to
/// announce. The record is returned whether or not the store took it.
pub fn ingest(
    store: &mut Store,
    max_count: usize,
    method: String,
    url: String,
    headers: &Vec<(String, String)>,
    body: &[u8],
) -> (event: Record)
    requires
        old(store).wf(),
        body@.len() <= isize::MAX,
    ensures
        final(store).wf(),
        event@.method == method@,
        event@.url == url@,
        event@.headers == headers_text(json_pairs_text(headers.deep_view())),
        event@.body == base64_text(body@),
        event@.body_size == body@.len(),
        final(store)@ == ingest_spec(old(store)@, event@, max_count as nat),
        final(store)@.len() <= max_count,
{
    let id = fresh_id();
    let timestamp = now_millis();
    let record = build_record(id, timestamp, method, url, headers, body);
    let event = record.clone();
    store_and_trim(store, record, max_count);
    event
}

} // verus!
