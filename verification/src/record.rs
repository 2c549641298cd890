use vstd::prelude::*;

verus! {

/// One captured request.
///
/// `timestamp` is the capture time in milliseconds since the Unix epoch and is
/// the only key records are ordered and paged by. `headers` and `body` hold
/// serialized text; `body_size` is the length of the raw body in bytes.
#[derive(Debug, PartialEq, Eq)]
pub struct Record {
    pub id: String,
    pub timestamp: i64,
    pub method: String,
    pub url: String,
    pub headers: String,
    pub body: String,
    pub body_size: u64,
}

/// The mathematical value of a [`Record`].
pub struct RecordView {
    pub id: Seq<char>,
    pub timestamp: int,
    pub method: Seq<char>,
    pub url: Seq<char>,
    pub headers: Seq<char>,
    pub body: Seq<char>,
    pub body_size: nat,
}

impl View for Record {
    type V = RecordView;

    open spec fn view(&self) -> RecordView {
        RecordView {
            id: self.id@,
            timestamp: self.timestamp as int,
            method: self.method@,
            url: self.url@,
            headers: self.headers@,
            body: self.body@,
            body_size: self.body_size as nat,
        }
    }
}

impl DeepView for Record {
    type V = RecordView;

    open spec fn deep_view(&self) -> RecordView {
        self@
    }
}

impl Clone for Record {
    fn clone(&self) -> (r: Record)
        ensures
            r@ == self@,
    {
        Record {
            id: self.id.clone(),
            timestamp: self.timestamp,
            method: self.method.clone(),
            url: self.url.clone(),
            headers: self.headers.clone(),
            body: self.body.clone(),
            body_size: self.body_size,
        }
    }
}

} // verus!
