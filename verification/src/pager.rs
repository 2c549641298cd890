use vstd::prelude::*;
use crate::record::Record;
use crate::store::{cursor_of, page_spec, Store};

verus! {

/// How many records one page holds at most.
pub const PAGE_SIZE: usize = 100;

/// One page of history and the number of records stored right now. Without a
/// cursor the page holds the newest records; with one, the newest among those
/// strictly older than the cursor.
pub fn request_page(store: &Store, before: Option<i64>) -> (r: (Vec<Record>, usize))
    requires
        store.wf(),
    ensures
        r.0.deep_view() == page_spec(store@, cursor_of(before), PAGE_SIZE as nat),
        r.1 == store@.len(),
{
    let total = store.count();
    let records = store.page(before, PAGE_SIZE);
    (records, total)
}

} // verus!
