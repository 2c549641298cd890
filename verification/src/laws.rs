//! What holds of the store across several operations.

use vstd::prelude::*;
use crate::codec::base64_text;
use crate::ingest::{decodes_to, ingest_spec};
use crate::record::RecordView;
use crate::seq_facts::{lemma_filter_is_suffix, lemma_filter_removes_one};
use crate::session::{next_action, next_phase, Event, Phase};
use crate::store::{
    delete_spec, distinct_ids, has_id, insert_spec, lemma_insert_place, lemma_insert_well_formed,
    lemma_trim_well_formed, newest_first, older_than, other_than, page_spec, trim_spec, visible,
    well_formed,
};

verus! {

/// After every capture the store is within its limit and still well formed,
/// and every record that the trim dropped is no newer than any it kept.
pub proof fn lemma_ingest_within_limit(s: Seq<RecordView>, r: RecordView, max: nat)
    requires
        well_formed(s),
    ensures
        well_formed(ingest_spec(s, r, max)),
        ingest_spec(s, r, max).len() <= max,
        !has_id(s, r.id) ==> ({
            let all = insert_spec(s, r);
            let kept = ingest_spec(s, r, max);
            &&& kept == all.take(kept.len() as int)
            &&& forall|i: int, j: int|
                0 <= i < kept.len() <= j < all.len() ==> all[i].timestamp >= all[j].timestamp
        }),
{
    if has_id(s, r.id) {
        lemma_trim_well_formed(s, max);
    } else {
        lemma_insert_well_formed(s, r);
        lemma_trim_well_formed(insert_spec(s, r), max);
        let all = insert_spec(s, r);
        assert(all.take(all.len() as int) =~= all);
    }
}

/// Trimming before a capture changes nothing that trimming after it would
/// not: the record lands in the same place among the newest `max`.
pub proof fn lemma_trim_commutes_with_insert(s: Seq<RecordView>, r: RecordView, max: nat)
    requires
        newest_first(s),
    ensures
        trim_spec(insert_spec(trim_spec(s, max), r), max) == trim_spec(insert_spec(s, r), max),
{
    if s.len() > max {
        let cap = max as int;
        let t = s.take(cap);
        assert forall|i: int, j: int| 0 <= i < j < t.len() implies t[i].timestamp
            >= t[j].timestamp by {
            assert(t[i] == s[i] && t[j] == s[j]);
        }
        let p = lemma_insert_place(s, r);
        let q = lemma_insert_place(t, r);
        if q < p && q < cap {
            assert(t[q] == s[q]);
        }
        if p < q {
            assert(t[p] == s[p]);
        }
        assert(q == if p < cap { p } else { cap });
        assert(t.insert(q, r).take(cap) =~= s.insert(p, r).take(cap));
    }
}

/// The store after each record of `rs` was captured in turn under the limit
/// `max`.
pub open spec fn ingest_all(s: Seq<RecordView>, rs: Seq<RecordView>, max: nat) -> Seq<RecordView>
    decreases rs.len(),
{
    if rs.len() == 0 {
        s
    } else {
        ingest_spec(ingest_all(s, rs.drop_last(), max), rs.last(), max)
    }
}

/// The store after each record of `rs` was inserted in turn, with no limit.
pub open spec fn insert_all(s: Seq<RecordView>, rs: Seq<RecordView>) -> Seq<RecordView>
    decreases rs.len(),
{
    if rs.len() == 0 {
        s
    } else {
        insert_spec(insert_all(s, rs.drop_last()), rs.last())
    }
}

/// The ids of `rs` differ from one another and from every id in `s`.
pub open spec fn all_new(s: Seq<RecordView>, rs: Seq<RecordView>) -> bool {
    &&& forall|i: int| 0 <= i < rs.len() ==> !has_id(s, (#[trigger] rs[i]).id)
    &&& distinct_ids(rs)
}

/// Inserting records with new ids one after another keeps the invariant and
/// holds exactly the old ids and theirs.
pub proof fn lemma_insert_all_well_formed(s: Seq<RecordView>, rs: Seq<RecordView>)
    requires
        well_formed(s),
        all_new(s, rs),
    ensures
        well_formed(insert_all(s, rs)),
        insert_all(s, rs).len() == s.len() + rs.len(),
        forall|id: Seq<char>| has_id(insert_all(s, rs), id) <==> (has_id(s, id) || has_id(rs, id)),
    decreases rs.len(),
{
    if rs.len() > 0 {
        let front = rs.drop_last();
        let r = rs.last();
        assert forall|i: int| 0 <= i < front.len() implies !has_id(s, (#[trigger] front[i]).id) by {
            assert(front[i] == rs[i]);
        }
        assert forall|i: int, j: int| 0 <= i < j < front.len() implies front[i].id
            != front[j].id by {
            assert(front[i] == rs[i] && front[j] == rs[j]);
        }
        lemma_insert_all_well_formed(s, front);
        let mid = insert_all(s, front);
        if has_id(front, r.id) {
            let i = choose|i: int| 0 <= i < front.len() && #[trigger] front[i].id == r.id;
            assert(rs[i].id != rs[rs.len() - 1].id);
        }
        assert(!has_id(s, rs[rs.len() - 1].id));
        lemma_insert_well_formed(mid, r);
        assert forall|id: Seq<char>| has_id(insert_all(s, rs), id) <==> (has_id(s, id) || has_id(
            rs,
            id,
        )) by {
            if has_id(front, id) {
                let i = choose|i: int| 0 <= i < front.len() && #[trigger] front[i].id == id;
                assert(rs[i].id == id);
            }
            if id == r.id {
                assert(rs[rs.len() - 1].id == id);
            }
            if has_id(rs, id) {
                let i = choose|i: int| 0 <= i < rs.len() && #[trigger] rs[i].id == id;
                if i < rs.len() - 1 {
                    assert(front[i].id == id);
                }
            }
        }
    }
}

/// Retention keeps exactly the newest records. Capturing records with new
/// ids one by one, trimming to `max` after each, leaves what inserting all of
/// them and trimming once would leave: the first `max` in timestamp order.
/// The count never exceeds `max`.
pub proof fn lemma_retained_are_newest(s: Seq<RecordView>, rs: Seq<RecordView>, max: nat)
    requires
        well_formed(s),
        s.len() <= max,
        all_new(s, rs),
    ensures
        ingest_all(s, rs, max) == trim_spec(insert_all(s, rs), max),
        ingest_all(s, rs, max).len() <= max,
        well_formed(ingest_all(s, rs, max)),
    decreases rs.len(),
{
    if rs.len() > 0 {
        let front = rs.drop_last();
        let r = rs.last();
        assert forall|i: int| 0 <= i < front.len() implies !has_id(s, (#[trigger] front[i]).id) by {
            assert(front[i] == rs[i]);
        }
        assert forall|i: int, j: int| 0 <= i < j < front.len() implies front[i].id
            != front[j].id by {
            assert(front[i] == rs[i] && front[j] == rs[j]);
        }
        lemma_retained_are_newest(s, front, max);
        lemma_insert_all_well_formed(s, front);
        let whole = insert_all(s, front);
        let held = ingest_all(s, front, max);
        lemma_trim_well_formed(whole, max);
        if has_id(front, r.id) {
            let i = choose|i: int| 0 <= i < front.len() && #[trigger] front[i].id == r.id;
            assert(rs[i].id != rs[rs.len() - 1].id);
        }
        assert(!has_id(s, rs[rs.len() - 1].id));
        assert(!has_id(whole, r.id));
        assert(!has_id(held, r.id));
        lemma_trim_commutes_with_insert(whole, r, max);
        lemma_ingest_within_limit(held, r, max);
    }
}

/// A deleted id is gone: no page of the store, under any cursor and limit,
/// holds a record with that id.
pub proof fn lemma_deleted_id_never_paged(
    s: Seq<RecordView>,
    id: Seq<char>,
    before: Option<int>,
    limit: nat,
)
    ensures
        !has_id(delete_spec(s, id), id),
        !has_id(page_spec(delete_spec(s, id), before, limit), id),
{
    let left = delete_spec(s, id);
    assert forall|i: int| 0 <= i < left.len() implies (#[trigger] left[i]).id != id by {
        s.lemma_filter_pred(other_than(id), i);
    }
    let seen = visible(left, before);
    let page = page_spec(left, before, limit);
    assert forall|i: int| 0 <= i < page.len() implies (#[trigger] page[i]).id != id by {
        assert(page[i] == seen[i]);
        assert(seen.contains(seen[i]));
        match before {
            Some(t) => {
                left.lemma_filter_contains_rev(older_than(t), seen[i]);
            },
            None => {},
        }
        assert(left.contains(seen[i]));
    }
}

/// Deleting a record that was just inserted gives back the store as it was.
pub proof fn lemma_delete_undoes_insert(s: Seq<RecordView>, r: RecordView)
    requires
        well_formed(s),
        !has_id(s, r.id),
    ensures
        delete_spec(insert_spec(s, r), r.id) == s,
{
    let p = lemma_insert_place(s, r);
    let t = s.insert(p, r);
    assert forall|i: int| 0 <= i < t.len() && i != p implies other_than(r.id)(#[trigger] t[i]) by {
        if i < p {
            assert(t[i] == s[i]);
            assert(s[i].id != r.id);
        } else {
            assert(t[i] == s[i - 1]);
            assert(s[i - 1].id != r.id);
        }
    }
    lemma_filter_removes_one(t, other_than(r.id), p);
    assert(t.remove(p) =~= s);
}

/// A body survives capture, storage and decoding. Once a record whose body
/// text encodes `bytes` is stored, the store holds it unchanged under its id,
/// and whatever decoding its body text gives is `bytes` again.
pub proof fn lemma_body_round_trip(
    s: Seq<RecordView>,
    r: RecordView,
    bytes: Seq<u8>,
    decoded: Option<Seq<u8>>,
)
    requires
        well_formed(s),
        !has_id(s, r.id),
        r.body == base64_text(bytes),
        decodes_to(r.body, decoded),
    ensures
        insert_spec(s, r).contains(r),
        forall|i: int|
            0 <= i < insert_spec(s, r).len() && (#[trigger] insert_spec(s, r)[i]).id == r.id
                ==> insert_spec(s, r)[i] == r,
        decoded == Some(bytes),
{
    lemma_insert_well_formed(s, r);
    let t = insert_spec(s, r);
    let k = choose|k: int| 0 <= k < t.len() && t[k] == r;
    assert forall|i: int| 0 <= i < t.len() && (#[trigger] t[i]).id == r.id implies t[i] == r by {
        if i < k {
            assert(t[i].id != t[k].id);
        } else if k < i {
            assert(t[k].id != t[i].id);
        }
    }
}

/// No two records share a timestamp, and newer ones come first.
pub open spec fn strictly_newest_first(s: Seq<RecordView>) -> bool {
    forall|i: int, j: int| 0 <= i < j < s.len() ==> s[i].timestamp > s[j].timestamp
}

/// With distinct timestamps, the page behind the cursor taken from record
/// `k - 1` starts at record `k`: nothing is skipped and nothing repeated.
pub proof fn lemma_next_page_continues(s: Seq<RecordView>, k: int, limit: nat)
    requires
        strictly_newest_first(s),
        0 < k <= s.len(),
    ensures
        visible(s, Some(s[k - 1].timestamp)) == s.skip(k),
        page_spec(s, Some(s[k - 1].timestamp), limit) == trim_spec(s.skip(k), limit),
{
    let t = s[k - 1].timestamp;
    assert forall|i: int| 0 <= i < k implies !older_than(t)(#[trigger] s[i]) by {
        if i < k - 1 {
            assert(s[i].timestamp > s[k - 1].timestamp);
        }
    }
    assert forall|i: int| k <= i < s.len() implies older_than(t)(#[trigger] s[i]) by {
        assert(s[k - 1].timestamp > s[i].timestamp);
    }
    lemma_filter_is_suffix(s, older_than(t), k);
}

/// The pages read one after another, each from the cursor that the last
/// record of the page before gives, for at most `rounds` pages.
pub open spec fn pages_from(s: Seq<RecordView>, before: Option<int>, limit: nat, rounds: nat) -> Seq<
    RecordView,
>
    decreases rounds,
{
    let page = page_spec(s, before, limit);
    if rounds == 0 || page.len() == 0 {
        Seq::<RecordView>::empty()
    } else {
        page + pages_from(s, Some(page.last().timestamp), limit, (rounds - 1) as nat)
    }
}

/// Reading on from a cursor behind which records `k..` lie yields exactly
/// those records.
pub proof fn lemma_pages_from_cover_rest(
    s: Seq<RecordView>,
    before: Option<int>,
    k: int,
    limit: nat,
    rounds: nat,
)
    requires
        strictly_newest_first(s),
        limit > 0,
        0 <= k <= s.len(),
        visible(s, before) == s.skip(k),
        rounds >= s.len() - k,
    ensures
        pages_from(s, before, limit, rounds) == s.skip(k),
    decreases rounds,
{
    let rest = s.skip(k);
    let page = page_spec(s, before, limit);
    if rounds == 0 || page.len() == 0 {
        assert(rest.len() == 0);
        assert(pages_from(s, before, limit, rounds) =~= rest);
    } else {
        let m = page.len() as int;
        assert(page =~= s.subrange(k, k + m));
        assert(page.last() == s[k + m - 1]);
        lemma_next_page_continues(s, k + m, limit);
        lemma_pages_from_cover_rest(
            s,
            Some(page.last().timestamp),
            k + m,
            limit,
            (rounds - 1) as nat,
        );
        assert(s.subrange(k, k + m) + s.skip(k + m) =~= rest);
    }
}

/// Pagination has no gaps and no repeats. With distinct timestamps, the
/// first page followed by each next page, read until one comes back empty,
/// is the whole store, every record once, newest first.
pub proof fn lemma_pages_cover_store(s: Seq<RecordView>, limit: nat)
    requires
        strictly_newest_first(s),
        limit > 0,
    ensures
        pages_from(s, None, limit, s.len()) == s,
{
    assert(s.skip(0) =~= s);
    lemma_pages_from_cover_rest(s, None, 0, limit, s.len());
}

/// A session subscribes before it reads. It reaches `Streaming` only by the
/// confirmation of its subscription, sends history only then or later,
/// forwards live messages only while streaming, closes when the feed overran
/// it, and does nothing once closed.
pub proof fn lemma_history_follows_subscription(phase: Phase, event: Event)
    ensures
        next_phase(phase, event) == Phase::Streaming ==> (phase == Phase::Streaming || (phase
            == Phase::Connecting && event is Subscribed)),
        next_action(phase, event) is SendPage ==> next_phase(phase, event) == Phase::Streaming,
        next_action(phase, event) is Subscribe ==> phase == Phase::Connecting && event is Opened,
        next_action(phase, event) is Forward ==> phase == Phase::Streaming,
        event is Lagged && phase != Phase::Closed ==> next_phase(phase, event) == Phase::Closed
            && next_action(phase, event) is Close,
        phase == Phase::Closed ==> next_phase(phase, event) == Phase::Closed && next_action(
            phase,
            event,
        ) is Idle,
{
}

} // verus!
