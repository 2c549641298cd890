use vstd::prelude::*;
use crate::record::{Record, RecordView};
use crate::seq_facts::{
    lemma_filter_is_prefix, lemma_filter_is_suffix, lemma_filter_keeps_all,
    lemma_filter_removes_one,
};

verus! {

/// Why the store refused a write.
#[derive(Clone, Copy, Debug, PartialEq, Eq)]
pub enum StorageError {
    /// A record with the same id is already stored.
    DuplicateId,
}

/// Records captured strictly after `t`.
pub open spec fn newer_than(t: int) -> spec_fn(RecordView) -> bool {
    |r: RecordView| r.timestamp > t
}

/// Records captured at `t` or before.
pub open spec fn not_newer_than(t: int) -> spec_fn(RecordView) -> bool {
    |r: RecordView| r.timestamp <= t
}

/// Records captured strictly before `t`.
pub open spec fn older_than(t: int) -> spec_fn(RecordView) -> bool {
    |r: RecordView| r.timestamp < t
}

/// Records whose id is not `id`.
pub open spec fn other_than(id: Seq<char>) -> spec_fn(RecordView) -> bool {
    |r: RecordView| r.id != id
}

/// Timestamps never increase from front to back.
pub open spec fn newest_first(s: Seq<RecordView>) -> bool {
    forall|i: int, j: int| 0 <= i < j < s.len() ==> s[i].timestamp >= s[j].timestamp
}

/// No id occurs twice.
pub open spec fn distinct_ids(s: Seq<RecordView>) -> bool {
    forall|i: int, j: int| 0 <= i < j < s.len() ==> s[i].id != s[j].id
}

/// The invariant of a store's contents.
pub open spec fn well_formed(s: Seq<RecordView>) -> bool {
    newest_first(s) && distinct_ids(s)
}

/// Some record of `s` carries `id`.
pub open spec fn has_id(s: Seq<RecordView>, id: Seq<char>) -> bool {
    exists|i: int| 0 <= i < s.len() && #[trigger] s[i].id == id
}

/// `s` with `r` added: behind every strictly newer record, ahead of the rest.
pub open spec fn insert_spec(s: Seq<RecordView>, r: RecordView) -> Seq<RecordView> {
    s.filter(newer_than(r.timestamp)).push(r) + s.filter(not_newer_than(r.timestamp))
}

/// The first `max` records of `s`, or all of `s` if it has fewer.
pub open spec fn trim_spec(s: Seq<RecordView>, max: nat) -> Seq<RecordView> {
    if s.len() <= max {
        s
    } else {
        s.take(max as int)
    }
}

/// `s` without the records that carry `id`.
pub open spec fn delete_spec(s: Seq<RecordView>, id: Seq<char>) -> Seq<RecordView> {
    s.filter(other_than(id))
}

/// The records a page request sees: all of `s`, or those strictly older than
/// the cursor.
pub open spec fn visible(s: Seq<RecordView>, before: Option<int>) -> Seq<RecordView> {
    match before {
        Some(t) => s.filter(older_than(t)),
        None => s,
    }
}

/// One page: the first `limit` records that the cursor lets through.
pub open spec fn page_spec(s: Seq<RecordView>, before: Option<int>, limit: nat) -> Seq<
    RecordView,
> {
    trim_spec(visible(s, before), limit)
}

/// A cursor as a mathematical integer.
pub open spec fn cursor_of(before: Option<i64>) -> Option<int> {
    match before {
        Some(t) => Some(t as int),
        None => None,
    }
}

/// Whether a record stamped `ts` sorts ahead of the stamp `t`.
pub open spec fn ahead_of(ts: int, t: int, strict: bool) -> bool {
    if strict {
        ts > t
    } else {
        ts >= t
    }
}

/// The captured records, newest first, with no id stored twice.
pub struct Store {
    records: Vec<Record>,
}

impl View for Store {
    type V = Seq<RecordView>;

    closed spec fn view(&self) -> Seq<RecordView> {
        self.records.deep_view()
    }
}

impl Store {
    /// The store's invariant: newest first, ids distinct.
    pub open spec fn wf(&self) -> bool {
        well_formed(self@)
    }

    /// An empty store.
    pub fn new() -> (s: Store)
        ensures
            s@ == Seq::<RecordView>::empty(),
            s.wf(),
    {
        let s = Store { records: Vec::new() };
        assert(s@ =~= Seq::<RecordView>::empty());
        s
    }

    /// How many records are stored.
    pub fn count(&self) -> (n: usize)
        ensures
            n == self@.len(),
    {
        self.records.len()
    }

    /// Whether a record with this id is stored.
    pub fn contains_id(&self, id: &String) -> (b: bool)
        ensures
            b == has_id(self@, id@),
    {
        let mut i: usize = 0;
        while i < self.records.len()
            invariant
                i <= self.records.len(),
                forall|j: int| 0 <= j < i ==> (#[trigger] self@[j]).id != id@,
            decreases self.records.len() - i,
        {
            if self.records[i].id.eq(id) {
                assert(self@[i as int].id == id@);
                return true;
            }
            i += 1;
        }
        false
    }

    /// The index of the first record that does not sort ahead of `t`.
    fn boundary(&self, t: i64, strict: bool) -> (p: usize)
        requires
            self.wf(),
        ensures
            p <= self@.len(),
            forall|i: int| 0 <= i < p ==> ahead_of((#[trigger] self@[i]).timestamp, t as int, strict),
            forall|i: int|
                p <= i < self@.len() ==> !ahead_of((#[trigger] self@[i]).timestamp, t as int, strict),
    {
        let mut p: usize = 0;
        while p < self.records.len()
            invariant
                self.wf(),
                p <= self.records.len(),
                forall|i: int|
                    0 <= i < p ==> ahead_of((#[trigger] self@[i]).timestamp, t as int, strict),
            decreases self.records.len() - p,
        {
            let ts = self.records[p].timestamp;
            let ahead = if strict {
                ts > t
            } else {
                ts >= t
            };
            if !ahead {
                assert(self@[p as int].timestamp == ts);
                assert forall|i: int| p <= i < self@.len() implies !ahead_of(
                    (#[trigger] self@[i]).timestamp,
                    t as int,
                    strict,
                ) by {
                    if p < i {
                        assert(self@[p as int].timestamp >= self@[i].timestamp);
                    }
                }
                return p;
            }
            assert(self@[p as int].timestamp == ts);
            p += 1;
        }
        p
    }

    /// Stores one record behind every strictly newer one. A record whose id
    /// is already stored is refused and the store stays as it was.
    pub fn insert(&mut self, record: Record) -> (r: Result<(), StorageError>)
        requires
            old(self).wf(),
        ensures
            final(self).wf(),
            match r {
                Ok(_) => {
                    &&& !has_id(old(self)@, record@.id)
                    &&& final(self)@ == insert_spec(old(self)@, record@)
                    &&& final(self)@.len() == old(self)@.len() + 1
                },
                Err(e) => e is DuplicateId && has_id(old(self)@, record@.id) && final(self)@
                    == old(self)@,
            },
    {
        if self.contains_id(&record.id) {
            return Err(StorageError::DuplicateId);
        }
        let p = self.boundary(record.timestamp, true);
        let ghost before = self@;
        let ghost rv = record@;
        self.records.insert(p, record);
        proof {
            assert(self@ =~= before.insert(p as int, rv));
            let place = lemma_insert_place(before, rv);
            if place < p {
                assert(before[place].timestamp <= rv.timestamp);
            }
            if p < place {
                assert(before[p as int].timestamp <= rv.timestamp);
            }
            lemma_insert_well_formed(before, rv);
        }
        Ok(())
    }

    /// Drops the oldest records until at most `max_count` are left.
    pub fn trim_to_limit(&mut self, max_count: usize)
        requires
            old(self).wf(),
        ensures
            final(self).wf(),
            final(self)@ == trim_spec(old(self)@, max_count as nat),
    {
        let ghost before = self@;
        self.records.truncate(max_count);
        proof {
            if max_count < before.len() {
                assert(self@ =~= before.take(max_count as int));
            } else {
                assert(self@ =~= before);
            }
        }
    }

    /// Removes the record with this id, if there is one.
    pub fn delete_by_id(&mut self, id: &String)
        requires
            old(self).wf(),
        ensures
            final(self).wf(),
            final(self)@ == delete_spec(old(self)@, id@),
            !has_id(final(self)@, id@),
    {
        let ghost before = self@;
        let mut i: usize = 0;
        while i < self.records.len()
            invariant
                i <= self.records.len(),
                self@ == before,
                before == old(self)@,
                well_formed(before),
                forall|j: int| 0 <= j < i ==> (#[trigger] before[j]).id != id@,
            decreases self.records.len() - i,
        {
            if self.records[i].id.eq(id) {
                assert(before[i as int].id == id@);
                self.records.remove(i);
                proof {
                    let k = i as int;
                    let after = before.remove(k);
                    assert(self@ =~= after);
                    assert forall|j: int| 0 <= j < before.len() && j != k implies other_than(id@)(
                        #[trigger] before[j],
                    ) by {
                        if j < k {
                            assert(before[j].id != before[k].id);
                        } else {
                            assert(before[k].id != before[j].id);
                        }
                    }
                    lemma_filter_removes_one(before, other_than(id@), k);
                    assert forall|a: int, b: int| 0 <= a < b < after.len() implies after[a].timestamp
                        >= after[b].timestamp && after[a].id != after[b].id by {
                        let a0 = if a < k { a } else { a + 1 };
                        let b0 = if b < k { b } else { b + 1 };
                        assert(after[a] == before[a0] && after[b] == before[b0]);
                    }
                    assert forall|j: int| 0 <= j < after.len() implies (#[trigger] after[j]).id
                        != id@ by {
                        let j0 = if j < k { j } else { j + 1 };
                        assert(after[j] == before[j0]);
                        assert(other_than(id@)(before[j0]));
                    }
                }
                return ;
            }
            i += 1;
        }
        proof {
            lemma_filter_keeps_all(before, other_than(id@));
        }
    }

    /// Removes every record.
    pub fn delete_all(&mut self)
        ensures
            final(self).wf(),
            final(self)@ == Seq::<RecordView>::empty(),
    {
        self.records.clear();
        assert(self@ =~= Seq::<RecordView>::empty());
    }

    /// Up to `limit` records, newest first: the newest ones, or with a cursor
    /// the newest among those strictly older than it.
    pub fn page(&self, before: Option<i64>, limit: usize) -> (out: Vec<Record>)
        requires
            self.wf(),
        ensures
            out.deep_view() == page_spec(self@, cursor_of(before), limit as nat),
    {
        let start: usize = match before {
            Some(t) => self.boundary(t, false),
            None => 0,
        };
        let room: usize = self.records.len() - start;
        let take: usize = if limit < room {
            limit
        } else {
            room
        };
        let mut out: Vec<Record> = Vec::new();
        let mut j: usize = 0;
        while j < take
            invariant
                start + take <= self.records.len(),
                j <= take,
                out.deep_view() =~= self@.subrange(start as int, start + j),
            decreases take - j,
        {
            let copy = self.records[start + j].clone();
            let ghost shown = out.deep_view();
            assert(copy@ == self@[start + j]);
            out.push(copy);
            assert(out.deep_view() =~= shown.push(self@[start + j]));
            j += 1;
        }
        proof {
            match before {
                Some(t) => {
                    lemma_filter_is_suffix(self@, older_than(t as int), start as int);
                },
                None => {
                    assert(self@.skip(0) =~= self@);
                },
            }
            let seen = visible(self@, cursor_of(before));
            assert(seen == self@.skip(start as int));
            assert(trim_spec(seen, limit as nat) =~= self@.subrange(
                start as int,
                start + take,
            ));
        }
        out
    }
}

/// The place where a record stamped `t` goes: every record ahead of it is
/// strictly newer, every record from it on is not.
pub open spec fn is_cut(s: Seq<RecordView>, t: int, p: int) -> bool {
    &&& 0 <= p <= s.len()
    &&& forall|i: int| 0 <= i < p ==> (#[trigger] s[i]).timestamp > t
    &&& forall|i: int| p <= i < s.len() ==> (#[trigger] s[i]).timestamp <= t
}

/// In a newest-first sequence a new record has one place, and inserting it
/// means putting it there.
pub proof fn lemma_insert_place(s: Seq<RecordView>, r: RecordView) -> (p: int)
    requires
        newest_first(s),
    ensures
        is_cut(s, r.timestamp, p),
        insert_spec(s, r) == s.insert(p, r),
    decreases s.len(),
{
    let t = r.timestamp;
    let p = if s.len() == 0 {
        0
    } else if s.last().timestamp > t {
        assert forall|i: int| 0 <= i < s.len() implies (#[trigger] s[i]).timestamp > t by {
            if i < s.len() - 1 {
                assert(s[i].timestamp >= s[s.len() - 1].timestamp);
            }
        }
        s.len() as int
    } else {
        let front = s.drop_last();
        assert forall|i: int, j: int| 0 <= i < j < front.len() implies front[i].timestamp
            >= front[j].timestamp by {
            assert(front[i] == s[i] && front[j] == s[j]);
        }
        let q = lemma_insert_place(front, r);
        assert forall|i: int| 0 <= i < q implies (#[trigger] s[i]).timestamp > t by {
            assert(s[i] == front[i]);
        }
        assert forall|i: int| q <= i < s.len() implies (#[trigger] s[i]).timestamp <= t by {
            if i < s.len() - 1 {
                assert(s[i] == front[i]);
            }
        }
        q
    };
    lemma_filter_is_prefix(s, newer_than(t), p);
    lemma_filter_is_suffix(s, not_newer_than(t), p);
    assert(s.take(p).push(r) + s.skip(p) =~= s.insert(p, r));
    p
}

/// Inserting a record with a new id keeps the store's invariant, adds that
/// id and no other, and makes the store one longer.
pub proof fn lemma_insert_well_formed(s: Seq<RecordView>, r: RecordView)
    requires
        well_formed(s),
        !has_id(s, r.id),
    ensures
        well_formed(insert_spec(s, r)),
        insert_spec(s, r).len() == s.len() + 1,
        insert_spec(s, r).contains(r),
        forall|id: Seq<char>| has_id(insert_spec(s, r), id) <==> (has_id(s, id) || id == r.id),
{
    let p = lemma_insert_place(s, r);
    let t = s.insert(p, r);
    assert forall|i: int, j: int| 0 <= i < j < t.len() implies t[i].timestamp >= t[j].timestamp
        && t[i].id != t[j].id by {
        if j < p {
            assert(t[i] == s[i] && t[j] == s[j]);
        } else if j == p {
            assert(t[i] == s[i] && t[j] == r);
            assert(s[i].id != r.id);
        } else if i < p {
            assert(t[i] == s[i] && t[j] == s[j - 1]);
        } else if i == p {
            assert(t[i] == r && t[j] == s[j - 1]);
            assert(s[j - 1].id != r.id);
        } else {
            assert(t[i] == s[i - 1] && t[j] == s[j - 1]);
        }
    }
    assert(t[p] == r);
    assert forall|id: Seq<char>| has_id(t, id) <==> (has_id(s, id) || id == r.id) by {
        if has_id(t, id) {
            let i = choose|i: int| 0 <= i < t.len() && #[trigger] t[i].id == id;
            if i < p {
                assert(s[i].id == id);
            } else if i > p {
                assert(s[i - 1].id == id);
            }
        }
        if has_id(s, id) {
            let i = choose|i: int| 0 <= i < s.len() && #[trigger] s[i].id == id;
            if i < p {
                assert(t[i].id == id);
            } else {
                assert(t[i + 1].id == id);
            }
        }
        if id == r.id {
            assert(t[p].id == id);
        }
    }
}

/// Trimming keeps the store's invariant and never leaves more than `max`
/// records; it only ever drops records, never an id that was not there.
pub proof fn lemma_trim_well_formed(s: Seq<RecordView>, max: nat)
    requires
        well_formed(s),
    ensures
        well_formed(trim_spec(s, max)),
        trim_spec(s, max).len() <= max,
        trim_spec(s, max).len() <= s.len(),
        forall|id: Seq<char>| has_id(trim_spec(s, max), id) ==> has_id(s, id),
        trim_spec(trim_spec(s, max), max) == trim_spec(s, max),
{
    let t = trim_spec(s, max);
    assert forall|i: int, j: int| 0 <= i < j < t.len() implies t[i].timestamp >= t[j].timestamp
        && t[i].id != t[j].id by {
        assert(t[i] == s[i] && t[j] == s[j]);
    }
    assert forall|id: Seq<char>| has_id(t, id) implies has_id(s, id) by {
        let i = choose|i: int| 0 <= i < t.len() && #[trigger] t[i].id == id;
        assert(s[i].id == id);
    }
}

} // verus!
