use vstd::prelude::*;

use crate::task::TimeRecord;

verus! {

/// Records are ordered by a strictly increasing start time, and each one is valid.
pub open spec fn ledger_ordered(recs: Seq<TimeRecord>) -> bool {
    &&& forall|i: int| 0 <= i < recs.len() ==> (#[trigger] recs[i]).valid()
    &&& forall|i: int, j: int| 0 <= i < j < recs.len() ==> recs[i].from < recs[j].from
}

/// Some record of `recs` starts at `from`.
pub open spec fn ledger_has_start(recs: Seq<TimeRecord>, from: int) -> bool {
    exists|i: int| 0 <= i < recs.len() && #[trigger] recs[i].from == from
}

/// A record counts for task `uid` when it belongs to it and its start is not soft-deleted.
pub open spec fn is_live(r: TimeRecord, killed: Set<int>, uid: Seq<char>) -> bool {
    r.uid@ == uid && !killed.contains(r.from as int)
}

/// Sum of the durations of the live records of `uid` that start at or after `x`.
pub open spec fn live_total_since(
    recs: Seq<TimeRecord>,
    killed: Set<int>,
    uid: Seq<char>,
    x: int,
) -> int
    decreases recs.len(),
{
    if recs.len() == 0 {
        0
    } else {
        let r = recs.last();
        live_total_since(recs.drop_last(), killed, uid, x) + if is_live(r, killed, uid) && r.from
            >= x {
            r.spec_duration()
        } else {
            0
        }
    }
}

/// Sum of the durations of all live records of `uid`.
pub open spec fn live_total(recs: Seq<TimeRecord>, killed: Set<int>, uid: Seq<char>) -> int
    decreases recs.len(),
{
    if recs.len() == 0 {
        0
    } else {
        let r = recs.last();
        live_total(recs.drop_last(), killed, uid) + if is_live(r, killed, uid) {
            r.spec_duration()
        } else {
            0
        }
    }
}

/// The ledger: every finished record, ordered by start time, keyed by a unique start.
pub struct TimeRecordMap {
    records: Vec<TimeRecord>,
}

/// Why a record was not taken into the ledger.
#[derive(PartialEq, Eq, Structural, Debug, Clone, Copy)]
pub enum LedgerError {
    /// The record does not start after the epoch, or does not end after it starts.
    DegenerateInterval,
    /// A record with the same start is already in the ledger.
    DuplicateStart,
}

impl View for TimeRecordMap {
    type V = Seq<TimeRecord>;

    closed spec fn view(&self) -> Seq<TimeRecord> {
        self.records@
    }
}

impl TimeRecordMap {
    pub open spec fn wf(&self) -> bool {
        ledger_ordered(self@)
    }

    pub open spec fn has_start(&self, from: int) -> bool {
        ledger_has_start(self@, from)
    }

    pub fn new() -> (r: TimeRecordMap)
        ensures
            r.wf(),
            r@ == Seq::<TimeRecord>::empty(),
    {
        TimeRecordMap { records: Vec::new() }
    }

    pub fn len(&self) -> (r: usize)
        ensures
            r == self@.len(),
    {
        self.records.len()
    }

    pub fn get(&self, i: usize) -> (r: &TimeRecord)
        requires
            i < self@.len(),
        ensures
            *r == self@[i as int],
    {
        &self.records[i]
    }

    /// Start of the latest record, if any.
    pub fn last_start(&self) -> (r: Option<i64>)
        ensures
            self@.len() == 0 ==> r.is_none(),
            self@.len() > 0 ==> r == Some(self@.last().from),
    {
        let n = self.records.len();
        if n == 0 {
            None
        } else {
            Some(self.records[n - 1].from)
        }
    }

    /// Index of the record that starts at `from`, if there is one.
    pub fn find(&self, from: i64) -> (r: Option<usize>)
        requires
            self.wf(),
        ensures
            r.is_none() <==> !self.has_start(from as int),
            r.is_some() ==> r.unwrap() < self@.len() && self@[r.unwrap() as int].from == from,
    {
        let mut lo: usize = 0;
        let mut hi: usize = self.records.len();
        while lo < hi
            invariant
                self.wf(),
                0 <= lo <= hi <= self@.len(),
                forall|i: int| 0 <= i < lo ==> #[trigger] self@[i].from < from,
                forall|i: int| hi <= i < self@.len() ==> #[trigger] self@[i].from > from,
            decreases hi - lo,
        {
            let mid = lo + (hi - lo) / 2;
            let k = self.records[mid].from;
            if k == from {
                return Some(mid);
            } else if k < from {
                lo = mid + 1;
            } else {
                hi = mid;
            }
        }
        None
    }

    /// Adds a record, keeping the order by start time.
    pub fn insert(&mut self, rec: TimeRecord) -> (r: Result<(), LedgerError>)
        requires
            old(self).wf(),
        ensures
            final(self).wf(),
            !rec.valid() ==> r == Err::<(), LedgerError>(LedgerError::DegenerateInterval)
                && final(self)@ == old(self)@,
            rec.valid() && old(self).has_start(rec.from as int) ==> r == Err::<(), LedgerError>(
                LedgerError::DuplicateStart,
            ) && final(self)@ == old(self)@,
            rec.valid() && !old(self).has_start(rec.from as int) ==> r is Ok && exists|
                i: int,
            |
                0 <= i <= old(self)@.len() && final(self)@ == old(self)@.insert(i, rec),
            rec.valid() && !old(self).has_start(rec.from as int) && (old(self)@.len() == 0
                || old(self)@.last().from < rec.from) ==> final(self)@ == old(self)@.push(rec),
    {
        if !(0 < rec.from && rec.from < rec.to) {
            return Err(LedgerError::DegenerateInterval);
        }
        let mut lo: usize = 0;
        let mut hi: usize = self.records.len();
        while lo < hi
            invariant
                self.wf(),
                rec.valid(),
                self@ == old(self)@,
                0 <= lo <= hi <= self@.len(),
                forall|i: int| 0 <= i < lo ==> #[trigger] self@[i].from < rec.from,
                forall|i: int| hi <= i < self@.len() ==> #[trigger] self@[i].from > rec.from,
            decreases hi - lo,
        {
            let mid = lo + (hi - lo) / 2;
            let k = self.records[mid].from;
            if k == rec.from {
                return Err(LedgerError::DuplicateStart);
            } else if k < rec.from {
                lo = mid + 1;
            } else {
                hi = mid;
            }
        }
        assert(!self.has_start(rec.from as int)) by {
            if self.has_start(rec.from as int) {
                let j = choose|j: int| 0 <= j < self@.len() && #[trigger] self@[j].from == rec.from;
                if j < lo {
                } else {
                }
            }
        }
        let ghost pre = self@;
        let ghost g = rec;
        self.records.insert(lo, rec);
        proof {
            assert(self@ == pre.insert(lo as int, g));
            assert forall|i: int, j: int| 0 <= i < j < self@.len() implies self@[i].from
                < self@[j].from by {
                if j < lo {
                } else if j == lo {
                } else if i < lo {
                    assert(self@[j] == pre[j - 1]);
                } else if i == lo {
                    assert(self@[j] == pre[j - 1]);
                } else {
                    assert(self@[j] == pre[j - 1]);
                    assert(self@[i] == pre[i - 1]);
                }
            }
            assert forall|i: int| 0 <= i < self@.len() implies (#[trigger] self@[i]).valid() by {
                if i < lo {
                } else if i > lo {
                    assert(self@[i] == pre[i - 1]);
                }
            }
            if pre.len() == 0 || pre.last().from < g.from {
                if lo < pre.len() {
                    assert(pre[pre.len() - 1].from > g.from);
                }
                assert(self@ =~= pre.push(g));
            }
        }
        Ok(())
    }
}

/// The soft-delete overlay: starts of records that are left out of every total.
pub struct TimeRecordSet {
    keys: Vec<i64>,
}

impl View for TimeRecordSet {
    type V = Set<int>;

    closed spec fn view(&self) -> Set<int> {
        Set::new(|k: int| exists|i: int| 0 <= i < self.keys@.len() && self.keys@[i] == k)
    }
}

impl TimeRecordSet {
    pub closed spec fn wf(&self) -> bool {
        self.keys@.no_duplicates()
    }

    pub fn new() -> (r: TimeRecordSet)
        ensures
            r.wf(),
            r@ == Set::<int>::empty(),
    {
        let r = TimeRecordSet { keys: Vec::new() };
        assert(r@ =~= Set::<int>::empty());
        r
    }

    fn index_of(&self, from: i64) -> (r: Option<usize>)
        ensures
            r.is_none() <==> !self@.contains(from as int),
            r.is_some() ==> r.unwrap() < self.keys@.len() && self.keys@[r.unwrap() as int]
                == from,
    {
        let mut i: usize = 0;
        while i < self.keys.len()
            invariant
                0 <= i <= self.keys@.len(),
                forall|j: int| 0 <= j < i ==> self.keys@[j] != from,
            decreases self.keys@.len() - i,
        {
            if self.keys[i] == from {
                return Some(i);
            }
            i = i + 1;
        }
        None
    }

    pub fn contains(&self, from: i64) -> (r: bool)
        ensures
            r == self@.contains(from as int),
    {
        self.index_of(from).is_some()
    }

    /// Marks the record that starts at `from` as killed.
    pub fn insert(&mut self, from: i64)
        requires
            old(self).wf(),
        ensures
            final(self).wf(),
            final(self)@ == old(self)@.insert(from as int),
    {
        if self.index_of(from).is_none() {
            let ghost pre = self.keys@;
            self.keys.push(from);
            proof {
                assert(self.keys@ == pre.push(from));
                assert forall|i: int, j: int|
                    0 <= i < self.keys@.len() && 0 <= j < self.keys@.len() && i != j implies self.keys@[i]
                    != self.keys@[j] by {
                    if i < pre.len() && j < pre.len() {
                        assert(pre[i] != pre[j]);
                    }
                }
                assert(self@ =~= old(self)@.insert(from as int)) by {
                    assert forall|k: int| self@.contains(k) implies old(self)@.insert(
                        from as int,
                    ).contains(k) by {
                        let i = choose|i: int| 0 <= i < self.keys@.len() && self.keys@[i] == k;
                        if i < pre.len() {
                            assert(old(self).keys@[i] == k);
                        }
                    }
                    assert forall|k: int| old(self)@.insert(from as int).contains(k) implies self@.contains(k) by {
                        if k != from {
                            let i = choose|i: int| 0 <= i < pre.len() && pre[i] == k;
                            assert(self.keys@[i] == k);
                        } else {
                            assert(self.keys@[pre.len() as int] == k);
                        }
                    }
                }
            }
        } else {
            assert(self@ =~= old(self)@.insert(from as int));
        }
    }

    /// Takes the record that starts at `from` back out of the killed set.
    pub fn remove(&mut self, from: i64)
        requires
            old(self).wf(),
        ensures
            final(self).wf(),
            final(self)@ == old(self)@.remove(from as int),
    {
        match self.index_of(from) {
            None => {
                assert(self@ =~= old(self)@.remove(from as int));
            },
            Some(idx) => {
                let ghost pre = self.keys@;
                self.keys.remove(idx);
                proof {
                    assert(self.keys@ == pre.remove(idx as int));
                    assert forall|i: int, j: int|
                        0 <= i < self.keys@.len() && 0 <= j < self.keys@.len() && i != j implies self.keys@[i]
                        != self.keys@[j] by {
                        let pi = if i < idx { i } else { i + 1 };
                        let pj = if j < idx { j } else { j + 1 };
                        assert(self.keys@[i] == pre[pi]);
                        assert(self.keys@[j] == pre[pj]);
                    }
                    assert(self@ =~= old(self)@.remove(from as int)) by {
                        assert forall|k: int| self@.contains(k) implies old(self)@.remove(
                            from as int,
                        ).contains(k) by {
                            let i = choose|i: int| 0 <= i < self.keys@.len() && self.keys@[i] == k;
                            let pi = if i < idx { i } else { i + 1 };
                            assert(pre[pi] == k);
                            assert(pi != idx as int);
                        }
                        assert forall|k: int| old(self)@.remove(from as int).contains(k) implies self@.contains(k) by {
                            let i = choose|i: int| 0 <= i < pre.len() && pre[i] == k;
                            assert(i != idx as int);
                            let ni = if i < idx { i } else { i - 1 };
                            assert(self.keys@[ni] == k);
                        }
                    }
                }
            },
        }
    }
}

} // verus!
