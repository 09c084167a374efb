use vstd::prelude::*;

use crate::ledger::{
    is_live, ledger_has_start, ledger_ordered, live_total, live_total_since, TimeRecordMap,
    TimeRecordSet,
};
use crate::prefix_sum::{
    build_time_prefix_sum, get_total_time, lemma_live_total_prefix, lemma_prefix_entries_push,
    lemma_prefix_entries_shape, lemma_total_since_live, prefix_entries, sum_wf, total_since,
    TaskSums, TimePrefixSum,
};
use crate::session::Step;
use crate::task::TimeRecord;

verus! {

/// The task ids of a list of prefix sums, in order.
pub open spec fn task_ids(v: Seq<(Seq<char>, Seq<(int, int)>)>) -> Seq<Seq<char>> {
    v.map_values(|e: (Seq<char>, Seq<(int, int)>)| e.0)
}

/// Why the tracker refused a change.
#[derive(PartialEq, Eq, Structural, Debug, Clone, Copy)]
pub enum TrackError {
    /// The record does not start after the epoch, or does not end after it starts.
    DegenerateInterval,
    /// A record with the same start is already in the ledger.
    DuplicateStart,
    /// The record names a task that the tracker does not know.
    UnknownTask,
    /// No record starts at the given time.
    UnknownRecord,
    /// The task's total would not fit in an `i64` of milliseconds.
    Overflow,
}

proof fn lemma_no_records_for(recs: Seq<TimeRecord>, killed: Set<int>, uid: Seq<char>)
    requires
        forall|i: int| 0 <= i < recs.len() ==> (#[trigger] recs[i]).uid@ != uid,
    ensures
        prefix_entries(recs, killed, uid) == seq![(0int, 0int)],
        live_total(recs, killed, uid) == 0,
    decreases recs.len(),
{
    if recs.len() > 0 {
        let t = recs.drop_last();
        assert forall|i: int| 0 <= i < t.len() implies (#[trigger] t[i]).uid@ != uid by {
            assert(t[i] == recs[i]);
        }
        lemma_no_records_for(t, killed, uid);
        assert(recs.last() == recs[recs.len() - 1]);
    }
}

/// Inserting a record adds its duration to the total of its task when it is live, and
/// changes nothing for a task for which it is not live.
proof fn lemma_insert_record(
    recs: Seq<TimeRecord>,
    killed: Set<int>,
    uid: Seq<char>,
    i: int,
    r: TimeRecord,
)
    requires
        0 <= i <= recs.len(),
    ensures
        live_total(recs.insert(i, r), killed, uid) == live_total(recs, killed, uid) + if is_live(
            r,
            killed,
            uid,
        ) {
            r.spec_duration()
        } else {
            0
        },
        !is_live(r, killed, uid) ==> prefix_entries(recs.insert(i, r), killed, uid)
            == prefix_entries(recs, killed, uid),
    decreases recs.len(),
{
    let s = recs.insert(i, r);
    if i == recs.len() {
        assert(s.drop_last() =~= recs);
        assert(s.last() == r);
    } else {
        let t = recs.drop_last();
        lemma_insert_record(t, killed, uid, i, r);
        assert(s.drop_last() =~= t.insert(i, r));
        assert(s.last() == recs.last());
    }
}

/// Changing whether one start is killed affects no task but the one whose record starts there.
proof fn lemma_overlay_other(
    recs: Seq<TimeRecord>,
    killed: Set<int>,
    changed: Set<int>,
    k: int,
    uid: Seq<char>,
)
    requires
        forall|i: int| 0 <= i < recs.len() && (#[trigger] recs[i]).from == k ==> recs[i].uid@ != uid,
        forall|x: int| x != k ==> (killed.contains(x) <==> changed.contains(x)),
    ensures
        prefix_entries(recs, changed, uid) == prefix_entries(recs, killed, uid),
        live_total(recs, changed, uid) == live_total(recs, killed, uid),
    decreases recs.len(),
{
    if recs.len() > 0 {
        let t = recs.drop_last();
        assert forall|i: int| 0 <= i < t.len() && (#[trigger] t[i]).from == k implies t[i].uid@
            != uid by {
            assert(t[i] == recs[i]);
        }
        lemma_overlay_other(t, killed, changed, k, uid);
        assert(recs.last() == recs[recs.len() - 1]);
        assert(is_live(recs.last(), changed, uid) == is_live(recs.last(), killed, uid));
    }
}

/// Killing one more record never raises a total.
proof fn lemma_kill_lowers(recs: Seq<TimeRecord>, killed: Set<int>, k: int, uid: Seq<char>)
    requires
        ledger_ordered(recs),
    ensures
        live_total(recs, killed.insert(k), uid) <= live_total(recs, killed, uid),
    decreases recs.len(),
{
    if recs.len() > 0 {
        let t = recs.drop_last();
        assert forall|i: int| 0 <= i < t.len() implies (#[trigger] t[i]).valid() by {
            assert(t[i] == recs[i]);
        }
        assert forall|i: int, j: int| 0 <= i < j < t.len() implies t[i].from < t[j].from by {
            assert(t[i] == recs[i]);
            assert(t[j] == recs[j]);
        }
        lemma_kill_lowers(t, killed, k, uid);
        assert(recs.last() == recs[recs.len() - 1]);
        assert(recs[recs.len() - 1].valid());
    }
}

/// Total live duration of task `uid`, when it fits in an `i64`.
fn checked_live_total(records: &TimeRecordMap, uid: &String, killed: &TimeRecordSet) -> (r:
    Option<i64>)
    requires
        records.wf(),
    ensures
        live_total(records@, killed@, uid@) <= i64::MAX ==> r == Some(
            live_total(records@, killed@, uid@) as i64,
        ),
        live_total(records@, killed@, uid@) > i64::MAX ==> r.is_none(),
{
    let ghost recs = records@;
    let n = records.len();
    let mut total: i64 = 0;
    let mut i: usize = 0;
    assert(recs.take(0) =~= Seq::<TimeRecord>::empty());
    while i < n
        invariant
            recs == records@,
            records.wf(),
            n == recs.len(),
            0 <= i <= n,
            total == live_total(recs.take(i as int), killed@, uid@),
        decreases n - i,
    {
        let rec = records.get(i);
        proof {
            let t = recs.take(i as int + 1);
            assert(t.drop_last() =~= recs.take(i as int));
            assert(t.last() == recs[i as int]);
            lemma_live_total_prefix(recs, killed@, uid@, i as int + 1, n as int);
            assert(recs.take(n as int) =~= recs);
            assert(rec.valid());
        }
        if uid.eq(&rec.uid) && !killed.contains(rec.from) {
            let d = rec.duration();
            if total > i64::MAX - d {
                return None;
            }
            total = total + d;
        }
        i = i + 1;
    }
    assert(recs.take(n as int) =~= recs);
    Some(total)
}

/// The tracking core: the ledger of records, the soft-delete overlay, and one prefix sum
/// per task kept equal to the one built from the ledger without the killed records.
pub struct Tracker {
    records: TimeRecordMap,
    killed: TimeRecordSet,
    sums: TaskSums,
}

impl Tracker {
    /// Every record, killed or not, ordered by start.
    pub closed spec fn ledger(&self) -> Seq<TimeRecord> {
        self.records@
    }

    /// Starts of the killed records.
    pub closed spec fn overlay(&self) -> Set<int> {
        self.killed@
    }

    /// The tasks and their prefix sums.
    pub closed spec fn sums_view(&self) -> Seq<(Seq<char>, Seq<(int, int)>)> {
        self.sums@
    }

    pub closed spec fn knows(&self, uid: Seq<char>) -> bool {
        self.sums.has_task(uid)
    }

    pub closed spec fn wf(&self) -> bool {
        &&& self.records.wf()
        &&& self.killed.wf()
        &&& self.sums.wf()
        &&& forall|k: int| #[trigger] self.killed@.contains(k) ==> self.records.has_start(k)
        &&& forall|i: int|
            0 <= i < self.records@.len() ==> self.sums.has_task((#[trigger] self.records@[i]).uid@)
        &&& forall|i: int|
            0 <= i < self.sums@.len() ==> #[trigger] self.sums@[i].1 == prefix_entries(
                self.records@,
                self.killed@,
                self.sums@[i].0,
            ) && live_total(self.records@, self.killed@, self.sums@[i].0) <= i64::MAX
    }

    /// After a change of the ledger or the overlay that leaves the total of every task but
    /// the one at position `ti` as it was, and sets that one's prefix sum anew, the tracker
    /// is well formed again.
    proof fn lemma_restore_wf(
        &self,
        old_recs: Seq<TimeRecord>,
        old_killed: Set<int>,
        old_sums: Seq<(Seq<char>, Seq<(int, int)>)>,
        ti: int,
    )
        requires
            self.records.wf(),
            self.killed.wf(),
            self.sums.wf(),
            0 <= ti < self.sums@.len(),
            forall|k: int| #[trigger] self.killed@.contains(k) ==> self.records.has_start(k),
            forall|i: int|
                0 <= i < self.records@.len() ==> self.sums.has_task(
                    (#[trigger] self.records@[i]).uid@,
                ),
            self.sums@[ti].1 == prefix_entries(self.records@, self.killed@, self.sums@[ti].0),
            live_total(self.records@, self.killed@, self.sums@[ti].0) <= i64::MAX,
            self.sums@.len() == old_sums.len(),
            forall|j: int| 0 <= j < old_sums.len() && j != ti ==> self.sums@[j] == #[trigger] old_sums[j],
            forall|j: int|
                0 <= j < old_sums.len() ==> (#[trigger] old_sums[j]).1 == prefix_entries(
                    old_recs,
                    old_killed,
                    old_sums[j].0,
                ) && live_total(old_recs, old_killed, old_sums[j].0) <= i64::MAX,
            forall|j: int|
                0 <= j < old_sums.len() && j != ti ==> prefix_entries(
                    self.records@,
                    self.killed@,
                    (#[trigger] old_sums[j]).0,
                ) == prefix_entries(old_recs, old_killed, old_sums[j].0) && live_total(
                    self.records@,
                    self.killed@,
                    old_sums[j].0,
                ) == live_total(old_recs, old_killed, old_sums[j].0),
        ensures
            self.wf(),
    {
        assert forall|i: int| 0 <= i < self.sums@.len() implies #[trigger] self.sums@[i].1
            == prefix_entries(self.records@, self.killed@, self.sums@[i].0) && live_total(
            self.records@,
            self.killed@,
            self.sums@[i].0,
        ) <= i64::MAX by {
            if i != ti {
                assert(self.sums@[i] == old_sums[i]);
            }
        }
    }

    /// The prefix sums always match the ledger and the overlay.
    pub proof fn lemma_sums_match(&self, i: int)
        requires
            self.wf(),
            0 <= i < self.sums_view().len(),
        ensures
            self.sums_view()[i].1 == prefix_entries(
                self.ledger(),
                self.overlay(),
                self.sums_view()[i].0,
            ),
            sum_wf(self.sums_view()[i].1),
            ledger_ordered(self.ledger()),
    {
    }

    /// An empty tracker: no tasks, no records.
    pub fn new() -> (r: Tracker)
        ensures
            r.wf(),
            r.ledger() == Seq::<TimeRecord>::empty(),
            r.overlay() == Set::<int>::empty(),
            r.sums_view() == Seq::<(Seq<char>, Seq<(int, int)>)>::empty(),
    {
        Tracker { records: TimeRecordMap::new(), killed: TimeRecordSet::new(), sums: TaskSums::new() }
    }

    /// The tasks' prefix sums.
    pub fn sums(&self) -> (r: &TaskSums)
        ensures
            r@ == self.sums_view(),
            self.wf() ==> r.wf(),
    {
        &self.sums
    }

    /// Registers a task; it starts with no recorded time. Returns false if it is known already.
    pub fn add_task(&mut self, uid: String) -> (r: bool)
        requires
            old(self).wf(),
        ensures
            final(self).wf(),
            r == !old(self).knows(uid@),
            final(self).ledger() == old(self).ledger(),
            final(self).overlay() == old(self).overlay(),
            r ==> final(self).sums_view() == old(self).sums_view().push(
                (uid@, seq![(0int, 0int)]),
            ),
            !r ==> final(self).sums_view() == old(self).sums_view(),
    {
        if self.sums.find(&uid).is_some() {
            return false;
        }
        proof {
            assert forall|i: int| 0 <= i < self.records@.len() implies (
            #[trigger] self.records@[i]).uid@ != uid@ by {
                assert(self.sums.has_task(self.records@[i].uid@));
            }
            lemma_no_records_for(self.records@, self.killed@, uid@);
        }
        let ghost u = uid@;
        let sum = TimePrefixSum::new();
        self.sums.insert(uid, sum);
        proof {
            assert forall|i: int| 0 <= i < self.records@.len() implies self.sums.has_task(
                (#[trigger] self.records@[i]).uid@,
            ) by {
                assert(old(self).sums.has_task(self.records@[i].uid@));
                let j = choose|j: int|
                    0 <= j < old(self).sums@.len() && #[trigger] old(self).sums@[j].0
                        == self.records@[i].uid@;
                assert(self.sums@[j] == old(self).sums@[j]);
            }
            assert forall|i: int| 0 <= i < self.sums@.len() implies #[trigger] self.sums@[i].1
                == prefix_entries(self.records@, self.killed@, self.sums@[i].0) && live_total(
                self.records@,
                self.killed@,
                self.sums@[i].0,
            ) <= i64::MAX by {
                if i < old(self).sums@.len() {
                    assert(self.sums@[i] == old(self).sums@[i]);
                }
            }
        }
        true
    }

    /// Time recorded for task `uid` from `from` on: the duration of its live records that
    /// start at or after `from`. None for an unknown task.
    pub fn total_since(&self, uid: &String, from: i64) -> (r: Option<i64>)
        requires
            self.wf(),
        ensures
            !self.knows(uid@) ==> r.is_none(),
            self.knows(uid@) ==> r == Some(
                live_total_since(self.ledger(), self.overlay(), uid@, from as int) as i64,
            ),
    {
        match self.sums.find(uid) {
            None => None,
            Some(i) => {
                let v = get_total_time(self.sums.sum_at(i), from);
                proof {
                    lemma_total_since_live(self.records@, self.killed@, uid@, from as int);
                }
                Some(v)
            },
        }
    }

    /// Adds a finished record to the ledger and to its task's prefix sum: in constant time
    /// when it starts after every other record, else by rebuilding that prefix sum.
    pub fn append_record(&mut self, rec: TimeRecord) -> (r: Result<(), TrackError>)
        requires
            old(self).wf(),
        ensures
            final(self).wf(),
            final(self).overlay() == old(self).overlay(),
            task_ids(final(self).sums_view()) == task_ids(old(self).sums_view()),
            r is Err ==> final(self).ledger() == old(self).ledger() && final(self).sums_view()
                == old(self).sums_view(),
            !rec.valid() ==> r == Err::<(), TrackError>(TrackError::DegenerateInterval),
            rec.valid() && !old(self).knows(rec.uid@) ==> r == Err::<(), TrackError>(
                TrackError::UnknownTask,
            ),
            rec.valid() && old(self).knows(rec.uid@) && ledger_has_start(
                old(self).ledger(),
                rec.from as int,
            ) ==> r == Err::<(), TrackError>(TrackError::DuplicateStart),
            rec.valid() && old(self).knows(rec.uid@) && !ledger_has_start(
                old(self).ledger(),
                rec.from as int,
            ) ==> (r == Err::<(), TrackError>(TrackError::Overflow) <==> live_total(
                old(self).ledger(),
                old(self).overlay(),
                rec.uid@,
            ) + rec.spec_duration() > i64::MAX),
            rec.valid() && old(self).knows(rec.uid@) && !ledger_has_start(
                old(self).ledger(),
                rec.from as int,
            ) && live_total(old(self).ledger(), old(self).overlay(), rec.uid@)
                + rec.spec_duration() <= i64::MAX ==> r is Ok,
            r is Ok ==> exists|i: int|
                0 <= i <= old(self).ledger().len() && final(self).ledger() == old(
                    self,
                ).ledger().insert(i, rec),
            r is Ok && (old(self).ledger().len() == 0 || old(self).ledger().last().from
                < rec.from) ==> final(self).ledger() == old(self).ledger().push(rec),
    {
        if !(0 < rec.from && rec.from < rec.to) {
            return Err(TrackError::DegenerateInterval);
        }
        let ti = match self.sums.find(&rec.uid) {
            None => {
                return Err(TrackError::UnknownTask);
            },
            Some(i) => i,
        };
        if self.records.find(rec.from).is_some() {
            return Err(TrackError::DuplicateStart);
        }
        let ghost old_recs = self.records@;
        let ghost old_sums = self.sums@;
        let ghost killed = self.killed@;
        let ghost u = rec.uid@;
        let ghost g = rec;
        let d = rec.duration();
        let last = self.sums.sum_at(ti).last_value();
        proof {
            lemma_prefix_entries_shape(old_recs, killed, u);
            assert(!killed.contains(rec.from as int));
            assert(is_live(rec, killed, u));
        }
        if last > i64::MAX - d {
            return Err(TrackError::Overflow);
        }
        let in_order = match self.records.last_start() {
            None => true,
            Some(k) => k < rec.from,
        };
        let uid = rec.uid.clone();
        if in_order {
            let copy = rec.clone();
            let _ = self.records.insert(rec);
            proof {
                lemma_prefix_entries_push(old_recs, killed, u, g);
                if old_recs.len() > 0 {
                    assert(old_recs.last() == old_recs[old_recs.len() - 1]);
                }
            }
            self.sums.add_record_at(ti, &copy);
        } else {
            let _ = self.records.insert(rec);
            let ghost new_recs = self.records@;
            proof {
                let i = choose|i: int|
                    0 <= i <= old_recs.len() && new_recs == old_recs.insert(i, g);
                lemma_insert_record(old_recs, killed, u, i, g);
            }
            let sum = build_time_prefix_sum(&self.records, &uid, &self.killed);
            self.sums.set_sum(ti, sum);
        }
        proof {
            let new_recs = self.records@;
            let i = choose|i: int| 0 <= i <= old_recs.len() && new_recs == old_recs.insert(i, g);
            lemma_insert_record(old_recs, killed, u, i, g);
            assert forall|j: int| 0 <= j < old_sums.len() && j != ti implies prefix_entries(
                self.records@,
                self.killed@,
                (#[trigger] old_sums[j]).0,
            ) == prefix_entries(old_recs, killed, old_sums[j].0) && live_total(
                self.records@,
                self.killed@,
                old_sums[j].0,
            ) == live_total(old_recs, killed, old_sums[j].0) by {
                assert(old_sums[j].0 != old_sums[ti as int].0);
                lemma_insert_record(old_recs, killed, old_sums[j].0, i, g);
            }
            assert forall|k: int| #[trigger] self.killed@.contains(k) implies self.records.has_start(
                k,
            ) by {
                assert(old(self).records.has_start(k));
                let a = choose|a: int| 0 <= a < old_recs.len() && #[trigger] old_recs[a].from == k;
                if a < i {
                    assert(new_recs[a] == old_recs[a]);
                } else {
                    assert(new_recs[a + 1] == old_recs[a]);
                }
            }
            assert forall|a: int| 0 <= a < self.records@.len() implies self.sums.has_task(
                (#[trigger] self.records@[a]).uid@,
            ) by {
                let w = if a < i {
                    a
                } else if a == i {
                    -1
                } else {
                    a - 1
                };
                if w >= 0 {
                    assert(new_recs[a] == old_recs[w]);
                    assert(old(self).sums.has_task(old_recs[w].uid@));
                    let j = choose|j: int|
                        0 <= j < old(self).sums@.len() && #[trigger] old(self).sums@[j].0
                            == old_recs[w].uid@;
                    assert(self.sums@[j].0 == old(self).sums@[j].0);
                } else {
                    assert(self.sums@[ti as int].0 == u);
                }
            }
            assert forall|j: int| 0 <= j < old_sums.len() implies (#[trigger] old_sums[j]).1
                == prefix_entries(old_recs, killed, old_sums[j].0) && live_total(
                old_recs,
                killed,
                old_sums[j].0,
            ) <= i64::MAX by {
                assert(old(self).sums@[j] == old_sums[j]);
            }
            self.lemma_restore_wf(old_recs, killed, old_sums, ti as int);
            assert(task_ids(self.sums@) =~= task_ids(old_sums));
            assert(0 <= i <= old_recs.len() && self.records@ == old_recs.insert(i, g));
            assert(self.ledger() == old(self).ledger().insert(i, g));
        }
        Ok(())
    }

    /// Facts about a change of the overlay at the start of record `idx` only, owned by the
    /// task at position `ti`: the other tasks keep their prefix sums and totals.
    proof fn lemma_overlay_change(&self, changed: Set<int>, idx: int, ti: int)
        requires
            self.wf(),
            0 <= idx < self.records@.len(),
            0 <= ti < self.sums@.len(),
            self.sums@[ti].0 == self.records@[idx].uid@,
            forall|x: int| x != self.records@[idx].from ==> (self.killed@.contains(x) <==> changed.contains(x)),
        ensures
            forall|j: int|
                0 <= j < self.sums@.len() && j != ti ==> prefix_entries(
                    self.records@,
                    changed,
                    #[trigger] self.sums@[j].0,
                ) == prefix_entries(self.records@, self.killed@, self.sums@[j].0) && live_total(
                    self.records@,
                    changed,
                    self.sums@[j].0,
                ) == live_total(self.records@, self.killed@, self.sums@[j].0),
    {
        let recs = self.records@;
        let k = recs[idx].from as int;
        assert forall|j: int| 0 <= j < self.sums@.len() && j != ti implies prefix_entries(
            recs,
            changed,
            #[trigger] self.sums@[j].0,
        ) == prefix_entries(recs, self.killed@, self.sums@[j].0) && live_total(
            recs,
            changed,
            self.sums@[j].0,
        ) == live_total(recs, self.killed@, self.sums@[j].0) by {
            assert forall|i: int| 0 <= i < recs.len() && (#[trigger] recs[i]).from == k implies recs[i].uid@
                != self.sums@[j].0 by {
                if i < idx {
                    assert(recs[i].from < recs[idx].from);
                } else if i > idx {
                    assert(recs[idx].from < recs[i].from);
                }
            }
            lemma_overlay_other(recs, self.killed@, changed, k, self.sums@[j].0);
        }
    }

    /// Soft-deletes the record that starts at `from`: it stays in the ledger and leaves
    /// its task's totals. Killing a killed record changes nothing.
    pub fn kill_record(&mut self, from: i64) -> (r: Result<(), TrackError>)
        requires
            old(self).wf(),
        ensures
            final(self).wf(),
            final(self).ledger() == old(self).ledger(),
            task_ids(final(self).sums_view()) == task_ids(old(self).sums_view()),
            !ledger_has_start(old(self).ledger(), from as int) ==> r == Err::<(), TrackError>(
                TrackError::UnknownRecord,
            ) && final(self).overlay() == old(self).overlay() && final(self).sums_view() == old(
                self,
            ).sums_view(),
            ledger_has_start(old(self).ledger(), from as int) ==> r is Ok && final(self).overlay()
                == old(self).overlay().insert(from as int),
    {
        let idx = match self.records.find(from) {
            None => {
                return Err(TrackError::UnknownRecord);
            },
            Some(i) => i,
        };
        if self.killed.contains(from) {
            assert(self.killed@.insert(from as int) =~= self.killed@);
            return Ok(());
        }
        let uid = self.records.get(idx).uid.clone();
        proof {
            assert(self.sums.has_task(self.records@[idx as int].uid@));
        }
        let ti = match self.sums.find(&uid) {
            None => {
                return Err(TrackError::UnknownRecord);
            },
            Some(i) => i,
        };
        let ghost recs = self.records@;
        let ghost old_killed = self.killed@;
        let ghost old_sums = self.sums@;
        let ghost u = uid@;
        proof {
            self.lemma_overlay_change(old_killed.insert(from as int), idx as int, ti as int);
            lemma_kill_lowers(recs, old_killed, from as int, u);
            assert(old_sums[ti as int].1 == prefix_entries(recs, old_killed, old_sums[ti as int].0));
            assert(live_total(recs, old_killed, u) <= i64::MAX);
        }
        self.killed.insert(from);
        let sum = build_time_prefix_sum(&self.records, &uid, &self.killed);
        self.sums.set_sum(ti, sum);
        proof {
            assert forall|k: int| #[trigger] self.killed@.contains(k) implies self.records.has_start(
                k,
            ) by {
                if k == from {
                    assert(recs[idx as int].from == k);
                }
            }
            assert forall|a: int| 0 <= a < self.records@.len() implies self.sums.has_task(
                (#[trigger] self.records@[a]).uid@,
            ) by {
                assert(old(self).sums.has_task(recs[a].uid@));
                let j = choose|j: int|
                    0 <= j < old_sums.len() && #[trigger] old_sums[j].0 == recs[a].uid@;
                assert(self.sums@[j].0 == old_sums[j].0);
            }
            assert forall|j: int| 0 <= j < old_sums.len() implies (#[trigger] old_sums[j]).1
                == prefix_entries(recs, old_killed, old_sums[j].0) && live_total(
                recs,
                old_killed,
                old_sums[j].0,
            ) <= i64::MAX by {
                assert(old(self).sums@[j] == old_sums[j]);
            }
            self.lemma_restore_wf(recs, old_killed, old_sums, ti as int);
            assert(task_ids(self.sums@) =~= task_ids(old_sums));
        }
        Ok(())
    }

    /// Takes the record that starts at `from` out of the killed set, so that it counts
    /// again. Restoring a live record changes nothing.
    pub fn restore_record(&mut self, from: i64) -> (r: Result<(), TrackError>)
        requires
            old(self).wf(),
        ensures
            final(self).wf(),
            final(self).ledger() == old(self).ledger(),
            task_ids(final(self).sums_view()) == task_ids(old(self).sums_view()),
            r is Err ==> final(self).overlay() == old(self).overlay() && final(self).sums_view()
                == old(self).sums_view(),
            r is Ok ==> final(self).overlay() == old(self).overlay().remove(from as int),
            !ledger_has_start(old(self).ledger(), from as int) ==> r == Err::<(), TrackError>(
                TrackError::UnknownRecord,
            ),
            ledger_has_start(old(self).ledger(), from as int) && !old(self).overlay().contains(
                from as int,
            ) ==> r is Ok,
            forall|i: int|
                0 <= i < old(self).ledger().len() && (#[trigger] old(self).ledger()[i]).from
                    == from && old(self).overlay().contains(from as int) ==> (r
                    == Err::<(), TrackError>(TrackError::Overflow) <==> live_total(
                    old(self).ledger(),
                    old(self).overlay().remove(from as int),
                    old(self).ledger()[i].uid@,
                ) > i64::MAX),
            forall|i: int|
                0 <= i < old(self).ledger().len() && (#[trigger] old(self).ledger()[i]).from
                    == from ==> r != Err::<(), TrackError>(TrackError::UnknownRecord),
            r is Err ==> r == Err::<(), TrackError>(TrackError::UnknownRecord) || r == Err::<
                (),
                TrackError,
            >(TrackError::Overflow),
            forall|i: int|
                0 <= i < old(self).ledger().len() && (#[trigger] old(self).ledger()[i]).from
                    == from && live_total(
                    old(self).ledger(),
                    old(self).overlay().remove(from as int),
                    old(self).ledger()[i].uid@,
                ) <= i64::MAX ==> r is Ok,
    {
        let idx = match self.records.find(from) {
            None => {
                return Err(TrackError::UnknownRecord);
            },
            Some(i) => i,
        };
        proof {
            let recs = self.records@;
            assert forall|i: int| 0 <= i < recs.len() && #[trigger] recs[i].from == from implies i
                == idx by {
                if i < idx {
                    assert(recs[i].from < recs[idx as int].from);
                } else if i > idx {
                    assert(recs[idx as int].from < recs[i].from);
                }
            }
        }
        if !self.killed.contains(from) {
            assert(self.killed@.remove(from as int) =~= self.killed@);
            return Ok(());
        }
        let uid = self.records.get(idx).uid.clone();
        proof {
            assert(self.sums.has_task(self.records@[idx as int].uid@));
        }
        let ti = match self.sums.find(&uid) {
            None => {
                return Err(TrackError::UnknownRecord);
            },
            Some(i) => i,
        };
        let ghost recs = self.records@;
        let ghost old_killed = self.killed@;
        let ghost old_sums = self.sums@;
        let ghost u = uid@;
        proof {
            self.lemma_overlay_change(old_killed.remove(from as int), idx as int, ti as int);
        }
        self.killed.remove(from);
        if checked_live_total(&self.records, &uid, &self.killed).is_none() {
            self.killed.insert(from);
            assert(self.killed@ =~= old_killed);
            return Err(TrackError::Overflow);
        }
        let sum = build_time_prefix_sum(&self.records, &uid, &self.killed);
        self.sums.set_sum(ti, sum);
        proof {
            assert forall|a: int| 0 <= a < self.records@.len() implies self.sums.has_task(
                (#[trigger] self.records@[a]).uid@,
            ) by {
                assert(old(self).sums.has_task(recs[a].uid@));
                let j = choose|j: int|
                    0 <= j < old_sums.len() && #[trigger] old_sums[j].0 == recs[a].uid@;
                assert(self.sums@[j].0 == old_sums[j].0);
            }
            assert forall|j: int| 0 <= j < old_sums.len() implies (#[trigger] old_sums[j]).1
                == prefix_entries(recs, old_killed, old_sums[j].0) && live_total(
                recs,
                old_killed,
                old_sums[j].0,
            ) <= i64::MAX by {
                assert(old(self).sums@[j] == old_sums[j]);
            }
            self.lemma_restore_wf(recs, old_killed, old_sums, ti as int);
            assert(task_ids(self.sums@) =~= task_ids(old_sums));
        }
        Ok(())
    }

    /// Takes the interval that a session step finished into the ledger and the prefix sum
    /// of its task. A step without a record changes nothing.
    pub fn apply_step(&mut self, step: &Step) -> (r: Result<(), TrackError>)
        requires
            old(self).wf(),
        ensures
            final(self).wf(),
            final(self).overlay() == old(self).overlay(),
            task_ids(final(self).sums_view()) == task_ids(old(self).sums_view()),
            r is Err ==> final(self).ledger() == old(self).ledger() && final(self).sums_view()
                == old(self).sums_view(),
            step.record is None ==> r is Ok && final(self).ledger() == old(self).ledger()
                && final(self).sums_view() == old(self).sums_view(),
            step.record matches Some(rec) ==> (r is Ok <==> (rec.valid() && old(self).knows(rec.uid@)
                && !ledger_has_start(old(self).ledger(), rec.from as int) && live_total(
                old(self).ledger(),
                old(self).overlay(),
                rec.uid@,
            ) + rec.spec_duration() <= i64::MAX)),
            step.record matches Some(rec) ==> (r is Ok ==> exists|i: int|
                0 <= i <= old(self).ledger().len() && final(self).ledger() == old(
                    self,
                ).ledger().insert(i, rec)),
            step.record matches Some(rec) ==> (r is Ok && (old(self).ledger().len() == 0
                || old(self).ledger().last().from < rec.from) ==> final(self).ledger() == old(
                self,
            ).ledger().push(rec)),
            forall|i: int|
                0 <= i < final(self).sums_view().len() ==> (#[trigger] final(self).sums_view()[i]).1
                    == prefix_entries(
                    final(self).ledger(),
                    final(self).overlay(),
                    final(self).sums_view()[i].0,
                ),
    {
        let r = match &step.record {
            None => Ok(()),
            Some(rec) => self.append_record(rec.clone()),
        };
        proof {
            assert forall|i: int| 0 <= i < self.sums_view().len() implies (
            #[trigger] self.sums_view()[i]).1 == prefix_entries(
                self.ledger(),
                self.overlay(),
                self.sums_view()[i].0,
            ) by {
                self.lemma_sums_match(i);
            }
        }
        r
    }

    /// The prefix sum of task `uid`, if the task is known.
    pub fn get_task_sum(&self, uid: &String) -> (r: Option<&TimePrefixSum>)
        requires
            self.wf(),
        ensures
            !self.knows(uid@) ==> r.is_none(),
            self.knows(uid@) ==> r.is_some() && r.unwrap().wf() && r.unwrap()@ == prefix_entries(
                self.ledger(),
                self.overlay(),
                uid@,
            ),
    {
        match self.sums.find(uid) {
            None => None,
            Some(i) => Some(self.sums.sum_at(i)),
        }
    }
}

/// Idempotence: killing a live record and then restoring it gives back every prefix sum
/// as it was before the kill, so every total at every boundary is as before.
pub proof fn law_kill_restore(before: Tracker, killed: Tracker, restored: Tracker, from: int)
    requires
        before.wf(),
        killed.wf(),
        restored.wf(),
        !before.overlay().contains(from),
        killed.ledger() == before.ledger(),
        killed.overlay() == before.overlay().insert(from),
        task_ids(killed.sums_view()) == task_ids(before.sums_view()),
        restored.ledger() == killed.ledger(),
        restored.overlay() == killed.overlay().remove(from),
        task_ids(restored.sums_view()) == task_ids(killed.sums_view()),
    ensures
        restored.sums_view() == before.sums_view(),
        forall|i: int, x: int|
            0 <= i < before.sums_view().len() ==> #[trigger] total_since(
                restored.sums_view()[i].1,
                x,
            ) == total_since(before.sums_view()[i].1, x),
{
    let a = before.sums_view();
    let b = restored.sums_view();
    assert(restored.overlay() =~= before.overlay());
    assert(task_ids(b).len() == task_ids(a).len());
    assert forall|i: int| 0 <= i < a.len() implies b[i] == a[i] by {
        assert(task_ids(b)[i] == task_ids(a)[i]);
        before.lemma_sums_match(i);
        restored.lemma_sums_match(i);
    }
    assert(b =~= a);
}

proof fn lemma_kill_elsewhere_since(
    recs: Seq<TimeRecord>,
    killed: Set<int>,
    k: int,
    uid: Seq<char>,
    x: int,
)
    requires
        forall|i: int| 0 <= i < recs.len() ==> (#[trigger] recs[i]).from != k,
    ensures
        live_total_since(recs, killed.insert(k), uid, x) == live_total_since(recs, killed, uid, x),
    decreases recs.len(),
{
    if recs.len() > 0 {
        let t = recs.drop_last();
        assert forall|i: int| 0 <= i < t.len() implies (#[trigger] t[i]).from != k by {
            assert(t[i] == recs[i]);
        }
        lemma_kill_elsewhere_since(t, killed, k, uid, x);
        assert(recs.last() == recs[recs.len() - 1]);
    }
}

/// Killing a live record of a task lowers every total of that task since a point at or
/// before the record's start by exactly the record's duration, both over the ledger and
/// in what the prefix sum answers.
pub proof fn law_kill_lowers_by_duration(
    recs: Seq<TimeRecord>,
    killed: Set<int>,
    uid: Seq<char>,
    i: int,
    x: int,
)
    requires
        ledger_ordered(recs),
        0 <= i < recs.len(),
        is_live(recs[i], killed, uid),
        x <= recs[i].from,
    ensures
        live_total_since(recs, killed.insert(recs[i].from as int), uid, x) == live_total_since(
            recs,
            killed,
            uid,
            x,
        ) - recs[i].spec_duration(),
        total_since(prefix_entries(recs, killed.insert(recs[i].from as int), uid), x)
            == total_since(prefix_entries(recs, killed, uid), x) - recs[i].spec_duration(),
    decreases recs.len(),
{
    let k = recs[i].from as int;
    let t = recs.drop_last();
    assert forall|a: int| 0 <= a < t.len() implies (#[trigger] t[a]).valid() by {
        assert(t[a] == recs[a]);
    }
    assert forall|a: int, b: int| 0 <= a < b < t.len() implies t[a].from < t[b].from by {
        assert(t[a] == recs[a]);
        assert(t[b] == recs[b]);
    }
    assert(ledger_ordered(t));
    assert(recs.last() == recs[recs.len() - 1]);
    if i == recs.len() - 1 {
        assert forall|a: int| 0 <= a < t.len() implies (#[trigger] t[a]).from != k by {
            assert(t[a] == recs[a]);
        }
        lemma_kill_elsewhere_since(t, killed, k, uid, x);
    } else {
        assert(t[i] == recs[i]);
        law_kill_lowers_by_duration(t, killed, uid, i, x);
        assert(recs[i].from < recs[recs.len() - 1].from);
    }
    lemma_total_since_live(recs, killed.insert(k), uid, x);
    lemma_total_since_live(recs, killed, uid, x);
}

/// Idempotence over the prefix sum that a rebuild gives: killing a live record and then
/// restoring it gives back the same entries, hence the same total at every boundary.
pub proof fn law_kill_restore_entries(
    recs: Seq<TimeRecord>,
    killed: Set<int>,
    k: int,
    uid: Seq<char>,
)
    requires
        !killed.contains(k),
    ensures
        prefix_entries(recs, killed.insert(k).remove(k), uid) == prefix_entries(recs, killed, uid),
{
    assert(killed.insert(k).remove(k) =~= killed);
}

} // verus!
