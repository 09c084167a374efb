use vstd::prelude::*;

use crate::ledger::{
    is_live, ledger_ordered, live_total, live_total_since, TimeRecordMap, TimeRecordSet,
};
use crate::task::TimeRecord;

verus! {

/// Keys strictly increase and values are non-negative and never decrease.
pub open spec fn entries_ordered(s: Seq<(int, int)>) -> bool {
    &&& forall|i: int, j: int| 0 <= i < j < s.len() ==> s[i].0 < s[j].0
    &&& forall|i: int, j: int| 0 <= i < j < s.len() ==> s[i].1 <= s[j].1
    &&& forall|i: int| 0 <= i < s.len() ==> 0 <= #[trigger] s[i].1 <= i64::MAX
}

/// A prefix sum: an epoch sentinel of zero followed by ordered entries.
pub open spec fn sum_wf(s: Seq<(int, int)>) -> bool {
    &&& s.len() >= 1
    &&& s[0] == (0int, 0int)
    &&& entries_ordered(s)
}

/// The value of the last entry whose key is below `x`, or zero when there is none:
/// the maximum of the left part when the map is split at `x`.
pub open spec fn value_before(s: Seq<(int, int)>, x: int) -> int
    decreases s.len(),
{
    if s.len() == 0 {
        0
    } else if s.last().0 < x {
        s.last().1
    } else {
        value_before(s.drop_last(), x)
    }
}

/// Time recorded from `x` on: the maximum of the right part (keys at or after `x`)
/// minus the maximum of the left part, and zero when the right part is empty.
pub open spec fn total_since(s: Seq<(int, int)>, x: int) -> int {
    if s.len() > 0 && s.last().0 >= x {
        s.last().1 - value_before(s, x)
    } else {
        0
    }
}

/// The entries of the prefix sum of task `uid`, built from the ledger `recs`
/// without the records in `killed`: the epoch sentinel, then for each live record
/// its start and the running total up to and including it.
pub open spec fn prefix_entries(recs: Seq<TimeRecord>, killed: Set<int>, uid: Seq<char>) -> Seq<
    (int, int),
>
    decreases recs.len(),
{
    if recs.len() == 0 {
        seq![(0int, 0int)]
    } else {
        let prev = prefix_entries(recs.drop_last(), killed, uid);
        let r = recs.last();
        if is_live(r, killed, uid) {
            prev.push((r.from as int, prev.last().1 + r.spec_duration()))
        } else {
            prev
        }
    }
}

/// One step of incremental append: the record's start, with the last value plus its duration.
pub open spec fn sum_with_record(s: Seq<(int, int)>, r: TimeRecord) -> Seq<(int, int)> {
    s.push((r.from as int, s.last().1 + r.spec_duration()))
}

/// Incremental append of each record of `recs` in turn.
pub open spec fn append_records(s: Seq<(int, int)>, recs: Seq<TimeRecord>) -> Seq<(int, int)>
    decreases recs.len(),
{
    if recs.len() == 0 {
        s
    } else {
        sum_with_record(append_records(s, recs.drop_last()), recs.last())
    }
}

/// Sum of the durations of `recs`.
pub open spec fn durations_sum(recs: Seq<TimeRecord>) -> int
    decreases recs.len(),
{
    if recs.len() == 0 {
        0
    } else {
        durations_sum(recs.drop_last()) + recs.last().spec_duration()
    }
}

/// Cumulative duration by start time for one task.
pub struct TimePrefixSum {
    entries: Vec<(i64, i64)>,
}

impl View for TimePrefixSum {
    type V = Seq<(int, int)>;

    closed spec fn view(&self) -> Seq<(int, int)> {
        self.entries@.map_values(|e: (i64, i64)| (e.0 as int, e.1 as int))
    }
}

impl TimePrefixSum {
    pub open spec fn wf(&self) -> bool {
        sum_wf(self@)
    }

    /// A prefix sum that holds the epoch sentinel alone.
    pub fn new() -> (r: TimePrefixSum)
        ensures
            r.wf(),
            r@ == seq![(0int, 0int)],
    {
        let r = TimePrefixSum { entries: vec![(0i64, 0i64)] };
        assert(r@ =~= seq![(0int, 0int)]);
        r
    }

    pub fn len(&self) -> (r: usize)
        ensures
            r == self@.len(),
    {
        self.entries.len()
    }

    /// The entry at position `i`: its key and cumulative value.
    pub fn entry(&self, i: usize) -> (r: (i64, i64))
        requires
            i < self@.len(),
        ensures
            r.0 == self@[i as int].0,
            r.1 == self@[i as int].1,
    {
        self.entries[i]
    }

    /// The largest cumulative value: the total of the task.
    pub fn last_value(&self) -> (r: i64)
        requires
            self.wf(),
        ensures
            r == self@.last().1,
    {
        self.entries[self.entries.len() - 1].1
    }

    /// The largest key.
    pub fn last_key(&self) -> (r: i64)
        requires
            self.wf(),
        ensures
            r == self@.last().0,
    {
        self.entries[self.entries.len() - 1].0
    }
}

pub proof fn lemma_value_before_split(s: Seq<(int, int)>, x: int, idx: int)
    requires
        0 <= idx <= s.len(),
        forall|i: int| 0 <= i < idx ==> #[trigger] s[i].0 < x,
        forall|i: int| idx <= i < s.len() ==> #[trigger] s[i].0 >= x,
    ensures
        value_before(s, x) == if idx == 0 {
            0
        } else {
            s[idx - 1].1
        },
    decreases s.len(),
{
    if s.len() > idx {
        let t = s.drop_last();
        assert forall|i: int| 0 <= i < idx implies #[trigger] t[i].0 < x by {
            assert(t[i] == s[i]);
        }
        assert forall|i: int| idx <= i < t.len() implies #[trigger] t[i].0 >= x by {
            assert(t[i] == s[i]);
        }
        lemma_value_before_split(t, x, idx);
    }
}

/// The value before any point lies between zero and the last value.
pub proof fn lemma_value_before_bounds(s: Seq<(int, int)>, x: int)
    requires
        entries_ordered(s),
        s.len() > 0,
    ensures
        0 <= value_before(s, x) <= s.last().1,
    decreases s.len(),
{
    assert(s.last() == s[s.len() - 1]);
    assert(0 <= s[s.len() - 1].1);
    let t = s.drop_last();
    if s.last().0 >= x && s.len() > 1 {
        assert(entries_ordered(t)) by {
            assert forall|i: int| 0 <= i < t.len() implies 0 <= #[trigger] t[i].1 <= i64::MAX by {
                assert(t[i] == s[i]);
            }
        }
        lemma_value_before_bounds(t, x);
        assert(t.last() == s[s.len() - 2]);
        assert(s[s.len() - 2].1 <= s[s.len() - 1].1);
    } else if s.last().0 >= x {
        assert(t.len() == 0);
        assert(value_before(t, x) == 0);
    }
}

pub proof fn lemma_value_before_monotonic(s: Seq<(int, int)>, x: int, y: int)
    requires
        entries_ordered(s),
        x <= y,
    ensures
        value_before(s, x) <= value_before(s, y),
    decreases s.len(),
{
    if s.len() > 0 {
        let t = s.drop_last();
        assert(entries_ordered(t)) by {
            assert forall|i: int| 0 <= i < t.len() implies 0 <= #[trigger] t[i].1 <= i64::MAX by {
                assert(t[i] == s[i]);
            }
        }
        assert(s.last() == s[s.len() - 1]);
        assert(0 <= s[s.len() - 1].1);
        if s.last().0 >= x {
            if s.last().0 < y {
                if t.len() > 0 {
                    lemma_value_before_bounds(t, x);
                    assert(t.last() == s[s.len() - 2]);
                    assert(s[s.len() - 2].1 <= s[s.len() - 1].1);
                } else {
                    assert(value_before(t, x) == 0);
                }
            } else {
                lemma_value_before_monotonic(t, x, y);
            }
        }
    }
}

/// The time since `x` is never negative and never more than the total.
pub proof fn lemma_total_since_bounds(s: Seq<(int, int)>, x: int)
    requires
        entries_ordered(s),
    ensures
        0 <= total_since(s, x),
        s.len() > 0 ==> total_since(s, x) <= s.last().1,
{
    if s.len() > 0 {
        lemma_value_before_bounds(s, x);
    }
}

/// Monotonicity: for `x <= y`, the time recorded since `x` is at least the time since `y`.
pub proof fn law_total_since_monotonic(sum: TimePrefixSum, x: int, y: int)
    requires
        sum.wf(),
        x <= y,
    ensures
        total_since(sum@, x) >= total_since(sum@, y),
{
    lemma_total_since_monotonic(sum@, x, y);
}

pub proof fn lemma_total_since_monotonic(s: Seq<(int, int)>, x: int, y: int)
    requires
        sum_wf(s),
        x <= y,
    ensures
        total_since(s, x) >= total_since(s, y),
{
    lemma_value_before_monotonic(s, x, y);
    lemma_value_before_bounds(s, x);
}

/// Time recorded since `x`: the maximum on the right of `x` minus the maximum on its left.
pub fn get_total_time(prefix_sum: &TimePrefixSum, from: i64) -> (r: i64)
    requires
        prefix_sum.wf(),
    ensures
        r == total_since(prefix_sum@, from as int),
{
    let ghost s = prefix_sum@;
    let n = prefix_sum.entries.len();
    let mut lo: usize = 0;
    let mut hi: usize = n;
    while lo < hi
        invariant
            s == prefix_sum@,
            sum_wf(s),
            n == s.len(),
            0 <= lo <= hi <= n,
            forall|i: int| 0 <= i < lo ==> #[trigger] s[i].0 < from,
            forall|i: int| hi <= i < n ==> #[trigger] s[i].0 >= from,
        decreases hi - lo,
    {
        let mid = lo + (hi - lo) / 2;
        let k = prefix_sum.entries[mid].0;
        assert(s[mid as int].0 == k);
        if k < from {
            lo = mid + 1;
        } else {
            hi = mid;
        }
    }
    proof {
        lemma_value_before_split(s, from as int, lo as int);
    }
    if lo == n {
        assert(s.last().0 < from);
        return 0;
    }
    let last = prefix_sum.entries[n - 1].1;
    assert(last == s[n - 1].1);
    let before = if lo == 0 {
        0
    } else {
        assert(s[lo - 1].1 == prefix_sum.entries@[lo - 1].1);
        prefix_sum.entries[lo - 1].1
    };
    assert(s[n - 1].0 >= from);
    last - before
}

proof fn lemma_ordered_drop_last(recs: Seq<TimeRecord>)
    requires
        ledger_ordered(recs),
        recs.len() > 0,
    ensures
        ledger_ordered(recs.drop_last()),
{
    let t = recs.drop_last();
    assert forall|i: int| 0 <= i < t.len() implies (#[trigger] t[i]).valid() by {
        assert(t[i] == recs[i]);
    }
    assert forall|i: int, j: int| 0 <= i < j < t.len() implies t[i].from < t[j].from by {
        assert(t[i] == recs[i]);
        assert(t[j] == recs[j]);
    }
}

proof fn lemma_ordered_take(recs: Seq<TimeRecord>, n: int)
    requires
        ledger_ordered(recs),
        0 <= n <= recs.len(),
    ensures
        ledger_ordered(recs.take(n)),
{
    let t = recs.take(n);
    assert forall|i: int| 0 <= i < t.len() implies (#[trigger] t[i]).valid() by {
        assert(t[i] == recs[i]);
    }
    assert forall|i: int, j: int| 0 <= i < j < t.len() implies t[i].from < t[j].from by {
        assert(t[i] == recs[i]);
        assert(t[j] == recs[j]);
    }
}

/// The live total of a prefix of the ledger is at most that of a longer prefix.
pub proof fn lemma_live_total_prefix(
    recs: Seq<TimeRecord>,
    killed: Set<int>,
    uid: Seq<char>,
    i: int,
    j: int,
)
    requires
        ledger_ordered(recs),
        0 <= i <= j <= recs.len(),
    ensures
        live_total(recs.take(i), killed, uid) <= live_total(recs.take(j), killed, uid),
    decreases j - i,
{
    if i < j {
        lemma_live_total_prefix(recs, killed, uid, i, j - 1);
        let t = recs.take(j);
        assert(t.drop_last() =~= recs.take(j - 1));
        assert(t.last() == recs[j - 1]);
        assert(recs[j - 1].valid());
    }
}

/// The entries built from an ordered ledger form a well-formed prefix sum whose last
/// value is the live total of the task.
pub proof fn lemma_prefix_entries_shape(recs: Seq<TimeRecord>, killed: Set<int>, uid: Seq<char>)
    requires
        ledger_ordered(recs),
        live_total(recs, killed, uid) <= i64::MAX,
    ensures
        sum_wf(prefix_entries(recs, killed, uid)),
        prefix_entries(recs, killed, uid).last().1 == live_total(recs, killed, uid),
        0 <= prefix_entries(recs, killed, uid).last().0,
        recs.len() > 0 ==> prefix_entries(recs, killed, uid).last().0 <= recs.last().from,
    decreases recs.len(),
{
    let s = prefix_entries(recs, killed, uid);
    if recs.len() > 0 {
        let t = recs.drop_last();
        let r = recs.last();
        lemma_ordered_drop_last(recs);
        assert(r == recs[recs.len() - 1]);
        assert(r.valid());
        lemma_prefix_entries_shape(t, killed, uid);
        let p = prefix_entries(t, killed, uid);
        if t.len() > 0 {
            assert(t.last() == recs[recs.len() - 2]);
        }
        assert(p.last() == p[p.len() - 1]);
        if is_live(r, killed, uid) {
            assert(s == p.push((r.from as int, p.last().1 + r.spec_duration())));
            assert forall|i: int, j: int| 0 <= i < j < s.len() implies s[i].0 < s[j].0 by {
                if j == s.len() - 1 {
                    assert(s[i] == p[i]);
                    if i < p.len() - 1 {
                        assert(p[i].0 < p[p.len() - 1].0);
                    }
                } else {
                    assert(s[i] == p[i]);
                    assert(s[j] == p[j]);
                }
            }
            assert forall|i: int, j: int| 0 <= i < j < s.len() implies s[i].1 <= s[j].1 by {
                if j == s.len() - 1 {
                    assert(s[i] == p[i]);
                    if i < p.len() - 1 {
                        assert(p[i].1 <= p[p.len() - 1].1);
                    }
                } else {
                    assert(s[i] == p[i]);
                    assert(s[j] == p[j]);
                }
            }
            assert forall|i: int| 0 <= i < s.len() implies 0 <= #[trigger] s[i].1 <= i64::MAX by {
                if i < p.len() {
                    assert(s[i] == p[i]);
                }
            }
        }
    }
}

proof fn lemma_prefix_entries_nonempty(recs: Seq<TimeRecord>, killed: Set<int>, uid: Seq<char>)
    ensures
        prefix_entries(recs, killed, uid).len() >= 1,
    decreases recs.len(),
{
    if recs.len() > 0 {
        lemma_prefix_entries_nonempty(recs.drop_last(), killed, uid);
    }
}

proof fn lemma_live_since_before(recs: Seq<TimeRecord>, killed: Set<int>, uid: Seq<char>, x: int)
    requires
        forall|i: int| 0 <= i < recs.len() ==> #[trigger] recs[i].from < x,
    ensures
        live_total_since(recs, killed, uid, x) == 0,
    decreases recs.len(),
{
    if recs.len() > 0 {
        let t = recs.drop_last();
        assert forall|i: int| 0 <= i < t.len() implies #[trigger] t[i].from < x by {
            assert(t[i] == recs[i]);
        }
        lemma_live_since_before(t, killed, uid, x);
        assert(recs.last() == recs[recs.len() - 1]);
    }
}

/// What the prefix sum answers for `x` is the duration of the live records of the task
/// that start at or after `x`.
pub proof fn lemma_total_since_live(
    recs: Seq<TimeRecord>,
    killed: Set<int>,
    uid: Seq<char>,
    x: int,
)
    requires
        ledger_ordered(recs),
    ensures
        total_since(prefix_entries(recs, killed, uid), x) == live_total_since(
            recs,
            killed,
            uid,
            x,
        ),
    decreases recs.len(),
{
    lemma_prefix_entries_nonempty(recs, killed, uid);
    if recs.len() > 0 {
        lemma_prefix_entries_nonempty(recs.drop_last(), killed, uid);
        let t = recs.drop_last();
        let r = recs.last();
        lemma_ordered_drop_last(recs);
        lemma_total_since_live(t, killed, uid, x);
        let p = prefix_entries(t, killed, uid);
        let s = prefix_entries(recs, killed, uid);
        assert(p.last() == p[p.len() - 1]);
        let d = r.spec_duration();
        if is_live(r, killed, uid) {
            assert(s == p.push((r.from as int, p.last().1 + d)));
            assert(s.drop_last() =~= p);
            assert(s.last() == (r.from as int, p.last().1 + d));
            if r.from >= x {
                assert(value_before(s, x) == value_before(p, x));
                assert(p.last().1 - value_before(p, x) == total_since(p, x));
                assert(total_since(s, x) == total_since(p, x) + d);
                assert(live_total_since(recs, killed, uid, x) == live_total_since(t, killed, uid, x)
                    + d);
            } else {
                assert forall|i: int| 0 <= i < t.len() implies #[trigger] t[i].from < x by {
                    assert(t[i] == recs[i]);
                    assert(recs[i].from < recs[recs.len() - 1].from);
                }
                lemma_live_since_before(t, killed, uid, x);
                assert(total_since(s, x) == 0);
            }
        } else {
            assert(s == p);
            assert(live_total_since(recs, killed, uid, x) == live_total_since(t, killed, uid, x));
        }
    } else {
        let s = prefix_entries(recs, killed, uid);
        assert(s.drop_last().len() == 0);
        assert(value_before(s.drop_last(), x) == 0);
    }
}

/// Adding a live record that starts after every other one extends the prefix sum
/// by one incremental step.
pub proof fn lemma_prefix_entries_push(
    recs: Seq<TimeRecord>,
    killed: Set<int>,
    uid: Seq<char>,
    r: TimeRecord,
)
    requires
        is_live(r, killed, uid),
    ensures
        prefix_entries(recs.push(r), killed, uid) == sum_with_record(
            prefix_entries(recs, killed, uid),
            r,
        ),
{
    assert(recs.push(r).drop_last() =~= recs);
}

/// Appends a record that starts after every key of the prefix sum, in constant time.
pub fn add_record_to_sum(sum_map: &mut TimePrefixSum, record: &TimeRecord)
    requires
        old(sum_map).wf(),
        record.valid(),
        old(sum_map)@.last().0 < record.from,
        old(sum_map)@.last().1 + record.spec_duration() <= i64::MAX,
    ensures
        final(sum_map).wf(),
        final(sum_map)@ == sum_with_record(old(sum_map)@, *record),
{
    let ghost s = sum_map@;
    let n = sum_map.entries.len();
    let last = sum_map.entries[n - 1].1;
    assert(last == s[n - 1].1);
    let d = record.duration();
    let ghost pre = sum_map.entries@;
    sum_map.entries.push((record.from, last + d));
    proof {
        let t = sum_map@;
        assert(t =~= sum_with_record(s, *record));
        assert forall|i: int, j: int| 0 <= i < j < t.len() implies t[i].0 < t[j].0 by {
            if j == t.len() - 1 {
                assert(t[i] == s[i]);
                if i < s.len() - 1 {
                    assert(s[i].0 < s[s.len() - 1].0);
                }
            } else {
                assert(t[i] == s[i]);
                assert(t[j] == s[j]);
            }
        }
        assert forall|i: int, j: int| 0 <= i < j < t.len() implies t[i].1 <= t[j].1 by {
            if j == t.len() - 1 {
                assert(t[i] == s[i]);
                if i < s.len() - 1 {
                    assert(s[i].1 <= s[s.len() - 1].1);
                }
            } else {
                assert(t[i] == s[i]);
                assert(t[j] == s[j]);
            }
        }
        assert forall|i: int| 0 <= i < t.len() implies 0 <= #[trigger] t[i].1 <= i64::MAX by {
            if i < s.len() {
                assert(t[i] == s[i]);
            }
        }
        assert(t[0] == s[0]);
    }
}

/// Builds the prefix sum of task `filter` from the ledger, leaving out the killed records.
pub fn build_time_prefix_sum(records: &TimeRecordMap, filter: &String, killed: &TimeRecordSet) -> (r:
    TimePrefixSum)
    requires
        records.wf(),
        live_total(records@, killed@, filter@) <= i64::MAX,
    ensures
        r.wf(),
        r@ == prefix_entries(records@, killed@, filter@),
{
    let ghost recs = records@;
    let mut result = TimePrefixSum::new();
    let mut psum: i64 = 0;
    let n = records.len();
    let mut i: usize = 0;
    assert(recs.take(0) =~= Seq::<TimeRecord>::empty());
    while i < n
        invariant
            recs == records@,
            records.wf(),
            n == recs.len(),
            0 <= i <= n,
            live_total(recs, killed@, filter@) <= i64::MAX,
            result.wf(),
            result@ == prefix_entries(recs.take(i as int), killed@, filter@),
            psum == live_total(recs.take(i as int), killed@, filter@),
        decreases n - i,
    {
        let rec = records.get(i);
        proof {
            let t = recs.take(i as int + 1);
            assert(t.drop_last() =~= recs.take(i as int));
            assert(t.last() == recs[i as int]);
            lemma_ordered_take(recs, i as int);
            lemma_ordered_take(recs, i as int + 1);
            lemma_live_total_prefix(recs, killed@, filter@, i as int + 1, n as int);
            assert(recs.take(n as int) =~= recs);
            lemma_prefix_entries_shape(recs.take(i as int), killed@, filter@);
            lemma_prefix_entries_shape(t, killed@, filter@);
            assert(rec.valid());
            if i > 0 {
                assert(recs.take(i as int).last() == recs[i - 1]);
                assert(recs[i - 1].from < recs[i as int].from);
            }
        }
        if filter.eq(&rec.uid) && !killed.contains(rec.from) {
            psum = psum + rec.duration();
            add_record_to_sum(&mut result, rec);
        }
        i = i + 1;
    }
    assert(recs.take(n as int) =~= recs);
    result
}

proof fn lemma_append_records_is_prefix(recs: Seq<TimeRecord>, uid: Seq<char>)
    requires
        forall|i: int| 0 <= i < recs.len() ==> (#[trigger] recs[i]).uid@ == uid,
    ensures
        append_records(seq![(0int, 0int)], recs) == prefix_entries(recs, Set::<int>::empty(), uid),
    decreases recs.len(),
{
    if recs.len() > 0 {
        let t = recs.drop_last();
        assert forall|i: int| 0 <= i < t.len() implies (#[trigger] t[i]).uid@ == uid by {
            assert(t[i] == recs[i]);
        }
        lemma_append_records_is_prefix(t, uid);
        assert(recs.last() == recs[recs.len() - 1]);
    }
}

proof fn lemma_live_since_all(recs: Seq<TimeRecord>, uid: Seq<char>)
    requires
        ledger_ordered(recs),
        forall|i: int| 0 <= i < recs.len() ==> (#[trigger] recs[i]).uid@ == uid,
    ensures
        live_total_since(recs, Set::<int>::empty(), uid, 0) == durations_sum(recs),
    decreases recs.len(),
{
    if recs.len() > 0 {
        let t = recs.drop_last();
        lemma_ordered_drop_last(recs);
        assert forall|i: int| 0 <= i < t.len() implies (#[trigger] t[i]).uid@ == uid by {
            assert(t[i] == recs[i]);
        }
        lemma_live_since_all(t, uid);
        assert(recs.last() == recs[recs.len() - 1]);
        assert(recs[recs.len() - 1].valid());
    }
}

/// Append correctness: appending, one after the other, chronologically increasing records
/// of one task to a fresh prefix sum gives a total since the epoch equal to the sum of
/// their durations.
pub proof fn law_append_total(recs: Seq<TimeRecord>, uid: Seq<char>)
    requires
        ledger_ordered(recs),
        forall|i: int| 0 <= i < recs.len() ==> (#[trigger] recs[i]).uid@ == uid,
    ensures
        total_since(append_records(seq![(0int, 0int)], recs), 0) == durations_sum(recs),
{
    lemma_append_records_is_prefix(recs, uid);
    lemma_total_since_live(recs, Set::<int>::empty(), uid, 0);
    lemma_live_since_all(recs, uid);
}

/// The prefix sum of one task, under the task's id.
pub struct TaskSum {
    pub uid: String,
    pub sum: TimePrefixSum,
}

/// One prefix sum per task.
pub struct TaskSums {
    items: Vec<TaskSum>,
}

/// Time recorded since `x` over all tasks: the sum of the per-task totals.
pub open spec fn cross_total_since(v: Seq<(Seq<char>, Seq<(int, int)>)>, x: int) -> int
    decreases v.len(),
{
    if v.len() == 0 {
        0
    } else {
        cross_total_since(v.drop_last(), x) + total_since(v.last().1, x)
    }
}

impl View for TaskSums {
    type V = Seq<(Seq<char>, Seq<(int, int)>)>;

    closed spec fn view(&self) -> Seq<(Seq<char>, Seq<(int, int)>)> {
        self.items@.map_values(|t: TaskSum| (t.uid@, t.sum@))
    }
}

impl TaskSums {
    /// Every prefix sum is well formed and no two share a task id.
    pub open spec fn wf(&self) -> bool {
        &&& forall|i: int| 0 <= i < self@.len() ==> sum_wf(#[trigger] self@[i].1)
        &&& forall|i: int, j: int|
            0 <= i < self@.len() && 0 <= j < self@.len() && i != j ==> self@[i].0 != self@[j].0
    }

    pub open spec fn has_task(&self, uid: Seq<char>) -> bool {
        exists|i: int| 0 <= i < self@.len() && #[trigger] self@[i].0 == uid
    }

    pub fn new() -> (r: TaskSums)
        ensures
            r.wf(),
            r@ == Seq::<(Seq<char>, Seq<(int, int)>)>::empty(),
    {
        let r = TaskSums { items: Vec::new() };
        assert(r@ =~= Seq::<(Seq<char>, Seq<(int, int)>)>::empty());
        r
    }

    pub fn len(&self) -> (r: usize)
        ensures
            r == self@.len(),
    {
        self.items.len()
    }

    /// The prefix sum at position `i`.
    pub fn sum_at(&self, i: usize) -> (r: &TimePrefixSum)
        requires
            i < self@.len(),
        ensures
            r@ == self@[i as int].1,
    {
        &self.items[i].sum
    }

    /// The task id at position `i`.
    pub fn uid_at(&self, i: usize) -> (r: &String)
        requires
            i < self@.len(),
        ensures
            r@ == self@[i as int].0,
    {
        &self.items[i].uid
    }

    /// Position of the prefix sum of task `uid`, if there is one.
    pub fn find(&self, uid: &String) -> (r: Option<usize>)
        ensures
            r.is_none() <==> !self.has_task(uid@),
            r.is_some() ==> r.unwrap() < self@.len() && self@[r.unwrap() as int].0 == uid@,
    {
        let mut i: usize = 0;
        while i < self.items.len()
            invariant
                0 <= i <= self@.len(),
                forall|j: int| 0 <= j < i ==> #[trigger] self@[j].0 != uid@,
            decreases self@.len() - i,
        {
            assert(self@[i as int].0 == self.items@[i as int].uid@);
            if self.items[i].uid.eq(uid) {
                return Some(i);
            }
            i = i + 1;
        }
        None
    }

    /// Adds the prefix sum of a task that has none yet.
    pub fn insert(&mut self, uid: String, sum: TimePrefixSum) -> (r: bool)
        requires
            old(self).wf(),
            sum.wf(),
        ensures
            final(self).wf(),
            r == !old(self).has_task(uid@),
            r ==> final(self)@ == old(self)@.push((uid@, sum@)),
            !r ==> final(self)@ == old(self)@,
    {
        if self.find(&uid).is_some() {
            return false;
        }
        let ghost u = uid@;
        let ghost sv = sum@;
        self.items.push(TaskSum { uid, sum });
        proof {
            assert(self@ =~= old(self)@.push((u, sv)));
            assert forall|i: int, j: int|
                0 <= i < self@.len() && 0 <= j < self@.len() && i != j implies self@[i].0
                != self@[j].0 by {
                if i < old(self)@.len() && j < old(self)@.len() {
                    assert(self@[i] == old(self)@[i]);
                    assert(self@[j] == old(self)@[j]);
                } else if i < old(self)@.len() {
                    assert(self@[i] == old(self)@[i]);
                } else {
                    assert(self@[j] == old(self)@[j]);
                }
            }
            assert forall|i: int| 0 <= i < self@.len() implies sum_wf(#[trigger] self@[i].1) by {
                if i < old(self)@.len() {
                    assert(self@[i] == old(self)@[i]);
                }
            }
        }
        true
    }

    /// Replaces the prefix sum at position `i`.
    pub fn set_sum(&mut self, i: usize, sum: TimePrefixSum)
        requires
            old(self).wf(),
            i < old(self)@.len(),
            sum.wf(),
        ensures
            final(self).wf(),
            final(self)@ == old(self)@.update(i as int, (old(self)@[i as int].0, sum@)),
    {
        let ghost sv = sum@;
        self.items[i].sum = sum;
        proof {
            assert(self@ =~= old(self)@.update(i as int, (old(self)@[i as int].0, sv)));
            assert forall|a: int, b: int|
                0 <= a < self@.len() && 0 <= b < self@.len() && a != b implies self@[a].0
                != self@[b].0 by {
                assert(self@[a].0 == old(self)@[a].0);
                assert(self@[b].0 == old(self)@[b].0);
            }
        }
    }

    /// Appends a record to the prefix sum at position `i`.
    pub fn add_record_at(&mut self, i: usize, record: &TimeRecord)
        requires
            old(self).wf(),
            i < old(self)@.len(),
            record.valid(),
            old(self)@[i as int].1.last().0 < record.from,
            old(self)@[i as int].1.last().1 + record.spec_duration() <= i64::MAX,
        ensures
            final(self).wf(),
            final(self)@ == old(self)@.update(
                i as int,
                (old(self)@[i as int].0, sum_with_record(old(self)@[i as int].1, *record)),
            ),
    {
        let ghost before = self@;
        let mut sum = TimePrefixSum::new();
        std::mem::swap(&mut sum, &mut self.items[i].sum);
        proof {
            assert(self@ =~= before.update(i as int, (before[i as int].0, seq![(0int, 0int)])));
            assert forall|a: int, b: int|
                0 <= a < self@.len() && 0 <= b < self@.len() && a != b implies self@[a].0
                != self@[b].0 by {
                assert(self@[a].0 == before[a].0);
                assert(self@[b].0 == before[b].0);
            }
            assert forall|a: int| 0 <= a < self@.len() implies sum_wf(#[trigger] self@[a].1) by {
                if a != i {
                    assert(self@[a] == before[a]);
                }
            }
        }
        assert(sum@ == old(self)@[i as int].1);
        add_record_to_sum(&mut sum, record);
        self.set_sum(i, sum);
    }
}

proof fn lemma_cross_total_take(v: Seq<(Seq<char>, Seq<(int, int)>)>, x: int, i: int)
    requires
        forall|k: int| 0 <= k < v.len() ==> entries_ordered(#[trigger] v[k].1),
        0 <= i <= v.len(),
    ensures
        0 <= cross_total_since(v.take(i), x) <= cross_total_since(v, x),
    decreases v.len() - i,
{
    if i < v.len() {
        lemma_cross_total_take(v, x, i + 1);
        let t = v.take(i + 1);
        assert(t.drop_last() =~= v.take(i));
        assert(t.last() == v[i]);
        lemma_total_since_bounds(v[i].1, x);
        let u = v.take(i);
        assert forall|k: int| 0 <= k < u.len() implies entries_ordered(#[trigger] u[k].1) by {
            assert(u[k] == v[k]);
        }
        lemma_cross_nonneg(u, x);
    } else {
        assert(v.take(i) =~= v);
        lemma_cross_nonneg(v, x);
    }
}

proof fn lemma_cross_nonneg(v: Seq<(Seq<char>, Seq<(int, int)>)>, x: int)
    requires
        forall|k: int| 0 <= k < v.len() ==> entries_ordered(#[trigger] v[k].1),
    ensures
        0 <= cross_total_since(v, x),
    decreases v.len(),
{
    if v.len() > 0 {
        let t = v.drop_last();
        assert forall|k: int| 0 <= k < t.len() implies entries_ordered(#[trigger] t[k].1) by {
            assert(t[k] == v[k]);
        }
        lemma_cross_nonneg(t, x);
        assert(v.last() == v[v.len() - 1]);
        lemma_total_since_bounds(v.last().1, x);
    }
}

/// Additivity: the cross-task total of two groups of tasks taken together is the sum of
/// the totals of each group.
pub proof fn law_cross_total_additive(
    a: Seq<(Seq<char>, Seq<(int, int)>)>,
    b: Seq<(Seq<char>, Seq<(int, int)>)>,
    x: int,
)
    ensures
        cross_total_since(a + b, x) == cross_total_since(a, x) + cross_total_since(b, x),
    decreases b.len(),
{
    if b.len() == 0 {
        assert(a + b =~= a);
    } else {
        law_cross_total_additive(a, b.drop_last(), x);
        assert((a + b).drop_last() =~= a + b.drop_last());
        assert((a + b).last() == b.last());
    }
}

/// Time recorded since `from` over all tasks: the sum of `get_total_time` of each task.
pub fn get_total_time_from_sums(sums: &TaskSums, from: i64) -> (r: i64)
    requires
        sums.wf(),
        cross_total_since(sums@, from as int) <= i64::MAX,
    ensures
        r == cross_total_since(sums@, from as int),
{
    let ghost v = sums@;
    proof {
        assert forall|k: int| 0 <= k < v.len() implies entries_ordered(#[trigger] v[k].1) by {
            assert(sum_wf(v[k].1));
        }
    }
    let mut result: i64 = 0;
    let mut i: usize = 0;
    assert(v.take(0) =~= Seq::<(Seq<char>, Seq<(int, int)>)>::empty());
    while i < sums.items.len()
        invariant
            v == sums@,
            sums.wf(),
            forall|k: int| 0 <= k < v.len() ==> entries_ordered(#[trigger] v[k].1),
            cross_total_since(v, from as int) <= i64::MAX,
            0 <= i <= v.len(),
            result == cross_total_since(v.take(i as int), from as int),
        decreases v.len() - i,
    {
        let t = get_total_time(sums.sum_at(i), from);
        proof {
            let w = v.take(i as int + 1);
            assert(w.drop_last() =~= v.take(i as int));
            assert(w.last() == v[i as int]);
            lemma_cross_total_take(v, from as int, i as int + 1);
        }
        result = result + t;
        i = i + 1;
    }
    assert(v.take(v.len() as int) =~= v);
    result
}

} // verus!
