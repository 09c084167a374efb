use chrono::{Datelike, TimeZone};
use vstd::prelude::*;

use crate::prefix_sum::{
    cross_total_since, entries_ordered, get_total_time, lemma_total_since_bounds,
    lemma_total_since_monotonic, sum_wf,
    total_since, value_before, TaskSums, TimePrefixSum,
};

verus! {

/// A calendar date in the local time zone.
#[derive(PartialEq, Eq, Structural, Debug, Clone, Copy)]
pub struct CivilDate {
    pub year: i32,
    pub month: u32,
    pub day: u32,
}

/// The starts of the standard reporting periods, in milliseconds since the epoch: the
/// local day, the ISO week (from Monday), the calendar month and the calendar year.
#[derive(PartialEq, Eq, Structural, Debug, Clone, Copy)]
pub struct Boundaries {
    pub day: i64,
    pub week: i64,
    pub month: i64,
    pub year: i64,
}

/// Time recorded in each reporting period, and in all, in milliseconds.
#[derive(PartialEq, Eq, Structural, Debug, Clone, Copy)]
pub struct AggregateDuration {
    pub day: i64,
    pub week: i64,
    pub month: i64,
    pub year: i64,
    pub total: i64,
}

impl AggregateDuration {
    pub fn zero() -> (r: AggregateDuration)
        ensures
            r == (AggregateDuration { day: 0, week: 0, month: 0, year: 0, total: 0 }),
    {
        AggregateDuration { day: 0, week: 0, month: 0, year: 0, total: 0 }
    }

    /// Field by field sum.
    pub fn add(self, other: AggregateDuration) -> (r: AggregateDuration)
        requires
            i64::MIN <= self.day + other.day <= i64::MAX,
            i64::MIN <= self.week + other.week <= i64::MAX,
            i64::MIN <= self.month + other.month <= i64::MAX,
            i64::MIN <= self.year + other.year <= i64::MAX,
            i64::MIN <= self.total + other.total <= i64::MAX,
        ensures
            r.day == self.day + other.day,
            r.week == self.week + other.week,
            r.month == self.month + other.month,
            r.year == self.year + other.year,
            r.total == self.total + other.total,
    {
        AggregateDuration {
            day: self.day + other.day,
            week: self.week + other.week,
            month: self.month + other.month,
            year: self.year + other.year,
            total: self.total + other.total,
        }
    }
}

/// Instants whose local date the calendar reads: within about 253,000 years of the epoch,
/// well inside chrono's range of dates even after the largest local offset.
pub const CALENDAR_LIMIT_MS: i64 = 8_000_000_000_000_000;

/// Relies on chrono's `Local::timestamp_millis_opt` and `DateTime::date_naive`: the local
/// calendar date of an instant, or None where chrono cannot map the instant. The bound
/// keeps the instant plus its local offset inside chrono's range, where `date_naive`
/// does not panic.
#[verifier::external_body]
fn local_date_of(ms: i64) -> (r: Option<CivilDate>)
    requires
        -CALENDAR_LIMIT_MS <= ms <= CALENDAR_LIMIT_MS,
    ensures
        r matches Some(d) ==> 1 <= d.month <= 12 && 1 <= d.day <= 31,
{
    let d = chrono::Local.timestamp_millis_opt(ms).single()?.date_naive();
    Some(CivilDate { year: d.year(), month: d.month(), day: d.day() })
}

/// Relies on chrono's `NaiveDate::week(Weekday::Mon)` and `NaiveWeek::checked_first_day`:
/// the Monday that starts the ISO week of a date, or None out of chrono's range.
#[verifier::external_body]
fn monday_of(d: CivilDate) -> (r: Option<CivilDate>)
    ensures
        r matches Some(m) ==> 1 <= m.month <= 12 && 1 <= m.day <= 31,
{
    let n = chrono::NaiveDate::from_ymd_opt(d.year, d.month, d.day)?;
    let m = n.week(chrono::Weekday::Mon).checked_first_day()?;
    Some(CivilDate { year: m.year(), month: m.month(), day: m.day() })
}

/// Relies on chrono's `Local::from_local_datetime` and `MappedLocalTime::earliest`: the
/// first instant of a local date, in milliseconds since the epoch, or None where the date
/// is not valid or its midnight does not exist locally.
#[verifier::external_body]
fn local_start_of(d: CivilDate) -> (r: Option<i64>) {
    let t = chrono::NaiveDate::from_ymd_opt(d.year, d.month, d.day)?.and_hms_opt(0, 0, 0)?;
    Some(chrono::Local.from_local_datetime(&t).earliest()?.timestamp_millis())
}

/// `start` when the calendar gave one that is not after `now`.
pub fn start_not_after(now: i64, start: Option<i64>) -> (r: Option<i64>)
    ensures
        r == (match start {
            Some(t) => if t <= now {
                Some(t)
            } else {
                None
            },
            None => None,
        }),
{
    match start {
        Some(t) => if t <= now {
            Some(t)
        } else {
            None
        },
        None => None,
    }
}

/// Start of the local day that contains `now`, if `now` is within the calendar's range,
/// the calendar can be read there, and it gives a start that is not after `now`.
pub fn daystart(now: i64) -> (r: Option<i64>)
    ensures
        !(-CALENDAR_LIMIT_MS <= now <= CALENDAR_LIMIT_MS) ==> r.is_none(),
        r matches Some(t) ==> t <= now,
{
    if now < -CALENDAR_LIMIT_MS || now > CALENDAR_LIMIT_MS {
        return None;
    }
    match local_date_of(now) {
        Some(d) => start_not_after(now, local_start_of(d)),
        None => None,
    }
}

/// The reporting periods are nested: the year starts no later than the month, the month
/// and the week no later than the day, and the day no later than `now`.
pub open spec fn boundaries_ordered(b: Boundaries, now: i64) -> bool {
    b.year <= b.month <= b.day <= now && b.week <= b.day
}

/// The first day of the month of `d`.
pub fn month_start(d: CivilDate) -> (r: CivilDate)
    ensures
        r == (CivilDate { year: d.year, month: d.month, day: 1 }),
{
    CivilDate { year: d.year, month: d.month, day: 1 }
}

/// The first day of the year of `d`.
pub fn year_start(d: CivilDate) -> (r: CivilDate)
    ensures
        r == (CivilDate { year: d.year, month: 1, day: 1 }),
{
    CivilDate { year: d.year, month: 1, day: 1 }
}

/// The boundaries made of the local starts of the day, the week, the month and the year,
/// when all four exist and the periods they give are nested.
pub fn boundaries_from(
    now: i64,
    day: Option<i64>,
    week: Option<i64>,
    month: Option<i64>,
    year: Option<i64>,
) -> (r: Option<Boundaries>)
    ensures
        r == (match (day, week, month, year) {
            (Some(d), Some(w), Some(m), Some(y)) => if boundaries_ordered(
                Boundaries { day: d, week: w, month: m, year: y },
                now,
            ) {
                Some(Boundaries { day: d, week: w, month: m, year: y })
            } else {
                None
            },
            _ => None,
        }),
{
    match (day, week, month, year) {
        (Some(day), Some(week), Some(month), Some(year)) => if year <= month && month <= day
            && day <= now && week <= day {
            Some(Boundaries { day, week, month, year })
        } else {
            None
        },
        _ => None,
    }
}

/// The reporting boundaries for local time `now`: the local starts of today, of the Monday
/// of this week, of the first of this month and of the first of January, if `now` is
/// within the calendar's range, the calendar can be read there and the periods are nested.
pub fn boundaries(now: i64) -> (r: Option<Boundaries>)
    ensures
        !(-CALENDAR_LIMIT_MS <= now <= CALENDAR_LIMIT_MS) ==> r.is_none(),
        r matches Some(b) ==> boundaries_ordered(b, now),
{
    if now < -CALENDAR_LIMIT_MS || now > CALENDAR_LIMIT_MS {
        return None;
    }
    let today = match local_date_of(now) {
        Some(d) => d,
        None => {
            return None;
        },
    };
    let monday = match monday_of(today) {
        Some(d) => d,
        None => {
            return None;
        },
    };
    boundaries_from(
        now,
        local_start_of(today),
        local_start_of(monday),
        local_start_of(month_start(today)),
        local_start_of(year_start(today)),
    )
}

proof fn lemma_value_before_zero(s: Seq<(int, int)>)
    requires
        entries_ordered(s),
        forall|i: int| 0 <= i < s.len() ==> #[trigger] s[i].0 >= 0,
    ensures
        value_before(s, 0) == 0,
    decreases s.len(),
{
    if s.len() > 0 {
        let t = s.drop_last();
        assert forall|i: int| 0 <= i < t.len() implies 0 <= #[trigger] t[i].1 <= i64::MAX by {
            assert(t[i] == s[i]);
        }
        assert forall|i: int| 0 <= i < t.len() implies #[trigger] t[i].0 >= 0 by {
            assert(t[i] == s[i]);
        }
        assert(s.last() == s[s.len() - 1]);
        lemma_value_before_zero(t);
    }
}

/// The all-time total of a prefix sum is its last value, and no per-period total exceeds it.
pub proof fn lemma_total_at_most_all(s: Seq<(int, int)>, x: int)
    requires
        sum_wf(s),
    ensures
        0 <= total_since(s, x) <= total_since(s, 0),
        total_since(s, 0) == s.last().1,
{
    lemma_total_since_bounds(s, x);
    assert forall|i: int| 0 <= i < s.len() implies #[trigger] s[i].0 >= 0 by {
        if i > 0 {
            assert(s[0].0 < s[i].0);
        }
    }
    assert(s.last() == s[s.len() - 1]);
    lemma_value_before_zero(s);
}

/// Time recorded in a prefix sum in each reporting period that starts at `b`, and in all.
pub fn get_duration_at(sum: &TimePrefixSum, b: &Boundaries) -> (r: AggregateDuration)
    requires
        sum.wf(),
    ensures
        r.day == total_since(sum@, b.day as int),
        r.week == total_since(sum@, b.week as int),
        r.month == total_since(sum@, b.month as int),
        r.year == total_since(sum@, b.year as int),
        r.total == total_since(sum@, 0),
{
    AggregateDuration {
        day: get_total_time(sum, b.day),
        week: get_total_time(sum, b.week),
        month: get_total_time(sum, b.month),
        year: get_total_time(sum, b.year),
        total: get_total_time(sum, 0),
    }
}

/// Time recorded in a prefix sum today, this week, this month and this year in local
/// time, and in all. None where the local calendar cannot be read at `now`.
pub fn get_duration(sum: &TimePrefixSum, now: i64) -> (r: Option<AggregateDuration>)
    requires
        sum.wf(),
    ensures
        !(-CALENDAR_LIMIT_MS <= now <= CALENDAR_LIMIT_MS) ==> r.is_none(),
        r matches Some(a) ==> a.total == total_since(sum@, 0) && 0 <= a.day <= a.total && 0
            <= a.week <= a.total && 0 <= a.month <= a.total && 0 <= a.year <= a.total,
        r matches Some(a) ==> a.day <= a.week && a.day <= a.month <= a.year,
        r matches Some(a) ==> exists|b: Boundaries|
            boundaries_ordered(b, now) && a == (AggregateDuration {
                day: total_since(sum@, b.day as int) as i64,
                week: total_since(sum@, b.week as int) as i64,
                month: total_since(sum@, b.month as int) as i64,
                year: total_since(sum@, b.year as int) as i64,
                total: total_since(sum@, 0) as i64,
            }),
{
    match boundaries(now) {
        None => None,
        Some(b) => {
            let a = get_duration_at(sum, &b);
            proof {
                lemma_total_since_monotonic(sum@, b.week as int, b.day as int);
                lemma_total_since_monotonic(sum@, b.month as int, b.day as int);
                lemma_total_since_monotonic(sum@, b.year as int, b.month as int);
                lemma_total_at_most_all(sum@, b.day as int);
                lemma_total_at_most_all(sum@, b.week as int);
                lemma_total_at_most_all(sum@, b.month as int);
                lemma_total_at_most_all(sum@, b.year as int);
            }
            Some(a)
        },
    }
}

/// A cross-task total is never more than the cross-task total since the epoch.
proof fn lemma_cross_at_most_all(v: Seq<(Seq<char>, Seq<(int, int)>)>, x: int)
    requires
        forall|k: int| 0 <= k < v.len() ==> sum_wf(#[trigger] v[k].1),
    ensures
        0 <= cross_total_since(v, x) <= cross_total_since(v, 0),
    decreases v.len(),
{
    if v.len() > 0 {
        let t = v.drop_last();
        assert forall|k: int| 0 <= k < t.len() implies sum_wf(#[trigger] t[k].1) by {
            assert(t[k] == v[k]);
        }
        lemma_cross_at_most_all(t, x);
        assert(v.last() == v[v.len() - 1]);
        lemma_total_at_most_all(v.last().1, x);
    }
}

/// Time recorded over all tasks in each reporting period that starts at `b`, and in all.
pub fn get_durations_at(task_sums: &TaskSums, b: &Boundaries) -> (r: AggregateDuration)
    requires
        task_sums.wf(),
        cross_total_since(task_sums@, 0) <= i64::MAX,
    ensures
        r.day == cross_total_since(task_sums@, b.day as int),
        r.week == cross_total_since(task_sums@, b.week as int),
        r.month == cross_total_since(task_sums@, b.month as int),
        r.year == cross_total_since(task_sums@, b.year as int),
        r.total == cross_total_since(task_sums@, 0),
{
    proof {
        lemma_cross_at_most_all(task_sums@, b.day as int);
        lemma_cross_at_most_all(task_sums@, b.week as int);
        lemma_cross_at_most_all(task_sums@, b.month as int);
        lemma_cross_at_most_all(task_sums@, b.year as int);
    }
    AggregateDuration {
        day: crate::prefix_sum::get_total_time_from_sums(task_sums, b.day),
        week: crate::prefix_sum::get_total_time_from_sums(task_sums, b.week),
        month: crate::prefix_sum::get_total_time_from_sums(task_sums, b.month),
        year: crate::prefix_sum::get_total_time_from_sums(task_sums, b.year),
        total: crate::prefix_sum::get_total_time_from_sums(task_sums, 0),
    }
}

/// Time recorded over all tasks today, this week, this month and this year in local
/// time, and in all. None where the local calendar cannot be read at `now`.
pub fn get_durations(task_sums: &TaskSums, now: i64) -> (r: Option<AggregateDuration>)
    requires
        task_sums.wf(),
        cross_total_since(task_sums@, 0) <= i64::MAX,
    ensures
        !(-CALENDAR_LIMIT_MS <= now <= CALENDAR_LIMIT_MS) ==> r.is_none(),
        r matches Some(a) ==> a.total == cross_total_since(task_sums@, 0) && exists|
            b: Boundaries,
        |
            boundaries_ordered(b, now) && a == (AggregateDuration {
                day: cross_total_since(task_sums@, b.day as int) as i64,
                week: cross_total_since(task_sums@, b.week as int) as i64,
                month: cross_total_since(task_sums@, b.month as int) as i64,
                year: cross_total_since(task_sums@, b.year as int) as i64,
                total: cross_total_since(task_sums@, 0) as i64,
            }),
        r matches Some(a) ==> a.day <= a.week && a.day <= a.month <= a.year <= a.total,
{
    match boundaries(now) {
        None => None,
        Some(b) => {
            proof {
                lemma_cross_monotonic(task_sums@, b.week as int, b.day as int);
                lemma_cross_monotonic(task_sums@, b.month as int, b.day as int);
                lemma_cross_monotonic(task_sums@, b.year as int, b.month as int);
                lemma_cross_at_most_all(task_sums@, b.year as int);
            }
            Some(get_durations_at(task_sums, &b))
        },
    }
}

/// Cross-task totals do not grow when the boundary moves later.
pub proof fn lemma_cross_monotonic(v: Seq<(Seq<char>, Seq<(int, int)>)>, x: int, y: int)
    requires
        forall|k: int| 0 <= k < v.len() ==> sum_wf(#[trigger] v[k].1),
        x <= y,
    ensures
        cross_total_since(v, x) >= cross_total_since(v, y),
    decreases v.len(),
{
    if v.len() > 0 {
        let t = v.drop_last();
        assert forall|k: int| 0 <= k < t.len() implies sum_wf(#[trigger] t[k].1) by {
            assert(t[k] == v[k]);
        }
        lemma_cross_monotonic(t, x, y);
        assert(v.last() == v[v.len() - 1]);
        lemma_total_since_monotonic(v.last().1, x, y);
    }
}

} // verus!
