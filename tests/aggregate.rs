use netupi::format::format_duration;
use netupi::ledger::{LedgerError, TimeRecordMap, TimeRecordSet};
use netupi::prefix_sum::{
    add_record_to_sum, build_time_prefix_sum, get_total_time, get_total_time_from_sums,
    TaskSums, TimePrefixSum,
};
use netupi::task::TimeRecord;
use netupi::time::{get_duration, get_duration_at, get_durations_at, AggregateDuration, Boundaries};
use netupi::tracker::{TrackError, Tracker};

const MIN: i64 = 60_000;
const T0: i64 = 1_700_000_000_000;

fn rec(uid: &str, from: i64, to: i64) -> TimeRecord {
    TimeRecord { from, to, uid: uid.to_string() }
}

fn tracker_with(tasks: &[&str]) -> Tracker {
    let mut t = Tracker::new();
    for uid in tasks {
        assert!(t.add_task(uid.to_string()));
    }
    t
}

#[test]
fn kill_then_restore_scenario() {
    let mut t = tracker_with(&["A"]);
    t.append_record(rec("A", T0, T0 + 30 * MIN)).unwrap();
    t.append_record(rec("A", T0 + 40 * MIN, T0 + 60 * MIN)).unwrap();
    let a = "A".to_string();
    assert_eq!(t.total_since(&a, 0), Some(50 * MIN));
    t.kill_record(T0).unwrap();
    assert_eq!(t.total_since(&a, 0), Some(20 * MIN));
    t.restore_record(T0).unwrap();
    assert_eq!(t.total_since(&a, 0), Some(50 * MIN));
}

#[test]
fn kill_restore_every_boundary_matches() {
    let mut t = tracker_with(&["A", "B"]);
    t.append_record(rec("A", T0, T0 + 10 * MIN)).unwrap();
    t.append_record(rec("B", T0 + 10 * MIN, T0 + 15 * MIN)).unwrap();
    t.append_record(rec("A", T0 + 20 * MIN, T0 + 40 * MIN)).unwrap();
    let bounds = [0, T0 - 1, T0, T0 + 5 * MIN, T0 + 10 * MIN, T0 + 20 * MIN, T0 + 21 * MIN, T0 + 90 * MIN];
    let uids = ["A".to_string(), "B".to_string()];
    let before: Vec<Option<i64>> =
        uids.iter().flat_map(|u| bounds.iter().map(|x| t.total_since(u, *x)).collect::<Vec<_>>()).collect();
    t.kill_record(T0 + 20 * MIN).unwrap();
    assert_eq!(t.total_since(&uids[0], 0), Some(10 * MIN));
    assert_eq!(t.total_since(&uids[1], 0), Some(5 * MIN));
    t.restore_record(T0 + 20 * MIN).unwrap();
    let after: Vec<Option<i64>> =
        uids.iter().flat_map(|u| bounds.iter().map(|x| t.total_since(u, *x)).collect::<Vec<_>>()).collect();
    assert_eq!(before, after);
}

#[test]
fn kill_is_idempotent_and_unknown_record_is_refused() {
    let mut t = tracker_with(&["A"]);
    t.append_record(rec("A", T0, T0 + 30 * MIN)).unwrap();
    assert_eq!(t.kill_record(T0 + 1), Err(TrackError::UnknownRecord));
    assert_eq!(t.restore_record(T0 + 1), Err(TrackError::UnknownRecord));
    t.kill_record(T0).unwrap();
    t.kill_record(T0).unwrap();
    assert_eq!(t.total_since(&"A".to_string(), 0), Some(0));
    t.restore_record(T0).unwrap();
    t.restore_record(T0).unwrap();
    assert_eq!(t.total_since(&"A".to_string(), 0), Some(30 * MIN));
}

#[test]
fn append_errors() {
    let mut t = tracker_with(&["A"]);
    assert_eq!(t.append_record(rec("A", T0, T0)), Err(TrackError::DegenerateInterval));
    assert_eq!(t.append_record(rec("A", 0, T0)), Err(TrackError::DegenerateInterval));
    assert_eq!(t.append_record(rec("Z", T0, T0 + 1)), Err(TrackError::UnknownTask));
    t.append_record(rec("A", T0, T0 + MIN)).unwrap();
    assert_eq!(t.append_record(rec("A", T0, T0 + 2 * MIN)), Err(TrackError::DuplicateStart));
    assert_eq!(t.total_since(&"A".to_string(), 0), Some(MIN));
    assert_eq!(t.total_since(&"Z".to_string(), 0), None);
    assert!(!t.add_task("A".to_string()));
}

#[test]
fn overflowing_total_is_refused() {
    let mut t = tracker_with(&["A"]);
    t.append_record(rec("A", 1, i64::MAX)).unwrap();
    assert_eq!(t.append_record(rec("A", 2, 10)), Err(TrackError::Overflow));
    assert_eq!(t.total_since(&"A".to_string(), 0), Some(i64::MAX - 1));
}

#[test]
fn out_of_order_append_rebuilds() {
    let mut t = tracker_with(&["A", "B"]);
    t.append_record(rec("A", T0 + 60 * MIN, T0 + 70 * MIN)).unwrap();
    t.append_record(rec("B", T0, T0 + 5 * MIN)).unwrap();
    t.append_record(rec("A", T0 + 10 * MIN, T0 + 30 * MIN)).unwrap();
    let a = "A".to_string();
    assert_eq!(t.total_since(&a, 0), Some(30 * MIN));
    assert_eq!(t.total_since(&a, T0 + 10 * MIN), Some(30 * MIN));
    assert_eq!(t.total_since(&a, T0 + 10 * MIN + 1), Some(10 * MIN));
    assert_eq!(t.total_since(&a, T0 + 60 * MIN + 1), Some(0));
    assert_eq!(t.total_since(&"B".to_string(), 0), Some(5 * MIN));
    let sum = t.get_task_sum(&a).unwrap();
    assert_eq!(sum.len(), 3);
    assert_eq!(sum.entry(0), (0, 0));
    assert_eq!(sum.entry(1), (T0 + 10 * MIN, 20 * MIN));
    assert_eq!(sum.entry(2), (T0 + 60 * MIN, 30 * MIN));
}

#[test]
fn append_n_records_totals() {
    let durations = [3 * MIN, 7 * MIN, 11 * MIN, 13 * MIN];
    let mut sum = TimePrefixSum::new();
    let mut start = T0;
    let mut expected = 0;
    let mut last_to = 0;
    for d in durations {
        add_record_to_sum(&mut sum, &rec("A", start, start + d));
        expected += d;
        last_to = start + d;
        start += d + MIN;
    }
    assert_eq!(get_total_time(&sum, 0), expected);
    assert_eq!(get_total_time(&sum, T0), expected);
    assert_eq!(get_total_time(&sum, last_to), 0);
}

#[test]
fn total_time_is_monotonic() {
    let mut records = TimeRecordMap::new();
    records.insert(rec("A", T0, T0 + 10 * MIN)).unwrap();
    records.insert(rec("A", T0 + 20 * MIN, T0 + 25 * MIN)).unwrap();
    records.insert(rec("A", T0 + 40 * MIN, T0 + 41 * MIN)).unwrap();
    let sum = build_time_prefix_sum(&records, &"A".to_string(), &TimeRecordSet::new());
    let points = [-5, 0, T0, T0 + 1, T0 + 20 * MIN, T0 + 30 * MIN, T0 + 40 * MIN, T0 + 50 * MIN];
    let totals: Vec<i64> = points.iter().map(|x| get_total_time(&sum, *x)).collect();
    assert_eq!(totals, vec![16 * MIN, 16 * MIN, 16 * MIN, 6 * MIN, 6 * MIN, MIN, MIN, 0]);
    for w in totals.windows(2) {
        assert!(w[0] >= w[1]);
    }
}

#[test]
fn build_skips_killed_and_other_tasks() {
    let mut records = TimeRecordMap::new();
    records.insert(rec("A", T0, T0 + 10 * MIN)).unwrap();
    records.insert(rec("B", T0 + 10 * MIN, T0 + 12 * MIN)).unwrap();
    records.insert(rec("A", T0 + 20 * MIN, T0 + 25 * MIN)).unwrap();
    let mut killed = TimeRecordSet::new();
    killed.insert(T0);
    assert!(killed.contains(T0));
    let sum = build_time_prefix_sum(&records, &"A".to_string(), &killed);
    assert_eq!(sum.len(), 2);
    assert_eq!(sum.entry(1), (T0 + 20 * MIN, 5 * MIN));
    killed.remove(T0);
    assert!(!killed.contains(T0));
    let sum = build_time_prefix_sum(&records, &"A".to_string(), &killed);
    assert_eq!(get_total_time(&sum, 0), 15 * MIN);
}

#[test]
fn ledger_refuses_degenerate_and_duplicate() {
    let mut records = TimeRecordMap::new();
    assert_eq!(records.insert(rec("A", T0, T0 - 1)), Err(LedgerError::DegenerateInterval));
    records.insert(rec("A", T0 + 5, T0 + 6)).unwrap();
    records.insert(rec("A", T0, T0 + 1)).unwrap();
    assert_eq!(records.insert(rec("B", T0, T0 + 3)), Err(LedgerError::DuplicateStart));
    assert_eq!(records.len(), 2);
    assert_eq!(records.get(0).from, T0);
    assert_eq!(records.find(T0 + 5), Some(1));
    assert_eq!(records.find(T0 + 4), None);
    assert_eq!(records.last_start(), Some(T0 + 5));
}

#[test]
fn cross_task_total_is_sum_of_tasks() {
    let mut t = tracker_with(&["A", "B", "C"]);
    t.append_record(rec("A", T0, T0 + 10 * MIN)).unwrap();
    t.append_record(rec("B", T0 + 10 * MIN, T0 + 15 * MIN)).unwrap();
    t.append_record(rec("C", T0 + 20 * MIN, T0 + 22 * MIN)).unwrap();
    t.append_record(rec("A", T0 + 30 * MIN, T0 + 31 * MIN)).unwrap();
    for x in [0, T0, T0 + 12 * MIN, T0 + 25 * MIN, T0 + 40 * MIN] {
        let each: i64 = ["A", "B", "C"]
            .iter()
            .map(|u| t.total_since(&u.to_string(), x).unwrap())
            .sum();
        assert_eq!(get_total_time_from_sums(t.sums(), x), each);
    }
    assert_eq!(get_total_time_from_sums(t.sums(), 0), 18 * MIN);
    assert_eq!(get_total_time_from_sums(&TaskSums::new(), 0), 0);
}

#[test]
fn two_sessions_same_day_durations() {
    let noon: i64 = 1_700_049_600_000;
    let mut t = tracker_with(&["B"]);
    t.append_record(rec("B", noon, noon + 10 * MIN)).unwrap();
    t.append_record(rec("B", noon + 10 * MIN, noon + 25 * MIN)).unwrap();
    let sum = t.get_task_sum(&"B".to_string()).unwrap();
    let b = Boundaries { day: noon - 12 * 60 * MIN, week: noon - 3 * 24 * 60 * MIN, month: noon - 10 * 24 * 60 * MIN, year: noon - 200 * 24 * 60 * MIN };
    let a = get_duration_at(sum, &b);
    assert_eq!(a, AggregateDuration { day: 25 * MIN, week: 25 * MIN, month: 25 * MIN, year: 25 * MIN, total: 25 * MIN });
    let local = get_duration(sum, noon + 25 * MIN).unwrap();
    assert_eq!(local.total, 25 * MIN);
    assert_eq!(local.day, 25 * MIN);
    assert!(local.day <= local.week && local.day <= local.month);
    assert!(local.month <= local.year && local.year <= local.total);
    let all = get_durations_at(t.sums(), &b);
    assert_eq!(all.day, 25 * MIN);
    assert_eq!(all.total, 25 * MIN);
}

#[test]
fn aggregate_add_and_zero() {
    let z = AggregateDuration::zero();
    let a = AggregateDuration { day: 1, week: 2, month: 3, year: 4, total: 5 };
    assert_eq!(z.add(a), a);
    assert_eq!(a.add(a), AggregateDuration { day: 2, week: 4, month: 6, year: 8, total: 10 });
}

#[test]
fn duration_text() {
    assert_eq!(format_duration(0), "--");
    assert_eq!(format_duration(999), "--");
    assert_eq!(format_duration(42_000), "42s");
    assert_eq!(format_duration(90_000), "1m");
    assert_eq!(format_duration(25 * MIN), "25m");
    assert_eq!(format_duration(65 * MIN), "1h  5m");
    assert_eq!(format_duration(3 * 60 * MIN), "3h");
    assert_eq!(format_duration((26 * 60 + 3) * MIN), " 26h  3m");
}
