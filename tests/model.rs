use netupi::filter::{
    get_last_task, next_selection, passes_filter, previous_selection, set_task_status,
    FocusFilter,
};
use netupi::ledger::TimeRecordMap;
use netupi::task::{
    generate_uid, get_rest_interval, get_work_interval, CuaPriority, Task, TaskStatus, TimeRecord,
    DEFAULT_BREAK, DEFAULT_WORK,
};
use netupi::time::{daystart, month_start, year_start, CivilDate};
use netupi::import::parse_i64;
use netupi::utils::type_of;

#[test]
fn priority_from_number() {
    assert_eq!(CuaPriority::from(0), CuaPriority::Unspecified);
    assert_eq!(CuaPriority::from(1), CuaPriority::High);
    assert_eq!(CuaPriority::from(4), CuaPriority::High);
    assert_eq!(CuaPriority::from(5), CuaPriority::Normal);
    assert_eq!(CuaPriority::from(6), CuaPriority::Low);
    assert_eq!(CuaPriority::from(9), CuaPriority::Low);
    assert_eq!(CuaPriority::from(10), CuaPriority::Unspecified);
    assert_eq!(u32::from(CuaPriority::High), 1);
    assert_eq!(u32::from(CuaPriority::Normal), 5);
    assert_eq!(u32::from(CuaPriority::Low), 9);
    assert_eq!(u32::from(CuaPriority::Unspecified), 0);
}

#[test]
fn status_labels() {
    assert_eq!(TaskStatus::NeedsAction.to_string(), "Needs action");
    assert_eq!(TaskStatus::Completed.to_string(), "Completed");
    assert_eq!(TaskStatus::InProcess.to_string(), "In process");
    assert_eq!(TaskStatus::Archived.to_string(), "Archived");
}

#[test]
fn focus_filter_cycle() {
    let mut f = FocusFilter::Status(TaskStatus::NeedsAction);
    let mut seen = Vec::new();
    for _ in 0..5 {
        seen.push(f.to_int());
        assert_eq!(f.cycle_next().cycle_prev(), f);
        f = f.cycle_next();
    }
    assert_eq!(seen, vec![0, 1, 2, 3, 4]);
    assert_eq!(f, FocusFilter::Status(TaskStatus::NeedsAction));
    assert_eq!(FocusFilter::All.cycle_next(), FocusFilter::Status(TaskStatus::NeedsAction));
    assert_eq!(FocusFilter::Status(TaskStatus::NeedsAction).cycle_prev(), FocusFilter::All);
    assert_eq!(FocusFilter::All.to_string(), "All");
    assert_eq!(FocusFilter::Status(TaskStatus::InProcess).to_string(), "In process");
}

#[test]
fn filter_by_status_and_tag() {
    let mut t = Task::new_simple("Write".to_string());
    t.tags = vec!["home".to_string(), "work".to_string()];
    assert!(passes_filter(&FocusFilter::All, &None, &t));
    assert!(passes_filter(&FocusFilter::Status(TaskStatus::NeedsAction), &Some("work".to_string()), &t));
    assert!(!passes_filter(&FocusFilter::Status(TaskStatus::Completed), &None, &t));
    assert!(!passes_filter(&FocusFilter::All, &Some("gym".to_string()), &t));
    t.task_status = TaskStatus::Archived;
    assert!(!passes_filter(&FocusFilter::All, &None, &t));
    assert!(passes_filter(&FocusFilter::Status(TaskStatus::Archived), &Some("home".to_string()), &t));
}

#[test]
fn simple_task_defaults() {
    let t = Task::new_simple("Read".to_string());
    assert_eq!(t.name, "Read");
    assert_eq!(t.priority, 5);
    assert_eq!(t.task_status, TaskStatus::NeedsAction);
    assert_eq!(t.work_duration, 50 * 60_000);
    assert_eq!(t.break_duration, 10 * 60_000);
    assert_eq!((DEFAULT_WORK, DEFAULT_BREAK), (3_000_000, 600_000));
    assert_eq!(t.uid.len(), 36);
    assert!(t.description.is_empty());
    assert!(t.tags.is_empty());
}

#[test]
fn uids_are_time_based_text() {
    let a = generate_uid();
    assert_eq!(a.chars().count(), 36);
    assert_eq!(a.chars().filter(|c| *c == '-').count(), 4);
    assert_eq!(a.chars().nth(14), Some('1'));
}

#[test]
fn record_duration() {
    let r = TimeRecord { from: 1000, to: 61_000, uid: "A".to_string() };
    assert_eq!(r.duration(), 60_000);
    let c = r.clone();
    assert_eq!((c.from, c.to, c.uid), (1000, 61_000, "A".to_string()));
}

#[test]
fn type_names() {
    assert_eq!(type_of(5i64), "i64");
    assert_eq!(type_of(5u8), "u8");
    assert_eq!(type_of('x'), "char");
    assert_eq!(type_of("text"), "&str");
    assert_eq!(type_of(String::new()), "alloc::string::String");
    assert_eq!(type_of(TimeRecord { from: 1, to: 2, uid: String::new() }), "netupi::task::TimeRecord");
}

#[test]
fn calendar_starts() {
    let d = CivilDate { year: 2024, month: 5, day: 17 };
    assert_eq!(month_start(d), CivilDate { year: 2024, month: 5, day: 1 });
    assert_eq!(year_start(d), CivilDate { year: 2024, month: 1, day: 1 });
    let now: i64 = 1_700_049_600_000;
    let start = daystart(now).unwrap();
    assert!(start <= now);
    assert!(now - start < 26 * 3_600_000);
}

#[test]
fn archive_and_status_changes() {
    let mut tasks = vec![Task::new_simple("A".to_string()), Task::new_simple("B".to_string())];
    let b = tasks[1].uid.clone();
    assert!(set_task_status(&mut tasks, &b, TaskStatus::Archived));
    assert_eq!(tasks[1].task_status, TaskStatus::Archived);
    assert_eq!(tasks[0].task_status, TaskStatus::NeedsAction);
    assert!(!set_task_status(&mut tasks, &"missing".to_string(), TaskStatus::Archived));
    let a = tasks[0].uid.clone();
    assert!(set_task_status(&mut tasks, &a, TaskStatus::Completed));
    assert_eq!(tasks[0].task_status, TaskStatus::Completed);
    assert_eq!(get_work_interval(&tasks[0]), 3_000_000);
    assert_eq!(get_rest_interval(&tasks[0]), 600_000);
}

#[test]
fn last_task_skips_archived() {
    let mut tasks = vec![Task::new_simple("A".to_string()), Task::new_simple("B".to_string())];
    let a = tasks[0].uid.clone();
    let b = tasks[1].uid.clone();
    let mut records = TimeRecordMap::new();
    assert_eq!(get_last_task(&tasks, &records), None);
    records.insert(TimeRecord { from: 10, to: 20, uid: a.clone() }).unwrap();
    records.insert(TimeRecord { from: 30, to: 40, uid: b.clone() }).unwrap();
    records.insert(TimeRecord { from: 50, to: 60, uid: "gone".to_string() }).unwrap();
    assert_eq!(get_last_task(&tasks, &records), Some(b.clone()));
    tasks[1].task_status = TaskStatus::Archived;
    assert_eq!(get_last_task(&tasks, &records), Some(a));
}

#[test]
fn list_selection_wraps() {
    assert_eq!(next_selection(Some(0), None, 0), None);
    assert_eq!(next_selection(Some(0), None, 3), Some(1));
    assert_eq!(next_selection(Some(2), None, 3), Some(0));
    assert_eq!(next_selection(Some(7), None, 3), Some(0));
    assert_eq!(next_selection(None, Some(2), 3), Some(2));
    assert_eq!(next_selection(None, None, 3), Some(0));
    assert_eq!(previous_selection(Some(0), None, 3), Some(2));
    assert_eq!(previous_selection(Some(2), None, 3), Some(1));
    assert_eq!(previous_selection(None, Some(1), 3), Some(1));
    assert_eq!(previous_selection(None, None, 0), None);
}

#[test]
fn decimal_parsing() {
    assert_eq!(parse_i64("42"), Some(42));
    assert_eq!(parse_i64("+7"), Some(7));
    assert_eq!(parse_i64("-0"), Some(0));
    assert_eq!(parse_i64("-9223372036854775808"), Some(i64::MIN));
    assert_eq!(parse_i64("9223372036854775807"), Some(i64::MAX));
    assert_eq!(parse_i64("9223372036854775808"), None);
    assert_eq!(parse_i64("99999999999999999999999"), None);
    assert_eq!(parse_i64(""), None);
    assert_eq!(parse_i64("-"), None);
    assert_eq!(parse_i64("1 "), None);
    assert_eq!(parse_i64("x1"), None);
}

#[test]
fn calendar_out_of_range() {
    assert_eq!(daystart(i64::MAX), None);
    assert_eq!(daystart(i64::MIN), None);
    assert!(netupi::time::boundaries(i64::MAX).is_none());
    let b = netupi::time::boundaries_from(100, Some(90), Some(50), Some(60), Some(10));
    assert_eq!(b, Some(netupi::time::Boundaries { day: 90, week: 50, month: 60, year: 10 }));
    assert_eq!(netupi::time::boundaries_from(100, Some(90), Some(95), Some(60), Some(10)), None);
    assert_eq!(netupi::time::boundaries_from(100, Some(90), Some(50), None, Some(10)), None);
    assert_eq!(netupi::time::start_not_after(5, Some(6)), None);
}
