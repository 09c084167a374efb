use netupi::import::{get_csv_entries, CsvRow, ImportError};
use netupi::task::{Task, TaskStatus};

fn row(finish: &str, minutes: &str, name: &str) -> CsvRow {
    CsvRow { finish: finish.to_string(), minutes: minutes.to_string(), name: name.to_string() }
}

// 2021-10-05 19:18 UTC
const FINISH: i64 = 1_633_461_480_000;

#[test]
fn rows_become_records_and_tasks() {
    let known = vec![Task::new(
        "Work".to_string(),
        String::new(),
        "uid-work".to_string(),
        Vec::new(),
        5,
        TaskStatus::InProcess,
        50 * 60_000,
        10 * 60_000,
        0,
    )];
    let rows = vec![
        row("2021-10-05-19-18", "50", "Work"),
        row("2021-10-05-20-30", "+20", "Read"),
        row("2021-10-05-21-00", "10", "Read"),
    ];
    let (new_tasks, records) = get_csv_entries(&rows, &known).unwrap();
    assert_eq!(records.len(), 3);
    assert_eq!((records[0].from, records[0].to), (FINISH - 50 * 60_000, FINISH));
    assert_eq!(records[0].uid, "uid-work");
    assert_eq!(records[1].to, FINISH + 72 * 60_000);
    assert_eq!(records[1].to - records[1].from, 20 * 60_000);
    assert_eq!(new_tasks.len(), 1);
    assert_eq!(new_tasks[0].name, "Read");
    assert_eq!(records[1].uid, new_tasks[0].uid);
    assert_eq!(records[2].uid, new_tasks[0].uid);
}

#[test]
fn bad_rows_are_refused() {
    let none: Vec<Task> = Vec::new();
    assert_eq!(
        get_csv_entries(&vec![row("2021-10-05 19:18", "5", "A")], &none).err(),
        Some(ImportError::BadTime(0))
    );
    assert_eq!(
        get_csv_entries(&vec![row("2021-10-05-19-18", "5", "A"), row("2021-10-05-19-30", "five", "A")], &none).err(),
        Some(ImportError::BadMinutes(1))
    );
    assert_eq!(
        get_csv_entries(&vec![row("2021-10-05-19-18", "-", "A")], &none).err(),
        Some(ImportError::BadMinutes(0))
    );
    assert_eq!(
        get_csv_entries(&vec![row("2021-10-05-19-18", "0", "A")], &none).err(),
        Some(ImportError::DegenerateInterval(0))
    );
    assert_eq!(
        get_csv_entries(&vec![row("1970-01-01-00-05", "10", "A")], &none).err(),
        Some(ImportError::DegenerateInterval(0))
    );
    assert_eq!(
        get_csv_entries(&vec![row("2021-10-05-19-18", "10", "A"), row("2021-10-05-19-28", "20", "B")], &none).err(),
        Some(ImportError::DuplicateStart(1))
    );
}

#[test]
fn empty_sheet_imports_nothing() {
    let (t, r) = get_csv_entries(&Vec::new(), &Vec::new()).unwrap();
    assert!(t.is_empty());
    assert!(r.is_empty());
}

#[test]
fn one_new_task_per_unknown_name() {
    let rows = vec![
        row("2021-10-05-10-00", "10", "X"),
        row("2021-10-05-11-00", "10", "Y"),
        row("2021-10-05-12-00", "10", "X"),
    ];
    let (new_tasks, records) = get_csv_entries(&rows, &Vec::new()).unwrap();
    assert_eq!(new_tasks.len(), 2);
    assert_eq!(new_tasks[0].name, "X");
    assert_eq!(new_tasks[1].name, "Y");
    assert_eq!(records[0].uid, records[2].uid);
    assert_ne!(records[0].uid, records[1].uid);
}
