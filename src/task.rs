use vstd::prelude::*;

verus! {

/// Where a task stands.
#[derive(PartialEq, Eq, Structural, Clone, Copy, Debug)]
pub enum TaskStatus {
    NeedsAction,
    Completed,
    InProcess,
    Archived,
}

impl TaskStatus {
    /// The status as shown to a user.
    pub fn to_string(&self) -> (r: &'static str)
        ensures
            r@ == status_label(*self),
    {
        match self {
            TaskStatus::NeedsAction => "Needs action",
            TaskStatus::Completed => "Completed",
            TaskStatus::InProcess => "In process",
            TaskStatus::Archived => "Archived",
        }
    }
}

pub open spec fn status_label(s: TaskStatus) -> Seq<char> {
    match s {
        TaskStatus::NeedsAction => "Needs action"@,
        TaskStatus::Completed => "Completed"@,
        TaskStatus::InProcess => "In process"@,
        TaskStatus::Archived => "Archived"@,
    }
}

/// Priority in the calendar sense: 1 to 4 high, 5 normal, 6 to 9 low, anything else unspecified.
#[derive(PartialEq, Eq, Structural, Clone, Copy, Debug)]
pub enum CuaPriority {
    Unspecified,
    Low,
    Normal,
    High,
}

pub open spec fn priority_of(value: u32) -> CuaPriority {
    if 1 <= value <= 4 {
        CuaPriority::High
    } else if value == 5 {
        CuaPriority::Normal
    } else if 6 <= value <= 9 {
        CuaPriority::Low
    } else {
        CuaPriority::Unspecified
    }
}

pub open spec fn priority_value(p: CuaPriority) -> u32 {
    match p {
        CuaPriority::High => 1,
        CuaPriority::Normal => 5,
        CuaPriority::Low => 9,
        CuaPriority::Unspecified => 0,
    }
}

impl From<u32> for CuaPriority {
    fn from(value: u32) -> (r: Self) {
        if 1 <= value && value <= 4 {
            CuaPriority::High
        } else if value == 5 {
            CuaPriority::Normal
        } else if 6 <= value && value <= 9 {
            CuaPriority::Low
        } else {
            CuaPriority::Unspecified
        }
    }
}

impl vstd::std_specs::convert::FromSpecImpl<u32> for CuaPriority {
    open spec fn obeys_from_spec() -> bool {
        true
    }

    open spec fn from_spec(v: u32) -> CuaPriority {
        priority_of(v)
    }
}

impl From<CuaPriority> for u32 {
    fn from(pri: CuaPriority) -> (r: Self) {
        match pri {
            CuaPriority::High => 1,
            CuaPriority::Normal => 5,
            CuaPriority::Low => 9,
            CuaPriority::Unspecified => 0,
        }
    }
}

impl vstd::std_specs::convert::FromSpecImpl<CuaPriority> for u32 {
    open spec fn obeys_from_spec() -> bool {
        true
    }

    open spec fn from_spec(p: CuaPriority) -> u32 {
        priority_value(p)
    }
}

/// A task as the tracking core sees it. Durations are in milliseconds.
pub struct Task {
    pub uid: String,
    pub seq: u32,
    pub name: String,
    pub description: String,
    pub tags: Vec<String>,
    pub priority: u32,
    pub task_status: TaskStatus,
    pub work_duration: i64,
    pub break_duration: i64,
    pub color: u32,
}

impl Task {
    /// Target durations are not negative.
    pub open spec fn wf(&self) -> bool {
        self.work_duration >= 0 && self.break_duration >= 0
    }

    pub fn new(
        name: String,
        description: String,
        uid: String,
        tags: Vec<String>,
        priority: u32,
        task_status: TaskStatus,
        work_duration: i64,
        break_duration: i64,
        seq: u32,
    ) -> (r: Task)
        ensures
            r.name == name,
            r.description == description,
            r.uid == uid,
            r.tags == tags,
            r.priority == priority,
            r.task_status == task_status,
            r.work_duration == work_duration,
            r.break_duration == break_duration,
            r.seq == seq,
            r.color == 0,
    {
        Task {
            uid,
            seq,
            name,
            description,
            tags,
            priority,
            task_status,
            work_duration,
            break_duration,
            color: 0,
        }
    }

    /// A new task with default settings: normal priority, needing action, 50 minutes of
    /// work and 10 of break, and a fresh id.
    pub fn new_simple(name: String) -> (r: Task)
        ensures
            r.wf(),
            r.name == name,
            r.description@ == Seq::<char>::empty(),
            r.tags@ == Seq::<String>::empty(),
            r.priority == 5,
            r.task_status == TaskStatus::NeedsAction,
            r.work_duration == DEFAULT_WORK,
            r.break_duration == DEFAULT_BREAK,
            r.seq == 0,
            r.color == 0,
    {
        Task::new(
            name,
            String::new(),
            generate_uid(),
            Vec::new(),
            5,
            TaskStatus::NeedsAction,
            DEFAULT_WORK,
            DEFAULT_BREAK,
            0,
        )
    }
}

/// The work interval of a task.
pub fn get_work_interval(task: &Task) -> (r: i64)
    ensures
        r == task.work_duration,
{
    task.work_duration
}

/// The break interval of a task.
pub fn get_rest_interval(task: &Task) -> (r: i64)
    ensures
        r == task.break_duration,
{
    task.break_duration
}

/// Default work interval: 50 minutes.
pub const DEFAULT_WORK: i64 = 3_000_000;

/// Default break interval: 10 minutes.
pub const DEFAULT_BREAK: i64 = 600_000;

/// Relies on `std::time::SystemTime::now`: the wall-clock time since the Unix epoch, as
/// whole seconds and the nanoseconds beyond them (zero when the clock reads before the epoch).
#[verifier::external_body]
fn unix_now() -> (r: (u64, u32))
    ensures
        r.1 < 1_000_000_000,
{
    let d = std::time::SystemTime::now().duration_since(std::time::UNIX_EPOCH).unwrap_or_default();
    (d.as_secs(), d.subsec_nanos())
}

/// The text of the version-1 uuid that uuid builds for a time, with a fresh clock
/// sequence context started at 42 and node id 1-2-3-4-5-6.
pub uninterp spec fn v1_uuid_text(secs: u64, nanos: u32) -> Seq<char>;

/// Relies on uuid's `ContextV1::new`, `Timestamp::from_unix`, `Uuid::new_v1` and its
/// `Display`: with a fresh context the id depends on the time alone, and it is written
/// as 36 characters, hyphenated lower-case hex.
#[verifier::external_body]
fn uuid_v1(secs: u64, nanos: u32) -> (r: String)
    ensures
        r@ == v1_uuid_text(secs, nanos),
        r@.len() == 36,
{
    let context = uuid::ContextV1::new(42);
    let ts = uuid::Timestamp::from_unix(&context, secs, nanos);
    uuid::Uuid::new_v1(ts, &[1, 2, 3, 4, 5, 6]).to_string()
}

/// A fresh time-based task id.
pub fn generate_uid() -> (r: String)
    ensures
        r@.len() == 36,
{
    let (secs, nanos) = unix_now();
    uuid_v1(secs, nanos)
}

/// A finished interval of work on one task: `[from, to)` in milliseconds since the epoch.
pub struct TimeRecord {
    pub from: i64,
    pub to: i64,
    pub uid: String,
}

impl TimeRecord {
    /// A record starts after the epoch and ends after it starts.
    pub open spec fn valid(&self) -> bool {
        0 < self.from < self.to
    }

    pub open spec fn spec_duration(&self) -> int {
        self.to - self.from
    }

    pub fn duration(&self) -> (r: i64)
        requires
            self.valid(),
        ensures
            r == self.spec_duration(),
    {
        self.to - self.from
    }
}

impl Clone for TimeRecord {
    fn clone(&self) -> (r: Self)
        ensures
            r == *self,
    {
        TimeRecord { from: self.from, to: self.to, uid: self.uid.clone() }
    }
}

} // verus!
