use vstd::prelude::*;

use crate::ledger::TimeRecordMap;
use crate::ledger::{ledger_has_start, live_total};
use crate::session::{
    interval_ok, next, record_of, Command, SessionError, Step, TrackingCtx, TrackingState,
};
use crate::tracker::{task_ids, TrackError, Tracker};
use crate::task::{status_label, Task, TaskStatus};

verus! {

/// Which tasks a list shows: those of one status, or all that are not archived.
#[derive(PartialEq, Eq, Structural, Clone, Copy, Debug)]
pub enum FocusFilter {
    Status(TaskStatus),
    All,
}

pub open spec fn filter_index(f: FocusFilter) -> u8 {
    match f {
        FocusFilter::Status(TaskStatus::NeedsAction) => 0,
        FocusFilter::Status(TaskStatus::Completed) => 1,
        FocusFilter::Status(TaskStatus::InProcess) => 2,
        FocusFilter::Status(TaskStatus::Archived) => 3,
        FocusFilter::All => 4,
    }
}

/// The filter at position `i` of the cycle NeedsAction, Completed, InProcess, Archived, All.
pub open spec fn filter_at(i: int) -> FocusFilter {
    if i == 0 {
        FocusFilter::Status(TaskStatus::NeedsAction)
    } else if i == 1 {
        FocusFilter::Status(TaskStatus::Completed)
    } else if i == 2 {
        FocusFilter::Status(TaskStatus::InProcess)
    } else if i == 3 {
        FocusFilter::Status(TaskStatus::Archived)
    } else {
        FocusFilter::All
    }
}

impl FocusFilter {
    /// The filter's name as shown to a user.
    pub fn to_string(&self) -> (r: &'static str)
        ensures
            r@ == match *self {
                FocusFilter::Status(s) => status_label(s),
                FocusFilter::All => "All"@,
            },
    {
        match self {
            FocusFilter::Status(x) => x.to_string(),
            FocusFilter::All => "All",
        }
    }

    /// Position of the filter in the cycle.
    pub fn to_int(&self) -> (r: u8)
        ensures
            r == filter_index(*self),
    {
        match self {
            FocusFilter::Status(TaskStatus::NeedsAction) => 0,
            FocusFilter::Status(TaskStatus::Completed) => 1,
            FocusFilter::Status(TaskStatus::InProcess) => 2,
            FocusFilter::Status(TaskStatus::Archived) => 3,
            FocusFilter::All => 4,
        }
    }

    /// The next filter of the cycle, wrapping from All to NeedsAction.
    pub fn cycle_next(&self) -> (r: Self)
        ensures
            r == filter_at((filter_index(*self) + 1) % 5),
    {
        match self {
            FocusFilter::Status(TaskStatus::NeedsAction) => FocusFilter::Status(
                TaskStatus::Completed,
            ),
            FocusFilter::Status(TaskStatus::Completed) => FocusFilter::Status(
                TaskStatus::InProcess,
            ),
            FocusFilter::Status(TaskStatus::InProcess) => FocusFilter::Status(
                TaskStatus::Archived,
            ),
            FocusFilter::Status(TaskStatus::Archived) => FocusFilter::All,
            FocusFilter::All => FocusFilter::Status(TaskStatus::NeedsAction),
        }
    }

    /// The previous filter of the cycle, wrapping from NeedsAction to All.
    pub fn cycle_prev(&self) -> (r: Self)
        ensures
            r == filter_at((filter_index(*self) + 4) % 5),
    {
        match self {
            FocusFilter::Status(TaskStatus::NeedsAction) => FocusFilter::All,
            FocusFilter::Status(TaskStatus::Completed) => FocusFilter::Status(
                TaskStatus::NeedsAction,
            ),
            FocusFilter::Status(TaskStatus::InProcess) => FocusFilter::Status(
                TaskStatus::Completed,
            ),
            FocusFilter::Status(TaskStatus::Archived) => FocusFilter::Status(
                TaskStatus::InProcess,
            ),
            FocusFilter::All => FocusFilter::Status(TaskStatus::Archived),
        }
    }
}

/// Stepping forward and then back through the cycle returns to the same filter.
pub proof fn law_cycle_round_trip(f: FocusFilter)
    ensures
        filter_at((filter_index(filter_at((filter_index(f) + 1) % 5)) + 4) % 5) == f,
{
}

/// Whether `task` passes the focus filter and, when one is set, the tag filter.
pub fn passes_filter(focus: &FocusFilter, tag_filter: &Option<String>, task: &Task) -> (r: bool)
    ensures
        r == ((match *focus {
            FocusFilter::Status(s) => task.task_status == s,
            FocusFilter::All => task.task_status != TaskStatus::Archived,
        }) && (match *tag_filter {
            Some(t) => exists|i: int| 0 <= i < task.tags@.len() && #[trigger] task.tags@[i]@ == t@,
            None => true,
        })),
{
    let focus_ok = match focus {
        FocusFilter::Status(x) => *x == task.task_status,
        FocusFilter::All => task.task_status != TaskStatus::Archived,
    };
    let tag_ok = match tag_filter {
        Some(t) => {
            let mut found = false;
            let mut i: usize = 0;
            while i < task.tags.len()
                invariant
                    0 <= i <= task.tags@.len(),
                    found == exists|j: int| 0 <= j < i && #[trigger] task.tags@[j]@ == t@,
                decreases task.tags@.len() - i,
            {
                if task.tags[i].eq(t) {
                    found = true;
                }
                i = i + 1;
            }
            found
        },
        None => true,
    };
    focus_ok && tag_ok
}

/// Some task of `tasks` has id `uid` and is not archived.
pub open spec fn open_task(tasks: Seq<Task>, uid: Seq<char>) -> bool {
    exists|k: int|
        0 <= k < tasks.len() && #[trigger] tasks[k].uid@ == uid && tasks[k].task_status
            != TaskStatus::Archived
}

fn is_open_task(tasks: &Vec<Task>, uid: &String) -> (r: bool)
    ensures
        r == open_task(tasks@, uid@),
{
    let mut k: usize = 0;
    while k < tasks.len()
        invariant
            0 <= k <= tasks@.len(),
            forall|j: int|
                0 <= j < k ==> !(#[trigger] tasks@[j].uid@ == uid@ && tasks@[j].task_status
                    != TaskStatus::Archived),
        decreases tasks@.len() - k,
    {
        if tasks[k].uid.eq(uid) && tasks[k].task_status != TaskStatus::Archived {
            return true;
        }
        k = k + 1;
    }
    false
}

/// The task of the latest record whose task exists and is not archived: the one to offer
/// when tracking resumes.
pub fn get_last_task(tasks: &Vec<Task>, records: &TimeRecordMap) -> (r: Option<String>)
    ensures
        r.is_none() <==> forall|i: int|
            0 <= i < records@.len() ==> !open_task(tasks@, (#[trigger] records@[i]).uid@),
        r matches Some(u) ==> exists|i: int|
            0 <= i < records@.len() && (#[trigger] records@[i]).uid@ == u@ && open_task(
                tasks@,
                u@,
            ) && forall|j: int| i < j < records@.len() ==> !open_task(tasks@, (#[trigger] records@[j]).uid@),
{
    let mut i: usize = records.len();
    while i > 0
        invariant
            0 <= i <= records@.len(),
            forall|j: int| i <= j < records@.len() ==> !open_task(tasks@, (#[trigger] records@[j]).uid@),
        decreases i,
    {
        let rec = records.get(i - 1);
        if is_open_task(tasks, &rec.uid) {
            let u = rec.uid.clone();
            assert(records@[i - 1].uid@ == u@);
            return Some(u);
        }
        i = i - 1;
    }
    None
}

/// Gives every task with id `uid` the status `status`; returns whether there was one.
pub fn set_task_status(tasks: &mut Vec<Task>, uid: &String, status: TaskStatus) -> (r: bool)
    ensures
        r == exists|k: int| 0 <= k < old(tasks)@.len() && #[trigger] old(tasks)@[k].uid@ == uid@,
        final(tasks)@.len() == old(tasks)@.len(),
        forall|k: int|
            0 <= k < old(tasks)@.len() ==> #[trigger] final(tasks)@[k] == if old(tasks)@[k].uid@
                == uid@ {
                Task { task_status: status, ..old(tasks)@[k] }
            } else {
                old(tasks)@[k]
            },
{
    let mut found = false;
    let mut k: usize = 0;
    while k < tasks.len()
        invariant
            0 <= k <= tasks@.len(),
            tasks@.len() == old(tasks)@.len(),
            found == exists|j: int| 0 <= j < k && #[trigger] old(tasks)@[j].uid@ == uid@,
            forall|j: int|
                0 <= j < tasks@.len() ==> #[trigger] tasks@[j] == if j < k && old(tasks)@[j].uid@
                    == uid@ {
                    Task { task_status: status, ..old(tasks)@[j] }
                } else {
                    old(tasks)@[j]
                },
        decreases tasks@.len() - k,
    {
        if tasks[k].uid.eq(uid) {
            tasks[k].task_status = status;
            found = true;
        }
        k = k + 1;
    }
    found
}

/// Position selected by moving down a list of `len` items: after the last item comes the
/// first; with nothing selected, the last selection or else the first item.
pub fn next_selection(selected: Option<usize>, last_selected: Option<usize>, len: usize) -> (r:
    Option<usize>)
    requires
        selected is None && last_selected is Some ==> last_selected.unwrap() < len,
    ensures
        len == 0 ==> r.is_none(),
        len > 0 ==> r == Some(
            match selected {
                Some(i) => if i >= len - 1 {
                    0
                } else {
                    (i + 1) as usize
                },
                None => match last_selected {
                    Some(l) => l,
                    None => 0,
                },
            },
        ),
        r matches Some(i) ==> i < len,
{
    if len == 0 {
        return None;
    }
    match selected {
        Some(i) => if i >= len - 1 {
            Some(0)
        } else {
            Some(i + 1)
        },
        None => match last_selected {
            Some(l) => Some(l),
            None => Some(0),
        },
    }
}

/// Position selected by moving up a list of `len` items: before the first item comes the
/// last; with nothing selected, the last selection or else the first item.
pub fn previous_selection(selected: Option<usize>, last_selected: Option<usize>, len: usize) -> (r:
    Option<usize>)
    requires
        selected matches Some(i) ==> i <= len,
        selected is None && last_selected is Some ==> last_selected.unwrap() < len,
    ensures
        len == 0 ==> r.is_none(),
        len > 0 ==> r == Some(
            match selected {
                Some(i) => if i == 0 {
                    (len - 1) as usize
                } else {
                    (i - 1) as usize
                },
                None => match last_selected {
                    Some(l) => l,
                    None => 0,
                },
            },
        ),
        r matches Some(i) ==> i < len,
{
    if len == 0 {
        return None;
    }
    match selected {
        Some(i) => if i == 0 {
            Some(len - 1)
        } else {
            Some(i - 1)
        },
        None => match last_selected {
            Some(l) => Some(l),
            None => Some(0),
        },
    }
}

/// The session state is engaged with task `uid`.
pub open spec fn engaged_with(state: TrackingState, uid: Seq<char>) -> bool {
    match state {
        TrackingState::Inactive => false,
        TrackingState::Active(u) => u@ == uid,
        TrackingState::Paused(u) => u@ == uid,
        TrackingState::Break(u) => u@ == uid,
    }
}

/// Archives task `uid`. When the session is engaged with it, the session stops: its
/// running work interval, when proper, goes into the ledger and the task's prefix sum, the
/// timer is cancelled and the carried work time cleared. Returns whether the task was
/// found, the stop's effects for the caller to carry out, and the outcome of recording.
pub fn archive_task(
    tasks: &mut Vec<Task>,
    ctx: &mut TrackingCtx,
    tracker: &mut Tracker,
    uid: &String,
    now: i64,
) -> (r: (bool, Option<Step>, Result<(), TrackError>))
    requires
        old(ctx).wf(),
        old(tracker).wf(),
    ensures
        final(ctx).wf(),
        final(tracker).wf(),
        r.0 == exists|k: int| 0 <= k < old(tasks)@.len() && #[trigger] old(tasks)@[k].uid@ == uid@,
        final(tasks)@.len() == old(tasks)@.len(),
        forall|k: int|
            0 <= k < old(tasks)@.len() ==> #[trigger] final(tasks)@[k] == if old(tasks)@[k].uid@
                == uid@ {
                Task { task_status: TaskStatus::Archived, ..old(tasks)@[k] }
            } else {
                old(tasks)@[k]
            },
        final(tracker).overlay() == old(tracker).overlay(),
        task_ids(final(tracker).sums_view()) == task_ids(old(tracker).sums_view()),
        r.2 is Err ==> final(tracker).ledger() == old(tracker).ledger() && final(tracker).sums_view() == old(tracker).sums_view(),
        !engaged_with(old(ctx).state, uid@) ==> r.1 is None && r.2 is Ok && *final(ctx) == *old(ctx) && final(tracker).ledger() == old(tracker).ledger() && final(tracker).sums_view()
            == old(tracker).sums_view(),
        engaged_with(old(ctx).state, uid@) ==> (r.1 matches Some(step) && (
            *final(ctx),
            Ok::<Step, SessionError>(step),
        ) == next(*old(ctx), Command::Stop, now)),
        engaged_with(old(ctx).state, uid@) ==> final(ctx).state == TrackingState::Inactive
            && final(ctx).timer_id is None && final(ctx).elapsed == 0,
        engaged_with(old(ctx).state, uid@) && !(old(ctx).state is Active && interval_ok(
            *old(ctx),
            now,
        )) ==> r.2 is Ok && final(tracker).ledger() == old(tracker).ledger() && final(tracker).sums_view() == old(tracker).sums_view(),
        old(ctx).state matches TrackingState::Active(u) ==> (u@ == uid@ && interval_ok(
            *old(ctx),
            now,
        ) ==> (r.2 is Ok <==> (old(tracker).knows(uid@) && !ledger_has_start(
            old(tracker).ledger(),
            old(ctx).timestamp as int,
        ) && live_total(old(tracker).ledger(), old(tracker).overlay(), uid@) + (now
            - old(ctx).timestamp) <= i64::MAX))),
        old(ctx).state matches TrackingState::Active(u) ==> (u@ == uid@ && interval_ok(
            *old(ctx),
            now,
        ) && r.2 is Ok ==> exists|i: int|
            0 <= i <= old(tracker).ledger().len() && final(tracker).ledger() == old(tracker).ledger().insert(i, record_of(*old(ctx), u, now))),
{
    let found = set_task_status(tasks, uid, TaskStatus::Archived);
    let engaged = match &ctx.state {
        TrackingState::Inactive => false,
        TrackingState::Active(u) => u.eq(uid),
        TrackingState::Paused(u) => u.eq(uid),
        TrackingState::Break(u) => u.eq(uid),
    };
    if !engaged {
        return (found, None, Ok(()));
    }
    let step = match ctx.stop_tracking(now) {
        Ok(step) => step,
        Err(_) => {
            return (found, None, Ok(()));
        },
    };
    let recorded = tracker.apply_step(&step);
    (found, Some(step), recorded)
}

} // verus!
