use netupi::filter::archive_task;
use netupi::tracker::Tracker;
use netupi::session::{Command, SessionError, TimerAction, TrackingCtx, TrackingState};
use netupi::task::{Task, TaskStatus};

const MIN: i64 = 60_000;
const T0: i64 = 1_700_000_000_000;

fn task(uid: &str, work: i64, rest: i64, status: TaskStatus) -> Task {
    Task::new(
        uid.to_string(),
        String::new(),
        uid.to_string(),
        Vec::new(),
        5,
        status,
        work,
        rest,
        0,
    )
}

fn armed(a: TimerAction) -> (u64, i64) {
    match a {
        TimerAction::Arm { id, duration } => (id, duration),
        other => panic!("expected an armed timer, got {:?}", other),
    }
}

#[test]
fn pause_resume_fire_scenario() {
    let mut ctx = TrackingCtx::new();
    let step = ctx.start_tracking(task("A", 50 * MIN, 10 * MIN, TaskStatus::NeedsAction), T0).unwrap();
    assert!(step.record.is_none());
    assert!(step.promote);
    let (first, d) = armed(step.timer);
    assert_eq!(d, 50 * MIN);
    assert_eq!(ctx.state, TrackingState::Active("A".to_string()));

    let step = ctx.pause_tracking(T0 + 30 * MIN).unwrap();
    let rec = step.record.unwrap();
    assert_eq!((rec.from, rec.to, rec.uid.as_str()), (T0, T0 + 30 * MIN, "A"));
    assert_eq!(step.timer, TimerAction::Cancel);
    assert_eq!(ctx.elapsed, 30 * MIN);
    assert_eq!(ctx.state, TrackingState::Paused("A".to_string()));

    let step = ctx.resume_tracking(T0 + 40 * MIN).unwrap();
    assert!(step.record.is_none());
    let (second, d) = armed(step.timer);
    assert_eq!(d, 20 * MIN);
    assert_ne!(first, second);

    let step = ctx.timer_fired(second, T0 + 60 * MIN).unwrap();
    let rec = step.record.unwrap();
    assert_eq!((rec.from, rec.to, rec.uid.as_str()), (T0 + 40 * MIN, T0 + 60 * MIN, "A"));
    assert!(step.notify);
    let (_, d) = armed(step.timer);
    assert_eq!(d, 10 * MIN);
    assert_eq!(ctx.state, TrackingState::Break("A".to_string()));
}

#[test]
fn break_ends_on_timer_without_record() {
    let mut ctx = TrackingCtx::new();
    let step = ctx.start_tracking(task("A", 50 * MIN, 10 * MIN, TaskStatus::InProcess), T0).unwrap();
    assert!(!step.promote);
    let (id, _) = armed(step.timer);
    let step = ctx.timer_fired(id, T0 + 50 * MIN).unwrap();
    let (rest_id, _) = armed(step.timer);
    let step = ctx.timer_fired(rest_id, T0 + 60 * MIN).unwrap();
    assert!(step.record.is_none());
    assert!(step.notify);
    assert_eq!(ctx.state, TrackingState::Inactive);
    assert_eq!(ctx.timer_id, None);
}

#[test]
fn stale_timer_is_ignored() {
    let mut ctx = TrackingCtx::new();
    let step = ctx.start_tracking(task("A", 50 * MIN, 10 * MIN, TaskStatus::NeedsAction), T0).unwrap();
    let (first, _) = armed(step.timer);
    ctx.pause_tracking(T0 + MIN).unwrap();
    let step = ctx.resume_tracking(T0 + 2 * MIN).unwrap();
    let (second, _) = armed(step.timer);
    let before = (ctx.timestamp, ctx.elapsed, ctx.timer_id, ctx.next_timer);
    let step = ctx.timer_fired(first, T0 + 3 * MIN).unwrap();
    assert!(step.record.is_none());
    assert_eq!(step.timer, TimerAction::Keep);
    assert!(!step.notify);
    assert_eq!(ctx.state, TrackingState::Active("A".to_string()));
    assert_eq!((ctx.timestamp, ctx.elapsed, ctx.timer_id, ctx.next_timer), before);
    assert_eq!(ctx.timer_id, Some(second));
    let step = ctx.handle(Command::TimerFired(second + 100), T0 + 4 * MIN).unwrap();
    assert!(step.record.is_none());
    assert_eq!(ctx.state, TrackingState::Active("A".to_string()));
}

#[test]
fn inactive_accepts_only_start() {
    let mut ctx = TrackingCtx::new();
    assert_eq!(ctx.pause_tracking(T0).err(), Some(SessionError::InvalidTransition));
    assert_eq!(ctx.resume_tracking(T0).err(), Some(SessionError::InvalidTransition));
    assert_eq!(ctx.stop_tracking(T0).err(), Some(SessionError::InvalidTransition));
    assert_eq!(
        ctx.switch_tracking(task("B", MIN, MIN, TaskStatus::NeedsAction), T0).err(),
        Some(SessionError::InvalidTransition)
    );
    assert_eq!(ctx.state, TrackingState::Inactive);
    assert!(ctx.start_tracking(task("A", MIN, MIN, TaskStatus::NeedsAction), T0).is_ok());
}

#[test]
fn active_refuses_start_and_resume() {
    let mut ctx = TrackingCtx::new();
    ctx.start_tracking(task("A", MIN, MIN, TaskStatus::NeedsAction), T0).unwrap();
    assert_eq!(
        ctx.start_tracking(task("B", MIN, MIN, TaskStatus::NeedsAction), T0 + 1).err(),
        Some(SessionError::InvalidTransition)
    );
    assert_eq!(ctx.resume_tracking(T0 + 1).err(), Some(SessionError::InvalidTransition));
    assert_eq!(ctx.state, TrackingState::Active("A".to_string()));
}

#[test]
fn paused_accepts_resume_and_stop_only() {
    let mut ctx = TrackingCtx::new();
    ctx.start_tracking(task("A", MIN, MIN, TaskStatus::NeedsAction), T0).unwrap();
    ctx.pause_tracking(T0 + 1000).unwrap();
    assert_eq!(ctx.pause_tracking(T0 + 2000).err(), Some(SessionError::InvalidTransition));
    assert_eq!(
        ctx.switch_tracking(task("B", MIN, MIN, TaskStatus::NeedsAction), T0 + 2000).err(),
        Some(SessionError::InvalidTransition)
    );
    assert_eq!(
        ctx.start_tracking(task("B", MIN, MIN, TaskStatus::NeedsAction), T0 + 2000).err(),
        Some(SessionError::InvalidTransition)
    );
    let step = ctx.stop_tracking(T0 + 3000).unwrap();
    assert!(step.record.is_none());
    assert_eq!(ctx.state, TrackingState::Inactive);
    assert_eq!(ctx.elapsed, 0);
}

#[test]
fn break_accepts_stop_with_notice() {
    let mut ctx = TrackingCtx::new();
    let step = ctx.start_tracking(task("A", MIN, MIN, TaskStatus::NeedsAction), T0).unwrap();
    let (id, _) = armed(step.timer);
    ctx.timer_fired(id, T0 + MIN).unwrap();
    assert_eq!(ctx.pause_tracking(T0 + MIN + 1).err(), Some(SessionError::InvalidTransition));
    assert_eq!(ctx.resume_tracking(T0 + MIN + 1).err(), Some(SessionError::InvalidTransition));
    let step = ctx.stop_tracking(T0 + MIN + 2).unwrap();
    assert!(step.notify);
    assert!(step.record.is_none());
    assert_eq!(step.timer, TimerAction::Cancel);
    assert_eq!(ctx.state, TrackingState::Inactive);
}

#[test]
fn switch_records_and_starts_other_task() {
    let mut ctx = TrackingCtx::new();
    ctx.start_tracking(task("A", 50 * MIN, MIN, TaskStatus::NeedsAction), T0).unwrap();
    let step = ctx
        .switch_tracking(task("B", 25 * MIN, MIN, TaskStatus::Completed), T0 + 5 * MIN)
        .unwrap();
    let rec = step.record.unwrap();
    assert_eq!((rec.from, rec.to, rec.uid.as_str()), (T0, T0 + 5 * MIN, "A"));
    assert!(step.promote);
    let (_, d) = armed(step.timer);
    assert_eq!(d, 25 * MIN);
    assert_eq!(ctx.state, TrackingState::Active("B".to_string()));
    assert_eq!(ctx.elapsed, 0);
}

#[test]
fn degenerate_interval_drops_only_the_record() {
    let mut ctx = TrackingCtx::new();
    ctx.start_tracking(task("A", MIN, MIN, TaskStatus::NeedsAction), T0).unwrap();
    let step = ctx.pause_tracking(T0 - 1).unwrap();
    assert!(step.record.is_none());
    assert_eq!(ctx.state, TrackingState::Paused("A".to_string()));
    assert_eq!(ctx.elapsed, 0);
    ctx.resume_tracking(T0).unwrap();
    let step = ctx.stop_tracking(T0).unwrap();
    assert!(step.record.is_none());
    assert_eq!(step.timer, TimerAction::Cancel);
    assert_eq!(ctx.state, TrackingState::Inactive);
    assert_eq!(ctx.timer_id, None);
    assert_eq!(ctx.elapsed, 0);
}

#[test]
fn degenerate_switch_and_fire_still_move_on() {
    let mut ctx = TrackingCtx::new();
    let step = ctx.start_tracking(task("A", MIN, MIN, TaskStatus::NeedsAction), T0).unwrap();
    let (id, _) = armed(step.timer);
    let step = ctx.timer_fired(id, T0).unwrap();
    assert!(step.record.is_none());
    assert_eq!(ctx.state, TrackingState::Break("A".to_string()));
    ctx.stop_tracking(T0).unwrap();
    ctx.start_tracking(task("A", MIN, MIN, TaskStatus::NeedsAction), T0).unwrap();
    let step = ctx.switch_tracking(task("B", MIN, MIN, TaskStatus::NeedsAction), T0 - 5).unwrap();
    assert!(step.record.is_none());
    assert_eq!(ctx.state, TrackingState::Active("B".to_string()));
}

#[test]
fn session_started_before_epoch_can_stop() {
    let mut ctx = TrackingCtx::new();
    ctx.start_tracking(task("A", MIN, MIN, TaskStatus::NeedsAction), 0).unwrap();
    let step = ctx.stop_tracking(100).unwrap();
    assert!(step.record.is_none());
    assert_eq!(ctx.state, TrackingState::Inactive);
}

#[test]
fn stop_records_the_running_interval() {
    let mut ctx = TrackingCtx::new();
    ctx.start_tracking(task("A", MIN, MIN, TaskStatus::NeedsAction), T0).unwrap();
    let step = ctx.stop_tracking(T0 + 1).unwrap();
    assert_eq!(step.record.unwrap().to, T0 + 1);
    assert_eq!(ctx.state, TrackingState::Inactive);
}

#[test]
fn archiving_the_engaged_task_stops_it() {
    let mut tasks = vec![task("A", MIN, MIN, TaskStatus::InProcess), task("B", MIN, MIN, TaskStatus::NeedsAction)];
    let mut tracker = Tracker::new();
    tracker.add_task("A".to_string());
    tracker.add_task("B".to_string());
    let mut ctx = TrackingCtx::new();
    ctx.start_tracking(task("A", MIN, MIN, TaskStatus::InProcess), T0).unwrap();
    let (found, step, recorded) = archive_task(&mut tasks, &mut ctx, &mut tracker, &"B".to_string(), T0 + 1);
    assert!(found);
    assert!(step.is_none());
    assert!(recorded.is_ok());
    assert_eq!(ctx.state, TrackingState::Active("A".to_string()));
    assert_eq!(tasks[1].task_status, TaskStatus::Archived);
    let (found, step, recorded) =
        archive_task(&mut tasks, &mut ctx, &mut tracker, &"A".to_string(), T0 + 5 * MIN);
    assert!(found);
    assert!(recorded.is_ok());
    let rec = step.unwrap().record.unwrap();
    assert_eq!((rec.from, rec.to, rec.uid.as_str()), (T0, T0 + 5 * MIN, "A"));
    assert_eq!(ctx.state, TrackingState::Inactive);
    assert_eq!(ctx.timer_id, None);
    assert_eq!(ctx.elapsed, 0);
    assert_eq!(tasks[0].task_status, TaskStatus::Archived);
    assert_eq!(tracker.total_since(&"A".to_string(), 0), Some(5 * MIN));
}

#[test]
fn applied_steps_reach_the_totals() {
    let mut tracker = Tracker::new();
    tracker.add_task("A".to_string());
    let mut ctx = TrackingCtx::new();
    let step = ctx.start_tracking(task("A", 50 * MIN, 10 * MIN, TaskStatus::NeedsAction), T0).unwrap();
    tracker.apply_step(&step).unwrap();
    let step = ctx.pause_tracking(T0 + 30 * MIN).unwrap();
    tracker.apply_step(&step).unwrap();
    let step = ctx.resume_tracking(T0 + 40 * MIN).unwrap();
    let (id, _) = armed(step.timer);
    let step = ctx.timer_fired(id, T0 + 60 * MIN).unwrap();
    tracker.apply_step(&step).unwrap();
    assert_eq!(tracker.total_since(&"A".to_string(), 0), Some(50 * MIN));
    assert_eq!(tracker.total_since(&"A".to_string(), T0 + 40 * MIN), Some(20 * MIN));
}

#[test]
fn resume_after_long_pause_arms_zero() {
    let mut ctx = TrackingCtx::new();
    ctx.start_tracking(task("A", 10 * MIN, MIN, TaskStatus::NeedsAction), T0).unwrap();
    ctx.pause_tracking(T0 + 12 * MIN).unwrap();
    let step = ctx.resume_tracking(T0 + 20 * MIN).unwrap();
    assert_eq!(armed(step.timer).1, 0);
}

#[test]
fn status_promotion_only_for_needs_action_or_completed() {
    for (status, promote) in [
        (TaskStatus::NeedsAction, true),
        (TaskStatus::Completed, true),
        (TaskStatus::InProcess, false),
        (TaskStatus::Archived, false),
    ] {
        let mut ctx = TrackingCtx::new();
        let step = ctx.start_tracking(task("A", MIN, MIN, status), T0).unwrap();
        assert_eq!(step.promote, promote);
    }
}
