use vstd::prelude::*;

use crate::task::{Task, TaskStatus, TimeRecord};

verus! {

/// What the tracker is doing. Each engaged state carries the one task it is engaged with.
#[derive(PartialEq, Eq, Debug)]
pub enum TrackingState {
    Inactive,
    Active(String),
    Paused(String),
    Break(String),
}

/// A request to the timer service.
#[derive(PartialEq, Eq, Structural, Debug, Clone, Copy)]
pub enum TimerAction {
    /// Leave the timers as they are.
    Keep,
    /// Arm timer `id` to fire after `duration` milliseconds; it supersedes any earlier one.
    Arm { id: u64, duration: i64 },
    /// Cancel the armed timer.
    Cancel,
}

/// The effects of one accepted event, for the caller to carry out.
pub struct Step {
    /// A finished work interval, to be added to the ledger.
    pub record: Option<TimeRecord>,
    pub timer: TimerAction,
    /// Tell the user that a work interval or a break is over.
    pub notify: bool,
    /// Mark the task as in process.
    pub promote: bool,
}

/// Why an event was refused.
#[derive(PartialEq, Eq, Structural, Debug, Clone, Copy)]
pub enum SessionError {
    /// The event is not accepted in the current state.
    InvalidTransition,
}

/// An event for the session controller.
pub enum Command {
    Start(Task),
    Pause,
    Resume,
    Stop,
    Switch(Task),
    TimerFired(u64),
}

/// The session controller: the state, when it began, the armed timer and the work
/// time carried across pauses of one session. Durations are in milliseconds.
pub struct TrackingCtx {
    pub state: TrackingState,
    /// When the current state began.
    pub timestamp: i64,
    /// The timer that is armed now, if any.
    pub timer_id: Option<u64>,
    /// Work time of the current session so far, across pauses.
    pub elapsed: i64,
    /// Work interval of the engaged task.
    pub work_duration: i64,
    /// Break interval of the engaged task.
    pub break_duration: i64,
    /// Id that the next armed timer gets.
    pub next_timer: u64,
}

/// The events that each state accepts.
pub open spec fn accepts(state: TrackingState, cmd: Command) -> bool {
    match state {
        TrackingState::Inactive => cmd is Start,
        TrackingState::Active(_) => cmd is Pause || cmd is Stop || cmd is Switch
            || cmd is TimerFired,
        TrackingState::Paused(_) => cmd is Resume || cmd is Stop,
        TrackingState::Break(_) => cmd is TimerFired || cmd is Stop,
    }
}

pub open spec fn no_effects() -> Step {
    Step { record: None, timer: TimerAction::Keep, notify: false, promote: false }
}

pub open spec fn following_timer(id: u64) -> u64 {
    if id == u64::MAX {
        0
    } else {
        (id + 1) as u64
    }
}

pub open spec fn add_elapsed(elapsed: i64, d: int) -> i64 {
    if elapsed + d > i64::MAX {
        i64::MAX
    } else {
        (elapsed + d) as i64
    }
}

/// Work time left of the session: the work interval less the time already worked, or zero.
pub open spec fn remaining_work(work: i64, elapsed: i64) -> i64 {
    if work > elapsed {
        (work - elapsed) as i64
    } else {
        0
    }
}

/// A start promotes a task that needs action or was completed.
pub open spec fn needs_promotion(status: TaskStatus) -> bool {
    status == TaskStatus::NeedsAction || status == TaskStatus::Completed
}

/// The interval from the start of the current state to `now` can be recorded.
pub open spec fn interval_ok(ctx: TrackingCtx, now: i64) -> bool {
    0 < ctx.timestamp < now
}

pub open spec fn record_of(ctx: TrackingCtx, uid: String, now: i64) -> TimeRecord {
    TimeRecord { from: ctx.timestamp, to: now, uid }
}

/// The work interval that ends at `now`, when it is a proper interval; an improper one
/// (a clock that went back, a start not after the epoch) is dropped, the transition is not.
pub open spec fn finished_record(ctx: TrackingCtx, uid: String, now: i64) -> Option<TimeRecord> {
    if interval_ok(ctx, now) {
        Some(record_of(ctx, uid, now))
    } else {
        None
    }
}

/// Work time of the session once the interval that ends at `now` is added to it.
pub open spec fn worked(ctx: TrackingCtx, now: i64) -> i64 {
    if interval_ok(ctx, now) {
        add_elapsed(ctx.elapsed, now - ctx.timestamp)
    } else {
        ctx.elapsed
    }
}

/// The session begun on `task` at `now`.
pub open spec fn started(ctx: TrackingCtx, task: Task, now: i64) -> TrackingCtx {
    TrackingCtx {
        state: TrackingState::Active(task.uid),
        timestamp: now,
        timer_id: Some(ctx.next_timer),
        elapsed: 0,
        work_duration: task.work_duration,
        break_duration: task.break_duration,
        next_timer: following_timer(ctx.next_timer),
    }
}

pub open spec fn start_step(ctx: TrackingCtx, task: Task, record: Option<TimeRecord>) -> Step {
    Step {
        record,
        timer: TimerAction::Arm { id: ctx.next_timer, duration: task.work_duration },
        notify: false,
        promote: needs_promotion(task.task_status),
    }
}

/// What the controller in state `ctx` does with `cmd` at time `now`: the next state and
/// the result. A refused event leaves the state as it was.
pub open spec fn next(ctx: TrackingCtx, cmd: Command, now: i64) -> (TrackingCtx, Result<
    Step,
    SessionError,
>) {
    let refused = (ctx, Err(SessionError::InvalidTransition));
    match cmd {
        Command::Start(task) => match ctx.state {
            TrackingState::Inactive => (started(ctx, task, now), Ok(start_step(ctx, task, None))),
            _ => refused,
        },
        Command::Pause => match ctx.state {
            TrackingState::Active(uid) => (
                TrackingCtx {
                    state: TrackingState::Paused(uid),
                    timestamp: now,
                    timer_id: None,
                    elapsed: worked(ctx, now),
                    ..ctx
                },
                Ok(
                    Step {
                        record: finished_record(ctx, uid, now),
                        timer: TimerAction::Cancel,
                        notify: false,
                        promote: false,
                    },
                ),
            ),
            _ => refused,
        },
        Command::Resume => match ctx.state {
            TrackingState::Paused(uid) => (
                TrackingCtx {
                    state: TrackingState::Active(uid),
                    timestamp: now,
                    timer_id: Some(ctx.next_timer),
                    next_timer: following_timer(ctx.next_timer),
                    ..ctx
                },
                Ok(
                    Step {
                        record: None,
                        timer: TimerAction::Arm {
                            id: ctx.next_timer,
                            duration: remaining_work(ctx.work_duration, ctx.elapsed),
                        },
                        notify: false,
                        promote: false,
                    },
                ),
            ),
            _ => refused,
        },
        Command::Stop => {
            let stopped = TrackingCtx {
                state: TrackingState::Inactive,
                timestamp: now,
                timer_id: None,
                elapsed: 0,
                ..ctx
            };
            match ctx.state {
                TrackingState::Inactive => refused,
                TrackingState::Active(uid) => (
                    stopped,
                    Ok(
                        Step {
                            record: finished_record(ctx, uid, now),
                            timer: TimerAction::Cancel,
                            notify: false,
                            promote: false,
                        },
                    ),
                ),
                TrackingState::Paused(_) => (
                    stopped,
                    Ok(
                        Step {
                            record: None,
                            timer: TimerAction::Cancel,
                            notify: false,
                            promote: false,
                        },
                    ),
                ),
                TrackingState::Break(_) => (
                    stopped,
                    Ok(
                        Step {
                            record: None,
                            timer: TimerAction::Cancel,
                            notify: true,
                            promote: false,
                        },
                    ),
                ),
            }
        },
        Command::Switch(task) => match ctx.state {
            TrackingState::Active(uid) => (
                started(ctx, task, now),
                Ok(start_step(ctx, task, finished_record(ctx, uid, now))),
            ),
            _ => refused,
        },
        Command::TimerFired(id) => if ctx.timer_id != Some(id) {
            (ctx, Ok(no_effects()))
        } else {
            match ctx.state {
                TrackingState::Active(uid) => (
                    TrackingCtx {
                        state: TrackingState::Break(uid),
                        timestamp: now,
                        timer_id: Some(ctx.next_timer),
                        elapsed: worked(ctx, now),
                        next_timer: following_timer(ctx.next_timer),
                        ..ctx
                    },
                    Ok(
                        Step {
                            record: finished_record(ctx, uid, now),
                            timer: TimerAction::Arm {
                                id: ctx.next_timer,
                                duration: ctx.break_duration,
                            },
                            notify: true,
                            promote: false,
                        },
                    ),
                ),
                TrackingState::Break(_) => (
                    TrackingCtx {
                        state: TrackingState::Inactive,
                        timestamp: now,
                        timer_id: None,
                        elapsed: 0,
                        ..ctx
                    },
                    Ok(
                        Step {
                            record: None,
                            timer: TimerAction::Keep,
                            notify: true,
                            promote: false,
                        },
                    ),
                ),
                _ => (ctx, Ok(no_effects())),
            }
        },
    }
}

fn bump_timer(id: u64) -> (r: u64)
    ensures
        r == following_timer(id),
{
    if id == u64::MAX {
        0
    } else {
        id + 1
    }
}

fn saturating_elapsed(elapsed: i64, d: i64) -> (r: i64)
    requires
        elapsed >= 0,
        d >= 0,
    ensures
        r == add_elapsed(elapsed, d as int),
{
    if elapsed > i64::MAX - d {
        i64::MAX
    } else {
        elapsed + d
    }
}

impl TrackingCtx {
    /// Durations are not negative, and a timer is armed exactly while a work interval or
    /// a break runs.
    pub open spec fn wf(&self) -> bool {
        &&& self.elapsed >= 0
        &&& self.work_duration >= 0
        &&& self.break_duration >= 0
        &&& (self.timer_id is Some <==> (self.state is Active || self.state is Break))
    }

    /// An inactive controller.
    pub fn new() -> (r: TrackingCtx)
        ensures
            r.wf(),
            r.state == TrackingState::Inactive,
            r.timer_id.is_none(),
            r.elapsed == 0,
    {
        TrackingCtx {
            state: TrackingState::Inactive,
            timestamp: 0,
            timer_id: None,
            elapsed: 0,
            work_duration: 0,
            break_duration: 0,
            next_timer: 0,
        }
    }

    /// The work interval that ends at `now`, if proper, and the work time with it added.
    fn close_interval(&self, uid: &String, now: i64) -> (r: (Option<TimeRecord>, i64))
        requires
            self.wf(),
        ensures
            r.0 == finished_record(*self, *uid, now),
            r.1 == worked(*self, now),
            r.1 >= 0,
    {
        if 0 < self.timestamp && self.timestamp < now {
            (
                Some(TimeRecord { from: self.timestamp, to: now, uid: uid.clone() }),
                saturating_elapsed(self.elapsed, now - self.timestamp),
            )
        } else {
            (None, self.elapsed)
        }
    }

    fn begin(&mut self, task: Task, now: i64) -> (r: Step)
        requires
            task.wf(),
        ensures
            *final(self) == started(*old(self), task, now),
            r == start_step(*old(self), task, None),
    {
        let id = self.next_timer;
        let promote = task.task_status == TaskStatus::NeedsAction || task.task_status
            == TaskStatus::Completed;
        let work = task.work_duration;
        self.state = TrackingState::Active(task.uid);
        self.timestamp = now;
        self.timer_id = Some(id);
        self.elapsed = 0;
        self.work_duration = work;
        self.break_duration = task.break_duration;
        self.next_timer = bump_timer(id);
        Step {
            record: None,
            timer: TimerAction::Arm { id, duration: work },
            notify: false,
            promote,
        }
    }

    /// Starts work on `task`: accepted only while inactive.
    pub fn start_tracking(&mut self, task: Task, now: i64) -> (r: Result<Step, SessionError>)
        requires
            old(self).wf(),
            task.wf(),
        ensures
            final(self).wf(),
            (*final(self), r) == next(*old(self), Command::Start(task), now),
    {
        match self.state {
            TrackingState::Inactive => {},
            _ => {
                return Err(SessionError::InvalidTransition);
            },
        }
        Ok(self.begin(task, now))
    }

    /// Pauses the running work interval and records it when it is a proper interval.
    pub fn pause_tracking(&mut self, now: i64) -> (r: Result<Step, SessionError>)
        requires
            old(self).wf(),
        ensures
            final(self).wf(),
            (*final(self), r) == next(*old(self), Command::Pause, now),
    {
        let uid = match &self.state {
            TrackingState::Active(uid) => uid.clone(),
            _ => {
                return Err(SessionError::InvalidTransition);
            },
        };
        let (record, elapsed) = self.close_interval(&uid, now);
        self.elapsed = elapsed;
        self.state = TrackingState::Paused(uid);
        self.timestamp = now;
        self.timer_id = None;
        Ok(Step { record, timer: TimerAction::Cancel, notify: false, promote: false })
    }

    /// Resumes a paused session, with a timer for the work time that is left.
    pub fn resume_tracking(&mut self, now: i64) -> (r: Result<Step, SessionError>)
        requires
            old(self).wf(),
        ensures
            final(self).wf(),
            (*final(self), r) == next(*old(self), Command::Resume, now),
    {
        let uid = match &self.state {
            TrackingState::Paused(uid) => uid.clone(),
            _ => {
                return Err(SessionError::InvalidTransition);
            },
        };
        let id = self.next_timer;
        let left = if self.work_duration > self.elapsed {
            self.work_duration - self.elapsed
        } else {
            0
        };
        self.state = TrackingState::Active(uid);
        self.timestamp = now;
        self.timer_id = Some(id);
        self.next_timer = bump_timer(id);
        Ok(
            Step {
                record: None,
                timer: TimerAction::Arm { id, duration: left },
                notify: false,
                promote: false,
            },
        )
    }

    /// Stops the session; a stop is accepted in every engaged state. A running work
    /// interval is recorded when it is a proper interval, a break ends with a notice.
    pub fn stop_tracking(&mut self, now: i64) -> (r: Result<Step, SessionError>)
        requires
            old(self).wf(),
        ensures
            final(self).wf(),
            (*final(self), r) == next(*old(self), Command::Stop, now),
    {
        let (record, notify) = match &self.state {
            TrackingState::Inactive => {
                return Err(SessionError::InvalidTransition);
            },
            TrackingState::Active(uid) => (self.close_interval(uid, now).0, false),
            TrackingState::Paused(_) => (None, false),
            TrackingState::Break(_) => (None, true),
        };
        self.state = TrackingState::Inactive;
        self.timestamp = now;
        self.timer_id = None;
        self.elapsed = 0;
        Ok(Step { record, timer: TimerAction::Cancel, notify, promote: false })
    }

    /// Switches work to `task`: stop then start; the running interval is recorded when proper.
    pub fn switch_tracking(&mut self, task: Task, now: i64) -> (r: Result<Step, SessionError>)
        requires
            old(self).wf(),
            task.wf(),
        ensures
            final(self).wf(),
            (*final(self), r) == next(*old(self), Command::Switch(task), now),
    {
        let uid = match &self.state {
            TrackingState::Active(uid) => uid.clone(),
            _ => {
                return Err(SessionError::InvalidTransition);
            },
        };
        let (record, _) = self.close_interval(&uid, now);
        let step = self.begin(task, now);
        Ok(Step { record, ..step })
    }

    /// A timer fired. Only the armed timer counts: a work interval ends in a break, a
    /// break ends the session.
    pub fn timer_fired(&mut self, id: u64, now: i64) -> (r: Result<Step, SessionError>)
        requires
            old(self).wf(),
        ensures
            final(self).wf(),
            (*final(self), r) == next(*old(self), Command::TimerFired(id), now),
    {
        let armed = match self.timer_id {
            Some(t) => t == id,
            None => false,
        };
        let quiet = Step { record: None, timer: TimerAction::Keep, notify: false, promote: false };
        if !armed {
            return Ok(quiet);
        }
        match &self.state {
            TrackingState::Active(uid) => {
                let uid = uid.clone();
                let (record, elapsed) = self.close_interval(&uid, now);
                let next_id = self.next_timer;
                self.elapsed = elapsed;
                self.state = TrackingState::Break(uid);
                self.timestamp = now;
                self.timer_id = Some(next_id);
                self.next_timer = bump_timer(next_id);
                Ok(
                    Step {
                        record,
                        timer: TimerAction::Arm { id: next_id, duration: self.break_duration },
                        notify: true,
                        promote: false,
                    },
                )
            },
            TrackingState::Break(_) => {
                self.state = TrackingState::Inactive;
                self.timestamp = now;
                self.timer_id = None;
                self.elapsed = 0;
                Ok(Step { record: None, timer: TimerAction::Keep, notify: true, promote: false })
            },
            _ => Ok(quiet),
        }
    }

    /// Handles one event: the transition that `next` describes.
    pub fn handle(&mut self, cmd: Command, now: i64) -> (r: Result<Step, SessionError>)
        requires
            old(self).wf(),
            cmd matches Command::Start(t) ==> t.wf(),
            cmd matches Command::Switch(t) ==> t.wf(),
        ensures
            final(self).wf(),
            (*final(self), r) == next(*old(self), cmd, now),
    {
        match cmd {
            Command::Start(task) => self.start_tracking(task, now),
            Command::Pause => self.pause_tracking(now),
            Command::Resume => self.resume_tracking(now),
            Command::Stop => self.stop_tracking(now),
            Command::Switch(task) => self.switch_tracking(task, now),
            Command::TimerFired(id) => self.timer_fired(id, now),
        }
    }
}

/// State legality: Inactive accepts only a start; Active a pause, a stop, a switch or a
/// timer; Paused a resume or a stop; Break a timer or a stop. Any other command is refused
/// as an invalid transition. A timer event is never refused: where no timer is armed it is
/// stale, and ignored.
pub proof fn law_state_legality(ctx: TrackingCtx, cmd: Command, now: i64)
    requires
        ctx.wf(),
    ensures
        !(cmd is TimerFired) ==> (next(ctx, cmd, now).1 == Err::<Step, SessionError>(
            SessionError::InvalidTransition) <==> !accepts(ctx.state, cmd)),
        cmd is TimerFired ==> next(ctx, cmd, now).1 != Err::<Step, SessionError>(
            SessionError::InvalidTransition),
        cmd is TimerFired && !accepts(ctx.state, cmd) ==> next(ctx, cmd, now) == (
            ctx,
            Ok::<Step, SessionError>(no_effects()),
        ),
{
}

/// An explicit stop always succeeds from an engaged state: the session becomes inactive,
/// no timer stays armed and the carried work time is cleared.
pub proof fn law_stop_always_ends(ctx: TrackingCtx, now: i64)
    requires
        !(ctx.state is Inactive),
    ensures
        next(ctx, Command::Stop, now).1 is Ok,
        next(ctx, Command::Stop, now).0.state is Inactive,
        next(ctx, Command::Stop, now).0.timer_id is None,
        next(ctx, Command::Stop, now).0.elapsed == 0,
{
}

/// Every reachable state engages at most one task, and the controller stays well formed.
pub proof fn law_single_engagement(ctx: TrackingCtx, cmd: Command, now: i64)
    requires
        ctx.wf(),
        cmd matches Command::Start(t) ==> t.wf(),
        cmd matches Command::Switch(t) ==> t.wf(),
    ensures
        next(ctx, cmd, now).0.wf(),
        next(ctx, cmd, now).0.state matches TrackingState::Active(_) ==> next(ctx, cmd, now).0.timer_id
            is Some,
{
}

/// Timer identity: a fire event whose id is not the armed timer changes nothing.
pub proof fn law_stale_timer(ctx: TrackingCtx, id: u64, now: i64)
    requires
        ctx.timer_id != Some(id),
    ensures
        next(ctx, Command::TimerFired(id), now) == (ctx, Ok::<Step, SessionError>(no_effects())),
{
}

} // verus!
