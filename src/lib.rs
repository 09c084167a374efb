//! Work/break session tracking with per-task prefix sums of recorded time.
//!
//! Timestamps are milliseconds since the Unix epoch (UTC) and durations are
//! milliseconds, both held in `i64`.
//!
//! - [`session`]: the session controller, a state machine over work, pause and break.
//! - [`ledger`]: the ledger of finished records and the soft-delete overlay.
//! - [`prefix_sum`]: per-task cumulative sums that answer "time since X" queries.
//! - [`tracker`]: ledger, overlay and prefix sums kept consistent under append, kill
//!   and restore.
//! - [`time`], [`format`]: reporting periods and duration text.
//! - [`task`], [`filter`], [`import`], [`utils`]: tasks, list filters, time-sheet import.
use vstd::prelude::*;

pub mod filter;
pub mod format;
pub mod import;
pub mod ledger;
pub mod prefix_sum;
pub mod session;
pub mod task;
pub mod time;
pub mod tracker;
pub mod utils;
