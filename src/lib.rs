//! Tracks the time spent in games and enforces a daily play-time budget.
//!
//! The library holds the logic: the process snapshot tree, the matching of
//! processes against known game names, session accounting with its day
//! rollover, and the per-tick decisions of the monitoring behaviours. Reading
//! the process list, sleeping, notifying, killing and persisting are left to
//! the caller, which performs the actions the library decides on.

mod clock;
mod errors;
mod locator;
mod process_tree;
mod scheduler;
mod security;
mod session;
mod subtasks;
mod text;
mod time;
mod tracker;

pub use clock::{
    MAX_CLOCK_EPOCH, MAX_CLOCK_YEAR, current_time, date_after, days_in_month, epoch_seconds, local_midnight_after,
    next_date, next_day,
};
pub use errors::{Error, TimeTampering};
pub use locator::{
    ExpectedEntityType, GameLocator, LocationEntry, LocatorView, kept_names, kind_matches,
    should_be_ignored,
};
pub use process_tree::{
    INIT_PID, ProcessInfo, ProcessInfoView, ProcessTree, TreeView, find_spec, joined,
    lemma_child_under_parent, lemma_tree_order_independent, pid_identifies, raw_parent,
    on_cycle, record_matches, returns_to, same_identity, subtree_text, tree_parent, tree_wf,
};
pub use scheduler::{GameTrackerScheduler, SchedulerView, ticked};
pub use security::{MAX_GUARDED_SECONDS, average_duration, check_tampering, execution_tampered};
pub use session::{
    DailyGamingSession, SessionView, calculate_end_of_day, end_of_day_from, lemma_budget_boundary,
    lemma_day_rollover, session_step,
};
pub use subtasks::{
    Action, ActionView, ClockTampering, ClockView, GamesLogger, RampageMode, SaveStatistics,
    SessionEndGameKiller, SubTask, SubTaskView, WarnSessionEnding, WarnView, clock_step,
    games_report, lemma_clock_latch, run_tasks, task_step, warn_step,
};
pub use text::decimal;
pub use time::{
    DurationParser, colon_form, duration_spec, parse_result, duration_text, format_duration,
    lemma_parse_concat, lemma_unit_form_commute, lemma_unit_form_concat, seconds_of, sum3, to_seconds, unit_form_from,
};
pub use tracker::{
    EntryView, GameTimeEntry, GamingTracker, TrackerView, find_game, identities_unique,
    has_only, hit_for, holds_only, lemma_identity_replace, lemma_update_single_record, lemma_record_all, lemma_record_game_replace, positions,
    record_all, record_game, refreshed, replace_or_push, total_of, tracker_wf,
    update_spec,
};
