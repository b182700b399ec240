use vstd::prelude::*;
use crate::clock::local_midnight_after;
use crate::errors::Error;
use crate::process_tree::{ProcessInfo, views};
use crate::subtasks::{Action, ActionView, SubTask, SubTaskView, action_views, run_tasks, task_views};
use crate::tracker::{GamingTracker, TrackerView, refreshed, tracker_wf};

verus! {

/// What a scheduler holds: the seconds between ticks, the tracker and the
/// subtasks in the order they were added.
pub struct SchedulerView {
    pub frequency: u64,
    pub tracker: TrackerView,
    pub sub_tasks: Seq<SubTaskView>,
}

/// Runs, on each tick, a refresh of the tracker and then each subtask in
/// order. The caller sleeps between ticks and performs the actions.
pub struct GameTrackerScheduler {
    frequency: u64,
    tracker: GamingTracker,
    sub_tasks: Vec<SubTask>,
}

impl View for GameTrackerScheduler {
    type V = SchedulerView;

    closed spec fn view(&self) -> SchedulerView {
        SchedulerView {
            frequency: self.frequency,
            tracker: self.tracker@,
            sub_tasks: task_views(self.sub_tasks@),
        }
    }
}

/// One tick of a scheduler from `before` to `after`, on a snapshot of
/// `processes`, with the wall clock at `now`, the local midnight after it
/// and the monotonic clock at `mono`: the actions asked for and the
/// outcome. A failed refresh asks for nothing and leaves the subtasks; else
/// the subtasks run in order against the refreshed tracker (see
/// `run_tasks`).
pub open spec fn ticked(
    before: SchedulerView,
    after: SchedulerView,
    processes: Seq<crate::process_tree::ProcessInfoView>,
    now: i64,
    midnight: Option<i64>,
    mono: u64,
    actions: Seq<ActionView>,
    r: Result<(), Error>,
) -> bool {
    exists|refresh: Result<(), Error>|
        {
            &&& #[trigger] refreshed(before.tracker, after.tracker, processes, now, midnight, refresh)
            &&& after.frequency == before.frequency
            &&& match refresh {
                Err(e) => r == Err::<(), Error>(e) && actions.len() == 0 && after.sub_tasks
                    == before.sub_tasks,
                Ok(_) => {
                    let run = run_tasks(before.sub_tasks, after.tracker, now, mono);
                    &&& after.sub_tasks == run.0
                    &&& actions == run.1
                    &&& r == run.2
                },
            }
        }
}

impl GameTrackerScheduler {
    pub open spec fn wf(&self) -> bool {
        tracker_wf(self@.tracker)
    }

    /// A scheduler that ticks every `frequency` seconds over `tracker`, with
    /// no subtask yet.
    pub fn using(frequency: u64, tracker: GamingTracker) -> (r: GameTrackerScheduler)
        requires
            tracker.wf(),
        ensures
            r.wf(),
            r@ == (SchedulerView { frequency, tracker: tracker@, sub_tasks: Seq::empty() }),
    {
        let r = GameTrackerScheduler { frequency, tracker, sub_tasks: Vec::new() };
        assert(r@.sub_tasks =~= Seq::<SubTaskView>::empty());
        r
    }

    pub fn frequency(&self) -> (r: u64)
        ensures
            r == self@.frequency,
    {
        self.frequency
    }

    pub fn tracker(&self) -> (r: &GamingTracker)
        ensures
            r@ == self@.tracker,
    {
        &self.tracker
    }

    pub fn sub_tasks(&self) -> (r: &Vec<SubTask>)
        ensures
            task_views(r@) == self@.sub_tasks,
    {
        &self.sub_tasks
    }

    /// The tracker, to change in place.
    pub fn modify_tracker(&mut self) -> (r: &mut GamingTracker)
        ensures
            r@ == old(self)@.tracker,
            final(self)@ == (SchedulerView { tracker: final(r)@, ..old(self)@ }),
    {
        &mut self.tracker
    }

    /// Adds a subtask after those already added.
    pub fn add(&mut self, f: SubTask)
        ensures
            final(self)@ == (SchedulerView { sub_tasks: old(self)@.sub_tasks.push(f@), ..old(self)@ }),
            old(self).wf() ==> final(self).wf(),
    {
        self.sub_tasks.push(f);
        assert(task_views(self.sub_tasks@) =~= old(self)@.sub_tasks.push(f@));
    }

    /// One tick (see `ticked`), given the local midnight after `now`.
    pub fn tick_at(
        &mut self,
        processes: Vec<ProcessInfo>,
        now: i64,
        midnight: Option<i64>,
        mono: u64,
    ) -> (r: (Vec<Action>, Result<(), Error>))
        requires
            old(self).wf(),
        ensures
            final(self).wf(),
            ticked(old(self)@, final(self)@, views(processes@), now, midnight, mono, action_views(r.0@), r.1),
    {
        let ghost pv = views(processes@);
        let mut actions: Vec<Action> = Vec::new();
        let refresh = self.tracker.refresh_at(processes, now, midnight);
        if refresh.is_err() {
            let e = match refresh {
                Err(e) => e,
                Ok(_) => Error::CalculateEndOfDayError,
            };
            assert(refreshed(old(self)@.tracker, self@.tracker, pv, now, midnight, refresh));
            return (actions, Err(e));
        }
        let ghost tv = self@.tracker;
        let ghost ts0 = task_views(self.sub_tasks@);
        assert(ts0 == old(self)@.sub_tasks);
        let mut k: usize = 0;
        let mut failure: Result<(), Error> = Ok(());
        assert(ts0.skip(0) =~= ts0);
        assert(task_views(self.sub_tasks@).take(0) + ts0 =~= ts0);
        assert(action_views(actions@) + run_tasks(ts0, tv, now, mono).1 =~= run_tasks(ts0, tv, now, mono).1);
        loop
            invariant_except_break
                task_views(self.sub_tasks@).skip(k as int) == ts0.skip(k as int),
                run_tasks(ts0, tv, now, mono).0 == task_views(self.sub_tasks@).take(k as int) + run_tasks(
                    ts0.skip(k as int),
                    tv,
                    now,
                    mono,
                ).0,
                run_tasks(ts0, tv, now, mono).1 == action_views(actions@) + run_tasks(
                    ts0.skip(k as int),
                    tv,
                    now,
                    mono,
                ).1,
                run_tasks(ts0, tv, now, mono).2 == run_tasks(ts0.skip(k as int), tv, now, mono).2,
                failure == Ok::<(), Error>(()),
            invariant
                self.wf(),
                self@.tracker == tv,
                refresh is Ok,
                ts0 == old(self)@.sub_tasks,
                refreshed(old(self)@.tracker, tv, pv, now, midnight, refresh),
                self@.frequency == old(self)@.frequency,
                k <= self.sub_tasks@.len(),
                self.sub_tasks@.len() == ts0.len(),
            ensures
                run_tasks(ts0, tv, now, mono) == (task_views(self.sub_tasks@), action_views(actions@), failure),
                self.wf(),
                self@.tracker == tv,
                self@.frequency == old(self)@.frequency,
            decreases ts0.len() - k,
        {
            if k >= self.sub_tasks.len() {
                proof {
                    let now_tasks = task_views(self.sub_tasks@);
                    assert(ts0.skip(k as int) =~= Seq::<SubTaskView>::empty());
                    assert(now_tasks.take(k as int) =~= now_tasks);
                    assert(action_views(actions@) + Seq::<ActionView>::empty() =~= action_views(actions@));
                }
                break;
            }
            let ghost before_tasks = task_views(self.sub_tasks@);
            let ghost before_actions = action_views(actions@);
            let ghost rest = ts0.skip(k as int);
            let mut task = self.sub_tasks.remove(k);
            let outcome = task.execute(&self.tracker, now, mono, &mut actions);
            self.sub_tasks.insert(k, task);
            proof {
                assert(rest[0] == before_tasks[k as int]);
                assert(rest.drop_first() =~= ts0.skip(k + 1));
                let now_tasks = task_views(self.sub_tasks@);
                assert(now_tasks =~= before_tasks.update(k as int, task@));
                assert(now_tasks.take(k + 1) =~= before_tasks.take(k as int).push(task@));
                assert(now_tasks.skip(k + 1) =~= before_tasks.skip(k + 1));
                assert(before_tasks.skip(k + 1) =~= ts0.skip(k + 1));
            }
            if outcome.is_err() {
                proof {
                    let now_tasks = task_views(self.sub_tasks@);
                    assert(now_tasks.take(k as int) + run_tasks(rest, tv, now, mono).0 =~= now_tasks);
                    assert(run_tasks(ts0, tv, now, mono).0 == now_tasks);
                    assert(run_tasks(ts0, tv, now, mono).1 == action_views(actions@));
                    assert(run_tasks(ts0, tv, now, mono).2 == outcome);
                }
                failure = outcome;
                break;
            }
            proof {
                let now_tasks = task_views(self.sub_tasks@);
                assert(now_tasks.take(k as int) + run_tasks(rest, tv, now, mono).0 =~= now_tasks.take(k + 1)
                    + run_tasks(ts0.skip(k + 1), tv, now, mono).0);
                assert(action_views(actions@) + run_tasks(ts0.skip(k + 1), tv, now, mono).1 =~= before_actions
                    + run_tasks(rest, tv, now, mono).1);
            }
            k = k + 1;
        }
        assert(refreshed(old(self)@.tracker, self@.tracker, pv, now, midnight, refresh));
        (actions, failure)
    }

    /// One tick with the local midnight after `now` computed through
    /// chrono (see `tick_at`); whatever it gives, the tick is one of
    /// `ticked` for some midnight.
    pub fn tick(&mut self, processes: Vec<ProcessInfo>, now: i64, mono: u64) -> (r: (Vec<Action>, Result<(), Error>))
        requires
            old(self).wf(),
        ensures
            final(self).wf(),
            exists|midnight: Option<i64>|
                ticked(old(self)@, final(self)@, views(processes@), now, midnight, mono, action_views(r.0@), r.1),
    {
        let midnight = local_midnight_after(now);
        self.tick_at(processes, now, midnight, mono)
    }
}

} // verus!
