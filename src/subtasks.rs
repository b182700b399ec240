use vstd::prelude::*;
use crate::errors::{Error, TimeTampering};
use crate::process_tree::{ProcessInfo, ProcessInfoView, views};
use crate::text::{decimal, push_text, u64_text};
use crate::time::{duration_text, format_duration};
use crate::tracker::{EntryView, GamingTracker, entries, saturate, total_of};

verus! {

/// What an action asks of the caller.
pub enum ActionView {
    Print(Seq<char>),
    Notify(Seq<char>),
    Kill(u32),
    Save(ProcessInfoView, Seq<char>),
}

/// Work that the library decides on and the caller performs, in order: a
/// line to print, a desktop notification to show, a process to terminate,
/// or a process record to store under a game's name.
#[derive(Debug, Clone)]
pub enum Action {
    Print(String),
    Notify(String),
    Kill(u32),
    Save(ProcessInfo, String),
}

impl View for Action {
    type V = ActionView;

    open spec fn view(&self) -> ActionView {
        match self {
            Action::Print(s) => ActionView::Print(s@),
            Action::Notify(s) => ActionView::Notify(s@),
            Action::Kill(pid) => ActionView::Kill(*pid),
            Action::Save(p, g) => ActionView::Save(p@, g@),
        }
    }
}

pub open spec fn action_views(v: Seq<Action>) -> Seq<ActionView> {
    v.map_values(|a: Action| a@)
}

/// A kill for each record, in order.
pub open spec fn kills_of(ps: Seq<ProcessInfoView>) -> Seq<ActionView> {
    ps.map_values(|p: ProcessInfoView| ActionView::Kill(p.pid))
}

/// A kill for every tracked process, game after game.
pub open spec fn kill_all(gs: Seq<EntryView>) -> Seq<ActionView>
    decreases gs.len(),
{
    if gs.len() == 0 {
        Seq::empty()
    } else {
        kill_all(gs.drop_last()) + kills_of(gs.last().1)
    }
}

/// A save of each record under `game`, in order.
pub open spec fn saves_of(game: Seq<char>, ps: Seq<ProcessInfoView>) -> Seq<ActionView> {
    ps.map_values(|p: ProcessInfoView| ActionView::Save(p, game))
}

/// A save for every tracked process, game after game.
pub open spec fn save_all(gs: Seq<EntryView>) -> Seq<ActionView>
    decreases gs.len(),
{
    if gs.len() == 0 {
        Seq::empty()
    } else {
        save_all(gs.drop_last()) + saves_of(gs.last().0, gs.last().1)
    }
}

/// The report line of one process of `game`.
pub open spec fn process_line(game: Seq<char>, p: ProcessInfoView) -> Seq<char> {
    decimal(p.pid as nat) + " '"@ + game + "' has been running for: "@ + duration_text(p.run_time)
        + "\n"@
}

pub open spec fn entry_lines(game: Seq<char>, ps: Seq<ProcessInfoView>) -> Seq<char>
    decreases ps.len(),
{
    if ps.len() == 0 {
        Seq::empty()
    } else {
        entry_lines(game, ps.drop_last()) + process_line(game, ps.last())
    }
}

pub open spec fn report_lines(gs: Seq<EntryView>) -> Seq<char>
    decreases gs.len(),
{
    if gs.len() == 0 {
        Seq::empty()
    } else {
        report_lines(gs.drop_last()) + entry_lines(gs.last().0, gs.last().1)
    }
}

/// The report of every tracked process and how long it has run.
pub open spec fn games_report(gs: Seq<EntryView>) -> Seq<char> {
    if gs.len() == 0 {
        "No games have been found yet!"@
    } else {
        "All games found: \n"@ + report_lines(gs)
    }
}

/// Appends a kill for every tracked process.
fn push_kills(tracker: &GamingTracker, actions: &mut Vec<Action>)
    ensures
        action_views(final(actions)@) == action_views(old(actions)@) + kill_all(tracker@.games),
{
    let games = tracker.gametime_tracker();
    let ghost gs = entries(games@);
    let ghost a0 = action_views(actions@);
    let mut k: usize = 0;
    assert(gs.subrange(0, 0) =~= Seq::<EntryView>::empty());
    assert(a0 + Seq::<ActionView>::empty() =~= a0);
    while k < games.len()
        invariant
            k <= games@.len(),
            gs == entries(games@),
            action_views(actions@) == a0 + kill_all(gs.subrange(0, k as int)),
        decreases games@.len() - k,
    {
        let ps = games[k].processes();
        let ghost pv = views(ps@);
        let ghost base = action_views(actions@);
        let mut j: usize = 0;
        assert(base + kills_of(pv.subrange(0, 0)) =~= base);
        while j < ps.len()
            invariant
                j <= ps@.len(),
                pv == views(ps@),
                action_views(actions@) == base + kills_of(pv.subrange(0, j as int)),
            decreases ps@.len() - j,
        {
            let ghost before = action_views(actions@);
            actions.push(Action::Kill(ps[j].pid()));
            proof {
                assert(pv[j as int] == ps@[j as int]@);
                assert(action_views(actions@) =~= before.push(ActionView::Kill(pv[j as int].pid)));
                assert(kills_of(pv.subrange(0, j + 1)) =~= kills_of(pv.subrange(0, j as int)).push(ActionView::Kill(pv[j as int].pid)));
                assert(action_views(actions@) =~= base + kills_of(pv.subrange(0, j + 1)));
            }
            j = j + 1;
        }
        proof {
            assert(pv.subrange(0, j as int) =~= pv);
            assert(gs.subrange(0, k + 1).drop_last() =~= gs.subrange(0, k as int));
            assert(gs[k as int].1 == pv);
            assert(action_views(actions@) =~= a0 + kill_all(gs.subrange(0, k + 1)));
        }
        k = k + 1;
    }
    assert(gs.subrange(0, k as int) =~= gs);
}

/// Appends a save for every tracked process.
fn push_saves(tracker: &GamingTracker, actions: &mut Vec<Action>)
    ensures
        action_views(final(actions)@) == action_views(old(actions)@) + save_all(tracker@.games),
{
    let games = tracker.gametime_tracker();
    let ghost gs = entries(games@);
    let ghost a0 = action_views(actions@);
    let mut k: usize = 0;
    assert(gs.subrange(0, 0) =~= Seq::<EntryView>::empty());
    assert(a0 + Seq::<ActionView>::empty() =~= a0);
    while k < games.len()
        invariant
            k <= games@.len(),
            gs == entries(games@),
            action_views(actions@) == a0 + save_all(gs.subrange(0, k as int)),
        decreases games@.len() - k,
    {
        let game = games[k].game();
        let ps = games[k].processes();
        let ghost pv = views(ps@);
        let ghost base = action_views(actions@);
        let mut j: usize = 0;
        assert(base + saves_of(game@, pv.subrange(0, 0)) =~= base);
        while j < ps.len()
            invariant
                j <= ps@.len(),
                pv == views(ps@),
                action_views(actions@) == base + saves_of(game@, pv.subrange(0, j as int)),
            decreases ps@.len() - j,
        {
            let ghost before = action_views(actions@);
            actions.push(Action::Save(ps[j].duplicate(), game.clone()));
            proof {
                assert(pv[j as int] == ps@[j as int]@);
                assert(action_views(actions@) =~= before.push(ActionView::Save(pv[j as int], game@)));
                assert(saves_of(game@, pv.subrange(0, j + 1)) =~= saves_of(game@, pv.subrange(0, j as int)).push(ActionView::Save(pv[j as int], game@)));
                assert(action_views(actions@) =~= base + saves_of(game@, pv.subrange(0, j + 1)));
            }
            j = j + 1;
        }
        proof {
            assert(pv.subrange(0, j as int) =~= pv);
            assert(gs.subrange(0, k + 1).drop_last() =~= gs.subrange(0, k as int));
            assert(gs[k as int] == (game@, pv));
            assert(action_views(actions@) =~= a0 + save_all(gs.subrange(0, k + 1)));
        }
        k = k + 1;
    }
    assert(gs.subrange(0, k as int) =~= gs);
}

/// Reports every tracked game and how long its processes have run.
pub struct GamesLogger;

impl GamesLogger {
    pub fn new() -> (r: GamesLogger) {
        GamesLogger
    }

    /// Appends one print of the report (see `games_report`); never fails.
    pub fn execute(&mut self, tracker: &GamingTracker, actions: &mut Vec<Action>) -> (r: Result<(), Error>)
        ensures
            r == Ok::<(), Error>(()),
            action_views(final(actions)@) == action_views(old(actions)@).push(
                ActionView::Print(games_report(tracker@.games)),
            ),
    {
        let games = tracker.gametime_tracker();
        let ghost gs = entries(games@);
        if games.len() == 0 {
            actions.push(Action::Print(String::from_str("No games have been found yet!")));
            assert(action_views(actions@) =~= action_views(old(actions)@).push(
                ActionView::Print(games_report(tracker@.games)),
            ));
            return Ok(());
        }
        let mut output = String::from_str("All games found: \n");
        let mut k: usize = 0;
        assert(gs.subrange(0, 0) =~= Seq::<EntryView>::empty());
        assert(output@ + Seq::<char>::empty() =~= output@);
        let ghost head = output@;
        while k < games.len()
            invariant
                k <= games@.len(),
                gs == entries(games@),
                output@ == head + report_lines(gs.subrange(0, k as int)),
            decreases games@.len() - k,
        {
            let game = games[k].game();
            let ps = games[k].processes();
            let ghost pv = views(ps@);
            let ghost base = output@;
            let mut j: usize = 0;
            assert(base + entry_lines(game@, pv.subrange(0, 0)) =~= base);
            while j < ps.len()
                invariant
                    j <= ps@.len(),
                    pv == views(ps@),
                    output@ == base + entry_lines(game@, pv.subrange(0, j as int)),
                decreases ps@.len() - j,
            {
                let ghost before = output@;
                push_text(&mut output, u64_text(ps[j].pid() as u64).as_str());
                push_text(&mut output, " '");
                push_text(&mut output, game.as_str());
                push_text(&mut output, "' has been running for: ");
                push_text(&mut output, format_duration(ps[j].run_time()).as_str());
                push_text(&mut output, "\n");
                proof {
                    assert(pv.subrange(0, j + 1).drop_last() =~= pv.subrange(0, j as int));
                    assert(output@ =~= before + process_line(game@, pv[j as int]));
                    assert(output@ =~= base + entry_lines(game@, pv.subrange(0, j + 1)));
                }
                j = j + 1;
            }
            proof {
                assert(pv.subrange(0, j as int) =~= pv);
                assert(gs.subrange(0, k + 1).drop_last() =~= gs.subrange(0, k as int));
                assert(gs[k as int] == (game@, pv));
                assert(output@ =~= head + report_lines(gs.subrange(0, k + 1)));
            }
            k = k + 1;
        }
        assert(gs.subrange(0, k as int) =~= gs);
        actions.push(Action::Print(output));
        assert(action_views(actions@) =~= action_views(old(actions)@).push(
            ActionView::Print(games_report(tracker@.games)),
        ));
        Ok(())
    }
}

/// What the session-end killer does: where the session is present and has
/// ended, one notification and then a kill for every tracked process.
pub open spec fn killer_actions(session: Option<crate::session::SessionView>, gs: Seq<EntryView>) -> Seq<ActionView> {
    match session {
        Some(sv) if sv.ended => seq![ActionView::Notify("Play time's over buddy! Go touch grass :-)"@)] + kill_all(gs),
        _ => Seq::empty(),
    }
}

/// Terminates the tracked games once the session has ended.
pub struct SessionEndGameKiller;

impl SessionEndGameKiller {
    pub fn new() -> (r: SessionEndGameKiller) {
        SessionEndGameKiller
    }

    pub fn execute(&mut self, tracker: &GamingTracker, actions: &mut Vec<Action>) -> (r: Result<(), Error>)
        ensures
            r == Ok::<(), Error>(()),
            action_views(final(actions)@) == action_views(old(actions)@) + killer_actions(
                tracker@.session,
                tracker@.games,
            ),
    {
        match tracker.session() {
            Some(session) => {
                if session.is_session_ended() {
                    actions.push(Action::Notify(String::from_str("Play time's over buddy! Go touch grass :-)")));
                    let ghost mid = action_views(actions@);
                    push_kills(tracker, actions);
                    assert(action_views(actions@) =~= action_views(old(actions)@) + killer_actions(
                        tracker@.session,
                        tracker@.games,
                    ));
                    return Ok(());
                }
            },
            None => {},
        }
        assert(action_views(actions@) =~= action_views(old(actions)@) + killer_actions(
            tracker@.session,
            tracker@.games,
        ));
        Ok(())
    }
}

/// Terminates every tracked game on every tick.
pub struct RampageMode;

impl RampageMode {
    pub fn new() -> (r: RampageMode) {
        RampageMode
    }

    pub fn execute(&mut self, tracker: &GamingTracker, actions: &mut Vec<Action>) -> (r: Result<(), Error>)
        ensures
            r == Ok::<(), Error>(()),
            action_views(final(actions)@) == action_views(old(actions)@) + kill_all(tracker@.games),
    {
        push_kills(tracker, actions);
        Ok(())
    }
}

/// Stores every tracked process, under its game, on every tick.
pub struct SaveStatistics;

impl SaveStatistics {
    pub fn new() -> (r: SaveStatistics) {
        SaveStatistics
    }

    pub fn execute(&mut self, tracker: &GamingTracker, actions: &mut Vec<Action>) -> (r: Result<(), Error>)
        ensures
            r == Ok::<(), Error>(()),
            action_views(final(actions)@) == action_views(old(actions)@) + save_all(tracker@.games),
    {
        push_saves(tracker, actions);
        Ok(())
    }
}

/// What a warner holds: whether it has warned, the threshold as shown to
/// the user, the seconds of play after which it warns, whether a new day of
/// the session re-arms it, and the start of the session day it last warned
/// in.
pub struct WarnView {
    pub was_warned: bool,
    pub threshold: Seq<char>,
    pub duration: u64,
    pub rearm_daily: bool,
    pub warned_day: i64,
}

/// One tick of the warner: with a session present that has not ended, the
/// first time the seconds played reach its duration it prints a line and
/// sends one notification, and remembers that it warned and in which session
/// day; with no session it forgets that it warned. A warner that re-arms
/// daily warns again once the session has started a new day; by default it
/// does not, and warns once for as long as the session is present.
pub open spec fn warn_step(w: WarnView, session: Option<crate::session::SessionView>, played: nat) -> (
    WarnView,
    Seq<ActionView>,
) {
    match session {
        Some(sv) => if (!w.was_warned || (w.rearm_daily && sv.start_time != w.warned_day)) && !sv.ended
            && played >= w.duration {
            (
                WarnView { was_warned: true, warned_day: sv.start_time, ..w },
                seq![
                    ActionView::Print("Warning threshold reached : "@ + w.threshold),
                    ActionView::Notify(
                        w.threshold + "% of session gaming played ("@ + duration_text(w.duration)
                            + ")"@,
                    ),
                ],
            )
        } else {
            (w, Seq::empty())
        },
        None => (WarnView { was_warned: false, ..w }, Seq::empty()),
    }
}

/// Warns once when the time played passes a share of the budget.
pub struct WarnSessionEnding {
    was_warned: bool,
    threshold: String,
    duration: u64,
    rearm_daily: bool,
    warned_day: i64,
}

impl View for WarnSessionEnding {
    type V = WarnView;

    closed spec fn view(&self) -> WarnView {
        WarnView {
            was_warned: self.was_warned,
            threshold: self.threshold@,
            duration: self.duration,
            rearm_daily: self.rearm_daily,
            warned_day: self.warned_day,
        }
    }
}

impl WarnSessionEnding {
    /// A warner that warns once after `duration` seconds of play, showing
    /// `threshold` as the share of the budget.
    pub fn from(threshold: String, duration: u64) -> (r: WarnSessionEnding)
        ensures
            r@ == (WarnView {
                was_warned: false,
                threshold: threshold@,
                duration,
                rearm_daily: false,
                warned_day: 0,
            }),
    {
        WarnSessionEnding { was_warned: false, threshold, duration, rearm_daily: false, warned_day: 0 }
    }

    /// The same warner, re-armed or not by each new session day.
    pub fn rearming_daily(self, rearm_daily: bool) -> (r: WarnSessionEnding)
        ensures
            r@ == (WarnView { rearm_daily, ..self@ }),
    {
        WarnSessionEnding { rearm_daily, ..self }
    }

    /// The seconds of play after which it warns.
    pub fn duration(&self) -> (r: u64)
        ensures
            r == self@.duration,
    {
        self.duration
    }

    pub fn was_warned(&self) -> (r: bool)
        ensures
            r == self@.was_warned,
    {
        self.was_warned
    }

    pub fn execute(&mut self, tracker: &GamingTracker, actions: &mut Vec<Action>) -> (r: Result<(), Error>)
        ensures
            r == Ok::<(), Error>(()),
            final(self)@ == warn_step(old(self)@, tracker@.session, saturate(total_of(tracker@.games)) as nat).0,
            action_views(final(actions)@) == action_views(old(actions)@) + warn_step(
                old(self)@,
                tracker@.session,
                saturate(total_of(tracker@.games)) as nat,
            ).1,
    {
        let ghost a0 = action_views(actions@);
        match tracker.session() {
            Some(session) => {
                let played = tracker.total_time_played();
                let armed = !self.was_warned || (self.rearm_daily && session.start_time()
                    != self.warned_day);
                if armed && !session.is_session_ended() && played >= self.duration {
                    self.was_warned = true;
                    self.warned_day = session.start_time();
                    let mut line = String::from_str("Warning threshold reached : ");
                    push_text(&mut line, self.threshold.as_str());
                    actions.push(Action::Print(line));
                    let mut msg = self.threshold.clone();
                    push_text(&mut msg, "% of session gaming played (");
                    push_text(&mut msg, format_duration(self.duration).as_str());
                    push_text(&mut msg, ")");
                    actions.push(Action::Notify(msg));
                    proof {
                        let w = old(self)@;
                        assert(line@ == "Warning threshold reached : "@ + w.threshold);
                        assert(msg@ == w.threshold + "% of session gaming played ("@ + duration_text(w.duration) + ")"@);
                        assert(action_views(actions@) =~= a0.push(ActionView::Print(line@)).push(ActionView::Notify(msg@)));
                    }
                }
            },
            None => {
                self.was_warned = false;
            },
        }
        proof {
            let step = warn_step(old(self)@, tracker@.session, saturate(total_of(tracker@.games)) as nat);
            assert(action_views(actions@) =~= a0 + step.1);
        }
        Ok(())
    }
}

/// What a clock-tampering detector holds: the wall-clock and monotonic
/// readings (in seconds) taken when it was made, and whether it has fired.
pub struct ClockView {
    pub start_time: i64,
    pub uptime: u64,
    pub detected: bool,
}

/// Whether the wall clock at `now` disagrees with the monotonic clock at
/// `mono`: the wall-clock time since the start went backward, or exceeds the
/// monotonic time since the start.
pub open spec fn clock_tampered(c: ClockView, now: i64, mono: u64) -> bool {
    let wall = now - c.start_time;
    let elapsed = if mono >= c.uptime {
        mono - c.uptime
    } else {
        0
    };
    wall < 0 || wall > elapsed
}

/// One tick of the detector: once it has fired it does nothing; else, when
/// the clocks disagree, it fires with `ClockTamperingError`.
pub open spec fn clock_step(c: ClockView, now: i64, mono: u64) -> (ClockView, Result<(), Error>) {
    if c.detected {
        (c, Ok(()))
    } else if clock_tampered(c, now, mono) {
        (
            ClockView { detected: true, ..c },
            Err(Error::TimeTamperingError(TimeTampering::ClockTamperingError)),
        )
    } else {
        (c, Ok(()))
    }
}

/// Once the detector has reported tampering it never reports it again,
/// whatever the later readings.
pub proof fn lemma_clock_latch(c: ClockView, now: i64, mono: u64, later: Seq<(i64, u64)>)
    requires
        clock_step(c, now, mono).1 is Err,
    ensures
        clock_step(c, now, mono).0.detected,
        forall|k: int|
            0 <= k < later.len() ==> #[trigger] clock_step(clock_step(c, now, mono).0, later[k].0, later[k].1)
                == (clock_step(c, now, mono).0, Ok::<(), Error>(())),
{
}

/// Detects a wall clock set apart from the monotonic clock.
pub struct ClockTampering {
    start_time: i64,
    uptime: u64,
    detected: bool,
}

impl View for ClockTampering {
    type V = ClockView;

    closed spec fn view(&self) -> ClockView {
        ClockView { start_time: self.start_time, uptime: self.uptime, detected: self.detected }
    }
}

impl ClockTampering {
    /// A detector started at wall-clock time `start_time` and monotonic
    /// time `uptime`, both in seconds.
    pub fn new(start_time: i64, uptime: u64) -> (r: ClockTampering)
        ensures
            r@ == (ClockView { start_time, uptime, detected: false }),
    {
        ClockTampering { start_time, uptime, detected: false }
    }

    pub fn detected(&self) -> (r: bool)
        ensures
            r == self@.detected,
    {
        self.detected
    }

    /// One tick with the wall clock at `now` and the monotonic clock at
    /// `mono` (see `clock_step`).
    pub fn execute(&mut self, now: i64, mono: u64) -> (r: Result<(), Error>)
        ensures
            (final(self)@, r) == clock_step(old(self)@, now, mono),
    {
        if self.detected {
            return Ok(());
        }
        let wall: i128 = now as i128 - self.start_time as i128;
        let elapsed: u64 = if mono >= self.uptime {
            mono - self.uptime
        } else {
            0
        };
        if wall < 0 || wall > elapsed as i128 {
            self.detected = true;
            return Err(Error::TimeTamperingError(TimeTampering::ClockTamperingError));
        }
        Ok(())
    }
}

/// Which behaviour a subtask is, with what it holds.
pub enum SubTaskView {
    GamesLogger,
    SessionEndGameKiller,
    WarnSessionEnding(WarnView),
    ClockTampering(ClockView),
    SaveStatistics,
    RampageMode,
}

/// One behaviour run on each tick against the tracker.
pub enum SubTask {
    GamesLogger(GamesLogger),
    SessionEndGameKiller(SessionEndGameKiller),
    WarnSessionEnding(WarnSessionEnding),
    ClockTampering(ClockTampering),
    SaveStatistics(SaveStatistics),
    RampageMode(RampageMode),
}

impl View for SubTask {
    type V = SubTaskView;

    open spec fn view(&self) -> SubTaskView {
        match self {
            SubTask::GamesLogger(_) => SubTaskView::GamesLogger,
            SubTask::SessionEndGameKiller(_) => SubTaskView::SessionEndGameKiller,
            SubTask::WarnSessionEnding(w) => SubTaskView::WarnSessionEnding(w@),
            SubTask::ClockTampering(c) => SubTaskView::ClockTampering(c@),
            SubTask::SaveStatistics(_) => SubTaskView::SaveStatistics,
            SubTask::RampageMode(_) => SubTaskView::RampageMode,
        }
    }
}

pub open spec fn task_views(v: Seq<SubTask>) -> Seq<SubTaskView> {
    v.map_values(|t: SubTask| t@)
}

/// One subtask run once against a tracker, with the wall clock at `now` and
/// the monotonic clock at `mono`: the subtask afterwards, the actions it
/// asks for, and its outcome.
pub open spec fn task_step(t: SubTaskView, tv: crate::tracker::TrackerView, now: i64, mono: u64) -> (
    SubTaskView,
    Seq<ActionView>,
    Result<(), Error>,
) {
    match t {
        SubTaskView::GamesLogger => (t, seq![ActionView::Print(games_report(tv.games))], Ok(())),
        SubTaskView::SessionEndGameKiller => (t, killer_actions(tv.session, tv.games), Ok(())),
        SubTaskView::WarnSessionEnding(w) => {
            let (w2, acts) = warn_step(w, tv.session, saturate(total_of(tv.games)) as nat);
            (SubTaskView::WarnSessionEnding(w2), acts, Ok(()))
        },
        SubTaskView::ClockTampering(c) => {
            let (c2, r) = clock_step(c, now, mono);
            (SubTaskView::ClockTampering(c2), Seq::empty(), r)
        },
        SubTaskView::SaveStatistics => (t, save_all(tv.games), Ok(())),
        SubTaskView::RampageMode => (t, kill_all(tv.games), Ok(())),
    }
}

/// The subtasks run in order against a tracker: the subtasks afterwards, all
/// the actions asked for, and the outcome. The first failure stops the run
/// and comes back; the subtasks after it do not run.
pub open spec fn run_tasks(ts: Seq<SubTaskView>, tv: crate::tracker::TrackerView, now: i64, mono: u64) -> (
    Seq<SubTaskView>,
    Seq<ActionView>,
    Result<(), Error>,
)
    decreases ts.len(),
{
    if ts.len() == 0 {
        (ts, Seq::empty(), Ok(()))
    } else {
        let (t1, a1, r1) = task_step(ts[0], tv, now, mono);
        if r1 is Err {
            (seq![t1] + ts.drop_first(), a1, r1)
        } else {
            let (rest, a2, r2) = run_tasks(ts.drop_first(), tv, now, mono);
            (seq![t1] + rest, a1 + a2, r2)
        }
    }
}

impl SubTask {
    /// Runs the subtask once (see `task_step`), appending its actions.
    pub fn execute(&mut self, tracker: &GamingTracker, now: i64, mono: u64, actions: &mut Vec<Action>) -> (r: Result<(), Error>)
        ensures
            final(self)@ == task_step(old(self)@, tracker@, now, mono).0,
            action_views(final(actions)@) == action_views(old(actions)@) + task_step(
                old(self)@,
                tracker@,
                now,
                mono,
            ).1,
            r == task_step(old(self)@, tracker@, now, mono).2,
    {
        match self {
            SubTask::GamesLogger(t) => t.execute(tracker, actions),
            SubTask::SessionEndGameKiller(t) => t.execute(tracker, actions),
            SubTask::WarnSessionEnding(t) => t.execute(tracker, actions),
            SubTask::ClockTampering(t) => {
                let r = t.execute(now, mono);
                assert(action_views(actions@) =~= action_views(old(actions)@) + Seq::<ActionView>::empty());
                r
            },
            SubTask::SaveStatistics(t) => t.execute(tracker, actions),
            SubTask::RampageMode(t) => t.execute(tracker, actions),
        }
    }
}

} // verus!
