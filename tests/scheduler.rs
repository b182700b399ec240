use game_tracker::{
    check_tampering, average_duration, execution_tampered, Action, ClockTampering,
    DailyGamingSession, DurationParser, Error, ExpectedEntityType, GameLocator,
    GameTrackerScheduler, GamesLogger, GamingTracker, LocationEntry, ProcessInfo, RampageMode,
    SaveStatistics, SessionEndGameKiller, SubTask, TimeTampering, WarnSessionEnding,
};

fn game_process(run_time: u64) -> ProcessInfo {
    ProcessInfo::new(
        4242,
        Some(1),
        "wine".to_string(),
        vec!["/games/mygame/mygame.exe".to_string()],
        run_time,
        1000,
    )
}

fn tracker() -> GamingTracker {
    let mut g = GameLocator::new(
        "steam".to_string(),
        vec![],
        vec!["/games".to_string()],
        ExpectedEntityType::BOTH,
        vec![],
    );
    g.load_game_names_from_entries(&vec![LocationEntry {
        name: "mygame".to_string(),
        is_file: false,
        is_dir: true,
    }]);
    GamingTracker::new(vec![g])
}

fn kills(actions: &[Action]) -> Vec<u32> {
    actions
        .iter()
        .filter_map(|a| match a {
            Action::Kill(pid) => Some(*pid),
            _ => None,
        })
        .collect()
}

fn notifications(actions: &[Action]) -> Vec<String> {
    actions
        .iter()
        .filter_map(|a| match a {
            Action::Notify(s) => Some(s.clone()),
            _ => None,
        })
        .collect()
}

#[test]
fn end_to_end_warn_then_kill() {
    let budget = DurationParser::parse("10s").unwrap().to_seconds();
    assert_eq!(budget, 10);
    let mut scheduler = GameTrackerScheduler::using(15, tracker());
    scheduler
        .modify_tracker()
        .add_gaming_session(DailyGamingSession::starting_at(0, 86400, budget).unwrap());
    scheduler.add(SubTask::SessionEndGameKiller(SessionEndGameKiller::new()));
    scheduler.add(SubTask::WarnSessionEnding(WarnSessionEnding::from("50".to_string(), 5)));

    let (actions, r) = scheduler.tick_at(vec![game_process(5)], 100, None, 100);
    assert!(r.is_ok());
    assert!(kills(&actions).is_empty());
    assert_eq!(
        notifications(&actions),
        vec!["50% of session gaming played (0 days 0 hour(s) 0 minute(s) 5 second(s))".to_string()]
    );
    assert!(!scheduler.tracker().session().unwrap().is_session_ended());

    let (actions, r) = scheduler.tick_at(vec![game_process(11)], 115, None, 115);
    assert!(r.is_ok());
    assert!(scheduler.tracker().session().unwrap().is_session_ended());
    assert_eq!(kills(&actions), vec![4242]);
    assert_eq!(
        notifications(&actions),
        vec!["Play time's over buddy! Go touch grass :-)".to_string()]
    );
}

#[test]
fn warning_is_sent_once() {
    let mut t = tracker();
    t.add_gaming_session(DailyGamingSession::starting_at(0, 86400, 100).unwrap());
    let mut w = WarnSessionEnding::from("90".to_string(), 90);
    let mut actions = Vec::new();
    t.refresh_at(vec![game_process(89)], 10, None).unwrap();
    w.execute(&t, &mut actions).unwrap();
    assert!(actions.is_empty());
    t.refresh_at(vec![game_process(90)], 20, None).unwrap();
    w.execute(&t, &mut actions).unwrap();
    assert_eq!(actions.len(), 2);
    assert!(matches!(&actions[0], Action::Print(s) if s == "Warning threshold reached : 90"));
    assert!(w.was_warned());
    t.refresh_at(vec![game_process(95)], 30, None).unwrap();
    w.execute(&t, &mut actions).unwrap();
    assert_eq!(actions.len(), 2);
    assert_eq!(w.duration(), 90);
}

#[test]
fn warner_resets_without_session() {
    let t = tracker();
    let mut w = WarnSessionEnding::from("90".to_string(), 0);
    let mut actions = Vec::new();
    w.execute(&t, &mut actions).unwrap();
    assert!(!w.was_warned());
    assert!(actions.is_empty());
}

#[test]
fn clock_tamper_latches() {
    let mut c = ClockTampering::new(1000, 50);
    assert!(c.execute(1010, 60).is_ok());
    let r = c.execute(2000, 70);
    assert!(matches!(
        r,
        Err(Error::TimeTamperingError(TimeTampering::ClockTamperingError))
    ));
    assert!(c.detected());
    assert!(c.execute(9000, 71).is_ok());
    assert!(c.execute(500, 72).is_ok());
}

#[test]
fn clock_set_backward_is_tampering() {
    let mut c = ClockTampering::new(1000, 50);
    assert!(c.execute(900, 60).is_err());
}

#[test]
fn failing_subtask_stops_the_tick() {
    let mut scheduler = GameTrackerScheduler::using(15, tracker());
    scheduler.add(SubTask::ClockTampering(ClockTampering::new(0, 0)));
    scheduler.add(SubTask::RampageMode(RampageMode::new()));
    let (actions, r) = scheduler.tick_at(vec![game_process(3)], 1000, None, 5);
    assert!(matches!(
        r,
        Err(Error::TimeTamperingError(TimeTampering::ClockTamperingError))
    ));
    assert!(actions.is_empty());
    let (actions, r) = scheduler.tick_at(vec![game_process(3)], 1015, None, 20);
    assert!(r.is_ok());
    assert_eq!(kills(&actions), vec![4242]);
}

#[test]
fn logger_reports_games() {
    let mut scheduler = GameTrackerScheduler::using(15, tracker());
    scheduler.add(SubTask::GamesLogger(GamesLogger::new()));
    scheduler.add(SubTask::SaveStatistics(SaveStatistics::new()));
    let (actions, _) = scheduler.tick_at(vec![], 10, None, 10);
    assert!(matches!(&actions[0], Action::Print(s) if s == "No games have been found yet!"));
    assert_eq!(actions.len(), 1);
    let (actions, _) = scheduler.tick_at(vec![game_process(3725)], 20, None, 20);
    assert!(matches!(&actions[0], Action::Print(s)
        if s == "All games found: \n4242 'mygame' has been running for: 0 days 1 hour(s) 2 minute(s) 5 second(s)\n"));
    assert!(matches!(&actions[1], Action::Save(p, g) if p.pid() == 4242 && g == "mygame"));
    assert_eq!(scheduler.frequency(), 15);
    assert_eq!(scheduler.sub_tasks().len(), 2);
}

#[test]
fn killer_waits_for_the_session_to_end() {
    let mut t = tracker();
    t.add_gaming_session(DailyGamingSession::starting_at(0, 86400, 100).unwrap());
    t.refresh_at(vec![game_process(3)], 10, None).unwrap();
    let mut k = SessionEndGameKiller::new();
    let mut actions = Vec::new();
    k.execute(&t, &mut actions).unwrap();
    assert!(actions.is_empty());
}

#[test]
fn timing_guard() {
    assert!(check_tampering("refresh".to_string(), 5).is_ok());
    assert!(matches!(
        check_tampering("refresh".to_string(), 6),
        Err(Error::TimedExecutionTamperingError(name, 6)) if name == "refresh"
    ));
    assert_eq!(average_duration(&vec![10, 20, 31]), 20);
    assert_eq!(average_duration(&vec![]), 0);
    assert_eq!(average_duration(&vec![u64::MAX, u64::MAX]), u64::MAX);
    assert!(execution_tampered(21, 20));
    assert!(!execution_tampered(20, 20));
}

#[test]
fn warner_rearms_on_a_new_day_only_when_asked() {
    for (rearm, expected) in [(false, 2usize), (true, 4usize)] {
        let mut t = tracker();
        t.add_gaming_session(DailyGamingSession::starting_at(0, 86400, 100).unwrap());
        let mut w = WarnSessionEnding::from("50".to_string(), 50).rearming_daily(rearm);
        let mut actions = Vec::new();
        t.refresh_at(vec![game_process(60)], 10, None).unwrap();
        w.execute(&t, &mut actions).unwrap();
        assert_eq!(actions.len(), 2);
        // the day rolls over; the session starts again
        t.refresh_at(vec![game_process(70)], 86400, Some(172800)).unwrap();
        w.execute(&t, &mut actions).unwrap();
        assert_eq!(actions.len(), expected);
    }
}
