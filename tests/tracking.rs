use game_tracker::{
    calculate_end_of_day, should_be_ignored, DailyGamingSession, Error, ExpectedEntityType,
    GameLocator, GamingTracker, LocationEntry, ProcessInfo,
};

fn proc_(pid: u32, parent: Option<u32>, name: &str, cmd: &[&str], run_time: u64) -> ProcessInfo {
    ProcessInfo::new(
        pid,
        parent,
        name.to_string(),
        cmd.iter().map(|s| s.to_string()).collect(),
        run_time,
        1000,
    )
}

fn entry(name: &str, is_file: bool, is_dir: bool) -> LocationEntry {
    LocationEntry { name: name.to_string(), is_file, is_dir }
}

fn platform(games: &[&str]) -> GameLocator {
    let mut g = GameLocator::new(
        "steam".to_string(),
        vec![],
        vec!["/games".to_string()],
        ExpectedEntityType::BOTH,
        vec![],
    );
    let entries: Vec<LocationEntry> = games.iter().map(|n| entry(n, false, true)).collect();
    g.load_game_names_from_entries(&entries);
    g
}

#[test]
fn locator_filters_by_kind_and_ignore_prefix() {
    let mut g = GameLocator::new(
        "steam".to_string(),
        vec![".steam".to_string()],
        vec![],
        ExpectedEntityType::DIRECTORY,
        vec!["Proton".to_string(), "Steam".to_string()],
    );
    g.load_game_names_from_entries(&vec![
        entry("Hades", false, true),
        entry("Proton 8.0", false, true),
        entry("readme.txt", true, false),
        entry("SteamLinuxRuntime", false, true),
        entry("Celeste", false, true),
    ]);
    assert_eq!(g.games(), &vec!["Hades".to_string(), "Celeste".to_string()]);
    assert_eq!(g.name(), "steam");
    assert!(ExpectedEntityType::EXECUTABLE.matches(true, false));
    assert!(!ExpectedEntityType::EXECUTABLE.matches(false, true));
    assert!(ExpectedEntityType::BOTH.matches(false, true));
    assert_eq!(ExpectedEntityType::default(), ExpectedEntityType::BOTH);
}

#[test]
fn ignore_prefixes() {
    let ignore = vec!["Proton".to_string(), "x".to_string()];
    assert!(should_be_ignored(&"Proton 7".to_string(), &ignore));
    assert!(!should_be_ignored(&"MyProton".to_string(), &ignore));
    assert!(!should_be_ignored(&"game".to_string(), &vec![]));
}

#[test]
fn same_identity_replaces_with_newer_run_time() {
    let mut t = GamingTracker::new(vec![platform(&["mygame"])]);
    for run_time in [5u64, 9, 14] {
        t.refresh_at(vec![proc_(80, None, "run", &["/games/mygame/run"], run_time)], 100, None)
            .unwrap();
        let games = t.gametime_tracker();
        assert_eq!(games.len(), 1);
        assert_eq!(games[0].game(), "mygame");
        assert_eq!(games[0].processes().len(), 1);
        assert_eq!(games[0].processes()[0].run_time(), run_time);
        assert_eq!(t.total_time_played(), run_time);
    }
    // another process of the same game is added beside the first
    t.refresh_at(
        vec![
            proc_(80, None, "run", &["/games/mygame/run"], 20),
            proc_(81, None, "run", &["/games/mygame/run"], 2),
        ],
        100,
        None,
    )
    .unwrap();
    assert_eq!(t.gametime_tracker()[0].processes().len(), 2);
    assert_eq!(t.total_time_played(), 22);
}

#[test]
fn nothing_tracked_without_a_match() {
    let mut t = GamingTracker::new(vec![platform(&["mygame"])]);
    t.refresh_at(vec![proc_(5, None, "editor", &["vim"], 50)], 100, None).unwrap();
    assert!(t.gametime_tracker().is_empty());
    assert_eq!(t.total_time_played(), 0);
    assert!(t.session().is_none());
}

#[test]
fn budget_boundary_ends_on_the_tick_it_is_reached() {
    let mut t = GamingTracker::new(vec![platform(&["mygame"])]);
    t.add_gaming_session(DailyGamingSession::starting_at(0, 86400, 10).unwrap());
    t.refresh_at(vec![proc_(80, None, "run", &["mygame"], 9)], 100, None).unwrap();
    assert!(!t.session().unwrap().is_session_ended());
    t.refresh_at(vec![proc_(80, None, "run", &["mygame"], 10)], 110, None).unwrap();
    assert!(t.session().unwrap().is_session_ended());
}

#[test]
fn zero_budget_ends_at_first_match() {
    let mut t = GamingTracker::new(vec![platform(&["mygame"])]);
    t.add_gaming_session(DailyGamingSession::starting_at(0, 86400, 0).unwrap());
    t.refresh_at(vec![proc_(80, None, "run", &["mygame"], 0)], 100, None).unwrap();
    assert!(t.session().unwrap().is_session_ended());
}

#[test]
fn day_rollover_resets_ended_flag() {
    let mut t = GamingTracker::new(vec![platform(&["mygame"])]);
    t.add_gaming_session(DailyGamingSession::starting_at(0, 86400, 10).unwrap());
    t.refresh_at(vec![proc_(80, None, "run", &["mygame"], 50)], 100, None).unwrap();
    assert!(t.session().unwrap().is_session_ended());
    t.refresh_at(vec![proc_(80, None, "run", &["mygame"], 60)], 86400, Some(172800)).unwrap();
    let s = t.session().unwrap();
    assert!(!s.is_session_ended());
    assert_eq!(s.start_time(), 86400);
    assert_eq!(s.end_of_day(), 172800);
    assert_eq!(s.duration(), 10);
}

#[test]
fn day_rollover_without_midnight_fails() {
    let mut t = GamingTracker::new(vec![platform(&["mygame"])]);
    t.add_gaming_session(DailyGamingSession::starting_at(0, 86400, 10).unwrap());
    let r = t.refresh_at(vec![], 90000, Some(80000));
    assert!(matches!(r, Err(Error::CalculateEndOfDayError)));
    assert_eq!(t.session().unwrap().start_time(), 0);
}

#[test]
fn session_requires_its_day_to_end_after_it_starts() {
    assert!(matches!(
        DailyGamingSession::starting_at(100, 100, 5),
        Err(Error::CalculateEndOfDayError)
    ));
    let s = DailyGamingSession::starting_at(100, 200, 5).unwrap();
    assert!(!s.day_ended(199));
    assert!(s.day_ended(200));
    assert!(s.should_session_end(5));
    assert!(!s.should_session_end(4));
}

#[test]
fn end_of_day_follows_the_day() {
    let day = 1_700_000_000i64;
    let m = calculate_end_of_day(day).unwrap();
    assert!(m > day);
    assert!(m - day <= 2 * 86400);
    let s = DailyGamingSession::from_duration(30).unwrap();
    assert_eq!(s.duration(), 30);
    assert!(s.end_of_day() > s.start_time());
    assert!(s.start_time() > 1_600_000_000);
}

#[test]
fn first_platform_then_first_name_wins() {
    let mut t = GamingTracker::new(vec![platform(&["other", "mygame"]), platform(&["run"])]);
    t.refresh_at(vec![proc_(80, None, "run", &["/games/mygame/run"], 3)], 100, None).unwrap();
    assert_eq!(t.gametime_tracker()[0].game(), "mygame");
}

#[test]
fn every_game_under_one_launcher_is_tracked() {
    let mut t = GamingTracker::new(vec![platform(&["mygame", "other"])]);
    t.refresh_at(
        vec![
            proc_(10, None, "launcher", &["steam"], 100),
            proc_(11, Some(10), "a", &["/games/mygame/run"], 5),
            proc_(12, Some(10), "b", &["/games/other/run"], 7),
        ],
        100,
        None,
    )
    .unwrap();
    let games = t.gametime_tracker();
    assert_eq!(games.len(), 2);
    assert_eq!(games[0].game(), "mygame");
    assert_eq!(games[0].processes().len(), 1);
    assert_eq!(games[1].game(), "other");
    assert_eq!(games[1].processes().len(), 1);
    assert_eq!(t.total_time_played(), 12);
}

#[test]
fn refresh_reads_the_clock() {
    let mut t = GamingTracker::new(vec![platform(&["mygame"])]);
    t.add_gaming_session(DailyGamingSession::starting_at(0, i64::MAX, 10).unwrap());
    t.refresh(vec![proc_(80, None, "run", &["mygame"], 4)]).unwrap();
    assert_eq!(t.total_time_played(), 4);
    assert!(!t.session().unwrap().is_session_ended());
}
