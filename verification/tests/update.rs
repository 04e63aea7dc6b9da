use in_season_cup::calendar::Timestamp;
use in_season_cup::model::{AuditLog, AuditLogEntry, CupHistory, TeamCupHistory};
use in_season_cup::state::CupState;
use in_season_cup::update::{may_update, record_day, GameCheck, UpdateReport, UpdateRun};

const OCT_6: i64 = 1759737600;
const DAY: i64 = 86400;

fn at(days: i64, secs: i64) -> Timestamp {
    Timestamp { secs: OCT_6 + days * DAY + secs, nanos: 123 }
}

fn won(opponent: &str) -> GameCheck {
    Ok(Some((true, Some(opponent.to_string()))))
}

fn lost(opponent: &str) -> GameCheck {
    Ok(Some((false, Some(opponent.to_string()))))
}

fn history() -> CupHistory {
    CupHistory {
        teams: ["FLA", "TOR", "BOS"]
            .iter()
            .map(|t| TeamCupHistory { team: t.to_string(), cup_days: vec![] })
            .collect(),
    }
}

fn empty_log() -> AuditLog {
    AuditLog { entries: vec![] }
}

fn run(state: CupState, history: CupHistory, log: AuditLog, now: Timestamp, checks: Vec<GameCheck>) -> UpdateReport {
    assert!(may_update(&state, &now));
    let mut update = UpdateRun::start(state, history, log, now);
    for check in checks {
        assert!(update.next_query().is_some());
        update.process_day(check);
    }
    assert!(update.next_query().is_none());
    update.finish()
}

fn entry(date: &str, start: &str, result: &str, end: &str, details: Option<&str>) -> AuditLogEntry {
    AuditLogEntry {
        date: date.to_string(),
        starting_owner: start.to_string(),
        game_result: result.to_string(),
        ending_owner: end.to_string(),
        details: details.map(|d| d.to_string()),
    }
}

#[test]
fn records_of_a_day() {
    let day = |check: GameCheck| record_day("FLA", "2025-10-07", check);
    assert_eq!(day(won("TOR")), entry("2025-10-07", "FLA", "Won game vs TOR - kept cup", "FLA", None));
    assert_eq!(day(Ok(Some((true, None)))), entry("2025-10-07", "FLA", "Won game - kept cup", "FLA", None));
    assert_eq!(
        day(lost("TOR")),
        entry("2025-10-07", "FLA", "Lost game to TOR - cup transferred", "TOR", Some("Cup transferred from FLA to TOR"))
    );
    assert_eq!(
        day(Ok(Some((false, None)))),
        entry(
            "2025-10-07",
            "FLA",
            "Lost game - cup should transfer",
            "FLA",
            Some("Cup transfer failed: opponent team not found")
        )
    );
    assert_eq!(day(Ok(None)), entry("2025-10-07", "FLA", "Didn't play - kept cup", "FLA", None));
    assert_eq!(
        day(Err("no route".to_string())),
        entry("2025-10-07", "FLA", "API Error - kept cup", "FLA", Some("Error checking game result: no route"))
    );
}

#[test]
fn an_update_asks_for_each_day_until_yesterday() {
    let mut update = UpdateRun::start(CupState::default(), history(), empty_log(), at(4, 3600));
    assert_eq!(update.days_to_process(), 3);
    let query = update.next_query().unwrap();
    assert_eq!(query.team, "FLA");
    assert_eq!(query.date, "2025-10-07");
    assert_eq!(query.url, "https://api-web.nhle.com/v1/schedule/2025-10-07");
    update.process_day(lost("TOR"));
    let query = update.next_query().unwrap();
    assert_eq!((query.team.as_str(), query.date.as_str()), ("TOR", "2025-10-08"));
    update.process_day(Ok(None));
    let query = update.next_query().unwrap();
    assert_eq!((query.team.as_str(), query.date.as_str()), ("TOR", "2025-10-09"));
    update.process_day(lost("BOS"));
    assert!(update.next_query().is_none());
    let report = update.finish();
    assert_eq!(report.state.current_owner, "BOS");
    assert_eq!(
        (report.state.last_update_year, report.state.last_update_month, report.state.last_update_day),
        (2025, 10, 9)
    );
    assert_eq!(
        report.log.entries,
        vec![
            entry(
                "2025-10-07",
                "FLA",
                "Lost game to TOR - cup transferred",
                "TOR",
                Some("Cup transferred from FLA to TOR")
            ),
            entry("2025-10-08", "TOR", "Didn't play - kept cup", "TOR", None),
            entry(
                "2025-10-09",
                "TOR",
                "Lost game to BOS - cup transferred",
                "BOS",
                Some("Cup transferred from TOR to BOS")
            ),
        ]
    );
    let days: Vec<Vec<String>> = report.history.teams.into_iter().map(|t| t.cup_days).collect();
    assert_eq!(days, vec![vec!["2025-10-07".to_string()], vec!["2025-10-08".to_string(), "2025-10-09".to_string()], vec![]]);
    assert_eq!(
        report.body,
        "{\"status\": \"success\", \"message\": \"In-season cup updated\", \"days_processed\": 3, \
         \"current_date\": \"2025-10-09\", \"current_owner\": \"BOS\"}"
    );
}

#[test]
fn a_second_update_on_the_same_day_has_nothing_to_do() {
    let first = run(CupState::default(), history(), empty_log(), at(2, 0), vec![lost("TOR")]);
    let second = run(first.state, first.history, first.log, at(2, DAY - 1), vec![]);
    assert_eq!(second.state.current_owner, "TOR");
    assert_eq!(second.log.entries.len(), 1);
    assert_eq!(second.history.teams[0].cup_days, vec!["2025-10-07".to_string()]);
    assert_eq!(
        second.body,
        "{\"status\": \"success\", \"message\": \"In-season cup updated\", \"days_processed\": 0, \
         \"current_date\": \"2025-10-07\", \"current_owner\": \"TOR\"}"
    );
}

#[test]
fn two_updates_come_to_the_same_as_one() {
    let first = run(CupState::default(), history(), empty_log(), at(3, 50), vec![lost("TOR"), won("BOS")]);
    let second = run(first.state, first.history, first.log, at(5, 10), vec![Err("x".to_string()), lost("FLA")]);
    let whole = run(
        CupState::default(),
        history(),
        empty_log(),
        at(5, 10),
        vec![lost("TOR"), won("BOS"), Err("x".to_string()), lost("FLA")],
    );
    assert_eq!(second.state, whole.state);
    assert_eq!(second.history, whole.history);
    assert_eq!(second.log, whole.log);
}

#[test]
fn an_owner_that_is_not_listed_is_not_credited() {
    let report = run(CupState::default(), history(), empty_log(), at(3, 0), vec![lost("NYR"), Ok(None)]);
    assert_eq!(report.state.current_owner, "NYR");
    assert!(report.history.teams.iter().all(|t| !t.cup_days.contains(&"2025-10-08".to_string())));
    assert_eq!(report.log.entries[1].starting_owner, "NYR");
}

#[test]
fn a_state_one_day_ahead_goes_back() {
    let report = run(CupState::default(), history(), empty_log(), at(0, 1), vec![]);
    assert_eq!(report.state.last_update_day, 5);
    let again = run(report.state, report.history, report.log, at(1, 0), vec![Ok(None)]);
    assert_eq!(again.log.entries[0].date, "2025-10-06");
}

#[test]
fn a_state_further_ahead_has_nothing_to_process() {
    for now in [Timestamp { secs: OCT_6, nanos: 0 }, at(-1, 0), at(-400, 5)] {
        let mut cup = history();
        cup.teams[0].cup_days.push("2025-10-06".to_string());
        let log = AuditLog { entries: vec![entry("2025-10-06", "FLA", "Didn't play - kept cup", "FLA", None)] };
        assert!(may_update(&CupState::default(), &now));
        let update = UpdateRun::start(CupState::default(), cup, log, now);
        assert_eq!(update.days_to_process(), 0);
        assert!(update.next_query().is_none());
        let report = update.finish();
        assert_eq!(report.log.entries.len(), 1);
        assert_eq!(report.history.teams[0].cup_days, vec!["2025-10-06".to_string()]);
        assert!(report.history.teams[1].cup_days.is_empty());
        assert_eq!(report.state.current_owner, "FLA");
    }
    let report = run(CupState::default(), history(), empty_log(), at(-1, 0), vec![]);
    assert_eq!(report.state.last_update_day, 4);
    assert_eq!(
        report.body,
        "{\"status\": \"success\", \"message\": \"In-season cup updated\", \"days_processed\": 0, \
         \"current_date\": \"2025-10-04\", \"current_owner\": \"FLA\"}"
    );
}

#[test]
fn a_state_without_a_date_cannot_be_updated() {
    let mut state = CupState::default();
    state.last_update_month = 13;
    assert!(!may_update(&state, &at(5, 0)));
}

#[test]
fn the_clock_has_to_lie_within_the_calendar() {
    let max = in_season_cup::calendar::MAX_SECS;
    assert!(may_update(&CupState::default(), &Timestamp { secs: max, nanos: 0 }));
    assert!(!may_update(&CupState::default(), &Timestamp { secs: max + 1, nanos: 0 }));
    assert!(!may_update(&CupState::default(), &Timestamp { secs: OCT_6 + 5 * DAY, nanos: 1000000000 }));
    let mut early = CupState::default();
    early.last_update_year = (-262143i32) as u32;
    early.last_update_month = 1;
    early.last_update_day = 1;
    let min = in_season_cup::calendar::MIN_SECS;
    assert!(may_update(&early, &Timestamp { secs: min + 115200, nanos: 0 }));
    assert!(!may_update(&early, &Timestamp { secs: min + 115199, nanos: 0 }));
}

#[test]
fn the_cup_goes_to_the_team_that_its_owner_lost_to() {
    let side = |abbrev: &str, score: u32| in_season_cup::model::Team { abbrev: abbrev.to_string(), score: Some(score) };
    let schedule = in_season_cup::model::NHLSchedule {
        game_week: vec![in_season_cup::model::GameDay {
            date: "2025-10-07".to_string(),
            games: vec![in_season_cup::model::Game {
                game_state: "OFF".to_string(),
                away_team: side("BOS", 4),
                home_team: side("FLA", 1),
            }],
        }],
    };
    let mut update = UpdateRun::start(CupState::default(), history(), empty_log(), at(2, 0));
    let query = update.next_query().unwrap();
    let reply = in_season_cup::schedule::ScheduleReply::Read(schedule);
    update.process_day(in_season_cup::schedule::check_team_game_result(&query.team, &query.date, &reply));
    let report = update.finish();
    assert_eq!(report.state.current_owner, "BOS");
    assert_eq!(report.history.teams[0].cup_days, vec!["2025-10-07".to_string()]);
    assert!(report.history.teams[1].cup_days.is_empty());
    assert!(report.history.teams[2].cup_days.is_empty());
}
