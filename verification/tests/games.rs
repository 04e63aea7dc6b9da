use in_season_cup::calendar::Timestamp;
use in_season_cup::model::{Game, GameDay, NHLSchedule, NextGame, Team};
use in_season_cup::schedule::{check_team_game_result, find_game_result, schedule_url, ScheduleReply};
use in_season_cup::search::{
    find_game, find_game_in_reply, may_search, read_scheduled_games, reads_body, NextGameSearch, ScheduledGame,
    SearchReply,
};
use in_season_cup::state::CupState;

fn side(abbrev: &str, score: Option<u32>) -> Team {
    Team { abbrev: abbrev.to_string(), score }
}

fn game(state: &str, away: Team, home: Team) -> Game {
    Game { game_state: state.to_string(), away_team: away, home_team: home }
}

fn day(date: &str, games: Vec<Game>) -> GameDay {
    GameDay { date: date.to_string(), games }
}

fn schedule() -> NHLSchedule {
    NHLSchedule {
        game_week: vec![
            day(
                "2025-10-07",
                vec![
                    game("OFF", side("CHI", Some(2)), side("FLA", Some(3))),
                    game("OFF", side("PIT", Some(3)), side("NYR", Some(0))),
                    game("LIVE", side("COL", Some(4)), side("LAK", Some(1))),
                    game("OFF", side("FLA", Some(0)), side("TOR", Some(9))),
                ],
            ),
            day(
                "2025-10-08",
                vec![
                    game("OFF", side("FLA", Some(1)), side("BOS", Some(4))),
                    game("OFF", side("MTL", Some(2)), side("TOR", Some(2))),
                    game("OFF", side("WSH", None), side("CBJ", Some(1))),
                ],
            ),
        ],
    }
}

fn won(opponent: &str) -> Option<(bool, Option<String>)> {
    Some((true, Some(opponent.to_string())))
}

fn lost(opponent: &str) -> Option<(bool, Option<String>)> {
    Some((false, Some(opponent.to_string())))
}

#[test]
fn the_schedule_has_an_address() {
    assert_eq!(schedule_url("2025-10-07"), "https://api-web.nhle.com/v1/schedule/2025-10-07");
}

#[test]
fn winners_and_losers() {
    let week = schedule();
    assert_eq!(find_game_result("FLA", "2025-10-07", &week), won("CHI"));
    assert_eq!(find_game_result("CHI", "2025-10-07", &week), lost("FLA"));
    assert_eq!(find_game_result("PIT", "2025-10-07", &week), won("NYR"));
    assert_eq!(find_game_result("NYR", "2025-10-07", &week), lost("PIT"));
    assert_eq!(find_game_result("FLA", "2025-10-08", &week), lost("BOS"));
    assert_eq!(find_game_result("TOR", "2025-10-07", &week), won("FLA"));
}

#[test]
fn a_game_without_a_winner_is_lost_by_both() {
    let week = schedule();
    assert_eq!(find_game_result("MTL", "2025-10-08", &week), lost("TOR"));
    assert_eq!(find_game_result("TOR", "2025-10-08", &week), lost("MTL"));
}

#[test]
fn a_missing_score_counts_as_none() {
    let week = schedule();
    assert_eq!(find_game_result("CBJ", "2025-10-08", &week), won("WSH"));
    assert_eq!(find_game_result("WSH", "2025-10-08", &week), lost("CBJ"));
}

#[test]
fn no_result_without_a_completed_game_on_the_date() {
    let week = schedule();
    assert_eq!(find_game_result("COL", "2025-10-07", &week), None);
    assert_eq!(find_game_result("BOS", "2025-10-07", &week), None);
    assert_eq!(find_game_result("FLA", "2025-10-09", &week), None);
    assert_eq!(find_game_result("FLA", "2025-10-07", &NHLSchedule { game_week: vec![] }), None);
}

#[test]
fn replies_of_the_schedule() {
    assert_eq!(check_team_game_result("FLA", "2025-10-07", &ScheduleReply::Read(schedule())), Ok(won("CHI")));
    assert_eq!(check_team_game_result("BOS", "2025-10-07", &ScheduleReply::Read(schedule())), Ok(None));
    assert_eq!(
        check_team_game_result("FLA", "2025-10-07", &ScheduleReply::Failed("no route".to_string())),
        Err("no route".to_string())
    );
    assert_eq!(
        check_team_game_result("FLA", "2025-10-07", &ScheduleReply::Unreadable("EOF".to_string())),
        Err("Failed to parse NHL API response: EOF".to_string())
    );
}

const WEEK: &str = "{\"gameWeek\": [{\"games\": 1}, {\"games\": [{\"awayTeam\": {\"abbrev\": \"BOS\"}}, \
    {\"startTimeUTC\": \"2025-10-09T23:00:00Z\", \"venue\": {\"default\": \"Amerant Bank Arena\"}, \
    \"awayTeam\": {\"abbrev\": \"PHI\"}, \"homeTeam\": {\"abbrev\": \"FLA\"}}]}, {\"games\": [{\"awayTeam\": \
    {\"abbrev\": \"FLA\"}, \"homeTeam\": {\"abbrev\": \"TOR\"}, \"venue\": 4}]}]}";

fn answer(status: u16, body: &str) -> SearchReply {
    SearchReply::Answered { status, body: body.to_string() }
}

fn next(date: &str, time: &str, opponent: &str, is_home: bool, venue: &str) -> NextGame {
    NextGame {
        date: date.to_string(),
        time: time.to_string(),
        opponent: opponent.to_string(),
        is_home,
        venue: venue.to_string(),
    }
}

#[test]
fn games_are_read_in_order() {
    let week: serde_json::Value = serde_json::from_str(WEEK).unwrap();
    let games = read_scheduled_games(&week);
    let expected = |away: &str, home: &str, time: &str, venue: &str| ScheduledGame {
        away_team: away.to_string(),
        home_team: home.to_string(),
        start_time: time.to_string(),
        venue: venue.to_string(),
    };
    assert_eq!(
        games,
        vec![
            expected("BOS", "", "TBD", "TBD"),
            expected("PHI", "FLA", "2025-10-09T23:00:00Z", "Amerant Bank Arena"),
            expected("FLA", "TOR", "TBD", "TBD"),
        ]
    );
    assert_eq!(
        find_game(&games, "FLA", "2025-10-08"),
        Some(next("2025-10-08", "2025-10-09T23:00:00Z", "PHI", true, "Amerant Bank Arena"))
    );
    assert_eq!(find_game(&games, "PHI", "d"), Some(next("d", "2025-10-09T23:00:00Z", "FLA", false, "Amerant Bank Arena")));
    assert_eq!(find_game(&games, "TOR", "d"), Some(next("d", "TBD", "FLA", true, "TBD")));
    assert_eq!(find_game(&games, "NYR", "d"), None);
}

#[test]
fn a_schedule_without_lists_has_no_games() {
    for text in ["{}", "[]", "{\"gameWeek\": {}}", "{\"gameWeek\": [1, {}, {\"games\": {}}]}"] {
        let week: serde_json::Value = serde_json::from_str(text).unwrap();
        assert_eq!(read_scheduled_games(&week), vec![]);
    }
}

#[test]
fn answers_of_no_use_show_no_game() {
    assert_eq!(find_game_in_reply(&SearchReply::Failed, "FLA", "d"), None);
    assert_eq!(find_game_in_reply(&answer(404, WEEK), "FLA", "d"), None);
    assert_eq!(find_game_in_reply(&answer(200, "nonsense"), "FLA", "d"), None);
    assert_eq!(find_game_in_reply(&answer(200, "{}"), "FLA", "d"), None);
    assert_eq!(
        find_game_in_reply(&answer(200, WEEK), "BOS", "d"),
        Some(next("d", "TBD", "", false, "TBD"))
    );
    assert!(reads_body(200));
    assert!(!reads_body(204));
}

const OCT_6_NOON: Timestamp = Timestamp { secs: 1759737600 + 43200, nanos: 5 };

#[test]
fn a_search_goes_on_to_the_first_game() {
    assert!(may_search(&OCT_6_NOON));
    let mut search = NextGameSearch::start(CupState::default(), OCT_6_NOON);
    let query = search.next_query().unwrap();
    assert_eq!(query.date, "2025-10-07");
    assert_eq!(query.url, "https://api-web.nhle.com/v1/schedule/2025-10-07");
    assert_eq!(search.take_reply(&SearchReply::Failed), None);
    assert_eq!(search.next_query().unwrap().date, "2025-10-08");
    assert_eq!(search.take_reply(&answer(500, WEEK)), None);
    assert_eq!(search.next_query().unwrap().date, "2025-10-09");
    assert_eq!(
        search.take_reply(&answer(200, WEEK)),
        Some(next("2025-10-09", "2025-10-09T23:00:00Z", "PHI", true, "Amerant Bank Arena"))
    );
}

#[test]
fn a_search_looks_thirty_days_ahead() {
    let mut search = NextGameSearch::start(CupState::default(), OCT_6_NOON);
    let mut dates = vec![];
    while let Some(query) = search.next_query() {
        dates.push(query.date);
        assert_eq!(search.take_reply(&answer(200, "{}")), None);
    }
    assert_eq!(dates.len(), 30);
    assert_eq!(dates[0], "2025-10-07");
    assert_eq!(dates[24], "2025-10-31");
    assert_eq!(dates[25], "2025-11-01");
    assert_eq!(dates[29], "2025-11-05");
}

#[test]
fn a_search_needs_its_days_within_the_calendar() {
    let max = in_season_cup::calendar::MAX_SECS;
    let min = in_season_cup::calendar::MIN_SECS;
    assert!(may_search(&Timestamp { secs: max - 2592000, nanos: 0 }));
    assert!(!may_search(&Timestamp { secs: max - 2591999, nanos: 0 }));
    assert!(may_search(&Timestamp { secs: min + 28800, nanos: 0 }));
    assert!(!may_search(&Timestamp { secs: min + 28799, nanos: 0 }));
    assert!(!may_search(&Timestamp { secs: 0, nanos: 1000000000 }));
}
