use in_season_cup::history::{add_audit_entry, add_cup_day};
use in_season_cup::model::{AuditLog, AuditLogEntry, CupHistory, TeamCupHistory};
use in_season_cup::roster::{history_from_roster, read_roster, start_history};
use in_season_cup::state::CupState;
use in_season_cup::store::{
    confirm_write, get_audit_log, get_cup_history, get_cup_state, next_write, prepare_write, store_name, Document,
    Stored,
};
use in_season_cup::text::{contains_text, decimal_string, sort_texts};

fn team(name: &str, days: &[&str]) -> TeamCupHistory {
    TeamCupHistory { team: name.to_string(), cup_days: strings(days) }
}

fn strings(list: &[&str]) -> Vec<String> {
    list.iter().map(|s| s.to_string()).collect()
}

fn history() -> CupHistory {
    CupHistory { teams: vec![team("FLA", &["2025-10-07", "2025-10-09"]), team("TOR", &[]), team("FLA", &[])] }
}

#[test]
fn a_cup_day_is_put_in_order() {
    let mut cup = history();
    add_cup_day(&mut cup, "FLA", "2025-10-08");
    assert_eq!(cup.teams[0].cup_days, strings(&["2025-10-07", "2025-10-08", "2025-10-09"]));
    assert_eq!(cup.teams[1], team("TOR", &[]));
    assert_eq!(cup.teams[2], team("FLA", &[]));
}

#[test]
fn a_cup_day_is_added_once() {
    let mut cup = history();
    add_cup_day(&mut cup, "TOR", "2025-10-08");
    add_cup_day(&mut cup, "TOR", "2025-10-08");
    assert_eq!(cup.teams[1].cup_days, strings(&["2025-10-08"]));
}

#[test]
fn a_day_that_is_there_leaves_an_unsorted_list_alone() {
    let mut cup = CupHistory { teams: vec![team("BOS", &["2025-10-09", "2025-10-07"])] };
    add_cup_day(&mut cup, "BOS", "2025-10-07");
    assert_eq!(cup.teams[0].cup_days, strings(&["2025-10-09", "2025-10-07"]));
    add_cup_day(&mut cup, "BOS", "2025-10-08");
    assert_eq!(cup.teams[0].cup_days, strings(&["2025-10-07", "2025-10-08", "2025-10-09"]));
}

#[test]
fn a_team_that_is_not_listed_gets_no_day() {
    let mut cup = history();
    add_cup_day(&mut cup, "NYR", "2025-10-08");
    assert_eq!(cup, history());
}

#[test]
fn audit_entries_are_appended() {
    let entry = |date: &str| AuditLogEntry {
        date: date.to_string(),
        starting_owner: "FLA".to_string(),
        game_result: "Didn't play - kept cup".to_string(),
        ending_owner: "FLA".to_string(),
        details: None,
    };
    let mut log = AuditLog { entries: vec![entry("2025-10-07")] };
    add_audit_entry(&mut log, entry("2025-10-08"));
    assert_eq!(log.entries, vec![entry("2025-10-07"), entry("2025-10-08")]);
}

#[test]
fn texts_are_sorted_by_their_characters() {
    let mut list = strings(&["b", "ab", "a", "", "\u{e9}", "z", "B"]);
    sort_texts(&mut list);
    assert_eq!(list, strings(&["", "B", "a", "ab", "b", "z", "\u{e9}"]));
    assert!(contains_text(&list, "ab"));
    assert!(!contains_text(&list, "c"));
}

#[test]
fn numbers_are_written_in_decimal() {
    assert_eq!(decimal_string(0), "0");
    assert_eq!(decimal_string(9), "9");
    assert_eq!(decimal_string(10), "10");
    assert_eq!(decimal_string(1203), "1203");
    assert_eq!(decimal_string(4294967295), "4294967295");
}

#[test]
fn the_cup_starts_in_florida() {
    let state = CupState::default();
    assert_eq!(state.current_owner, "FLA");
    assert_eq!((state.last_update_year, state.last_update_month, state.last_update_day), (2025, 10, 6));
    assert!(state.has_last_update_date());
    let start = state.get_last_update_date();
    assert_eq!((start.secs, start.nanos), (1759737600, 0));
}

#[test]
fn a_state_may_have_no_date() {
    let state = |year: u32, month: u32, day: u32| CupState {
        last_update_year: year,
        last_update_month: month,
        last_update_day: day,
        current_owner: "FLA".to_string(),
    };
    assert!(!state(2025, 2, 30).has_last_update_date());
    assert!(!state(2025, 0, 1).has_last_update_date());
    assert!(!state(300000, 1, 1).has_last_update_date());
    assert!(state(4294967295, 1, 1).has_last_update_date());
    assert_eq!(
        state(4294967295, 1, 1).get_last_update_date().secs,
        in_season_cup::calendar::pst_midnight(-1, 1, 1).unwrap()
    );
}

#[test]
fn a_history_starts_with_each_team_of_the_roster_once() {
    let roster = "{\"players\": [{\"name\": \"a\", \"teams\": [\"FLA\", \"TOR\"]}, {\"teams\": [\"TOR\", \"BOS\"]}]}";
    let fresh = history_from_roster(roster).unwrap();
    assert_eq!(fresh, CupHistory { teams: vec![team("FLA", &[]), team("TOR", &[]), team("BOS", &[])] });
}

#[test]
fn what_is_not_a_team_is_passed_over() {
    let roster = "{\"players\": [{\"teams\": [1, \"FLA\", null, [\"X\"]]}, {\"teams\": \"TOR\"}, {}, 7, {\"teams\": [\"NYR\"]}]}";
    let fresh = history_from_roster(roster).unwrap();
    assert_eq!(fresh, CupHistory { teams: vec![team("FLA", &[]), team("NYR", &[])] });
    for text in ["{}", "[]", "null", "{\"players\": 3}", "{\"players\": []}"] {
        assert_eq!(history_from_roster(text).unwrap(), CupHistory { teams: vec![] });
    }
}

#[test]
fn a_roster_is_read_in_order() {
    let roster: serde_json::Value = serde_json::from_str("{\"players\": [{\"teams\": [\"B\", \"A\"]}, {\"teams\": [\"B\"]}]}").unwrap();
    let teams = read_roster(&roster);
    assert_eq!(teams, strings(&["B", "A", "B"]));
    assert_eq!(start_history(&teams), CupHistory { teams: vec![team("B", &[]), team("A", &[])] });
}

#[test]
fn a_roster_that_is_not_json_is_an_error() {
    assert_eq!(
        history_from_roster("nonsense").unwrap_err(),
        "Failed to parse players.json: Error(\"expected ident\", line: 1, column: 2)"
    );
}

#[test]
fn the_stored_state_is_taken() {
    let stored = CupState {
        last_update_year: 2026,
        last_update_month: 1,
        last_update_day: 2,
        current_owner: "TOR".to_string(),
    };
    let state = get_cup_state(Stored::Found(stored)).unwrap();
    assert_eq!(state.current_owner, "TOR");
    assert_eq!(state.last_update_year, 2026);
}

#[test]
fn a_missing_state_is_the_default() {
    assert_eq!(get_cup_state(Stored::Missing).unwrap(), CupState::default());
}

#[test]
fn a_stored_text_that_cannot_be_read_is_an_error() {
    let unreadable = || (("{".to_string()), ("EOF".to_string()));
    let (body, reason) = unreadable();
    assert_eq!(
        get_cup_state(Stored::Unreadable { body, reason }).unwrap_err(),
        "Couldn't convert { to json: EOF"
    );
    let (body, reason) = unreadable();
    assert_eq!(
        get_cup_history(Stored::Unreadable { body, reason }, "{}").unwrap_err(),
        "Couldn't convert { to json: EOF"
    );
    let (body, reason) = unreadable();
    assert_eq!(
        get_audit_log(Stored::Unreadable { body, reason }).unwrap_err(),
        "Couldn't convert { to json: EOF"
    );
}

#[test]
fn a_missing_history_comes_from_the_roster() {
    let fresh = get_cup_history(Stored::Missing, "{\"players\": [{\"teams\": [\"FLA\"]}]}").unwrap();
    assert_eq!(fresh, CupHistory { teams: vec![team("FLA", &[])] });
    assert_eq!(get_cup_history(Stored::Found(history()), "nonsense").unwrap(), history());
    assert!(get_cup_history(Stored::Missing, "nonsense").is_err());
}

#[test]
fn a_missing_audit_log_is_empty() {
    assert_eq!(get_audit_log(Stored::Missing).unwrap(), AuditLog { entries: vec![] });
    let log = || AuditLog {
        entries: vec![AuditLogEntry {
            date: "2025-10-07".to_string(),
            starting_owner: "FLA".to_string(),
            game_result: "Won game - kept cup".to_string(),
            ending_owner: "FLA".to_string(),
            details: None,
        }],
    };
    assert_eq!(get_audit_log(Stored::Found(log())).unwrap(), log());
}

#[test]
fn documents_are_stored_under_their_keys() {
    assert_eq!(store_name(), "in_season_cup");
    let write = prepare_write(Document::State, Ok("{}".to_string())).unwrap();
    assert_eq!((write.key, write.body.as_str()), ("state", "{}"));
    assert_eq!(prepare_write(Document::CupHistory, Ok("x".to_string())).unwrap().key, "cup_history");
    assert_eq!(prepare_write(Document::AuditLog, Ok("x".to_string())).unwrap().key, "audit_log");
}

#[test]
fn failures_to_store_are_errors() {
    let reason = || Err("why".to_string());
    assert_eq!(prepare_write(Document::State, reason()).err().unwrap(), "Couldn't convert state to json: why");
    assert_eq!(prepare_write(Document::CupHistory, reason()).err().unwrap(), "Couldn't convert history to json: why");
    assert_eq!(prepare_write(Document::AuditLog, reason()).err().unwrap(), "Couldn't convert audit log to json: why");
    let reason = || Err("why".to_string());
    assert_eq!(confirm_write(Document::State, reason()).unwrap_err(), "Couldn't insert state into KV store: why");
    assert_eq!(confirm_write(Document::CupHistory, reason()).unwrap_err(), "Couldn't insert history into KV store: why");
    assert_eq!(confirm_write(Document::AuditLog, reason()).unwrap_err(), "Couldn't insert audit log into KV store: why");
    assert_eq!(confirm_write(Document::AuditLog, Ok(())), Ok(()));
}

#[test]
fn an_update_is_stored_state_first() {
    assert_eq!(next_write(None), Some(Document::State));
    assert_eq!(next_write(Some(Document::State)), Some(Document::CupHistory));
    assert_eq!(next_write(Some(Document::CupHistory)), Some(Document::AuditLog));
    assert_eq!(next_write(Some(Document::AuditLog)), None);
}
