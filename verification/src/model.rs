//! What is kept about the cup, and what the league's schedule says, each with its view.

use vstd::prelude::*;

use crate::text::{opt_text, texts};

verus! {

/// A team's part in a game: its abbreviation, and its score once there is one.
#[derive(Debug, PartialEq, Eq)]
pub struct Team {
    pub abbrev: String,
    pub score: Option<u32>,
}

pub struct TeamView {
    pub abbrev: Seq<char>,
    pub score: Option<u32>,
}

impl View for Team {
    type V = TeamView;

    open spec fn view(&self) -> TeamView {
        TeamView { abbrev: self.abbrev@, score: self.score }
    }
}

/// A game of the schedule. The state of a completed game is `OFF`.
#[derive(Debug, PartialEq, Eq)]
pub struct Game {
    pub game_state: String,
    pub away_team: Team,
    pub home_team: Team,
}

pub struct GameView {
    pub game_state: Seq<char>,
    pub away_team: TeamView,
    pub home_team: TeamView,
}

impl View for Game {
    type V = GameView;

    open spec fn view(&self) -> GameView {
        GameView {
            game_state: self.game_state@,
            away_team: self.away_team@,
            home_team: self.home_team@,
        }
    }
}

/// The games of one day.
#[derive(Debug, PartialEq, Eq)]
pub struct GameDay {
    pub date: String,
    pub games: Vec<Game>,
}

pub struct GameDayView {
    pub date: Seq<char>,
    pub games: Seq<GameView>,
}

impl View for GameDay {
    type V = GameDayView;

    open spec fn view(&self) -> GameDayView {
        GameDayView { date: self.date@, games: self.games@.map_values(|g: Game| g@) }
    }
}

/// The schedule of a week.
#[derive(Debug, PartialEq, Eq)]
pub struct NHLSchedule {
    pub game_week: Vec<GameDay>,
}

impl View for NHLSchedule {
    type V = Seq<GameDayView>;

    open spec fn view(&self) -> Seq<GameDayView> {
        self.game_week@.map_values(|d: GameDay| d@)
    }
}

/// The days on which a team has held the cup, as `YYYY-MM-DD`.
#[derive(Clone, Debug, PartialEq, Eq)]
pub struct TeamCupHistory {
    pub team: String,
    pub cup_days: Vec<String>,
}

pub struct TeamCupHistoryView {
    pub team: Seq<char>,
    pub cup_days: Seq<Seq<char>>,
}

impl View for TeamCupHistory {
    type V = TeamCupHistoryView;

    open spec fn view(&self) -> TeamCupHistoryView {
        TeamCupHistoryView { team: self.team@, cup_days: texts(self.cup_days@) }
    }
}

/// The cup days of every team.
#[derive(Debug, PartialEq, Eq)]
pub struct CupHistory {
    pub teams: Vec<TeamCupHistory>,
}

impl View for CupHistory {
    type V = Seq<TeamCupHistoryView>;

    open spec fn view(&self) -> Seq<TeamCupHistoryView> {
        self.teams@.map_values(|t: TeamCupHistory| t@)
    }
}

/// What happened to the cup on one day.
#[derive(Clone, Debug, PartialEq, Eq)]
pub struct AuditLogEntry {
    /// The day, as `YYYY-MM-DD`.
    pub date: String,
    /// The team that started the day with the cup.
    pub starting_owner: String,
    /// What happened: won, lost, did not play, or an error.
    pub game_result: String,
    /// The team that ended the day with the cup.
    pub ending_owner: String,
    /// Additional details, such as an error message.
    pub details: Option<String>,
}

pub struct AuditLogEntryView {
    pub date: Seq<char>,
    pub starting_owner: Seq<char>,
    pub game_result: Seq<char>,
    pub ending_owner: Seq<char>,
    pub details: Option<Seq<char>>,
}

impl View for AuditLogEntry {
    type V = AuditLogEntryView;

    open spec fn view(&self) -> AuditLogEntryView {
        AuditLogEntryView {
            date: self.date@,
            starting_owner: self.starting_owner@,
            game_result: self.game_result@,
            ending_owner: self.ending_owner@,
            details: opt_text(self.details),
        }
    }
}

/// The days that have been processed, in the order in which they were.
#[derive(Debug, PartialEq, Eq)]
pub struct AuditLog {
    pub entries: Vec<AuditLogEntry>,
}

impl View for AuditLog {
    type V = Seq<AuditLogEntryView>;

    open spec fn view(&self) -> Seq<AuditLogEntryView> {
        self.entries@.map_values(|e: AuditLogEntry| e@)
    }
}

/// The next game of the team that holds the cup.
#[derive(Debug, PartialEq, Eq)]
pub struct NextGame {
    /// The day, as `YYYY-MM-DD`.
    pub date: String,
    /// When the game starts.
    pub time: String,
    /// The abbreviation of the other team.
    pub opponent: String,
    /// Whether the holder of the cup is the home team.
    pub is_home: bool,
    /// The name of the venue.
    pub venue: String,
}

pub struct NextGameView {
    pub date: Seq<char>,
    pub time: Seq<char>,
    pub opponent: Seq<char>,
    pub is_home: bool,
    pub venue: Seq<char>,
}

impl View for NextGame {
    type V = NextGameView;

    open spec fn view(&self) -> NextGameView {
        NextGameView {
            date: self.date@,
            time: self.time@,
            opponent: self.opponent@,
            is_home: self.is_home,
            venue: self.venue@,
        }
    }
}

/// A team, a game, a day and a schedule stand for what they hold: every day and every game is there,
/// in its place, with its teams and their scores.
pub proof fn schedule_views_show_the_schedule(team: Team, game: Game, day: GameDay, schedule: NHLSchedule)
    ensures
        team@.abbrev == team.abbrev@,
        team@.score == team.score,
        game@.game_state == game.game_state@,
        game@.away_team == game.away_team@,
        game@.home_team == game.home_team@,
        day@.date == day.date@,
        day@.games.len() == day.games@.len(),
        forall|i: int| 0 <= i < day.games@.len() ==> #[trigger] day@.games[i] == day.games@[i]@,
        schedule@.len() == schedule.game_week@.len(),
        forall|i: int| 0 <= i < schedule.game_week@.len() ==> #[trigger] schedule@[i] == schedule.game_week@[i]@,
{
}

/// A history and a log stand for what they hold: every team with its days and every entry is there,
/// in its place.
pub proof fn record_views_show_the_records(
    team: TeamCupHistory,
    history: CupHistory,
    entry: AuditLogEntry,
    log: AuditLog,
)
    ensures
        team@.team == team.team@,
        team@.cup_days.len() == team.cup_days@.len(),
        forall|i: int| 0 <= i < team.cup_days@.len() ==> #[trigger] team@.cup_days[i] == team.cup_days@[i]@,
        history@.len() == history.teams@.len(),
        forall|i: int| 0 <= i < history.teams@.len() ==> #[trigger] history@[i] == history.teams@[i]@,
        entry@.date == entry.date@,
        entry@.starting_owner == entry.starting_owner@,
        entry@.game_result == entry.game_result@,
        entry@.ending_owner == entry.ending_owner@,
        entry.details is None <==> entry@.details is None,
        entry.details matches Some(details) ==> entry@.details == Some(details@),
        log@.len() == log.entries@.len(),
        forall|i: int| 0 <= i < log.entries@.len() ==> #[trigger] log@[i] == log.entries@[i]@,
{
}

/// A next game stands for what it holds.
pub proof fn next_game_view_shows_the_game(game: NextGame)
    ensures
        game@.date == game.date@,
        game@.time == game.time@,
        game@.opponent == game.opponent@,
        game@.is_home == game.is_home,
        game@.venue == game.venue@,
{
}

} // verus!
