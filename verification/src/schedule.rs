//! The league's schedule: where to ask for it, and how a team's game ended.

use vstd::prelude::*;

use crate::model::{Game, GameDayView, GameView, NHLSchedule};
use crate::text;

verus! {

/// Where the schedule of the week that starts on a date is to be had.
pub open spec fn schedule_address(date: Seq<char>) -> Seq<char> {
    "https://api-web.nhle.com/v1/schedule/"@ + date
}

/// Writes where the schedule of the week that starts on a date is to be had.
pub fn schedule_url(date: &str) -> (url: String)
    ensures
        url@ == schedule_address(date@),
{
    "https://api-web.nhle.com/v1/schedule/".to_owned().concat(date)
}

/// The games of the days of a schedule that carry a date, in order.
pub open spec fn games_on(days: Seq<GameDayView>, date: Seq<char>) -> Seq<GameView>
    decreases days.len(),
{
    if days.len() == 0 {
        Seq::empty()
    } else if days.last().date == date {
        games_on(days.drop_last(), date) + days.last().games
    } else {
        games_on(days.drop_last(), date)
    }
}

/// Whether a game is completed and a team took part in it.
pub open spec fn has_played(game: GameView, team: Seq<char>) -> bool {
    game.game_state == "OFF"@ && (game.away_team.abbrev == team || game.home_team.abbrev == team)
}

/// The first game of a list that a team has played.
pub open spec fn first_played(games: Seq<GameView>, team: Seq<char>) -> Option<GameView>
    decreases games.len(),
{
    if games.len() == 0 {
        None
    } else if has_played(games[0], team) {
        Some(games[0])
    } else {
        first_played(games.drop_first(), team)
    }
}

/// The number of goals, none where there is no score.
pub open spec fn goals(score: Option<u32>) -> u32 {
    match score {
        Some(goals) => goals,
        None => 0,
    }
}

/// How a game ended for a team: whether the team won, and who its opponent was. A game that the
/// team did not win counts as lost.
pub open spec fn team_outcome(game: GameView, team: Seq<char>) -> (bool, Seq<char>) {
    if game.away_team.abbrev == team {
        (goals(game.away_team.score) > goals(game.home_team.score), game.home_team.abbrev)
    } else {
        (goals(game.home_team.score) > goals(game.away_team.score), game.away_team.abbrev)
    }
}

/// The answer to whether a team won its game: nothing where it did not play, and otherwise whether
/// it won, and who its opponent was as far as that is known.
pub type GameResult = Option<(bool, Option<String>)>;

/// The view of a `GameResult`.
pub open spec fn result_view(result: GameResult) -> Option<(bool, Option<Seq<char>>)> {
    match result {
        Some((won, opponent)) => Some((won, text::opt_text(opponent))),
        None => None,
    }
}

/// How a team's game of a date ended, according to a schedule.
pub open spec fn game_result_on(
    schedule: Seq<GameDayView>,
    team: Seq<char>,
    date: Seq<char>,
) -> Option<(bool, Option<Seq<char>>)> {
    match first_played(games_on(schedule, date), team) {
        Some(game) => {
            let (won, opponent) = team_outcome(game, team);
            Some((won, Some(opponent)))
        },
        None => None,
    }
}

proof fn lemma_first_played_concat(a: Seq<GameView>, b: Seq<GameView>, team: Seq<char>)
    ensures
        first_played(a + b, team) == (match first_played(a, team) {
            Some(game) => Some(game),
            None => first_played(b, team),
        }),
    decreases a.len(),
{
    if a.len() == 0 {
        assert(a + b =~= b);
    } else {
        assert((a + b).drop_first() =~= a.drop_first() + b);
        lemma_first_played_concat(a.drop_first(), b, team);
    }
}

proof fn lemma_games_on_concat(a: Seq<GameDayView>, b: Seq<GameDayView>, date: Seq<char>)
    ensures
        games_on(a + b, date) == games_on(a, date) + games_on(b, date),
    decreases b.len(),
{
    if b.len() == 0 {
        assert(a + b =~= a);
        assert(games_on(a, date) + games_on(b, date) =~= games_on(a, date));
    } else {
        assert((a + b).drop_last() =~= a + b.drop_last());
        lemma_games_on_concat(a, b.drop_last(), date);
        assert(games_on(a + b, date) =~= games_on(a, date) + games_on(b, date));
    }
}

proof fn lemma_one_more_game(games: Seq<GameView>, i: int, team: Seq<char>)
    requires
        0 <= i < games.len(),
        first_played(games.take(i), team) is None,
    ensures
        has_played(games[i], team) ==> first_played(games, team) == Some(games[i]),
        !has_played(games[i], team) ==> first_played(games.take(i + 1), team) is None,
{
    reveal_with_fuel(first_played, 2);
    assert(games =~= games.take(i) + games.skip(i));
    lemma_first_played_concat(games.take(i), games.skip(i), team);
    assert(games.take(i + 1) =~= games.take(i) + seq![games[i]]);
    lemma_first_played_concat(games.take(i), seq![games[i]], team);
    assert(seq![games[i]].drop_first() =~= Seq::empty());
}

/// The first of the games of one day that a team has played, and how it ended for the team.
fn result_of_day(games: &Vec<Game>, team_abbrev: &str) -> (res: GameResult)
    ensures
        match first_played(games@.map_values(|g: Game| g@), team_abbrev@) {
            Some(game) => {
                let (won, opponent) = team_outcome(game, team_abbrev@);
                result_view(res) == Some((won, Some(opponent)))
            },
            None => res is None,
        },
{
    let ghost views = games@.map_values(|g: Game| g@);
    for i in 0..games.len()
        invariant
            views == games@.map_values(|g: Game| g@),
            first_played(views.take(i as int), team_abbrev@) is None,
    {
        let game = &games[i];
        proof {
            lemma_one_more_game(views, i as int, team_abbrev@);
            assert(views[i as int] == game@);
        }
        if *game.game_state.as_str() == *"OFF" {
            let is_away = *game.away_team.abbrev.as_str() == *team_abbrev;
            let is_home = *game.home_team.abbrev.as_str() == *team_abbrev;
            if is_away || is_home {
                let away_score: u32 = game.away_team.score.unwrap_or(0);
                let home_score: u32 = game.home_team.score.unwrap_or(0);
                let team_won = if is_away {
                    away_score > home_score
                } else {
                    home_score > away_score
                };
                let opponent = if is_away {
                    game.home_team.abbrev.clone()
                } else {
                    game.away_team.abbrev.clone()
                };
                return Some((team_won, Some(opponent)));
            }
        }
    }
    assert(views.take(games.len() as int) =~= views);
    None
}

/// Looks up how a team's game of a date ended.
pub fn find_game_result(team_abbrev: &str, date: &str, schedule: &NHLSchedule) -> (res: GameResult)
    ensures
        result_view(res) == game_result_on(schedule@, team_abbrev@, date@),
{
    let ghost days = schedule@;
    for i in 0..schedule.game_week.len()
        invariant
            days == schedule@,
            first_played(games_on(days.take(i as int), date@), team_abbrev@) is None,
    {
        let day = &schedule.game_week[i];
        assert(days[i as int] == day@);
        assert(days.take(i + 1).drop_last() =~= days.take(i as int));
        if *day.date.as_str() == *date {
            let found = result_of_day(&day.games, team_abbrev);
            proof {
                let before = games_on(days.take(i as int), date@);
                lemma_first_played_concat(before, day@.games, team_abbrev@);
                lemma_games_on_concat(days.take(i + 1), days.skip(i + 1), date@);
                assert(days =~= days.take(i + 1) + days.skip(i + 1));
                lemma_first_played_concat(
                    before + day@.games,
                    games_on(days.skip(i + 1), date@),
                    team_abbrev@,
                );
            }
            if found.is_some() {
                return found;
            }
        }
    }
    assert(days.take(schedule.game_week.len() as int) =~= days);
    None
}

/// What came back when the schedule was asked for.
pub enum ScheduleReply {
    /// The request failed, for the reason given.
    Failed(String),
    /// The answer was not a schedule, for the reason given.
    Unreadable(String),
    /// The schedule.
    Read(NHLSchedule),
}

/// Decides, from what came back when the schedule was asked for, whether a team played on a date
/// and whether it won.
pub fn check_team_game_result(team_abbrev: &str, date: &str, reply: &ScheduleReply) -> (res: Result<
    GameResult,
    String,
>)
    ensures
        match *reply {
            ScheduleReply::Failed(reason) => res matches Err(message) && message@ == reason@,
            ScheduleReply::Unreadable(reason) => res matches Err(message) && message@
                == "Failed to parse NHL API response: "@ + reason@,
            ScheduleReply::Read(schedule) => res matches Ok(result) && result_view(result) == game_result_on(
                schedule@,
                team_abbrev@,
                date@,
            ),
        },
{
    match reply {
        ScheduleReply::Failed(reason) => Err(reason.clone()),
        ScheduleReply::Unreadable(reason) => Err(
            "Failed to parse NHL API response: ".to_owned().concat(reason.as_str()),
        ),
        ScheduleReply::Read(schedule) => Ok(find_game_result(team_abbrev, date, schedule)),
    }
}

proof fn lemma_first_played(games: Seq<GameView>, team: Seq<char>)
    ensures
        match first_played(games, team) {
            Some(game) => games.contains(game) && has_played(game, team),
            None => forall|i: int| 0 <= i < games.len() ==> !has_played(#[trigger] games[i], team),
        },
    decreases games.len(),
{
    if games.len() > 0 && !has_played(games[0], team) {
        let rest = games.drop_first();
        lemma_first_played(rest, team);
        match first_played(rest, team) {
            Some(game) => {
                let k = rest.index_of(game);
                assert(games[k + 1] == game);
            },
            None => {
                assert forall|i: int| 0 <= i < games.len() implies !has_played(#[trigger] games[i], team) by {
                    if i > 0 {
                        assert(rest[i - 1] == games[i]);
                    }
                }
            },
        }
    }
}

proof fn lemma_games_on(days: Seq<GameDayView>, date: Seq<char>, game: GameView)
    ensures
        games_on(days, date).contains(game) <==> exists|d: int|
            0 <= d < days.len() && (#[trigger] days[d]).date == date && days[d].games.contains(game),
    decreases days.len(),
{
    if days.len() > 0 {
        let before = days.drop_last();
        let earlier = games_on(before, date);
        let last = days.last();
        lemma_games_on(before, date, game);
        if games_on(days, date).contains(game) {
            let k = games_on(days, date).index_of(game);
            if k < earlier.len() {
                assert(earlier[k] == game);
                assert(earlier.contains(game));
                let d = choose|d: int|
                    0 <= d < before.len() && (#[trigger] before[d]).date == date && before[d].games.contains(game);
                assert(days[d] == before[d]);
            } else {
                assert(last.games[k - earlier.len()] == game);
                assert(days[days.len() - 1] == last);
            }
        }
        if exists|d: int| 0 <= d < days.len() && (#[trigger] days[d]).date == date && days[d].games.contains(game) {
            let d = choose|d: int|
                0 <= d < days.len() && (#[trigger] days[d]).date == date && days[d].games.contains(game);
            if d < before.len() {
                assert(before[d] == days[d]);
                assert(earlier.contains(game));
                let k = earlier.index_of(game);
                assert(games_on(days, date)[k] == game);
            } else {
                let k = last.games.index_of(game);
                assert(games_on(days, date)[earlier.len() + k] == game);
            }
        }
    }
}

/// A team's result of a date comes from a completed game that the schedule lists for that date and
/// that the team took part in, and always names the opponent; there is no result only where there
/// is no such game.
pub proof fn result_comes_from_a_game(schedule: Seq<GameDayView>, team: Seq<char>, date: Seq<char>)
    ensures
        match game_result_on(schedule, team, date) {
            Some((won, opponent)) => exists|d: int, g: int|
                0 <= d < schedule.len() && schedule[d].date == date && 0 <= g < schedule[d].games.len()
                    && has_played(#[trigger] schedule[d].games[g], team) && opponent is Some && (
                won,
                opponent->0,
            ) == team_outcome(schedule[d].games[g], team),
            None => forall|d: int, g: int|
                0 <= d < schedule.len() && schedule[d].date == date && 0 <= g < schedule[d].games.len()
                    ==> !has_played(#[trigger] schedule[d].games[g], team),
        },
{
    let games = games_on(schedule, date);
    lemma_first_played(games, team);
    match first_played(games, team) {
        Some(game) => {
            lemma_games_on(schedule, date, game);
            let d = choose|d: int|
                0 <= d < schedule.len() && (#[trigger] schedule[d]).date == date && schedule[d].games.contains(
                    game,
                );
            let g = schedule[d].games.index_of(game);
            assert(schedule[d].games[g] == game);
        },
        None => {
            assert forall|d: int, g: int|
                0 <= d < schedule.len() && schedule[d].date == date && 0 <= g < schedule[d].games.len()
                implies !has_played(#[trigger] schedule[d].games[g], team) by {
                let game = schedule[d].games[g];
                assert(schedule[d].games.contains(game));
                lemma_games_on(schedule, date, game);
                let k = games.index_of(game);
                assert(!has_played(games[k], team));
            }
        },
    }
}

/// In a game of two different teams each is the other's opponent, at most one of them wins, and
/// neither does exactly where the goals are equal.
pub proof fn game_has_at_most_one_winner(game: GameView)
    requires
        game.away_team.abbrev != game.home_team.abbrev,
    ensures
        team_outcome(game, game.away_team.abbrev).1 == game.home_team.abbrev,
        team_outcome(game, game.home_team.abbrev).1 == game.away_team.abbrev,
        !(team_outcome(game, game.away_team.abbrev).0 && team_outcome(game, game.home_team.abbrev).0),
        !team_outcome(game, game.away_team.abbrev).0 && !team_outcome(game, game.home_team.abbrev).0 <==> goals(
            game.away_team.score,
        ) == goals(game.home_team.score),
{
}

/// In a game that both teams have a score in, a team wins exactly where its own score is the higher
/// one, and the other team is its opponent. Where a team plays against itself, the scores are taken
/// as those of the away team.
pub proof fn higher_score_wins(game: GameView, away: u32, home: u32)
    requires
        game.away_team.score == Some(away),
        game.home_team.score == Some(home),
    ensures
        team_outcome(game, game.away_team.abbrev).0 <==> away > home,
        team_outcome(game, game.away_team.abbrev).1 == game.home_team.abbrev,
        game.home_team.abbrev != game.away_team.abbrev ==> (team_outcome(game, game.home_team.abbrev).0 <==> home
            > away),
        game.home_team.abbrev != game.away_team.abbrev ==> team_outcome(game, game.home_team.abbrev).1
            == game.away_team.abbrev,
{
}

/// A team without a score has scored nothing: it never wins, and a team that has scored wins against
/// it.
pub proof fn team_without_score_does_not_win(game: GameView)
    requires
        game.away_team.abbrev != game.home_team.abbrev,
    ensures
        game.away_team.score is None ==> !team_outcome(game, game.away_team.abbrev).0,
        game.away_team.score is None ==> (team_outcome(game, game.home_team.abbrev).0 <==> (
        game.home_team.score matches Some(score) && score > 0)),
        game.home_team.score is None ==> !team_outcome(game, game.home_team.abbrev).0,
        game.home_team.score is None ==> (team_outcome(game, game.away_team.abbrev).0 <==> (
        game.away_team.score matches Some(score) && score > 0)),
{
}

proof fn lemma_first_played_at(games: Seq<GameView>, team: Seq<char>, i: int)
    requires
        0 <= i < games.len(),
        has_played(games[i], team),
        forall|j: int| 0 <= j < i ==> !has_played(#[trigger] games[j], team),
    ensures
        first_played(games, team) == Some(games[i]),
    decreases games.len(),
{
    if i > 0 {
        let rest = games.drop_first();
        assert forall|j: int| 0 <= j < i - 1 implies !has_played(#[trigger] rest[j], team) by {
            assert(rest[j] == games[j + 1]);
        }
        lemma_first_played_at(rest, team, i - 1);
    }
}

proof fn lemma_games_of_earlier_days(days: Seq<GameDayView>, date: Seq<char>, team: Seq<char>)
    requires
        forall|d: int, g: int|
            0 <= d < days.len() && days[d].date == date && 0 <= g < days[d].games.len() ==> !has_played(
                #[trigger] days[d].games[g],
                team,
            ),
    ensures
        forall|i: int| 0 <= i < games_on(days, date).len() ==> !has_played(#[trigger] games_on(days, date)[i], team),
{
    let games = games_on(days, date);
    assert forall|i: int| 0 <= i < games.len() implies !has_played(#[trigger] games[i], team) by {
        let game = games[i];
        assert(games.contains(game));
        lemma_games_on(days, date, game);
        let d = choose|d: int|
            0 <= d < days.len() && (#[trigger] days[d]).date == date && days[d].games.contains(game);
        let g = days[d].games.index_of(game);
        assert(days[d].games[g] == game);
    }
}

/// A team's result of a date is that of the first completed game of the team that the schedule lists
/// for that date: the team won exactly where it has the higher score, a missing score counting as
/// none, and the opponent is the other team of the game.
pub proof fn first_completed_game_decides(
    schedule: Seq<GameDayView>,
    team: Seq<char>,
    date: Seq<char>,
    d: int,
    g: int,
)
    requires
        0 <= d < schedule.len(),
        schedule[d].date == date,
        0 <= g < schedule[d].games.len(),
        schedule[d].games[g].game_state == "OFF"@,
        schedule[d].games[g].away_team.abbrev == team || schedule[d].games[g].home_team.abbrev == team,
        forall|e: int, f: int|
            0 <= e <= d && schedule[e].date == date && 0 <= f < schedule[e].games.len() && (e < d || f < g)
                && #[trigger] schedule[e].games[f].game_state == "OFF"@ ==> schedule[e].games[f].away_team.abbrev
                != team && schedule[e].games[f].home_team.abbrev != team,
    ensures
        game_result_on(schedule, team, date) matches Some((won, opponent)) && {
            let game = schedule[d].games[g];
            let (own, other) = if game.away_team.abbrev == team {
                (game.away_team, game.home_team)
            } else {
                (game.home_team, game.away_team)
            };
            &&& opponent == Some(other.abbrev)
            &&& won <==> (own.score matches Some(scored) && (other.score matches Some(against) ==> scored > against)
                && (other.score is None ==> scored > 0))
        },
{
    let before = games_on(schedule.take(d), date);
    let rest = games_on(schedule.skip(d + 1), date);
    let day = schedule[d].games;
    let games = before + day + rest;
    assert(games_on(schedule, date) == games) by {
        assert(schedule =~= schedule.take(d + 1) + schedule.skip(d + 1));
        lemma_games_on_concat(schedule.take(d + 1), schedule.skip(d + 1), date);
        assert(schedule.take(d + 1).drop_last() =~= schedule.take(d));
    }
    assert forall|e: int, f: int|
        0 <= e < schedule.take(d).len() && schedule.take(d)[e].date == date && 0 <= f < schedule.take(
            d,
        )[e].games.len() implies !has_played(#[trigger] schedule.take(d)[e].games[f], team) by {
        assert(schedule.take(d)[e].games[f] == schedule[e].games[f]);
    }
    lemma_games_of_earlier_days(schedule.take(d), date, team);
    let place = before.len() + g;
    assert(games[place] == day[g]);
    assert forall|j: int| 0 <= j < place implies !has_played(#[trigger] games[j], team) by {
        if j < before.len() {
            assert(games[j] == before[j]);
        } else {
            assert(games[j] == schedule[d].games[j - before.len()]);
        }
    }
    lemma_first_played_at(games, team, place);
}

/// A team has no result of a date exactly where the schedule lists no completed game of the team for
/// that date. Other days, other teams and games that are not completed do not matter.
pub proof fn no_completed_game_no_result(schedule: Seq<GameDayView>, team: Seq<char>, date: Seq<char>)
    ensures
        game_result_on(schedule, team, date) is None <==> forall|d: int, g: int|
            0 <= d < schedule.len() && schedule[d].date == date && 0 <= g < schedule[d].games.len()
                && #[trigger] schedule[d].games[g].game_state == "OFF"@ ==> schedule[d].games[g].away_team.abbrev
                != team && schedule[d].games[g].home_team.abbrev != team,
{
    result_comes_from_a_game(schedule, team, date);
    if game_result_on(schedule, team, date) is Some {
        let (d, g) = choose|d: int, g: int|
            0 <= d < schedule.len() && schedule[d].date == date && 0 <= g < schedule[d].games.len() && has_played(
                #[trigger] schedule[d].games[g],
                team,
            );
        assert(schedule[d].games[g].game_state == "OFF"@);
    } else {
        assert forall|d: int, g: int|
            0 <= d < schedule.len() && schedule[d].date == date && 0 <= g < schedule[d].games.len()
                && #[trigger] schedule[d].games[g].game_state == "OFF"@ implies schedule[d].games[g].away_team.abbrev
            != team && schedule[d].games[g].home_team.abbrev != team by {
            assert(!has_played(schedule[d].games[g], team));
        }
    }
}

/// A result stands for what it holds.
pub proof fn result_view_shows_the_result(won: bool, opponent: String)
    ensures
        result_view(None) is None,
        result_view(Some((won, Some(opponent)))) == Some((won, Some(opponent@))),
        result_view(Some((won, None))) == Some((won, None::<Seq<char>>)),
{
}

/// The schedule of a date is asked for under the league's address, which ends with the date.
pub proof fn schedule_address_ends_with_the_date(date: Seq<char>)
    ensures
        schedule_address(date) == "https://api-web.nhle.com/v1/schedule/"@ + date,
{
}

} // verus!
