//! Looking for the next game of the team that holds the cup.
//!
//! A search asks for the schedule of one day after the other, from tomorrow on, until it comes upon
//! a game of the team or has asked for the last day that it looks ahead to. An answer that is of no
//! use is passed over.

use serde_json::Value;
use vstd::prelude::*;

use crate::calendar;
use crate::calendar::{pst_date_text, Timestamp, DAY_SECS};
use crate::json;
use crate::json::{member, parse, Json};
use crate::model::{NextGame, NextGameView};
use crate::schedule;
use crate::schedule::schedule_url;
use crate::state::CupState;

verus! {

/// How many days ahead a search looks.
pub const DAYS_AHEAD: u32 = 30;

/// A game to come, as far as a search reads it.
#[derive(Debug, PartialEq, Eq)]
pub struct ScheduledGame {
    /// The abbreviation of the away team, empty where it is not given.
    pub away_team: String,
    /// The abbreviation of the home team, empty where it is not given.
    pub home_team: String,
    /// When the game starts, `TBD` where it is not given.
    pub start_time: String,
    /// The name of the venue, `TBD` where it is not given.
    pub venue: String,
}

pub struct ScheduledGameView {
    pub away_team: Seq<char>,
    pub home_team: Seq<char>,
    pub start_time: Seq<char>,
    pub venue: Seq<char>,
}

impl View for ScheduledGame {
    type V = ScheduledGameView;

    open spec fn view(&self) -> ScheduledGameView {
        ScheduledGameView {
            away_team: self.away_team@,
            home_team: self.home_team@,
            start_time: self.start_time@,
            venue: self.venue@,
        }
    }
}

/// A JSON text, or a substitute for what is not one.
pub open spec fn text_or(value: Json, substitute: Seq<char>) -> Seq<char> {
    match value {
        Json::Text(text) => text,
        _ => substitute,
    }
}

/// A game of a schedule.
pub open spec fn scheduled_game(game: Json) -> ScheduledGameView {
    ScheduledGameView {
        away_team: text_or(json::field(json::field(game, "awayTeam"@), "abbrev"@), ""@),
        home_team: text_or(json::field(json::field(game, "homeTeam"@), "abbrev"@), ""@),
        start_time: text_or(json::field(game, "startTimeUTC"@), "TBD"@),
        venue: text_or(json::field(json::field(game, "venue"@), "default"@), "TBD"@),
    }
}

/// The games of a day of a schedule.
pub open spec fn day_games(day: Json) -> Seq<ScheduledGameView> {
    match json::field(day, "games"@) {
        Json::List(games) => games.map_values(|game: Json| scheduled_game(game)),
        _ => Seq::empty(),
    }
}

/// The games of several days, one day after the other.
pub open spec fn days_games(days: Seq<Json>) -> Seq<ScheduledGameView>
    decreases days.len(),
{
    if days.len() == 0 {
        Seq::empty()
    } else {
        days_games(days.drop_last()) + day_games(days.last())
    }
}

/// The games of a schedule, in order.
pub open spec fn scheduled_games(schedule: Json) -> Seq<ScheduledGameView> {
    match json::field(schedule, "gameWeek"@) {
        Json::List(days) => days_games(days),
        _ => Seq::empty(),
    }
}

fn text_of(value: &Value, substitute: &str) -> (res: String)
    ensures
        res@ == text_or(json::value_tree(*value), substitute@),
{
    match value.as_str() {
        Some(text) => text.to_owned(),
        None => substitute.to_owned(),
    }
}

fn read_game(game: &Value) -> (res: ScheduledGame)
    ensures
        res@ == scheduled_game(json::value_tree(*game)),
{
    ScheduledGame {
        away_team: text_of(member(member(game, "awayTeam"), "abbrev"), ""),
        home_team: text_of(member(member(game, "homeTeam"), "abbrev"), ""),
        start_time: text_of(member(game, "startTimeUTC"), "TBD"),
        venue: text_of(member(member(game, "venue"), "default"), "TBD"),
    }
}

fn push_day_games(day: &Value, games: &mut Vec<ScheduledGame>)
    ensures
        final(games)@.map_values(|g: ScheduledGame| g@) == old(games)@.map_values(|g: ScheduledGame| g@)
            + day_games(json::value_tree(*day)),
{
    let ghost before = games@.map_values(|g: ScheduledGame| g@);
    match member(day, "games").as_array() {
        Some(items) => {
            let ghost trees = json::field(json::value_tree(*day), "games"@)->List_0;
            let ghost views = trees.map_values(|game: Json| scheduled_game(game));
            assert(before + views.take(0) =~= before);
            for i in 0..items.len()
                invariant
                    items@.len() == trees.len(),
                    views == trees.map_values(|game: Json| scheduled_game(game)),
                    forall|k: int| 0 <= k < trees.len() ==> json::value_tree(#[trigger] items@[k]) == trees[k],
                    games@.map_values(|g: ScheduledGame| g@) == before + views.take(i as int),
            {
                let ghost so_far = games@.map_values(|g: ScheduledGame| g@);
                let game = read_game(&items[i]);
                assert(game@ == views[i as int]);
                games.push(game);
                assert(games@.map_values(|g: ScheduledGame| g@) =~= so_far.push(views[i as int]));
                assert(before + views.take(i + 1) =~= so_far.push(views[i as int]));
            }
            assert(views.take(items.len() as int) =~= views);
        },
        None => {
            assert(before + day_games(json::value_tree(*day)) =~= before);
        },
    }
}

/// Reads the games of a schedule. What is not a list where a list should be is passed over.
pub fn read_scheduled_games(schedule: &Value) -> (games: Vec<ScheduledGame>)
    ensures
        games@.map_values(|g: ScheduledGame| g@) == scheduled_games(json::value_tree(*schedule)),
{
    let mut games: Vec<ScheduledGame> = Vec::new();
    assert(games@.map_values(|g: ScheduledGame| g@) =~= Seq::empty());
    match member(schedule, "gameWeek").as_array() {
        Some(days) => {
            let ghost trees = json::field(json::value_tree(*schedule), "gameWeek"@)->List_0;
            for i in 0..days.len()
                invariant
                    days@.len() == trees.len(),
                    forall|k: int| 0 <= k < trees.len() ==> json::value_tree(#[trigger] days@[k]) == trees[k],
                    games@.map_values(|g: ScheduledGame| g@) == days_games(trees.take(i as int)),
            {
                assert(trees.take(i + 1).drop_last() =~= trees.take(i as int));
                assert(json::value_tree(days@[i as int]) == trees[i as int]);
                push_day_games(&days[i], &mut games);
            }
            assert(trees.take(days.len() as int) =~= trees);
        },
        None => {},
    }
    games
}

/// Whether a team takes part in a game.
pub open spec fn takes_part(game: ScheduledGameView, team: Seq<char>) -> bool {
    game.away_team == team || game.home_team == team
}

/// A game as the next game of a team that takes part in it, on the date that was asked for.
pub open spec fn as_next_game(game: ScheduledGameView, team: Seq<char>, date: Seq<char>) -> NextGameView {
    NextGameView {
        date,
        time: game.start_time,
        opponent: if game.away_team == team {
            game.home_team
        } else {
            game.away_team
        },
        is_home: game.home_team == team,
        venue: game.venue,
    }
}

/// The first game of a list that a team takes part in, as its next game.
pub open spec fn first_next_game(
    games: Seq<ScheduledGameView>,
    team: Seq<char>,
    date: Seq<char>,
) -> Option<NextGameView>
    decreases games.len(),
{
    if games.len() == 0 {
        None
    } else if takes_part(games[0], team) {
        Some(as_next_game(games[0], team, date))
    } else {
        first_next_game(games.drop_first(), team, date)
    }
}

/// The view of an optional `NextGame`.
pub open spec fn next_game_view(game: Option<NextGame>) -> Option<NextGameView> {
    match game {
        Some(game) => Some(game@),
        None => None,
    }
}

/// Finds the first game of a list that a team takes part in.
pub fn find_game(games: &Vec<ScheduledGame>, team: &str, date: &str) -> (res: Option<NextGame>)
    ensures
        next_game_view(res) == first_next_game(games@.map_values(|g: ScheduledGame| g@), team@, date@),
{
    let ghost views = games@.map_values(|g: ScheduledGame| g@);
    assert(views.skip(0) =~= views);
    for i in 0..games.len()
        invariant
            views == games@.map_values(|g: ScheduledGame| g@),
            first_next_game(views, team@, date@) == first_next_game(views.skip(i as int), team@, date@),
    {
        let game = &games[i];
        assert(views.skip(i as int)[0] == game@);
        assert(views.skip(i as int).drop_first() =~= views.skip(i + 1));
        let is_away = *game.away_team.as_str() == *team;
        let is_home = *game.home_team.as_str() == *team;
        if is_away || is_home {
            let opponent = if is_away {
                game.home_team.clone()
            } else {
                game.away_team.clone()
            };
            return Some(
                NextGame {
                    date: date.to_owned(),
                    time: game.start_time.clone(),
                    opponent,
                    is_home,
                    venue: game.venue.clone(),
                },
            );
        }
    }
    None
}

/// What came back when the schedule of a day was asked for.
pub enum SearchReply {
    /// The request failed.
    Failed,
    /// There was an answer, with a status and a body.
    Answered { status: u16, body: String },
}

pub enum SearchReplyView {
    Failed,
    Answered { status: u16, body: Seq<char> },
}

impl View for SearchReply {
    type V = SearchReplyView;

    open spec fn view(&self) -> SearchReplyView {
        match self {
            SearchReply::Failed => SearchReplyView::Failed,
            SearchReply::Answered { status, body } => SearchReplyView::Answered { status: *status, body: body@ },
        }
    }
}

/// Tells whether the body of an answer with the given status is of use.
pub fn reads_body(status: u16) -> (res: bool)
    ensures
        res == (status == 200),
{
    status == 200
}

/// The game of a team that an answer shows, if it shows one: none where the request failed, where
/// the status is not that of success, or where the body is not JSON.
pub open spec fn game_in_reply(reply: SearchReplyView, team: Seq<char>, date: Seq<char>) -> Option<NextGameView> {
    match reply {
        SearchReplyView::Answered { status, body } => if status == 200 {
            match json::json_from_str(body) {
                Ok(schedule) => first_next_game(scheduled_games(schedule), team, date),
                Err(_) => None,
            }
        } else {
            None
        },
        SearchReplyView::Failed => None,
    }
}

/// Finds the game of a team in what came back when the schedule of a date was asked for.
pub fn find_game_in_reply(reply: &SearchReply, team: &str, date: &str) -> (res: Option<NextGame>)
    ensures
        next_game_view(res) == game_in_reply(reply@, team@, date@),
{
    match reply {
        SearchReply::Answered { status, body } => {
            if !reads_body(*status) {
                return None;
            }
            match parse(body.as_str()) {
                Ok(schedule) => find_game(&read_scheduled_games(&schedule), team, date),
                Err(_) => None,
            }
        },
        SearchReply::Failed => None,
    }
}

/// A search on its way.
pub struct SearchView {
    /// The team that holds the cup.
    pub holder: Seq<char>,
    /// The day on which the search started.
    pub today: int,
    /// How many days after it the next day to be asked for is.
    pub days_ahead: int,
}

impl SearchView {
    /// The next day to be asked for, as it is written.
    pub open spec fn next_date(self) -> Seq<char> {
        calendar::day_text(self.today + self.days_ahead)
    }

    /// The game that the answer for the `k`th day from here shows, if it shows one.
    pub open spec fn game_of_day(self, replies: Seq<SearchReplyView>, k: int) -> Option<NextGameView> {
        game_in_reply(replies[k], self.holder, calendar::day_text(self.today + self.days_ahead + k))
    }

    /// What a search comes to, given what comes back for one day after the other.
    pub open spec fn outcome(self, replies: Seq<SearchReplyView>) -> Option<NextGameView>
        decreases replies.len(),
    {
        if replies.len() == 0 || self.days_ahead > DAYS_AHEAD {
            None
        } else {
            match game_in_reply(replies[0], self.holder, self.next_date()) {
                Some(game) => Some(game),
                None => SearchView { days_ahead: self.days_ahead + 1, ..self }.outcome(replies.drop_first()),
            }
        }
    }
}

/// Whether a search can start at a moment: all of the days that it may ask for lie within the
/// calendar.
pub open spec fn can_search(now: Timestamp) -> bool {
    &&& now.wf()
    &&& calendar::in_calendar(now.secs - calendar::PST_WEST)
    &&& calendar::in_calendar(now.secs + DAY_SECS * DAYS_AHEAD)
}

/// Tells whether a search can start at a moment.
pub fn may_search(now: &Timestamp) -> (res: bool)
    ensures
        res == can_search(*now),
{
    now.is_wf() && now.secs >= calendar::MIN_SECS + calendar::PST_WEST as i64 && now.secs <= calendar::MAX_SECS
        - DAY_SECS * DAYS_AHEAD as i64
}

/// A day to be asked for.
pub struct SearchQuery {
    /// The day, as `YYYY-MM-DD`.
    pub date: String,
    /// Where the schedule of the day is to be had.
    pub url: String,
}

/// A search on its way.
pub struct NextGameSearch {
    holder: String,
    now: i64,
    days_ahead: u32,
}

impl View for NextGameSearch {
    type V = SearchView;

    closed spec fn view(&self) -> SearchView {
        SearchView {
            holder: self.holder@,
            today: calendar::pst_day(self.now as int),
            days_ahead: self.days_ahead as int,
        }
    }
}

impl NextGameSearch {
    /// What holds of every search on its way: the days that it may still ask for lie within the
    /// calendar.
    pub closed spec fn wf(self) -> bool {
        &&& 1 <= self.days_ahead <= DAYS_AHEAD + 1
        &&& calendar::in_calendar(self.now as int)
        &&& calendar::in_calendar(self.now - calendar::PST_WEST)
        &&& calendar::in_calendar(self.now + DAY_SECS * DAYS_AHEAD)
    }

    /// Starts a search for the next game of the team that holds the cup.
    pub fn start(cup_state: CupState, now: Timestamp) -> (search: Self)
        requires
            can_search(now),
        ensures
            search.wf(),
            search@ == (SearchView {
                holder: cup_state@.current_owner,
                today: calendar::pst_day(now.secs as int),
                days_ahead: 1,
            }),
    {
        NextGameSearch { holder: cup_state.current_owner, now: now.secs, days_ahead: 1 }
    }

    /// The next day to be asked for, until all have been.
    pub fn next_query(&self) -> (res: Option<SearchQuery>)
        requires
            self.wf(),
        ensures
            match res {
                Some(query) => {
                    &&& self@.days_ahead <= DAYS_AHEAD
                    &&& query.date@ == self@.next_date()
                    &&& query.url@ == schedule::schedule_address(self@.next_date())
                },
                None => self@.days_ahead == DAYS_AHEAD + 1,
            },
    {
        if self.days_ahead <= DAYS_AHEAD {
            let date = self.write_next_date();
            let url = schedule_url(date.as_str());
            Some(SearchQuery { date, url })
        } else {
            None
        }
    }

    fn write_next_date(&self) -> (date: String)
        requires
            self.wf(),
            self.days_ahead <= DAYS_AHEAD,
        ensures
            date@ == self@.next_date(),
    {
        pst_date_text(self.now + DAY_SECS * self.days_ahead as i64)
    }

    /// Takes what came back for the day that was asked for, and gives the game if it shows one.
    pub fn take_reply(&mut self, reply: &SearchReply) -> (res: Option<NextGame>)
        requires
            old(self).wf(),
            old(self)@.days_ahead <= DAYS_AHEAD,
        ensures
            final(self).wf(),
            final(self)@ == (SearchView { days_ahead: old(self)@.days_ahead + 1, ..old(self)@ }),
            next_game_view(res) == game_in_reply(reply@, old(self)@.holder, old(self)@.next_date()),
    {
        let date = self.write_next_date();
        let found = find_game_in_reply(reply, self.holder.as_str(), date.as_str());
        self.days_ahead = self.days_ahead + 1;
        found
    }
}

/// The next game of a team is the first game of the list that the team takes part in; there is none
/// only where it takes part in none.
pub proof fn next_game_is_the_first_of_the_team(games: Seq<ScheduledGameView>, team: Seq<char>, date: Seq<char>)
    ensures
        match first_next_game(games, team, date) {
            Some(next) => exists|i: int|
                0 <= i < games.len() && takes_part(#[trigger] games[i], team) && next == as_next_game(
                    games[i],
                    team,
                    date,
                ) && forall|j: int| 0 <= j < i ==> !takes_part(#[trigger] games[j], team),
            None => forall|i: int| 0 <= i < games.len() ==> !takes_part(#[trigger] games[i], team),
        },
    decreases games.len(),
{
    if games.len() > 0 {
        if !takes_part(games[0], team) {
            let rest = games.drop_first();
            next_game_is_the_first_of_the_team(rest, team, date);
            match first_next_game(rest, team, date) {
                Some(next) => {
                    let i = choose|i: int|
                        0 <= i < rest.len() && takes_part(#[trigger] rest[i], team) && next == as_next_game(
                            rest[i],
                            team,
                            date,
                        ) && forall|j: int| 0 <= j < i ==> !takes_part(#[trigger] rest[j], team);
                    assert(games[i + 1] == rest[i]);
                    assert forall|j: int| 0 <= j < i + 1 implies !takes_part(#[trigger] games[j], team) by {
                        if j > 0 {
                            assert(games[j] == rest[j - 1]);
                        }
                    }
                },
                None => {
                    assert forall|i: int| 0 <= i < games.len() implies !takes_part(#[trigger] games[i], team) by {
                        if i > 0 {
                            assert(games[i] == rest[i - 1]);
                        }
                    }
                },
            }
        }
    }
}

/// In a game of two different teams, the next game of each names the other one as its opponent, and
/// exactly the home team plays at home.
pub proof fn next_game_names_the_other_team(game: ScheduledGameView, date: Seq<char>)
    requires
        game.away_team != game.home_team,
    ensures
        as_next_game(game, game.away_team, date).opponent == game.home_team,
        !as_next_game(game, game.away_team, date).is_home,
        as_next_game(game, game.home_team, date).opponent == game.away_team,
        as_next_game(game, game.home_team, date).is_home,
{
}

/// A search comes to the game of the first day, of those that it looks ahead to, whose answer shows
/// one, and to nothing only where no answer does. The days are the ones after the day on which the
/// search started, one after the other.
pub proof fn search_stops_at_the_first_game(search: SearchView, replies: Seq<SearchReplyView>)
    ensures
        match search.outcome(replies) {
            Some(next) => exists|k: int|
                0 <= k < replies.len() && search.days_ahead + k <= DAYS_AHEAD && #[trigger] search.game_of_day(
                    replies,
                    k,
                ) == Some(next) && forall|j: int| 0 <= j < k ==> #[trigger] search.game_of_day(replies, j) is None,
            None => forall|k: int|
                0 <= k < replies.len() && search.days_ahead + k <= DAYS_AHEAD ==> #[trigger] search.game_of_day(
                    replies,
                    k,
                ) is None,
        },
    decreases replies.len(),
{
    if replies.len() > 0 && search.days_ahead <= DAYS_AHEAD {
        let later = SearchView { days_ahead: search.days_ahead + 1, ..search };
        let rest = replies.drop_first();
        search_stops_at_the_first_game(later, rest);
        assert forall|k: int| 0 < k < replies.len() implies #[trigger] search.game_of_day(replies, k)
            == later.game_of_day(rest, k - 1) by {
            assert(replies[k] == rest[k - 1]);
        }
        assert(search.game_of_day(replies, 0) == game_in_reply(replies[0], search.holder, search.next_date()));
        if search.game_of_day(replies, 0) is None && later.outcome(rest) is Some {
            let next = later.outcome(rest)->0;
            let k = choose|k: int|
                0 <= k < rest.len() && later.days_ahead + k <= DAYS_AHEAD && #[trigger] later.game_of_day(rest, k)
                    == Some(next) && forall|j: int| 0 <= j < k ==> #[trigger] later.game_of_day(rest, j) is None;
            assert(search.game_of_day(replies, k + 1) == Some(next));
        }
    }
}

/// The games of several days, written as one list after the other.
proof fn lemma_days_in_order(days: Seq<Json>)
    ensures
        days_games(days) == days.fold_left(
            Seq::<ScheduledGameView>::empty(),
            |read: Seq<ScheduledGameView>, day: Json|
                match json::field(day, "games"@) {
                    Json::List(games) => read + games.map_values(|game: Json| scheduled_game(game)),
                    _ => read,
                },
        ),
        days_games(days).len() == days.fold_left(
            0int,
            |count: int, day: Json|
                match json::field(day, "games"@) {
                    Json::List(games) => count + games.len(),
                    _ => count,
                },
        ),
    decreases days.len(),
{
    if days.len() > 0 {
        let before = days.drop_last();
        lemma_days_in_order(before);
        if json::field(days.last(), "games"@) !is List {
            assert(days_games(days) =~= days_games(before));
        }
    }
}

/// Where the games of a day stand among those of several days.
proof fn lemma_game_position(days: Seq<Json>, d: int, g: int)
    requires
        0 <= d < days.len(),
        json::field(days[d], "games"@) is List,
        0 <= g < json::field(days[d], "games"@)->List_0.len(),
    ensures
        days_games(days.take(d)).len() + g < days_games(days).len(),
        days_games(days)[days_games(days.take(d)).len() + g] == scheduled_game(
            json::field(days[d], "games"@)->List_0[g],
        ),
    decreases days.len(),
{
    let before = days.drop_last();
    if d < before.len() {
        lemma_game_position(before, d, g);
        assert(before.take(d) =~= days.take(d));
    } else {
        assert(days.take(d) =~= before);
    }
}

/// Which game of which day stands at a place among those of several days.
proof fn lemma_game_at(days: Seq<Json>, i: int) -> (place: (int, int))
    requires
        0 <= i < days_games(days).len(),
    ensures
        0 <= place.0 < days.len(),
        json::field(days[place.0], "games"@) is List,
        0 <= place.1 < json::field(days[place.0], "games"@)->List_0.len(),
        i == days_games(days.take(place.0)).len() + place.1,
    decreases days.len(),
{
    let before = days.drop_last();
    if i < days_games(before).len() {
        let place = lemma_game_at(before, i);
        assert(before.take(place.0) =~= days.take(place.0));
        place
    } else {
        assert(days.take(days.len() - 1) =~= before);
        (days.len() - 1, i - days_games(before).len())
    }
}

proof fn lemma_positions_grow(days: Seq<Json>, d: int, e: int, g: int)
    requires
        0 <= d < e <= days.len(),
        json::field(days[d], "games"@) is List,
        0 <= g < json::field(days[d], "games"@)->List_0.len(),
    ensures
        days_games(days.take(d)).len() + g < days_games(days.take(e)).len(),
{
    lemma_game_position(days.take(e), d, g);
    assert(days.take(e).take(d) =~= days.take(d));
}

/// A game is read off its record: the teams by their abbreviations, the start and the venue as they
/// are given. A team that is not given reads as an empty text, and a start or a venue that is not
/// given as `TBD`.
pub proof fn game_is_read_as_given(game: Json, text: Seq<char>)
    ensures
        json::field(json::field(game, "awayTeam"@), "abbrev"@) == Json::Text(text) ==> scheduled_game(game).away_team
            == text,
        json::field(json::field(game, "awayTeam"@), "abbrev"@) !is Text ==> scheduled_game(game).away_team == ""@,
        json::field(json::field(game, "homeTeam"@), "abbrev"@) == Json::Text(text) ==> scheduled_game(game).home_team
            == text,
        json::field(json::field(game, "homeTeam"@), "abbrev"@) !is Text ==> scheduled_game(game).home_team == ""@,
        json::field(game, "startTimeUTC"@) == Json::Text(text) ==> scheduled_game(game).start_time == text,
        json::field(game, "startTimeUTC"@) !is Text ==> scheduled_game(game).start_time == "TBD"@,
        json::field(json::field(game, "venue"@), "default"@) == Json::Text(text) ==> scheduled_game(game).venue
            == text,
        json::field(json::field(game, "venue"@), "default"@) !is Text ==> scheduled_game(game).venue == "TBD"@,
{
}

/// Every game that a schedule lists is read, on whichever day it stands, whatever else is said of
/// the day, and nothing else is read as a game. There are as many games as the days list together.
pub proof fn every_listed_game_is_read(schedule: Json)
    ensures
        json::field(schedule, "gameWeek"@) matches Json::List(days) ==> forall|d: int, g: int, games: Seq<Json>|
            0 <= d < days.len() && json::field(#[trigger] days[d], "games"@) == Json::List(games) && 0 <= g
                < games.len() ==> scheduled_games(schedule).contains(scheduled_game(#[trigger] games[g])),
        json::field(schedule, "gameWeek"@) matches Json::List(days) ==> forall|game: ScheduledGameView|
            #[trigger] scheduled_games(schedule).contains(game) ==> exists|d: int, g: int, games: Seq<Json>|
                0 <= d < days.len() && json::field(#[trigger] days[d], "games"@) == Json::List(games) && 0 <= g
                    < games.len() && scheduled_game(#[trigger] games[g]) == game,
        json::field(schedule, "gameWeek"@) matches Json::List(days) ==> scheduled_games(schedule).len()
            == days.fold_left(
            0int,
            |count: int, day: Json|
                match json::field(day, "games"@) {
                    Json::List(games) => count + games.len(),
                    _ => count,
                },
        ),
        json::field(schedule, "gameWeek"@) !is List ==> scheduled_games(schedule).len() == 0,
{
    if let Json::List(days) = json::field(schedule, "gameWeek"@) {
        let all = scheduled_games(schedule);
        lemma_days_in_order(days);
        assert forall|d: int, g: int, games: Seq<Json>|
            0 <= d < days.len() && json::field(#[trigger] days[d], "games"@) == Json::List(games) && 0 <= g
                < games.len() implies all.contains(scheduled_game(#[trigger] games[g])) by {
            lemma_game_position(days, d, g);
        }
        assert forall|game: ScheduledGameView| #[trigger] all.contains(game) implies exists|
            d: int,
            g: int,
            games: Seq<Json>,
        |
            0 <= d < days.len() && json::field(#[trigger] days[d], "games"@) == Json::List(games) && 0 <= g
                < games.len() && scheduled_game(#[trigger] games[g]) == game by {
            let (d, g) = lemma_game_at(days, all.index_of(game));
            lemma_game_position(days, d, g);
            let games = json::field(days[d], "games"@)->List_0;
            assert(json::field(days[d], "games"@) == Json::List(games) && scheduled_game(games[g]) == game);
        }
    }
}

/// The games of a schedule are read in the order in which it lists them: day by day, and for each
/// day game by game.
pub proof fn listed_games_are_read_in_order(schedule: Json)
    ensures
        json::field(schedule, "gameWeek"@) matches Json::List(days) ==> scheduled_games(schedule) == days.fold_left(
            Seq::<ScheduledGameView>::empty(),
            |read: Seq<ScheduledGameView>, day: Json|
                match json::field(day, "games"@) {
                    Json::List(games) => read + games.map_values(|game: Json| scheduled_game(game)),
                    _ => read,
                },
        ),
{
    if let Json::List(days) = json::field(schedule, "gameWeek"@) {
        lemma_days_in_order(days);
    }
}

/// Where a successful answer lists a game of a team, and no game of the team stands before it, that
/// game is found: with its start and its venue, the other team as the opponent, and at home exactly
/// where the team is the home team.
pub proof fn first_listed_game_of_the_team_is_found(
    body: Seq<char>,
    schedule: Json,
    days: Seq<Json>,
    d: int,
    games: Seq<Json>,
    g: int,
    team: Seq<char>,
    date: Seq<char>,
)
    requires
        json::json_from_str(body) == Ok::<Json, Seq<char>>(schedule),
        json::field(schedule, "gameWeek"@) == Json::List(days),
        0 <= d < days.len(),
        json::field(days[d], "games"@) == Json::List(games),
        0 <= g < games.len(),
        scheduled_game(games[g]).away_team == team || scheduled_game(games[g]).home_team == team,
        forall|e: int, f: int, others: Seq<Json>|
            0 <= e <= d && json::field(#[trigger] days[e], "games"@) == Json::List(others) && 0 <= f < others.len()
                && (e < d || f < g) ==> scheduled_game(#[trigger] others[f]).away_team != team && scheduled_game(
                others[f],
            ).home_team != team,
    ensures
        game_in_reply((SearchReplyView::Answered { status: 200, body }), team, date) matches Some(next) && {
            &&& next.date == date
            &&& next.time == scheduled_game(games[g]).start_time
            &&& next.venue == scheduled_game(games[g]).venue
            &&& next.is_home <==> scheduled_game(games[g]).home_team == team
            &&& next.opponent == if scheduled_game(games[g]).away_team == team {
                scheduled_game(games[g]).home_team
            } else {
                scheduled_game(games[g]).away_team
            }
        },
{
    let all = scheduled_games(schedule);
    let place = days_games(days.take(d)).len() + g;
    lemma_game_position(days, d, g);
    next_game_is_the_first_of_the_team(all, team, date);
    assert(takes_part(all[place], team));
    let i = choose|i: int|
        0 <= i < all.len() && takes_part(#[trigger] all[i], team) && first_next_game(all, team, date) == Some(
            as_next_game(all[i], team, date),
        ) && forall|j: int| 0 <= j < i ==> !takes_part(#[trigger] all[j], team);
    if i < place {
        let (e, f) = lemma_game_at(days, i);
        lemma_game_position(days, e, f);
        let others = json::field(days[e], "games"@)->List_0;
        if e > d {
            lemma_positions_grow(days, d, e, g);
        }
        assert(json::field(days[e], "games"@) == Json::List(others) && takes_part(
            scheduled_game(others[f]),
            team,
        ));
    }
}

/// No game is found in an answer that failed, that does not have the status of success, or that is
/// not JSON, and none where no game that the answer lists is one of the team.
pub proof fn no_game_is_made_up(reply: SearchReplyView, team: Seq<char>, date: Seq<char>)
    requires
        reply matches SearchReplyView::Answered { status, body } ==> status != 200 || match json::json_from_str(
            body,
        ) {
            Ok(schedule) => forall|days: Seq<Json>, d: int, games: Seq<Json>, g: int|
                json::field(schedule, "gameWeek"@) == Json::List(days) && 0 <= d < days.len() && json::field(
                    #[trigger] days[d],
                    "games"@,
                ) == Json::List(games) && 0 <= g < games.len() ==> scheduled_game(#[trigger] games[g]).away_team
                    != team && scheduled_game(games[g]).home_team != team,
            Err(_) => true,
        },
    ensures
        game_in_reply(reply, team, date) is None,
{
    if let SearchReplyView::Answered { status, body } = reply {
        if let Ok(schedule) = json::json_from_str(body) {
            let all = scheduled_games(schedule);
            next_game_is_the_first_of_the_team(all, team, date);
            if status == 200 && first_next_game(all, team, date) is Some {
                let i = choose|i: int| 0 <= i < all.len() && takes_part(#[trigger] all[i], team);
                let days = json::field(schedule, "gameWeek"@)->List_0;
                let (d, g) = lemma_game_at(days, i);
                lemma_game_position(days, d, g);
                let games = json::field(days[d], "games"@)->List_0;
                assert(json::field(days[d], "games"@) == Json::List(games) && takes_part(
                    scheduled_game(games[g]),
                    team,
                ));
            }
        }
    }
}

/// A search asks for thirty days, one after the other, the first of which is the day after the one
/// that Pacific clocks show when it starts. It comes to the game of the first of these days whose
/// answer shows one.
pub proof fn search_covers_thirty_days(search: SearchView, now: int, replies: Seq<SearchReplyView>, k: int)
    requires
        search.today == calendar::pst_day(now),
        search.days_ahead == 1,
        0 <= k < replies.len(),
        k < 30,
        game_in_reply(replies[k], search.holder, calendar::day_text((now - 28800) / 86400 + 1 + k)) is Some,
        forall|j: int|
            0 <= j < k ==> game_in_reply(
                #[trigger] replies[j],
                search.holder,
                calendar::day_text((now - 28800) / 86400 + 1 + j),
            ) is None,
    ensures
        search.outcome(replies) == game_in_reply(
            replies[k],
            search.holder,
            calendar::day_text((now - 28800) / 86400 + 1 + k),
        ),
{
    search_stops_at_the_first_game(search, replies);
    assert(search.game_of_day(replies, k) is Some);
    let next = search.outcome(replies)->0;
    let i = choose|i: int|
        0 <= i < replies.len() && search.days_ahead + i <= DAYS_AHEAD && #[trigger] search.game_of_day(replies, i)
            == Some(next) && forall|j: int| 0 <= j < i ==> #[trigger] search.game_of_day(replies, j) is None;
    if i < k {
        assert(game_in_reply(replies[i], search.holder, calendar::day_text((now - 28800) / 86400 + 1 + i)) is None);
    }
}

/// A search still asks for a day exactly as long as it is within thirty days of the day on which it
/// started, and asks for the day that lies so many days after it.
pub proof fn search_asks_day_by_day(search: SearchView)
    ensures
        search.days_ahead <= DAYS_AHEAD <==> search.days_ahead <= 30,
        search.next_date() == calendar::day_text(search.today + search.days_ahead),
{
}

/// A search can start at every moment from which the days that it may ask for, thirty of them, lie
/// within the calendar.
pub proof fn search_can_start_within_the_calendar(now: Timestamp)
    ensures
        can_search(now) <==> now.nanos < 1000000000 && -8334601228800 + 28800 <= now.secs <= 8210266876799 - 30
            * 86400,
{
}

/// A reply and a game stand for what they hold.
pub proof fn search_views_show_the_values(reply: SearchReply, game: ScheduledGame, next: NextGame)
    ensures
        match reply {
            SearchReply::Failed => reply@ is Failed,
            SearchReply::Answered { status, body } => reply@ matches SearchReplyView::Answered {
                status: shown,
                body: text,
            } && shown == status && text == body@,
        },
        game@.away_team == game.away_team@,
        game@.home_team == game.home_team@,
        game@.start_time == game.start_time@,
        game@.venue == game.venue@,
        next_game_view(Some(next)) == Some(next@),
        next_game_view(None) is None,
{
}

} // verus!
