//! The players' roster, and the history that a cup without one starts from.
//!
//! The roster is a JSON document. Its `players` each have a list of `teams`, given by their
//! abbreviations.

use serde_json::Value;
use vstd::prelude::*;

use crate::json;
use crate::json::{member, parse, Json};
use crate::model::{CupHistory, TeamCupHistory, TeamCupHistoryView};
use crate::text;

verus! {

/// The texts among the items of a list, in order.
pub open spec fn texts_among(items: Seq<Json>) -> Seq<Seq<char>>
    decreases items.len(),
{
    if items.len() == 0 {
        Seq::empty()
    } else {
        match items.last() {
            Json::Text(text) => texts_among(items.drop_last()).push(text),
            _ => texts_among(items.drop_last()),
        }
    }
}

/// The teams of one player.
pub open spec fn player_teams(player: Json) -> Seq<Seq<char>> {
    match json::field(player, "teams"@) {
        Json::List(items) => texts_among(items),
        _ => Seq::empty(),
    }
}

/// The teams of a list of players, one player after the other.
pub open spec fn players_teams(players: Seq<Json>) -> Seq<Seq<char>>
    decreases players.len(),
{
    if players.len() == 0 {
        Seq::empty()
    } else {
        players_teams(players.drop_last()) + player_teams(players.last())
    }
}

/// The teams of a roster, in the order in which it names them.
pub open spec fn roster_teams(roster: Json) -> Seq<Seq<char>> {
    match json::field(roster, "players"@) {
        Json::List(players) => players_teams(players),
        _ => Seq::empty(),
    }
}

/// A list without its repetitions: each text stands where it stood first.
pub open spec fn distinct(list: Seq<Seq<char>>) -> Seq<Seq<char>>
    decreases list.len(),
{
    if list.len() == 0 {
        list
    } else {
        let before = distinct(list.drop_last());
        if before.contains(list.last()) {
            before
        } else {
            before.push(list.last())
        }
    }
}

/// A history in which a team has had no cup day.
pub open spec fn without_days(team: Seq<char>) -> TeamCupHistoryView {
    TeamCupHistoryView { team, cup_days: Seq::empty() }
}

/// The history that a list of teams starts with: each team once, with no cup days.
pub open spec fn fresh_history(teams: Seq<Seq<char>>) -> Seq<TeamCupHistoryView> {
    distinct(teams).map_values(|team: Seq<char>| without_days(team))
}

fn push_player_teams(player: &Value, teams: &mut Vec<String>)
    ensures
        text::texts(final(teams)@) == text::texts(old(teams)@) + player_teams(json::value_tree(*player)),
{
    let ghost before = text::texts(teams@);
    match member(player, "teams").as_array() {
        Some(items) => {
            let ghost trees = json::field(json::value_tree(*player), "teams"@)->List_0;
            assert(before + texts_among(trees.take(0)) =~= before);
            for i in 0..items.len()
                invariant
                    items@.len() == trees.len(),
                    forall|k: int| 0 <= k < trees.len() ==> json::value_tree(#[trigger] items@[k]) == trees[k],
                    text::texts(teams@) == before + texts_among(trees.take(i as int)),
            {
                let ghost so_far = text::texts(teams@);
                assert(trees.take(i + 1).drop_last() =~= trees.take(i as int));
                assert(json::value_tree(items@[i as int]) == trees[i as int]);
                match items[i].as_str() {
                    Some(team) => {
                        teams.push(team.to_owned());
                        assert(text::texts(teams@) =~= so_far.push(team@));
                        assert(text::texts(teams@) =~= before + texts_among(trees.take(i + 1)));
                    },
                    None => {},
                }
            }
            assert(trees.take(items.len() as int) =~= trees);
        },
        None => {
            assert(before + player_teams(json::value_tree(*player)) =~= before);
        },
    }
}

/// Reads the teams of a roster. What is not a list where a list should be, or not a text where a
/// text should be, is passed over.
pub fn read_roster(roster: &Value) -> (teams: Vec<String>)
    ensures
        text::texts(teams@) == roster_teams(json::value_tree(*roster)),
{
    let mut teams: Vec<String> = Vec::new();
    assert(text::texts(teams@) =~= Seq::empty());
    match member(roster, "players").as_array() {
        Some(players) => {
            let ghost trees = json::field(json::value_tree(*roster), "players"@)->List_0;
            for i in 0..players.len()
                invariant
                    players@.len() == trees.len(),
                    forall|k: int| 0 <= k < trees.len() ==> json::value_tree(#[trigger] players@[k]) == trees[k],
                    text::texts(teams@) == players_teams(trees.take(i as int)),
            {
                assert(trees.take(i + 1).drop_last() =~= trees.take(i as int));
                assert(json::value_tree(players@[i as int]) == trees[i as int]);
                push_player_teams(&players[i], &mut teams);
            }
            assert(trees.take(players.len() as int) =~= trees);
        },
        None => {},
    }
    teams
}

/// Starts a history with every team of a list.
pub fn start_history(teams: &Vec<String>) -> (history: CupHistory)
    ensures
        history@ == fresh_history(text::texts(teams@)),
{
    let mut listed: Vec<TeamCupHistory> = Vec::new();
    let ghost names = text::texts(teams@);
    assert(names.take(0) =~= Seq::empty());
    assert(listed@.map_values(|t: TeamCupHistory| t@) =~= fresh_history(names.take(0)));
    for i in 0..teams.len()
        invariant
            names == text::texts(teams@),
            listed@.map_values(|t: TeamCupHistory| t@) == fresh_history(names.take(i as int)),
    {
        let ghost before = distinct(names.take(i as int));
        let ghost views = listed@.map_values(|t: TeamCupHistory| t@);
        assert(names.take(i + 1).drop_last() =~= names.take(i as int));
        assert(views.len() == before.len());
        assert(forall|k: int| 0 <= k < before.len() ==> (#[trigger] listed@[k])@ == views[k]);
        assert(forall|k: int| 0 <= k < before.len() ==> (#[trigger] views[k]) == without_days(before[k]));
        let mut known = false;
        for j in 0..listed.len()
            invariant
                listed@.len() == before.len(),
                i < teams.len(),
                names == text::texts(teams@),
                forall|k: int| 0 <= k < before.len() ==> (#[trigger] listed@[k])@ == without_days(before[k]),
                known <==> exists|k: int| 0 <= k < j && (#[trigger] before[k]) == names[i as int],
        {
            assert(listed@[j as int]@ == without_days(before[j as int]));
            assert(names[i as int] == teams@[i as int]@);
            if *listed[j].team.as_str() == *teams[i].as_str() {
                known = true;
                assert(before[j as int] == names[i as int]);
            }
        }
        assert(known <==> before.contains(names[i as int]));
        if !known {
            let entry = TeamCupHistory { team: teams[i].clone(), cup_days: Vec::new() };
            assert(entry@.cup_days =~= Seq::empty());
            listed.push(entry);
            assert(listed@.map_values(|t: TeamCupHistory| t@) =~= views.push(without_days(names[i as int])));
            assert(fresh_history(names.take(i + 1)) =~= views.push(without_days(names[i as int])));
        }
    }
    assert(names.take(teams.len() as int) =~= names);
    CupHistory { teams: listed }
}

/// Starts a history from the text of a roster. A roster that is not JSON is an error.
pub fn history_from_roster(players_json: &str) -> (res: Result<CupHistory, String>)
    ensures
        match json::json_from_str(players_json@) {
            Ok(roster) => res matches Ok(history) && history@ == fresh_history(roster_teams(roster)),
            Err(reason) => res matches Err(message) && message@ == "Failed to parse players.json: "@ + reason,
        },
{
    match parse(players_json) {
        Ok(roster) => Ok(start_history(&read_roster(&roster))),
        Err(reason) => Err("Failed to parse players.json: ".to_owned().concat(reason.as_str())),
    }
}

/// The history that a list of teams starts with lists exactly the teams of the list, none of them
/// twice, and none with a cup day.
pub proof fn fresh_history_lists_each_team_once(teams: Seq<Seq<char>>)
    ensures
        forall|i: int, j: int|
            0 <= i < j < fresh_history(teams).len() ==> (#[trigger] fresh_history(teams)[i]).team != (
            #[trigger] fresh_history(teams)[j]).team,
        forall|team: Seq<char>|
            teams.contains(team) <==> #[trigger] fresh_history(teams).contains(without_days(team)),
        forall|i: int| 0 <= i < fresh_history(teams).len() ==> (#[trigger] fresh_history(teams)[i]).cup_days.len() == 0,
{
    lemma_distinct(teams);
    let history = fresh_history(teams);
    let names = distinct(teams);
    assert forall|team: Seq<char>| teams.contains(team) <==> #[trigger] history.contains(without_days(team)) by {
        if names.contains(team) {
            let k = names.index_of(team);
            assert(history[k] == without_days(team));
        }
        if history.contains(without_days(team)) {
            let k = history.index_of(without_days(team));
            assert(history[k] == without_days(names[k]));
            assert(names[k] == team);
        }
    }
}

proof fn lemma_distinct(list: Seq<Seq<char>>)
    ensures
        distinct(list).no_duplicates(),
        forall|text: Seq<char>| #[trigger] list.contains(text) <==> distinct(list).contains(text),
    decreases list.len(),
{
    if list.len() > 0 {
        let before = list.drop_last();
        lemma_distinct(before);
        assert forall|text: Seq<char>| #[trigger] list.contains(text) <==> distinct(list).contains(text) by {
            if list.contains(text) {
                let k = list.index_of(text);
                if k < before.len() {
                    assert(before[k] == text);
                    assert(before.contains(text));
                    let m = distinct(before).index_of(text);
                    assert(distinct(list)[m] == text);
                } else if !distinct(before).contains(text) {
                    assert(distinct(list)[distinct(before).len() as int] == text);
                }
            }
            if distinct(list).contains(text) {
                let m = distinct(list).index_of(text);
                if m < distinct(before).len() {
                    assert(distinct(before)[m] == text);
                    assert(distinct(before).contains(text));
                    assert(before.contains(text));
                    let k = before.index_of(text);
                    assert(list[k] == text);
                } else {
                    assert(list[list.len() - 1] == text);
                }
            }
        }
    }
}

proof fn lemma_texts_among(items: Seq<Json>, name: Seq<char>)
    ensures
        texts_among(items).contains(name) <==> items.contains(Json::Text(name)),
    decreases items.len(),
{
    if items.len() > 0 {
        let before = items.drop_last();
        let earlier = texts_among(before);
        let all = texts_among(items);
        lemma_texts_among(before, name);
        if all.contains(name) {
            let k = all.index_of(name);
            if k < earlier.len() {
                assert(earlier[k] == name);
                assert(before.contains(Json::Text(name)));
                let t = before.index_of(Json::Text(name));
                assert(items[t] == Json::Text(name));
            } else {
                assert(items[items.len() - 1] == Json::Text(name));
            }
        }
        if items.contains(Json::Text(name)) {
            let t = items.index_of(Json::Text(name));
            if t < before.len() {
                assert(before[t] == Json::Text(name));
                assert(earlier.contains(name));
                let k = earlier.index_of(name);
                assert(all[k] == name);
            } else {
                assert(all[earlier.len() as int] == name);
            }
        }
    }
}

proof fn lemma_players_teams(players: Seq<Json>, name: Seq<char>)
    ensures
        players_teams(players).contains(name) <==> exists|p: int|
            0 <= p < players.len() && player_teams(#[trigger] players[p]).contains(name),
    decreases players.len(),
{
    if players.len() > 0 {
        let before = players.drop_last();
        let earlier = players_teams(before);
        let last = player_teams(players.last());
        let all = players_teams(players);
        lemma_players_teams(before, name);
        if all.contains(name) {
            let k = all.index_of(name);
            if k < earlier.len() {
                assert(earlier[k] == name);
                assert(earlier.contains(name));
                let p = choose|p: int| 0 <= p < before.len() && player_teams(#[trigger] before[p]).contains(name);
                assert(players[p] == before[p]);
            } else {
                assert(last[k - earlier.len()] == name);
                assert(player_teams(players[players.len() - 1]).contains(name));
            }
        }
        if exists|p: int| 0 <= p < players.len() && player_teams(#[trigger] players[p]).contains(name) {
            let p = choose|p: int| 0 <= p < players.len() && player_teams(#[trigger] players[p]).contains(name);
            if p < before.len() {
                assert(before[p] == players[p]);
                assert(earlier.contains(name));
                let k = earlier.index_of(name);
                assert(all[k] == name);
            } else {
                let k = last.index_of(name);
                assert(all[earlier.len() + k] == name);
            }
        }
    }
}

/// Every team that a roster names is read, whichever player it belongs to and wherever it stands
/// among that player's teams, and nothing else is read as a team.
pub proof fn every_named_team_is_read(roster: Json)
    ensures
        match json::field(roster, "players"@) {
            Json::List(players) => {
                &&& forall|p: int, t: int, items: Seq<Json>, name: Seq<char>|
                    #![trigger players[p], items[t], roster_teams(roster).contains(name)]
                    0 <= p < players.len() && json::field(players[p], "teams"@) == Json::List(items) && 0 <= t
                        < items.len() && items[t] == Json::Text(name) ==> roster_teams(roster).contains(name)
                &&& forall|name: Seq<char>| #[trigger]
                    roster_teams(roster).contains(name) ==> exists|p: int, t: int, items: Seq<Json>|
                        0 <= p < players.len() && json::field(#[trigger] players[p], "teams"@) == Json::List(items)
                            && 0 <= t < items.len() && #[trigger] items[t] == Json::Text(name)
            },
            _ => roster_teams(roster).len() == 0,
        },
{
    if let Json::List(players) = json::field(roster, "players"@) {
        assert forall|p: int, t: int, items: Seq<Json>, name: Seq<char>|
            #![trigger players[p], items[t], roster_teams(roster).contains(name)]
            0 <= p < players.len() && json::field(players[p], "teams"@) == Json::List(items) && 0 <= t < items.len()
                && items[t] == Json::Text(name) implies roster_teams(roster).contains(name) by {
            lemma_texts_among(items, name);
            lemma_players_teams(players, name);
        }
        assert forall|name: Seq<char>| #[trigger] roster_teams(roster).contains(name) implies exists|
            p: int,
            t: int,
            items: Seq<Json>,
        |
            0 <= p < players.len() && json::field(#[trigger] players[p], "teams"@) == Json::List(items) && 0 <= t
                < items.len() && #[trigger] items[t] == Json::Text(name) by {
            lemma_players_teams(players, name);
            let p = choose|p: int| 0 <= p < players.len() && player_teams(#[trigger] players[p]).contains(name);
            let items = json::field(players[p], "teams"@)->List_0;
            lemma_texts_among(items, name);
            let t = items.index_of(Json::Text(name));
            assert(json::field(players[p], "teams"@) == Json::List(items) && items[t] == Json::Text(name));
        }
    }
}

proof fn lemma_texts_among_in_order(items: Seq<Json>)
    ensures
        texts_among(items) == items.filter_map(
            |item: Json|
                match item {
                    Json::Text(name) => Some(name),
                    _ => None,
                },
        ),
    decreases items.len(),
{
    if items.len() > 0 {
        lemma_texts_among_in_order(items.drop_last());
        assert(texts_among(items) =~= items.filter_map(
            |item: Json|
                match item {
                    Json::Text(name) => Some(name),
                    _ => None,
                },
        ));
    }
}

proof fn lemma_players_in_order(players: Seq<Json>)
    ensures
        players_teams(players) == players.fold_left(
            Seq::<Seq<char>>::empty(),
            |names: Seq<Seq<char>>, player: Json|
                match json::field(player, "teams"@) {
                    Json::List(items) => names + items.filter_map(
                        |item: Json|
                            match item {
                                Json::Text(name) => Some(name),
                                _ => None,
                            },
                    ),
                    _ => names,
                },
        ),
    decreases players.len(),
{
    if players.len() > 0 {
        let before = players.drop_last();
        lemma_players_in_order(before);
        match json::field(players.last(), "teams"@) {
            Json::List(items) => {
                lemma_texts_among_in_order(items);
            },
            _ => {
                assert(players_teams(players) =~= players_teams(before));
            },
        }
    }
}

/// The teams of a roster are read in the order in which it names them: player by player, and for
/// each player the texts of the list of teams, one after the other.
pub proof fn named_teams_are_read_in_order(roster: Json)
    ensures
        json::field(roster, "players"@) matches Json::List(players) ==> roster_teams(roster) == players.fold_left(
            Seq::<Seq<char>>::empty(),
            |names: Seq<Seq<char>>, player: Json|
                match json::field(player, "teams"@) {
                    Json::List(items) => names + items.filter_map(
                        |item: Json|
                            match item {
                                Json::Text(name) => Some(name),
                                _ => None,
                            },
                    ),
                    _ => names,
                },
        ),
{
    if let Json::List(players) = json::field(roster, "players"@) {
        lemma_players_in_order(players);
    }
}

/// The history that a roster starts with lists a team exactly where some player has it, lists none
/// twice, and gives none a cup day.
pub proof fn roster_starts_a_history(roster: Json, team: Seq<char>)
    ensures
        ({
            let history = fresh_history(roster_teams(roster));
            &&& (exists|i: int| 0 <= i < history.len() && (#[trigger] history[i]).team == team) <==> (exists|
                p: int,
                t: int,
                players: Seq<Json>,
                items: Seq<Json>,
            |
                json::field(roster, "players"@) == Json::List(players) && 0 <= p < players.len() && json::field(
                    #[trigger] players[p],
                    "teams"@,
                ) == Json::List(items) && 0 <= t < items.len() && #[trigger] items[t] == Json::Text(team))
            &&& forall|i: int| 0 <= i < history.len() ==> (#[trigger] history[i]).cup_days.len() == 0
            &&& forall|i: int, j: int|
                0 <= i < j < history.len() ==> (#[trigger] history[i]).team != (#[trigger] history[j]).team
        }),
{
    let teams = roster_teams(roster);
    let history = fresh_history(teams);
    every_named_team_is_read(roster);
    fresh_history_lists_each_team_once(teams);
    assert((exists|i: int| 0 <= i < history.len() && (#[trigger] history[i]).team == team) <==> teams.contains(team))
        by {
        if teams.contains(team) {
            assert(history.contains(without_days(team)));
            let k = history.index_of(without_days(team));
            assert(history[k].team == team);
        }
        if exists|i: int| 0 <= i < history.len() && (#[trigger] history[i]).team == team {
            let k = choose|i: int| 0 <= i < history.len() && (#[trigger] history[i]).team == team;
            assert(distinct(teams)[k] == team);
            lemma_distinct(teams);
            assert(distinct(teams).contains(team));
            assert(teams.contains(team));
        }
    }
    if teams.contains(team) {
        let players = json::field(roster, "players"@)->List_0;
        let (p, t, items) = choose|p: int, t: int, items: Seq<Json>|
            0 <= p < players.len() && json::field(#[trigger] players[p], "teams"@) == Json::List(items) && 0 <= t
                < items.len() && #[trigger] items[t] == Json::Text(team);
        assert(json::field(roster, "players"@) == Json::List(players) && json::field(players[p], "teams"@)
            == Json::List(items) && items[t] == Json::Text(team));
    }
    if exists|p: int, t: int, players: Seq<Json>, items: Seq<Json>|
        json::field(roster, "players"@) == Json::List(players) && 0 <= p < players.len() && json::field(
            #[trigger] players[p],
            "teams"@,
        ) == Json::List(items) && 0 <= t < items.len() && #[trigger] items[t] == Json::Text(team) {
        let (p, t, players, items) = choose|p: int, t: int, players: Seq<Json>, items: Seq<Json>|
            json::field(roster, "players"@) == Json::List(players) && 0 <= p < players.len() && json::field(
                #[trigger] players[p],
                "teams"@,
            ) == Json::List(items) && 0 <= t < items.len() && #[trigger] items[t] == Json::Text(team);
        assert(json::field(players[p], "teams"@) == Json::List(items) && items[t] == Json::Text(team));
        assert(teams.contains(team));
    }
}

/// A fresh history lists the teams in the order in which they are named first: of two teams that it
/// lists, the one that stands earlier is named before the other one is named for the first time.
pub proof fn fresh_history_keeps_the_order(teams: Seq<Seq<char>>, i: int, j: int)
    requires
        0 <= i < j < fresh_history(teams).len(),
    ensures
        exists|p: int|
            0 <= p < teams.len() && #[trigger] teams[p] == fresh_history(teams)[i].team && forall|q: int|
                0 <= q <= p ==> #[trigger] teams[q] != fresh_history(teams)[j].team,
{
    lemma_distinct_in_order(teams, i, j);
}

proof fn lemma_distinct_in_order(list: Seq<Seq<char>>, i: int, j: int)
    requires
        0 <= i < j < distinct(list).len(),
    ensures
        exists|p: int|
            0 <= p < list.len() && #[trigger] list[p] == distinct(list)[i] && forall|q: int|
                0 <= q <= p ==> #[trigger] list[q] != distinct(list)[j],
    decreases list.len(),
{
    let before = list.drop_last();
    let earlier = distinct(before);
    if j < earlier.len() {
        lemma_distinct_in_order(before, i, j);
        let p = choose|p: int|
            0 <= p < before.len() && #[trigger] before[p] == earlier[i] && forall|q: int|
                0 <= q <= p ==> #[trigger] before[q] != earlier[j];
        assert(list[p] == distinct(list)[i]);
        assert forall|q: int| 0 <= q <= p implies #[trigger] list[q] != distinct(list)[j] by {
            assert(before[q] == list[q]);
        }
    } else {
        lemma_distinct(before);
        assert(earlier.contains(earlier[i]));
        assert(before.contains(earlier[i]));
        let p = before.index_of(earlier[i]);
        assert(list[p] == distinct(list)[i]);
        assert forall|q: int| 0 <= q <= p implies #[trigger] list[q] != distinct(list)[j] by {
            assert(before.contains(before[q]));
            assert(list[q] == before[q]);
        }
    }
}

} // verus!
