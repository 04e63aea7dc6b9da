//! The history of the cup: which team held it on which days.

use vstd::prelude::*;
use vstd::relations::*;
use vstd::seq_lib::*;

use crate::model::{AuditLog, AuditLogEntry, CupHistory, TeamCupHistoryView};
use crate::text;
use crate::text::{contains_text, sort_texts};

verus! {

/// A list of days with one more day: unchanged where it holds the day already, and otherwise put in
/// order with it.
pub open spec fn with_day(days: Seq<Seq<char>>, date: Seq<char>) -> Seq<Seq<char>> {
    if days.contains(date) {
        days
    } else {
        days.push(date).sort_by(text::text_order())
    }
}

/// Whether `i` is where a history lists a team first.
pub open spec fn lists_first(history: Seq<TeamCupHistoryView>, team: Seq<char>, i: int) -> bool {
    history[i].team == team && forall|j: int| 0 <= j < i ==> (#[trigger] history[j]).team != team
}

/// A history in which a team holds the cup on one more day. A team that is not listed gets no day.
pub open spec fn with_cup_day(
    history: Seq<TeamCupHistoryView>,
    team: Seq<char>,
    date: Seq<char>,
) -> Seq<TeamCupHistoryView> {
    Seq::new(
        history.len(),
        |i: int|
            if lists_first(history, team, i) {
                TeamCupHistoryView {
                    team: history[i].team,
                    cup_days: with_day(history[i].cup_days, date),
                }
            } else {
                history[i]
            },
    )
}

/// Gives a team a cup day, unless it has it already, and keeps its days in order.
pub fn add_cup_day(history: &mut CupHistory, team: &str, date: &str)
    ensures
        final(history)@ == with_cup_day(old(history)@, team@, date@),
{
    let ghost before = history@;
    let mut i: usize = 0;
    while i < history.teams.len()
        invariant
            i <= history.teams.len(),
            history@ == before,
            before == old(history)@,
            forall|j: int| 0 <= j < i ==> (#[trigger] before[j]).team != team@,
        decreases history.teams.len() - i,
    {
        if *history.teams[i].team.as_str() == *team {
            assert(before[i as int].team == team@);
            if !contains_text(&history.teams[i].cup_days, date) {
                let entry = &mut history.teams[i];
                let ghost days = text::texts(entry.cup_days@);
                entry.cup_days.push(date.to_owned());
                assert(text::texts(entry.cup_days@) =~= days.push(date@));
                sort_texts(&mut entry.cup_days);
            }
            assert(history@[i as int].cup_days == with_day(before[i as int].cup_days, date@));
            assert(forall|k: int| 0 <= k < before.len() && k != i ==> history@[k] == before[k]);
            assert(history@ =~= with_cup_day(before, team@, date@));
            return;
        }
        i += 1;
    }
    assert(history@ =~= with_cup_day(before, team@, date@));
}

/// Appends an entry to the log.
pub fn add_audit_entry(log: &mut AuditLog, entry: AuditLogEntry)
    ensures
        final(log)@ == old(log)@.push(entry@),
{
    log.entries.push(entry);
    assert(log@ =~= old(log)@.push(entry@));
}

/// Whether every team's days stand in order and none stands twice.
pub open spec fn days_in_order(history: Seq<TeamCupHistoryView>) -> bool {
    forall|i: int| 0 <= i < history.len() ==> day_list_in_order((#[trigger] history[i]).cup_days)
}

/// Whether a list of days stands in order and no day stands in it twice.
pub open spec fn day_list_in_order(days: Seq<Seq<char>>) -> bool {
    sorted_by(days, text::text_order()) && days.no_duplicates()
}

/// Adding a day to a list loses no day, adds no other day, and leaves the day in the list; a list
/// in order without repetitions stays so.
pub proof fn day_is_added_in_order(days: Seq<Seq<char>>, date: Seq<char>)
    ensures
        forall|d: Seq<char>| #[trigger] with_day(days, date).contains(d) <==> days.contains(d) || d == date,
        days.contains(date) ==> with_day(days, date) == days,
        !days.contains(date) ==> with_day(days, date).len() == days.len() + 1,
        !days.contains(date) ==> sorted_by(with_day(days, date), text::text_order()),
        day_list_in_order(days) ==> day_list_in_order(with_day(days, date)),
{
    broadcast use group_to_multiset_ensures;
    broadcast use vstd::multiset::group_multiset_axioms;

    if !days.contains(date) {
        let pushed = days.push(date);
        let sorted = with_day(days, date);
        text::text_order_is_total();
        pushed.lemma_sort_by_ensures(text::text_order());
        assert forall|d: Seq<char>| #[trigger] sorted.contains(d) <==> days.contains(d) || d == date by {
            assert(sorted.contains(d) <==> sorted.to_multiset().count(d) > 0);
            assert(pushed.contains(d) <==> pushed.to_multiset().count(d) > 0);
            if days.contains(d) {
                let k = days.index_of(d);
                assert(pushed[k] == d);
            }
            assert(pushed[days.len() as int] == date);
        }
        assert(sorted.len() == sorted.to_multiset().len());
        assert(pushed.len() == pushed.to_multiset().len());
        if day_list_in_order(days) {
            assert(pushed.no_duplicates());
            pushed.lemma_multiset_has_no_duplicates();
            assert forall|d: Seq<char>| sorted.to_multiset().contains(d) implies #[trigger] sorted.to_multiset().count(
                d,
            ) == 1 by {
                assert(pushed.to_multiset().contains(d));
            }
            sorted.lemma_multiset_has_no_duplicates_conv();
        }
    }
}

/// Giving a team a cup day changes no other team and drops no day: the teams stay the same, in the
/// same order, every team keeps its days, no team gets a day but that team that day, and a team that
/// is listed has the day afterwards.
pub proof fn cup_day_is_added(history: Seq<TeamCupHistoryView>, team: Seq<char>, date: Seq<char>)
    ensures
        with_cup_day(history, team, date).len() == history.len(),
        forall|i: int|
            0 <= i < history.len() ==> (#[trigger] with_cup_day(history, team, date)[i]).team == history[i].team,
        forall|i: int|
            0 <= i < history.len() && history[i].team != team ==> (#[trigger] with_cup_day(history, team, date)[i])
                == history[i],
        forall|i: int, d: Seq<char>|
            0 <= i < history.len() && history[i].cup_days.contains(d) ==> (#[trigger] with_cup_day(
                history,
                team,
                date,
            )[i].cup_days.contains(d)),
        forall|i: int, d: Seq<char>|
            0 <= i < history.len() && #[trigger] with_cup_day(history, team, date)[i].cup_days.contains(d)
                ==> history[i].cup_days.contains(d) || (history[i].team == team && d == date),
        forall|i: int|
            0 <= i < history.len() && lists_first(history, team, i) ==> (#[trigger] with_cup_day(
                history,
                team,
                date,
            )[i]).cup_days.contains(date),
        (forall|i: int| 0 <= i < history.len() ==> (#[trigger] history[i]).team != team) ==> with_cup_day(
            history,
            team,
            date,
        ) == history,
        days_in_order(history) ==> days_in_order(with_cup_day(history, team, date)),
{
    let after = with_cup_day(history, team, date);
    assert forall|i: int| 0 <= i < history.len() implies {
        &&& after[i] == history[i] || after[i].cup_days == with_day(history[i].cup_days, date)
        &&& day_list_in_order(history[i].cup_days) ==> day_list_in_order((#[trigger] after[i]).cup_days)
        &&& lists_first(history, team, i) ==> after[i].cup_days.contains(date)
        &&& forall|d: Seq<char>| history[i].cup_days.contains(d) ==> after[i].cup_days.contains(d)
        &&& forall|d: Seq<char>|
            after[i].cup_days.contains(d) ==> history[i].cup_days.contains(d) || (history[i].team == team && d
                == date)
    } by {
        day_is_added_in_order(history[i].cup_days, date);
        assert(with_day(history[i].cup_days, date).contains(date));
    }
    if forall|i: int| 0 <= i < history.len() ==> (#[trigger] history[i]).team != team {
        assert(after =~= history);
    }
}

/// Giving a team the same cup day again changes nothing.
pub proof fn cup_day_is_added_once(history: Seq<TeamCupHistoryView>, team: Seq<char>, date: Seq<char>)
    ensures
        with_cup_day(with_cup_day(history, team, date), team, date) == with_cup_day(history, team, date),
{
    let once = with_cup_day(history, team, date);
    cup_day_is_added(history, team, date);
    assert forall|i: int| 0 <= i < history.len() implies with_cup_day(once, team, date)[i] == once[i] by {
        if lists_first(once, team, i) {
            assert forall|j: int| 0 <= j < i implies (#[trigger] history[j]).team != team by {
                assert(once[j].team != team);
            }
            assert(lists_first(history, team, i));
            assert(once[i].cup_days.contains(date));
        }
    }
    assert(with_cup_day(once, team, date) =~= once);
}

/// A team that a history lists anywhere has the day afterwards, in the first entry that is the
/// team's. That entry keeps its other days and gets no other one, it holds the day once more only
/// where it did not hold it, and its days are then in order. Every other entry stays as it is.
pub proof fn listed_team_gets_the_day(history: Seq<TeamCupHistoryView>, team: Seq<char>, date: Seq<char>, i: int)
    requires
        0 <= i < history.len(),
        history[i].team == team,
        forall|j: int| 0 <= j < i ==> (#[trigger] history[j]).team != team,
    ensures
        ({
            let after = with_cup_day(history, team, date);
            &&& after.len() == history.len()
            &&& after[i].team == team
            &&& after[i].cup_days.contains(date)
            &&& forall|d: Seq<char>|
                d != date ==> (#[trigger] after[i].cup_days.contains(d) <==> history[i].cup_days.contains(d))
            &&& history[i].cup_days.contains(date) ==> after[i].cup_days == history[i].cup_days
            &&& !history[i].cup_days.contains(date) ==> after[i].cup_days.len() == history[i].cup_days.len() + 1
            &&& !history[i].cup_days.contains(date) ==> forall|a: int, b: int|
                0 <= a < b < after[i].cup_days.len() ==> text::text_le(
                    #[trigger] after[i].cup_days[a],
                    #[trigger] after[i].cup_days[b],
                )
            &&& forall|j: int| 0 <= j < history.len() && j != i ==> #[trigger] after[j] == history[j]
        }),
{
    let after = with_cup_day(history, team, date);
    assert(lists_first(history, team, i));
    day_is_added_in_order(history[i].cup_days, date);
    assert(with_day(history[i].cup_days, date).contains(date));
    assert forall|d: Seq<char>| d != date implies (#[trigger] after[i].cup_days.contains(d)
        <==> history[i].cup_days.contains(d)) by {
        assert(with_day(history[i].cup_days, date).contains(d) <==> history[i].cup_days.contains(d) || d == date);
    }
    if !history[i].cup_days.contains(date) {
        let days = after[i].cup_days;
        assert forall|a: int, b: int| 0 <= a < b < days.len() implies text::text_le(
            #[trigger] days[a],
            #[trigger] days[b],
        ) by {
            assert(text::text_order()(days[a], days[b]));
        }
    }
}

/// If any entry of a history is a team's, some entry of that team holds the day that the team is
/// given; if none is, nothing changes.
pub proof fn day_goes_to_the_team(history: Seq<TeamCupHistoryView>, team: Seq<char>, date: Seq<char>)
    ensures
        (exists|i: int| 0 <= i < history.len() && (#[trigger] history[i]).team == team) ==> (exists|i: int|
            0 <= i < history.len() && (#[trigger] with_cup_day(history, team, date)[i]).team == team && with_cup_day(
                history,
                team,
                date,
            )[i].cup_days.contains(date)),
        (forall|i: int| 0 <= i < history.len() ==> (#[trigger] history[i]).team != team) ==> with_cup_day(
            history,
            team,
            date,
        ) == history,
{
    cup_day_is_added(history, team, date);
    if exists|i: int| 0 <= i < history.len() && (#[trigger] history[i]).team == team {
        let k = choose|i: int| 0 <= i < history.len() && (#[trigger] history[i]).team == team;
        let first = lemma_first_entry(history, team, k);
        listed_team_gets_the_day(history, team, date, first);
        assert(with_cup_day(history, team, date)[first].team == team);
    }
}

/// A team that is listed is listed somewhere first.
pub proof fn lemma_first_entry(history: Seq<TeamCupHistoryView>, team: Seq<char>, k: int) -> (i: int)
    requires
        0 <= k < history.len(),
        history[k].team == team,
    ensures
        0 <= i <= k,
        history[i].team == team,
        forall|j: int| 0 <= j < i ==> (#[trigger] history[j]).team != team,
    decreases k,
{
    if exists|j: int| 0 <= j < k && (#[trigger] history[j]).team == team {
        let j = choose|j: int| 0 <= j < k && (#[trigger] history[j]).team == team;
        lemma_first_entry(history, team, j)
    } else {
        k
    }
}

} // verus!
