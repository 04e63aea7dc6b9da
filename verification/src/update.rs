//! Working out who holds the cup, day by day.
//!
//! An update goes through the days after the last one that has been processed, up to yesterday,
//! since the games of today may not be over. On each day the owner of the cup is credited with the
//! day. An owner that loses its game passes the cup on to its opponent, and keeps it otherwise. An
//! update needs to be told how the owner's game ended; it stops at each day to ask.

use vstd::prelude::*;

use crate::calendar;
use crate::calendar::{pst_date_text, CalendarDate, Timestamp, DAY_SECS};
use crate::history;
use crate::history::{add_audit_entry, add_cup_day};
use crate::model::{
    AuditLog, AuditLogEntry, AuditLogEntryView, CupHistory, GameDayView, TeamCupHistoryView,
};
use crate::schedule;
use crate::schedule::{schedule_url, GameResult};
use crate::state;
use crate::state::{CupState, CupStateView};
use crate::text;
use crate::text::decimal_string;

verus! {

/// What is known of how the owner's game ended: the answer, or why there is none.
pub type GameCheck = Result<GameResult, String>;

/// The view of a `GameCheck`.
pub type GameCheckView = Result<Option<(bool, Option<Seq<char>>)>, Seq<char>>;

/// What a `GameCheck` stands for.
pub open spec fn check_view(check: GameCheck) -> GameCheckView {
    match check {
        Ok(result) => Ok(schedule::result_view(result)),
        Err(message) => Err(message@),
    }
}

/// The record of a day that a team started with the cup.
pub open spec fn day_entry(owner: Seq<char>, date: Seq<char>, check: GameCheckView) -> AuditLogEntryView {
    let (game_result, details, ending_owner) = match check {
        Ok(Some((true, Some(opponent)))) => ("Won game vs "@ + opponent + " - kept cup"@, None, owner),
        Ok(Some((true, None))) => ("Won game - kept cup"@, None, owner),
        Ok(Some((false, Some(opponent)))) => (
            "Lost game to "@ + opponent + " - cup transferred"@,
            Some("Cup transferred from "@ + owner + " to "@ + opponent),
            opponent,
        ),
        Ok(Some((false, None))) => (
            "Lost game - cup should transfer"@,
            Some("Cup transfer failed: opponent team not found"@),
            owner,
        ),
        Ok(None) => ("Didn't play - kept cup"@, None, owner),
        Err(message) => (
            "API Error - kept cup"@,
            Some("Error checking game result: "@ + message),
            owner,
        ),
    };
    AuditLogEntryView { date, starting_owner: owner, game_result, ending_owner, details }
}

/// Records a day that a team started with the cup.
pub fn record_day(owner: &str, date: &str, check: GameCheck) -> (entry: AuditLogEntry)
    ensures
        entry@ == day_entry(owner@, date@, check_view(check)),
{
    let (game_result, details, ending_owner) = match check {
        Ok(Some((true, Some(opponent)))) => (
            "Won game vs ".to_owned().concat(opponent.as_str()).concat(" - kept cup"),
            None,
            owner.to_owned(),
        ),
        Ok(Some((true, None))) => ("Won game - kept cup".to_owned(), None, owner.to_owned()),
        Ok(Some((false, Some(opponent)))) => (
            "Lost game to ".to_owned().concat(opponent.as_str()).concat(" - cup transferred"),
            Some(
                "Cup transferred from ".to_owned().concat(owner).concat(" to ").concat(opponent.as_str()),
            ),
            opponent,
        ),
        Ok(Some((false, None))) => (
            "Lost game - cup should transfer".to_owned(),
            Some("Cup transfer failed: opponent team not found".to_owned()),
            owner.to_owned(),
        ),
        Ok(None) => ("Didn't play - kept cup".to_owned(), None, owner.to_owned()),
        Err(message) => (
            "API Error - kept cup".to_owned(),
            Some("Error checking game result: ".to_owned().concat(message.as_str())),
            owner.to_owned(),
        ),
    };
    AuditLogEntry { date: date.to_owned(), starting_owner: owner.to_owned(), game_result, ending_owner, details }
}

/// An update on its way.
pub struct UpdateView {
    /// The last day that earlier updates have processed.
    pub last_day: int,
    /// The day that this update ends with.
    pub end_day: int,
    /// How many days this update has to process.
    pub days_to_process: int,
    /// How many of them it has processed.
    pub days_processed: int,
    /// The team that holds the cup.
    pub owner: Seq<char>,
    pub history: Seq<TeamCupHistoryView>,
    pub log: Seq<AuditLogEntryView>,
}

impl UpdateView {
    /// The day to be processed next, as it is written.
    pub open spec fn next_date(self) -> Seq<char> {
        calendar::day_text(self.last_day + self.days_processed + 1)
    }

    /// The update after one more day, on which the owner's game ended as given.
    pub open spec fn step(self, check: GameCheckView) -> UpdateView {
        let entry = day_entry(self.owner, self.next_date(), check);
        UpdateView {
            days_processed: self.days_processed + 1,
            owner: entry.ending_owner,
            history: history::with_cup_day(self.history, self.owner, self.next_date()),
            log: self.log.push(entry),
            ..self
        }
    }

    /// The update after several more days.
    pub open spec fn steps(self, checks: Seq<GameCheckView>) -> UpdateView
        decreases checks.len(),
    {
        if checks.len() == 0 {
            self
        } else {
            self.steps(checks.drop_last()).step(checks.last())
        }
    }
}

/// The moment a day before `now`, in nanoseconds.
pub open spec fn yesterday_nanos(now: Timestamp) -> int {
    now.total_nanos() - calendar::DAY_NANOS
}

/// The day before the one that Pacific clocks show at `now`.
pub open spec fn yesterday(now: Timestamp) -> int {
    calendar::pst_day(now.secs - DAY_SECS)
}

/// The whole days from the beginning of the last day that has been processed to a day before `now`,
/// negative where the state is a whole day or more ahead of it.
pub open spec fn days_elapsed(state: CupStateView, now: Timestamp) -> int {
    calendar::whole_days_between(
        calendar::day_start(state.last_day()) * calendar::SEC_NANOS,
        yesterday_nanos(now),
    )
}

/// How many days there are to process: those that have elapsed, and none where the state is ahead.
pub open spec fn days_due(state: CupStateView, now: Timestamp) -> int {
    if days_elapsed(state, now) > 0 {
        days_elapsed(state, now)
    } else {
        0
    }
}

/// Whether there can be an update: the state has a date, and the day before `now` lies within the
/// calendar.
pub open spec fn can_update(state: CupStateView, now: Timestamp) -> bool {
    &&& state.has_date()
    &&& now.wf()
    &&& calendar::in_calendar(now.secs - DAY_SECS)
    &&& calendar::in_calendar(now.secs - DAY_SECS - calendar::PST_WEST)
}

/// The update that starts from what is stored.
pub open spec fn started(
    state: CupStateView,
    history: Seq<TeamCupHistoryView>,
    log: Seq<AuditLogEntryView>,
    now: Timestamp,
) -> UpdateView {
    UpdateView {
        last_day: state.last_day(),
        end_day: yesterday(now),
        days_to_process: days_due(state, now),
        days_processed: 0,
        owner: state.current_owner,
        history,
        log,
    }
}

/// What an update reports when it is done.
pub open spec fn report_text(days_processed: nat, date: Seq<char>, owner: Seq<char>) -> Seq<char> {
    "{\"status\": \"success\", \"message\": \"In-season cup updated\", \"days_processed\": "@ + text::decimal(
        days_processed,
    ) + ", \"current_date\": \""@ + date + "\", \"current_owner\": \""@ + owner + "\"}"@
}

/// Writes what an update reports when it is done.
fn write_report(days_processed: u32, date: &str, owner: &str) -> (res: String)
    ensures
        res@ == report_text(days_processed as nat, date@, owner@),
{
    let mut res =
        "{\"status\": \"success\", \"message\": \"In-season cup updated\", \"days_processed\": ".to_owned();
    res.append(decimal_string(days_processed).as_str());
    res.append(", \"current_date\": \"");
    res.append(date);
    res.append("\", \"current_owner\": \"");
    res.append(owner);
    res.append("\"}");
    res
}

/// Tells whether there can be an update.
pub fn may_update(cup_state: &CupState, now: &Timestamp) -> (res: bool)
    ensures
        res == can_update(cup_state@, *now),
{
    let earliest: i64 = calendar::MIN_SECS + DAY_SECS + calendar::PST_WEST as i64;
    cup_state.has_last_update_date() && now.is_wf() && now.secs >= earliest
}

/// A day to be processed, and what to ask for.
pub struct DayQuery {
    /// The team whose game matters.
    pub team: String,
    /// The day, as `YYYY-MM-DD`.
    pub date: String,
    /// Where the schedule of the day is to be had.
    pub url: String,
}

/// What an update leaves to be stored, and what it reports.
pub struct UpdateReport {
    pub state: CupState,
    pub history: CupHistory,
    pub log: AuditLog,
    pub body: String,
}

/// An update on its way.
pub struct UpdateRun {
    last_update: i64,
    end: i64,
    days_to_process: u32,
    days_processed: u32,
    owner: String,
    history: CupHistory,
    log: AuditLog,
}

impl View for UpdateRun {
    type V = UpdateView;

    closed spec fn view(&self) -> UpdateView {
        UpdateView {
            last_day: calendar::pst_day(self.last_update as int),
            end_day: calendar::pst_day(self.end as int),
            days_to_process: self.days_to_process as int,
            days_processed: self.days_processed as int,
            owner: self.owner@,
            history: self.history@,
            log: self.log@,
        }
    }
}

impl UpdateRun {
    /// What holds of every update on its way: it has processed no more days than it has to, and all
    /// of them lie within the calendar.
    pub closed spec fn wf(self) -> bool {
        &&& self.days_processed <= self.days_to_process
        &&& calendar::in_calendar(self.last_update as int)
        &&& calendar::in_calendar(self.last_update - calendar::PST_WEST)
        &&& calendar::in_calendar(self.end as int)
        &&& calendar::in_calendar(self.end - calendar::PST_WEST)
        &&& calendar::in_calendar(self.last_update + DAY_SECS * self.days_to_process)
    }

    /// Starts an update from what is stored.
    pub fn start(cup_state: CupState, history: CupHistory, log: AuditLog, now: Timestamp) -> (run: Self)
        requires
            can_update(cup_state@, now),
        ensures
            run.wf(),
            run@ == started(cup_state@, history@, log@, now),
    {
        let last_update = cup_state.get_last_update_date();
        let end = Timestamp { secs: now.secs - DAY_SECS, nanos: now.nanos };
        let elapsed: i64 = end.whole_days_since(&last_update);
        let days_to_process: u32 = if elapsed > 0 {
            elapsed as u32
        } else {
            0
        };
        UpdateRun {
            last_update: last_update.secs,
            end: end.secs,
            days_to_process,
            days_processed: 0,
            owner: cup_state.current_owner,
            history,
            log,
        }
    }

    /// How many days the update has to process.
    pub fn days_to_process(&self) -> (days: u32)
        ensures
            days == self@.days_to_process,
    {
        self.days_to_process
    }

    /// The next day to be processed and what to ask for, until all are.
    pub fn next_query(&self) -> (res: Option<DayQuery>)
        requires
            self.wf(),
        ensures
            match res {
                Some(query) => {
                    &&& self@.days_processed < self@.days_to_process
                    &&& query.team@ == self@.owner
                    &&& query.date@ == self@.next_date()
                    &&& query.url@ == schedule::schedule_address(self@.next_date())
                },
                None => self@.days_processed == self@.days_to_process,
            },
    {
        if self.days_processed < self.days_to_process {
            let date = self.write_next_date();
            let url = schedule_url(date.as_str());
            Some(DayQuery { team: self.owner.clone(), date, url })
        } else {
            None
        }
    }

    fn write_next_date(&self) -> (date: String)
        requires
            self.wf(),
            self.days_processed < self.days_to_process,
        ensures
            date@ == self@.next_date(),
    {
        pst_date_text(self.last_update + DAY_SECS * (self.days_processed as i64 + 1))
    }

    /// Processes the next day, on which the owner's game ended as given.
    pub fn process_day(&mut self, check: GameCheck)
        requires
            old(self).wf(),
            old(self)@.days_processed < old(self)@.days_to_process,
        ensures
            final(self).wf(),
            final(self)@ == old(self)@.step(check_view(check)),
    {
        let date = self.write_next_date();
        add_cup_day(&mut self.history, self.owner.as_str(), date.as_str());
        let entry = record_day(self.owner.as_str(), date.as_str(), check);
        let ending_owner = entry.ending_owner.clone();
        add_audit_entry(&mut self.log, entry);
        self.owner = ending_owner;
        self.days_processed = self.days_processed + 1;
    }

    /// Ends an update that has processed all of its days.
    pub fn finish(self) -> (report: UpdateReport)
        requires
            self.wf(),
            self@.days_processed == self@.days_to_process,
        ensures
            report.state@ == state::state_after(self@.end_day, self@.owner),
            report.history@ == self@.history,
            report.log@ == self@.log,
            report.body@ == report_text(
                self@.days_processed as nat,
                calendar::day_text(self@.end_day),
                self@.owner,
            ),
    {
        let date = CalendarDate::in_pst(self.end);
        let body = write_report(self.days_processed, date.to_text().as_str(), self.owner.as_str());
        UpdateReport { state: CupState::after(date, self.owner), history: self.history, log: self.log, body }
    }
}

/// The cup changes hands only where its owner lost a game to an opponent that is known, and then it
/// goes to that opponent.
pub proof fn cup_moves_only_by_a_lost_game(owner: Seq<char>, date: Seq<char>, check: GameCheckView)
    ensures
        day_entry(owner, date, check).date == date,
        day_entry(owner, date, check).starting_owner == owner,
        match check {
            Ok(Some((false, Some(opponent)))) => day_entry(owner, date, check).ending_owner == opponent,
            _ => day_entry(owner, date, check).ending_owner == owner,
        },
{
}

/// Where the cup changes hands according to a schedule, it goes to the opponent of its owner in a
/// completed game of that date that the owner did not win.
pub proof fn cup_goes_to_the_opponent(schedule: Seq<GameDayView>, owner: Seq<char>, date: Seq<char>)
    ensures
        ({
            let entry = day_entry(owner, date, Ok(schedule::game_result_on(schedule, owner, date)));
            entry.ending_owner != owner ==> exists|d: int, g: int|
                0 <= d < schedule.len() && schedule[d].date == date && 0 <= g < schedule[d].games.len()
                    && schedule::has_played(#[trigger] schedule[d].games[g], owner) && schedule::team_outcome(
                    schedule[d].games[g],
                    owner,
                ) == (false, entry.ending_owner)
        }),
{
    schedule::result_comes_from_a_game(schedule, owner, date);
}

/// Processing days leaves the frame of an update as it is and counts the days.
proof fn lemma_steps_frame(update: UpdateView, checks: Seq<GameCheckView>)
    ensures
        update.steps(checks).last_day == update.last_day,
        update.steps(checks).end_day == update.end_day,
        update.steps(checks).days_to_process == update.days_to_process,
        update.steps(checks).days_processed == update.days_processed + checks.len(),
        update.steps(checks).log.len() == update.log.len() + checks.len(),
    decreases checks.len(),
{
    if checks.len() > 0 {
        lemma_steps_frame(update, checks.drop_last());
    }
}

/// Processing some days and then some more is processing all of them.
pub proof fn steps_compose(update: UpdateView, first: Seq<GameCheckView>, second: Seq<GameCheckView>)
    ensures
        update.steps(first + second) == update.steps(first).steps(second),
    decreases second.len(),
{
    if second.len() == 0 {
        assert(first + second =~= first);
    } else {
        assert((first + second).drop_last() =~= first + second.drop_last());
        steps_compose(update, first, second.drop_last());
    }
}

/// The audit log is only appended to, with one entry for each day that is processed: the entries
/// carry consecutive dates, each day starts with the owner that the day before it ended with, the
/// first one starts with the owner that the update started with, and the update ends with the owner
/// that the last one ended with.
pub proof fn audit_log_follows_the_cup(update: UpdateView, checks: Seq<GameCheckView>)
    ensures
        update.steps(checks).log.len() == update.log.len() + checks.len(),
        forall|i: int| 0 <= i < update.log.len() ==> (#[trigger] update.steps(checks).log[i]) == update.log[i],
        forall|k: int|
            0 <= k < checks.len() ==> (#[trigger] update.steps(checks).log[update.log.len() + k]) == day_entry(
                update.steps(checks.take(k)).owner,
                calendar::day_text(update.last_day + update.days_processed + k + 1),
                checks[k],
            ),
        forall|k: int|
            1 <= k < checks.len() ==> (#[trigger] update.steps(checks).log[update.log.len() + k]).starting_owner
                == update.steps(checks).log[update.log.len() + k - 1].ending_owner,
        checks.len() > 0 ==> update.steps(checks).log[update.log.len() as int].starting_owner == update.owner,
        update.steps(checks).owner == if checks.len() == 0 {
            update.owner
        } else {
            update.steps(checks).log.last().ending_owner
        },
    decreases checks.len(),
{
    lemma_steps_frame(update, checks);
    if checks.len() > 0 {
        let before = checks.drop_last();
        let n = update.log.len();
        audit_log_follows_the_cup(update, before);
        lemma_steps_frame(update, before);
        let log = update.steps(checks).log;
        let old_log = update.steps(before).log;
        assert(log =~= old_log.push(log.last()));
        assert(checks.take(checks.len() - 1) =~= before);
        assert forall|k: int| 0 <= k < checks.len() implies (#[trigger] log[n + k]) == day_entry(
            update.steps(checks.take(k)).owner,
            calendar::day_text(update.last_day + update.days_processed + k + 1),
            checks[k],
        ) by {
            if k < before.len() {
                assert(log[n + k] == old_log[n + k]);
                assert(checks.take(k) =~= before.take(k));
            }
        }
        assert forall|k: int| 1 <= k < checks.len() implies (#[trigger] log[n + k]).starting_owner == log[n + k
            - 1].ending_owner by {
            if k < before.len() {
                assert(log[n + k] == old_log[n + k]);
                assert(log[n + k - 1] == old_log[n + k - 1]);
            } else {
                assert(log[n + k - 1] == old_log.last());
            }
        }
        if before.len() > 0 {
            assert(log[n as int] == old_log[n as int]);
        }
        assert forall|i: int| 0 <= i < n implies (#[trigger] log[i]) == update.log[i] by {
            assert(log[i] == old_log[i]);
        }
    }
}

/// Within the years 0 to 9999, the entries that an update appends to the audit log carry dates that
/// grow from one to the next, so that no day is entered twice.
pub proof fn audit_log_dates_grow(update: UpdateView, checks: Seq<GameCheckView>, j: int, k: int)
    requires
        0 <= j < k < checks.len(),
        calendar::has_plain_year(update.last_day + update.days_processed + 1),
        calendar::has_plain_year(update.last_day + update.days_processed + checks.len()),
    ensures
        text::text_le(
            update.steps(checks).log[update.log.len() + j].date,
            update.steps(checks).log[update.log.len() + k].date,
        ),
        update.steps(checks).log[update.log.len() + j].date != update.steps(checks).log[update.log.len()
            + k].date,
{
    audit_log_follows_the_cup(update, checks);
    let first = update.last_day + update.days_processed + 1;
    calendar::day_texts_follow_days(first + j, first + k);
}

/// An update keeps the history: the teams stay the same, no team loses a day, days in order stay in
/// order, and each day that is processed is among the days of the team that started it with the
/// cup, if the history lists that team.
pub proof fn each_day_is_credited(update: UpdateView, checks: Seq<GameCheckView>)
    ensures
        update.steps(checks).history.len() == update.history.len(),
        forall|i: int|
            0 <= i < update.history.len() ==> (#[trigger] update.steps(checks).history[i]).team
                == update.history[i].team,
        forall|i: int, d: Seq<char>|
            0 <= i < update.history.len() && update.history[i].cup_days.contains(d) ==> (
            #[trigger] update.steps(checks).history[i].cup_days.contains(d)),
        history::days_in_order(update.history) ==> history::days_in_order(update.steps(checks).history),
        forall|k: int, i: int|
            0 <= k < checks.len() && 0 <= i < update.history.len() && history::lists_first(
                update.history,
                #[trigger] update.steps(checks.take(k)).owner,
                i,
            ) ==> (#[trigger] update.steps(checks).history[i]).cup_days.contains(
                calendar::day_text(update.last_day + update.days_processed + k + 1),
            ),
    decreases checks.len(),
{
    if checks.len() > 0 {
        let before = checks.drop_last();
        let mid = update.steps(before);
        let end = update.steps(checks);
        each_day_is_credited(update, before);
        lemma_steps_frame(update, before);
        history::cup_day_is_added(mid.history, mid.owner, mid.next_date());
        assert(checks.take(checks.len() - 1) =~= before);
        assert forall|i: int, d: Seq<char>|
            0 <= i < update.history.len() && update.history[i].cup_days.contains(d) implies (
        #[trigger] end.history[i].cup_days.contains(d)) by {
            assert(mid.history[i].cup_days.contains(d));
        }
        assert forall|k: int, i: int|
            0 <= k < checks.len() && 0 <= i < update.history.len() && history::lists_first(
                update.history,
                #[trigger] update.steps(checks.take(k)).owner,
                i,
            ) implies (#[trigger] end.history[i]).cup_days.contains(
            calendar::day_text(update.last_day + update.days_processed + k + 1),
        ) by {
            if k < before.len() {
                assert(checks.take(k) =~= before.take(k));
                assert(update.steps(before.take(k)).owner == update.steps(checks.take(k)).owner);
                assert(mid.history[i].cup_days.contains(
                    calendar::day_text(update.last_day + update.days_processed + k + 1),
                ));
            } else {
                assert forall|j: int| 0 <= j < i implies (#[trigger] mid.history[j]).team != mid.owner by {
                    assert(update.history[j].team != mid.owner);
                }
                assert(mid.history[i].team == mid.owner);
                assert(history::lists_first(mid.history, mid.owner, i));
            }
        }
    }
}

/// A team gets no cup day from an update but the days that it started with the cup.
pub proof fn only_owners_are_credited(update: UpdateView, checks: Seq<GameCheckView>, i: int, date: Seq<char>)
    requires
        0 <= i < update.history.len(),
        update.steps(checks).history[i].cup_days.contains(date),
        !update.history[i].cup_days.contains(date),
    ensures
        exists|k: int|
            0 <= k < checks.len() && date == calendar::day_text(update.last_day + update.days_processed + k + 1)
                && (#[trigger] update.steps(checks.take(k))).owner == update.history[i].team,
    decreases checks.len(),
{
    if checks.len() > 0 {
        let before = checks.drop_last();
        let mid = update.steps(before);
        each_day_is_credited(update, before);
        lemma_steps_frame(update, before);
        history::cup_day_is_added(mid.history, mid.owner, mid.next_date());
        assert(checks.take(checks.len() - 1) =~= before);
        if mid.history[i].cup_days.contains(date) {
            only_owners_are_credited(update, before, i, date);
            let k = choose|k: int|
                0 <= k < before.len() && date == calendar::day_text(
                    update.last_day + update.days_processed + k + 1,
                ) && (#[trigger] update.steps(before.take(k))).owner == update.history[i].team;
            assert(checks.take(k) =~= before.take(k));
            assert(update.steps(checks.take(k)).owner == update.history[i].team);
        } else {
            assert(mid.history[i].team == mid.owner && date == mid.next_date());
            assert(update.steps(checks.take(checks.len() - 1)).owner == update.history[i].team);
        }
    }
}

/// An update goes through exactly the days after the last one that has been processed, up to and
/// with the day before `now`. Where the state is already at that day, or ahead of it, there is
/// nothing to process.
pub proof fn update_covers_the_days_until_yesterday(state: CupStateView, now: Timestamp)
    requires
        can_update(state, now),
    ensures
        yesterday(now) >= state.last_day() ==> days_due(state, now) == yesterday(now) - state.last_day(),
        yesterday(now) <= state.last_day() ==> days_due(state, now) == 0,
{
}

/// An update never processes a day after yesterday: the days that it has processed end with
/// yesterday or, where the state is ahead of it, there are none.
pub proof fn no_day_after_yesterday_is_processed(
    state: CupStateView,
    history: Seq<TeamCupHistoryView>,
    log: Seq<AuditLogEntryView>,
    now: Timestamp,
    checks: Seq<GameCheckView>,
)
    requires
        can_update(state, now),
        checks.len() <= days_due(state, now),
    ensures
        checks.len() > 0 ==> state.last_day() + checks.len() <= yesterday(now),
        state.last_day() >= yesterday(now) ==> started(state, history, log, now).steps(checks) == started(
            state,
            history,
            log,
            now,
        ),
{
    update_covers_the_days_until_yesterday(state, now);
}

/// A second update on the same day, by Pacific clocks, finds nothing to process.
pub proof fn repeated_update_has_nothing_to_do(owner: Seq<char>, first: Timestamp, second: Timestamp)
    requires
        first.wf(),
        second.wf(),
        calendar::in_calendar(first.secs - DAY_SECS),
        calendar::in_calendar(first.secs - DAY_SECS - calendar::PST_WEST),
        calendar::in_calendar(second.secs - DAY_SECS),
        calendar::in_calendar(second.secs - DAY_SECS - calendar::PST_WEST),
        yesterday(first) == yesterday(second),
    ensures
        can_update(state::state_after(yesterday(first), owner), second),
        days_due(state::state_after(yesterday(first), owner), second) == 0,
{
    state::state_remembers_day(yesterday(first), owner);
}

/// Updating on one day and again on the same or a later one comes to the same as updating once on
/// the later day, unless the state is ahead of the first update and the second one is on a later
/// day: the same days are processed, and the same history, log and owner come out.
pub proof fn updates_compose(
    state: CupStateView,
    history: Seq<TeamCupHistoryView>,
    log: Seq<AuditLogEntryView>,
    now: Timestamp,
    later: Timestamp,
    first: Seq<GameCheckView>,
    second: Seq<GameCheckView>,
)
    requires
        can_update(state, now),
        can_update(state, later),
        yesterday(now) <= yesterday(later),
        state.last_day() <= yesterday(now) || yesterday(now) == yesterday(later),
        first.len() == days_due(state, now),
        second.len() == days_due(state, later) - days_due(state, now),
    ensures
        ({
            let run = started(state, history, log, now).steps(first);
            let stored = state::state_after(run.end_day, run.owner);
            let rest = started(stored, run.history, run.log, later).steps(second);
            let whole = started(state, history, log, later).steps(first + second);
            &&& run.days_processed == run.days_to_process
            &&& can_update(stored, later)
            &&& rest.days_processed == rest.days_to_process
            &&& whole.days_processed == whole.days_to_process
            &&& rest.history == whole.history
            &&& rest.log == whole.log
            &&& rest.owner == whole.owner
            &&& rest.end_day == whole.end_day
        }),
{
    update_covers_the_days_until_yesterday(state, now);
    update_covers_the_days_until_yesterday(state, later);
    let run = started(state, history, log, now).steps(first);
    let stored = state::state_after(run.end_day, run.owner);
    lemma_steps_frame(started(state, history, log, now), first);
    state::state_remembers_day(yesterday(now), run.owner);
    assert(can_update(stored, later));
    update_covers_the_days_until_yesterday(stored, later);
    let begun = started(state, history, log, later);
    let resumed = started(stored, run.history, run.log, later);
    lemma_steps_agree(started(state, history, log, now), begun, first);
    steps_compose(begun, first, second);
    lemma_steps_frame(begun, first);
    if second.len() > 0 {
        lemma_steps_agree(resumed, begun.steps(first), second);
    }
    lemma_steps_frame(resumed, second);
    lemma_steps_frame(begun, first + second);
}

/// Two updates that are to process the same day next, with the same owner, history and log, keep
/// agreeing.
proof fn lemma_steps_agree(a: UpdateView, b: UpdateView, checks: Seq<GameCheckView>)
    requires
        a.last_day + a.days_processed == b.last_day + b.days_processed,
        a.owner == b.owner,
        a.history == b.history,
        a.log == b.log,
    ensures
        a.steps(checks).owner == b.steps(checks).owner,
        a.steps(checks).history == b.steps(checks).history,
        a.steps(checks).log == b.steps(checks).log,
    decreases checks.len(),
{
    if checks.len() > 0 {
        lemma_steps_agree(a, b, checks.drop_last());
        lemma_steps_frame(a, checks.drop_last());
        lemma_steps_frame(b, checks.drop_last());
    }
}

/// An update ends with the day before the one that clocks eight hours behind UTC show, whatever the
/// time of day is, and has to process the days after the last one that has been processed up to that
/// day. The day that is still running is never among them. The update starts with the owner, the
/// history and the log that are stored.
pub proof fn update_leaves_out_the_running_day(
    state: CupStateView,
    history: Seq<TeamCupHistoryView>,
    log: Seq<AuditLogEntryView>,
    now: Timestamp,
)
    ensures
        ({
            let update = started(state, history, log, now);
            let today = (now.secs - 28800) / 86400;
            &&& 86400 * today + 28800 <= now.secs < 86400 * (today + 1) + 28800
            &&& update.end_day == today - 1
            &&& update.last_day == state.last_day()
            &&& now.nanos < 1000000000 && today - 1 >= state.last_day() ==> update.days_to_process == today - 1
                - state.last_day()
            &&& now.nanos < 1000000000 && today - 1 <= state.last_day() ==> update.days_to_process == 0
            &&& now.nanos < 1000000000 && update.days_to_process > 0 ==> update.last_day + update.days_to_process < today
            &&& update.days_processed == 0
            &&& update.owner == state.current_owner
            &&& update.history == history
            &&& update.log == log
        }),
{
}

/// There can be an update from every state that is at a date, at every moment whose day before lies
/// within the calendar.
pub proof fn update_can_start_within_the_calendar(state: CupStateView, now: Timestamp)
    ensures
        can_update(state, now) <==> state.has_date() && now.nanos < 1000000000 && -8334601228800 + 86400 + 28800
            <= now.secs <= 8210266876799,
{
}

/// Processing a day counts it, appends its record to the log, credits the team that started it with
/// the cup, and hands the cup to the team that it ended with. The days that there are to process
/// stay the same.
pub proof fn one_day_is_processed(update: UpdateView, check: GameCheckView)
    ensures
        ({
            let date = calendar::day_text(update.last_day + update.days_processed + 1);
            let after = update.step(check);
            &&& update.next_date() == date
            &&& after.days_processed == update.days_processed + 1
            &&& after.last_day == update.last_day
            &&& after.end_day == update.end_day
            &&& after.days_to_process == update.days_to_process
            &&& after.log.len() == update.log.len() + 1
            &&& forall|i: int| 0 <= i < update.log.len() ==> #[trigger] after.log[i] == update.log[i]
            &&& after.log.last() == day_entry(update.owner, date, check)
            &&& after.owner == match check {
                Ok(Some((false, Some(opponent)))) => opponent,
                _ => update.owner,
            }
            &&& after.history == history::with_cup_day(update.history, update.owner, date)
        }),
{
}

/// The record of a day says what happened: that the owner won, lost or did not play, or that its game
/// could not be looked up. It names the opponent wherever that is known, both teams where the cup
/// changes hands, and the reason where there is an error.
pub proof fn record_says_what_happened(owner: Seq<char>, date: Seq<char>, opponent: Seq<char>, reason: Seq<char>)
    ensures
        ({
            let entry = day_entry(owner, date, Ok(Some((true, Some(opponent)))));
            entry.game_result == "Won game vs "@ + opponent + " - kept cup"@ && entry.details is None
        }),
        ({
            let entry = day_entry(owner, date, Ok(Some((true, None))));
            entry.game_result == "Won game - kept cup"@ && entry.details is None
        }),
        ({
            let entry = day_entry(owner, date, Ok(Some((false, Some(opponent)))));
            entry.game_result == "Lost game to "@ + opponent + " - cup transferred"@ && entry.details == Some(
                "Cup transferred from "@ + owner + " to "@ + opponent,
            )
        }),
        ({
            let entry = day_entry(owner, date, Ok(Some((false, None))));
            entry.game_result == "Lost game - cup should transfer"@ && entry.details == Some(
                "Cup transfer failed: opponent team not found"@,
            )
        }),
        ({
            let entry = day_entry(owner, date, Ok(None));
            entry.game_result == "Didn't play - kept cup"@ && entry.details is None
        }),
        ({
            let entry = day_entry(owner, date, Err(reason));
            entry.game_result == "API Error - kept cup"@ && entry.details == Some(
                "Error checking game result: "@ + reason,
            )
        }),
{
}

/// An owner that does not have the higher score in its first completed game of a date passes the cup
/// on to the other team of that game; an owner that has it keeps the cup. A missing score counts as
/// none.
pub proof fn cup_follows_the_score(
    schedule: Seq<GameDayView>,
    owner: Seq<char>,
    date: Seq<char>,
    d: int,
    g: int,
)
    requires
        0 <= d < schedule.len(),
        schedule[d].date == date,
        0 <= g < schedule[d].games.len(),
        schedule[d].games[g].game_state == "OFF"@,
        schedule[d].games[g].away_team.abbrev == owner || schedule[d].games[g].home_team.abbrev == owner,
        forall|e: int, f: int|
            0 <= e <= d && schedule[e].date == date && 0 <= f < schedule[e].games.len() && (e < d || f < g)
                && #[trigger] schedule[e].games[f].game_state == "OFF"@ ==> schedule[e].games[f].away_team.abbrev
                != owner && schedule[e].games[f].home_team.abbrev != owner,
    ensures
        ({
            let entry = day_entry(owner, date, Ok(schedule::game_result_on(schedule, owner, date)));
            let game = schedule[d].games[g];
            let (own, other) = if game.away_team.abbrev == owner {
                (game.away_team, game.home_team)
            } else {
                (game.home_team, game.away_team)
            };
            let scored: int = match own.score {
                Some(score) => score as int,
                None => 0,
            };
            let against: int = match other.score {
                Some(score) => score as int,
                None => 0,
            };
            &&& scored > against ==> entry.ending_owner == owner
            &&& scored <= against ==> entry.ending_owner == other.abbrev
        }),
{
    schedule::first_completed_game_decides(schedule, owner, date, d, g);
}

/// An owner that a schedule lists no completed game of for a date keeps the cup on that date.
pub proof fn cup_stays_without_a_completed_game(schedule: Seq<GameDayView>, owner: Seq<char>, date: Seq<char>)
    requires
        forall|d: int, g: int|
            0 <= d < schedule.len() && schedule[d].date == date && 0 <= g < schedule[d].games.len()
                && #[trigger] schedule[d].games[g].game_state == "OFF"@ ==> schedule[d].games[g].away_team.abbrev
                != owner && schedule[d].games[g].home_team.abbrev != owner,
    ensures
        day_entry(owner, date, Ok(schedule::game_result_on(schedule, owner, date))).ending_owner == owner,
{
    schedule::no_completed_game_no_result(schedule, owner, date);
}

/// If any entry of the history is that of the team that starts a processed day with the cup, some
/// entry of that team holds the day afterwards. The log names the team and the day.
pub proof fn each_processed_day_goes_to_its_owner(update: UpdateView, checks: Seq<GameCheckView>, k: int)
    requires
        0 <= k < checks.len(),
    ensures
        ({
            let after = update.steps(checks);
            let entry = after.log[update.log.len() + k];
            &&& entry.date == calendar::day_text(update.last_day + update.days_processed + k + 1)
            &&& (exists|i: int|
                0 <= i < update.history.len() && (#[trigger] update.history[i]).team == entry.starting_owner) ==> (
            exists|i: int|
                0 <= i < update.history.len() && (#[trigger] after.history[i]).team == entry.starting_owner
                    && after.history[i].cup_days.contains(entry.date))
        }),
{
    let after = update.steps(checks);
    let entry = after.log[update.log.len() + k];
    let owner = update.steps(checks.take(k)).owner;
    audit_log_follows_the_cup(update, checks);
    each_day_is_credited(update, checks);
    assert(entry.starting_owner == owner);
    if exists|i: int| 0 <= i < update.history.len() && (#[trigger] update.history[i]).team == owner {
        let listed = choose|i: int| 0 <= i < update.history.len() && (#[trigger] update.history[i]).team == owner;
        let i = history::lemma_first_entry(update.history, owner, listed);
        assert(history::lists_first(update.history, owner, i));
        assert(after.history[i].team == owner);
        assert(after.history[i].cup_days.contains(entry.date));
    }
}

/// What an update reports shows how many days it has processed, the day that it ends with, and who
/// holds the cup.
pub proof fn report_shows_days_date_and_owner(days_processed: nat, date: Seq<char>, owner: Seq<char>)
    ensures
        report_text(days_processed, date, owner)
            == "{\"status\": \"success\", \"message\": \"In-season cup updated\", \"days_processed\": "@
            + text::decimal(days_processed) + ", \"current_date\": \""@ + date + "\", \"current_owner\": \""@ + owner
            + "\"}"@,
{
}

/// What is known of a game stands for the answer, or for the reason why there is none.
pub proof fn check_view_shows_the_check(result: GameResult, message: String)
    ensures
        check_view(Ok(result)) == Ok::<Option<(bool, Option<Seq<char>>)>, Seq<char>>(schedule::result_view(result)),
        check_view(Err(message)) == Err::<Option<(bool, Option<Seq<char>>)>, Seq<char>>(message@),
{
}

} // verus!
