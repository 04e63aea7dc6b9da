//! The state of the cup: who holds it, and up to which day that has been worked out.

use vstd::prelude::*;

use crate::calendar;
use crate::calendar::{pst_midnight, CalendarDate, Timestamp};

verus! {

/// Who holds the cup, and the last day that has been processed.
#[derive(Debug, PartialEq, Eq)]
pub struct CupState {
    pub last_update_year: u32,
    pub last_update_month: u32,
    pub last_update_day: u32,
    /// The abbreviation of the team.
    pub current_owner: String,
}

pub struct CupStateView {
    pub last_update_year: u32,
    pub last_update_month: u32,
    pub last_update_day: u32,
    pub current_owner: Seq<char>,
}

impl View for CupState {
    type V = CupStateView;

    open spec fn view(&self) -> CupStateView {
        CupStateView {
            last_update_year: self.last_update_year,
            last_update_month: self.last_update_month,
            last_update_day: self.last_update_day,
            current_owner: self.current_owner@,
        }
    }
}

/// The year that 32 bits stand for: the upper half of their values are the years before the year 0.
pub open spec fn year_of_bits(bits: u32) -> int {
    if bits < 0x8000_0000 {
        bits as int
    } else {
        bits - 0x1_0000_0000
    }
}

/// The 32 bits that stand for a year.
pub open spec fn bits_of_year(year: int) -> u32 {
    if year >= 0 {
        year as u32
    } else {
        (year + 0x1_0000_0000) as u32
    }
}

/// The state in which a day, given by its number of days since 1970-01-01, has been processed and
/// has ended with an owner.
pub open spec fn state_after(day: int, owner: Seq<char>) -> CupStateView {
    let date = calendar::date_of_day(day);
    CupStateView {
        last_update_year: bits_of_year(date.0),
        last_update_month: date.1 as u32,
        last_update_day: date.2 as u32,
        current_owner: owner,
    }
}

/// The state after a day has been processed remembers that day.
pub proof fn state_remembers_day(day: int, owner: Seq<char>)
    requires
        calendar::is_day(day),
    ensures
        state_after(day, owner).has_date(),
        state_after(day, owner).last_day() == day,
        state_after(day, owner).current_owner == owner,
{
    calendar::each_day_has_one_date(day);
}

impl CupStateView {
    /// Whether the last day that has been processed is a date.
    pub open spec fn has_date(self) -> bool {
        calendar::is_date(
            year_of_bits(self.last_update_year),
            self.last_update_month as int,
            self.last_update_day as int,
        )
    }

    /// The last day that has been processed, as its number of days since 1970-01-01.
    pub open spec fn last_day(self) -> int {
        calendar::day_number(
            year_of_bits(self.last_update_year),
            self.last_update_month as int,
            self.last_update_day as int,
        )
    }
}

fn signed_year(bits: u32) -> (res: i32)
    ensures
        res == year_of_bits(bits),
{
    assert(bits < 0x8000_0000u32 ==> bits as i32 == bits) by (bit_vector);
    assert(bits >= 0x8000_0000u32 ==> bits as i32 == bits - 0x1_0000_0000) by (bit_vector);
    #[verifier::truncate]
    (bits as i32)
}

fn year_bits(year: i32) -> (res: u32)
    ensures
        res == bits_of_year(year as int),
{
    assert(year >= 0 ==> year as u32 == year && (year as u32) < 0x8000_0000u32) by (bit_vector);
    assert(year < 0 ==> year as u32 == year + 0x1_0000_0000 && year as u32 >= 0x8000_0000u32) by (bit_vector);
    #[verifier::truncate]
    (year as u32)
}

/// The state before anything has been stored: the last day that counts as
/// processed, and the team that starts with the cup.
pub open spec fn default_state() -> CupStateView {
    CupStateView {
        last_update_year: 2025,
        last_update_month: 10,
        last_update_day: 6,
        current_owner: "FLA"@,
    }
}

impl CupState {
    /// The state before anything has been stored.
    pub fn default() -> (res: Self)
        ensures
            res@ == default_state(),
    {
        CupState {
            last_update_year: 2025,
            last_update_month: 10,
            last_update_day: 6,
            current_owner: "FLA".to_owned(),
        }
    }

    /// Whether the last day that has been processed is a date.
    pub fn has_last_update_date(&self) -> (res: bool)
        ensures
            res == self@.has_date(),
    {
        pst_midnight(signed_year(self.last_update_year), self.last_update_month, self.last_update_day).is_some()
    }

    /// When the last day that has been processed began, in Pacific Standard Time.
    pub fn get_last_update_date(&self) -> (res: Timestamp)
        requires
            self@.has_date(),
        ensures
            res.wf(),
            res.secs == calendar::day_start(self@.last_day()),
            res.nanos == 0,
            calendar::in_calendar(res.secs - calendar::PST_WEST),
    {
        let midnight = pst_midnight(
            signed_year(self.last_update_year),
            self.last_update_month,
            self.last_update_day,
        );
        Timestamp { secs: midnight.unwrap(), nanos: 0 }
    }

    /// The state in which a day has been processed and has ended with an owner.
    pub fn after(date: CalendarDate, owner: String) -> (res: Self)
        requires
            date.wf(),
        ensures
            res@ == state_after(date.number(), owner@),
    {
        proof {
            calendar::lemma_bounds_of_dates(date.year as int, date.month as int, date.day as int);
            calendar::each_day_has_one_date(date.number());
        }
        CupState {
            last_update_year: year_bits(date.year),
            last_update_month: date.month,
            last_update_day: date.day,
            current_owner: owner,
        }
    }
}

/// A state is at the date that its year, its month and its day are; the years from 2147483648 on
/// stand for the years before the year 0, counted back from 4294967296.
pub proof fn state_is_at_its_date(state: CupStateView)
    ensures
        ({
            let bits = state.last_update_year as int;
            let year = if bits < 2147483648 {
                bits
            } else {
                bits - 4294967296
            };
            let month = state.last_update_month as int;
            let day = state.last_update_day as int;
            &&& state.has_date() <==> calendar::is_date(year, month, day)
            &&& state.last_day() == calendar::day_number(year, month, day)
        }),
{
}

/// What is stored after a date has been processed is that date, with the team that the date ended
/// with. The years before the year 0 are stored as what is left of 4294967296.
pub proof fn state_holds_the_date(year: int, month: int, day: int, owner: Seq<char>)
    requires
        calendar::is_date(year, month, day),
    ensures
        ({
            let state = state_after(calendar::day_number(year, month, day), owner);
            &&& year >= 0 ==> state.last_update_year == year
            &&& year < 0 ==> state.last_update_year == year + 4294967296
            &&& state.last_update_month == month
            &&& state.last_update_day == day
            &&& state.current_owner == owner
        }),
{
    calendar::day_text_is_that_of_its_date(year, month, day);
}

/// A year survives being stored, and every stored value is that of one year.
pub proof fn stored_years_read_back(year: int, bits: u32)
    requires
        -2147483648 <= year < 2147483648,
    ensures
        year_of_bits(bits_of_year(year)) == year,
        bits_of_year(year_of_bits(bits)) == bits,
        -2147483648 <= year_of_bits(bits) < 2147483648,
        year >= 0 ==> bits_of_year(year) == year,
{
}

/// The cup starts with `FLA`, with 2025-10-06 as the last day that counts as processed.
pub proof fn cup_starts_in_october()
    ensures
        default_state().last_update_year == 2025,
        default_state().last_update_month == 10,
        default_state().last_update_day == 6,
        default_state().current_owner == "FLA"@,
        default_state().has_date(),
{
}

/// A state stands for what it holds.
pub proof fn state_view_shows_the_state(state: CupState)
    ensures
        state@.last_update_year == state.last_update_year,
        state@.last_update_month == state.last_update_month,
        state@.last_update_day == state.last_update_day,
        state@.current_owner == state.current_owner@,
{
}

} // verus!
