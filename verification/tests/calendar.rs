use in_season_cup::calendar::{
    get_pst, pst_date_text, pst_midnight, CalendarDate, Timestamp, MAX_SECS, MIN_SECS,
};

const OCT_6: i64 = 1759737600;

#[test]
fn pacific_standard_time_is_eight_hours_behind() {
    assert_eq!(get_pst(), 28800);
}

#[test]
fn midnight_of_a_date() {
    assert_eq!(pst_midnight(1970, 1, 1), Some(28800));
    assert_eq!(pst_midnight(2025, 10, 6), Some(OCT_6));
    assert_eq!(pst_midnight(2024, 2, 29), Some(1709193600));
    assert_eq!(pst_midnight(-262143, 1, 1), Some(MIN_SECS + 28800));
    assert_eq!(pst_midnight(262142, 12, 31), Some(MAX_SECS - 86399 + 28800));
}

#[test]
fn dates_that_do_not_exist_have_no_midnight() {
    assert_eq!(pst_midnight(2023, 2, 29), None);
    assert_eq!(pst_midnight(1900, 2, 29), None);
    assert!(pst_midnight(2000, 2, 29).is_some());
    assert_eq!(pst_midnight(2025, 4, 31), None);
    assert_eq!(pst_midnight(2025, 13, 1), None);
    assert_eq!(pst_midnight(2025, 0, 1), None);
    assert_eq!(pst_midnight(2025, 1, 0), None);
    assert_eq!(pst_midnight(262143, 1, 1), None);
    assert_eq!(pst_midnight(-262144, 12, 31), None);
}

#[test]
fn the_date_changes_at_midnight_in_the_pacific() {
    let before = CalendarDate::in_pst(OCT_6 - 1);
    assert_eq!((before.year, before.month, before.day), (2025, 10, 5));
    let after = CalendarDate::in_pst(OCT_6);
    assert_eq!((after.year, after.month, after.day), (2025, 10, 6));
    let last = CalendarDate::in_pst(OCT_6 + 86399);
    assert_eq!((last.year, last.month, last.day), (2025, 10, 6));
}

#[test]
fn dates_are_written_with_leading_zeros() {
    assert_eq!(pst_date_text(OCT_6), "2025-10-06");
    assert_eq!(CalendarDate { year: 7, month: 1, day: 2 }.to_text(), "0007-01-02");
    assert_eq!(CalendarDate { year: 0, month: 12, day: 31 }.to_text(), "0000-12-31");
}

#[test]
fn years_out_of_four_digits_are_written_with_a_sign() {
    assert_eq!(CalendarDate { year: -5, month: 3, day: 4 }.to_text(), "-0005-03-04");
    assert_eq!(CalendarDate { year: 10000, month: 1, day: 1 }.to_text(), "+10000-01-01");
    assert_eq!(CalendarDate { year: -12345, month: 1, day: 1 }.to_text(), "-12345-01-01");
}

#[test]
fn texts_of_dates_are_in_the_order_of_time() {
    let mut secs: i64 = 946713600;
    let mut earlier = pst_date_text(secs);
    for _ in 0..1000 {
        secs += 86400;
        let later = pst_date_text(secs);
        assert!(earlier < later);
        earlier = later;
    }
}

#[test]
fn years_out_of_four_digits_are_out_of_order() {
    let far = CalendarDate { year: 10000, month: 1, day: 1 }.to_text();
    let near = CalendarDate { year: 2025, month: 1, day: 1 }.to_text();
    assert!(far < near);
}

#[test]
fn every_day_has_a_date_of_its_own() {
    let mut day: i64 = -800000;
    while day < 100000 {
        let secs = day * 86400 + 28800;
        let date = CalendarDate::in_pst(secs);
        assert_eq!(pst_midnight(date.year, date.month, date.day), Some(secs));
        day += 37;
    }
}

#[test]
fn moments_lie_within_the_calendar() {
    assert!(Timestamp::new(MIN_SECS, 0).is_some());
    assert!(Timestamp::new(MAX_SECS, 999999999).is_some());
    assert_eq!(Timestamp::new(MIN_SECS - 1, 0), None);
    assert_eq!(Timestamp::new(MAX_SECS + 1, 0), None);
    assert_eq!(Timestamp::new(0, 1000000000), None);
    assert_eq!(chrono::DateTime::<chrono::Utc>::MIN_UTC.timestamp(), MIN_SECS);
    assert_eq!(chrono::DateTime::<chrono::Utc>::MAX_UTC.timestamp(), MAX_SECS);
}

#[test]
fn whole_days_drop_what_is_left_over() {
    let start = Timestamp { secs: OCT_6, nanos: 0 };
    let at = |secs: i64, nanos: u32| Timestamp { secs: OCT_6 + secs, nanos };
    assert_eq!(at(0, 0).whole_days_since(&start), 0);
    assert_eq!(at(86399, 999999999).whole_days_since(&start), 0);
    assert_eq!(at(86400, 0).whole_days_since(&start), 1);
    assert_eq!(at(10 * 86400 + 5, 0).whole_days_since(&start), 10);
    assert_eq!(at(-86400, 1).whole_days_since(&start), 0);
    assert_eq!(at(-86400, 0).whole_days_since(&start), -1);
    assert_eq!(at(-86401, 999999999).whole_days_since(&start), -1);
}

#[test]
fn whole_days_are_those_of_chrono() {
    let start = Timestamp { secs: OCT_6, nanos: 250 };
    let chrono_start = chrono::DateTime::from_timestamp(OCT_6, 250).unwrap();
    for step in -40..40 {
        for nanos in [0, 249, 250, 251] {
            let secs = OCT_6 + step * 14400;
            let moment = Timestamp { secs, nanos };
            let chrono_moment = chrono::DateTime::from_timestamp(secs, nanos).unwrap();
            assert_eq!(moment.whole_days_since(&start), (chrono_moment - chrono_start).num_days());
        }
    }
}
