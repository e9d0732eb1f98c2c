use fitness_server::calendar::Date;
use fitness_server::calendar::Timestamp;

fn day(year: i32, month: u32, day: u32) -> Date {
    Date::from_ymd(year, month, day).unwrap()
}

#[test]
fn day_numbers_count_from_the_first_of_january_of_year_one() {
    assert_eq!(day(1, 1, 1).number, 1);
    assert_eq!(day(2, 1, 1).number, 366);
    assert_eq!(day(1970, 1, 1).number, 719_163);
    assert_eq!(day(9999, 12, 31).number, 3_652_059);
    assert_eq!(day(0, 12, 31).number, 0);
}

#[test]
fn days_that_the_calendar_lacks_are_refused() {
    assert_eq!(Date::from_ymd(2023, 2, 29), None);
    assert!(Date::from_ymd(2024, 2, 29).is_some());
    assert_eq!(Date::from_ymd(2024, 13, 1), None);
    assert_eq!(Date::from_ymd(2024, 0, 1), None);
    assert_eq!(Date::from_ymd(2024, 4, 31), None);
    assert_eq!(Date::from_ymd(400_000, 1, 1), None);
}

#[test]
fn a_day_is_written_with_four_two_and_two_digits() {
    assert_eq!(day(2024, 3, 5).to_text(), Some(String::from("2024-03-05")));
    assert_eq!(Date { number: 719_163 }.to_text(), Some(String::from("1970-01-01")));
    assert_eq!(day(987, 11, 30).to_text(), Some(String::from("0987-11-30")));
}

#[test]
fn a_day_beyond_the_calendar_has_no_text() {
    assert_eq!(Date { number: i32::MAX }.to_text(), None);
    assert_eq!(Date { number: i32::MIN }.to_text(), None);
}

#[test]
fn a_written_day_is_read_back() {
    assert_eq!(Date::parse("2024-03-05"), Some(day(2024, 3, 5)));
    assert_eq!(Date::parse("1970-01-01"), Some(Date { number: 719_163 }));
    let leap = day(2024, 2, 29);
    assert_eq!(Date::parse(&leap.to_text().unwrap()), Some(leap));
}

#[test]
fn a_text_that_is_no_day_is_refused() {
    assert_eq!(Date::parse(""), None);
    assert_eq!(Date::parse("yesterday"), None);
    assert_eq!(Date::parse("2023-02-29"), None);
    assert_eq!(Date::parse("2024-03-05 10:00:00"), None);
    assert_eq!(Date::parse("2024/03/05"), None);
}

#[test]
fn going_back_crosses_months_and_years() {
    assert_eq!(day(2024, 3, 1).minus_days(1), Some(day(2024, 2, 29)));
    assert_eq!(day(2023, 3, 1).minus_days(1), Some(day(2023, 2, 28)));
    assert_eq!(day(2024, 1, 10).minus_days(28), Some(day(2023, 12, 13)));
    assert_eq!(day(2024, 3, 15).minus_days(0), Some(day(2024, 3, 15)));
    assert_eq!(day(2024, 3, 15).minus_days(14).unwrap().number, day(2024, 3, 15).number - 14);
}

#[test]
fn going_back_stops_where_numbers_end() {
    let early = Date { number: i32::MIN + 5 };
    assert_eq!(early.minus_days(5), Some(Date { number: i32::MIN }));
    assert_eq!(early.minus_days(6), None);
    assert_eq!(early.minus_days(u32::MAX), None);
}

#[test]
fn a_window_takes_in_both_of_its_ends() {
    let d = Date { number: 100 };
    assert!(d.is_within(100, 100));
    assert!(d.is_within(90, 100));
    assert!(d.is_within(100, 110));
    assert!(!d.is_within(101, 110));
    assert!(!d.is_within(90, 99));
    assert!(!d.is_within(110, 90));
}

#[test]
fn a_moment_is_a_day_and_its_second() {
    let d = day(2024, 3, 5);
    assert_eq!(Timestamp::from_date_hms(d, 7, 8, 9), Some(Timestamp { date: d, second: 25_689 }));
    assert_eq!(Timestamp::from_date_hms(d, 0, 0, 0), Some(Timestamp::start_of(d)));
    assert_eq!(Timestamp::from_date_hms(d, 23, 59, 59), Some(Timestamp { date: d, second: 86_399 }));
    assert_eq!(Timestamp::from_date_hms(d, 24, 0, 0), None);
    assert_eq!(Timestamp::from_date_hms(d, 0, 60, 0), None);
    assert_eq!(Timestamp::from_date_hms(d, 0, 0, 60), None);
}

#[test]
fn a_moment_is_written_and_read_back() {
    let t = Timestamp { date: day(2024, 3, 5), second: 25_689 };
    assert_eq!(t.to_text(), Some(String::from("2024-03-05 07:08:09")));
    assert_eq!(Timestamp::parse("2024-03-05 07:08:09"), Some(t));
    assert_eq!(Timestamp::start_of(day(2024, 3, 5)).to_text(), Some(String::from("2024-03-05 00:00:00")));
}

#[test]
fn a_day_alone_is_read_as_its_midnight() {
    assert_eq!(Timestamp::parse("2024-03-05"), Some(Timestamp::start_of(day(2024, 3, 5))));
}

#[test]
fn a_text_that_is_no_moment_is_refused() {
    assert_eq!(Timestamp::parse("2024-03-05 24:00:00"), None);
    assert_eq!(Timestamp::parse("2024-02-30 10:00:00"), None);
    assert_eq!(Timestamp::parse("noon"), None);
}

#[test]
fn a_moment_without_a_text() {
    assert_eq!(Timestamp { date: day(2024, 3, 5), second: 86_400 }.to_text(), None);
    assert_eq!(Timestamp { date: Date { number: i32::MAX }, second: 0 }.to_text(), None);
}

#[test]
fn moments_are_ordered_by_day_and_then_by_second() {
    let d = day(2024, 3, 5);
    let morning = Timestamp { date: d, second: 100 };
    let evening = Timestamp { date: d, second: 80_000 };
    let next = Timestamp { date: day(2024, 3, 6), second: 0 };
    assert!(morning.is_at_or_before(&evening));
    assert!(!evening.is_at_or_before(&morning));
    assert!(morning.is_at_or_before(&morning));
    assert!(evening.is_at_or_before(&next));
    assert!(!next.is_at_or_before(&evening));
}

#[test]
fn the_reading_as_a_moment_goes_before_the_reading_as_a_day() {
    let d = Date { number: 738_950 };
    assert_eq!(Timestamp::from_readings(Some((738_950, 61)), Some(738_951)), Some(Timestamp { date: d, second: 61 }));
    assert_eq!(Timestamp::from_readings(Some((738_950, 61)), None), Some(Timestamp { date: d, second: 61 }));
    assert_eq!(Timestamp::from_readings(None, Some(738_950)), Some(Timestamp { date: d, second: 0 }));
    assert_eq!(Timestamp::from_readings(None, None), None);
}
