use repo_birthday::date::{
    age_on, change_year, date_lt_check, day_number, days_in_month_count, days_until_on, leap_year,
    next_aniversary_on, Date, DateTime,
};
use repo_birthday::timestamp::parse_timestamp;

fn d(year: i32, month: u8, day: u8) -> Date {
    Date { year, month, day }
}

#[test]
fn leap_years() {
    assert!(leap_year(2020));
    assert!(leap_year(2000));
    assert!(!leap_year(1900));
    assert!(!leap_year(2023));
}

#[test]
fn month_lengths() {
    assert_eq!(days_in_month_count(2020, 2), 29);
    assert_eq!(days_in_month_count(2023, 2), 28);
    assert_eq!(days_in_month_count(2023, 1), 31);
    assert_eq!(days_in_month_count(2023, 4), 30);
    assert_eq!(days_in_month_count(2023, 12), 31);
}

#[test]
fn day_number_of_epoch() {
    // 1970-01-01 lies 719528 days after 0000-01-01 in the proleptic
    // Gregorian calendar.
    assert_eq!(day_number(&d(1970, 1, 1)), 719528);
    assert_eq!(day_number(&d(0, 1, 1)), 0);
    assert_eq!(day_number(&d(0, 1, 2)), 1);
}

#[test]
fn day_number_orders_dates() {
    assert!(day_number(&d(2023, 2, 28)) + 1 == day_number(&d(2023, 3, 1)));
    assert!(day_number(&d(2020, 2, 28)) + 2 == day_number(&d(2020, 3, 1)));
    assert!(date_lt_check(&d(2023, 2, 28), &d(2023, 3, 1)));
    assert!(!date_lt_check(&d(2023, 3, 1), &d(2023, 3, 1)));
}

#[test]
fn change_year_moves_leap_day() {
    assert_eq!(change_year(&d(2020, 2, 29), 2023), d(2023, 3, 1));
    assert_eq!(change_year(&d(2020, 2, 29), 2024), d(2024, 2, 29));
    assert_eq!(change_year(&d(2020, 6, 15), 2023), d(2023, 6, 15));
    assert_eq!(change_year(&d(2020, 2, 29), 2020), d(2020, 2, 29));
}

#[test]
fn next_aniversary_substitutes_in_non_leap_years() {
    // The candidate year is not a leap year, so February 29 becomes March 1.
    assert_eq!(next_aniversary_on(&d(2020, 2, 29), &d(2023, 2, 15)), d(2023, 3, 1));
}

#[test]
fn next_aniversary_keeps_leap_day_in_leap_years() {
    assert_eq!(next_aniversary_on(&d(2020, 2, 29), &d(2024, 1, 1)), d(2024, 2, 29));
}

#[test]
fn next_aniversary_already_passed_moves_to_next_year() {
    // By mid-March the March 1 occurrence has passed, so the next
    // anniversary is the leap day a year later.
    assert_eq!(next_aniversary_on(&d(2020, 2, 29), &d(2023, 3, 15)), d(2024, 2, 29));
}

#[test]
fn next_aniversary_on_the_day_is_today() {
    assert_eq!(next_aniversary_on(&d(2020, 6, 15), &d(2023, 6, 15)), d(2023, 6, 15));
}

#[test]
fn days_until_counts_from_today() {
    assert_eq!(days_until_on(&d(2020, 6, 1), &d(2023, 5, 31)), 1);
    assert_eq!(days_until_on(&d(2020, 6, 1), &d(2023, 6, 1)), 0);
    // From 2023-06-02 the next occurrence is 2024-06-01, beyond the 2024
    // leap day: 365 days out.
    assert_eq!(days_until_on(&d(2020, 6, 1), &d(2023, 6, 2)), 365);
}

#[test]
fn age_agrees_with_the_aniversary_year() {
    let date = d(2020, 2, 29);
    let todays = [d(2023, 2, 15), d(2023, 3, 15), d(2024, 1, 1), d(2020, 3, 1)];
    for today in todays {
        let next = next_aniversary_on(&date, &today);
        assert_eq!(age_on(&date, &today), (next.year - date.year) as i64);
    }
    assert_eq!(age_on(&d(2020, 6, 15), &d(2023, 5, 1)), 3);
    assert_eq!(age_on(&d(2020, 6, 15), &d(2023, 7, 1)), 4);
}

#[test]
fn parse_timestamp_reads_the_fixed_format() {
    let dt = parse_timestamp("2020-02-29T12:34:56Z").unwrap();
    assert_eq!(
        dt,
        DateTime { date: Date { year: 2020, month: 2, day: 29 }, hour: 12, minute: 34, second: 56 }
    );
    let dt = parse_timestamp("1999-12-31T23:59:59Z").unwrap();
    assert_eq!(dt.date, d(1999, 12, 31));
}

#[test]
fn parse_timestamp_rejects_malformed_text() {
    assert!(parse_timestamp("").is_none());
    assert!(parse_timestamp("2020-02-30T00:00:00Z").is_none());
    assert!(parse_timestamp("2023-02-29T00:00:00Z").is_none());
    assert!(parse_timestamp("2020-13-01T00:00:00Z").is_none());
    assert!(parse_timestamp("2020-00-01T00:00:00Z").is_none());
    assert!(parse_timestamp("2020-01-01T24:00:00Z").is_none());
    assert!(parse_timestamp("2020-01-01 00:00:00Z").is_none());
    assert!(parse_timestamp("2020-01-01T00:00:00").is_none());
    assert!(parse_timestamp("20-01-01T00:00:00Zxx").is_none());
}
