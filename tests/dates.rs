use birthday_bot::date::{calculate_age, days_until_next_birthday, is_today, Date};

fn d(y: i32, m: u32, day: u32) -> Date {
    Date::from_ymd_opt(y, m, day).unwrap()
}

#[test]
fn from_ymd_opt_accepts_calendar_days_only() {
    assert_eq!(Date::from_ymd_opt(2024, 2, 29), Some(Date { year: 2024, month: 2, day: 29 }));
    assert_eq!(Date::from_ymd_opt(2023, 2, 29), None);
    assert_eq!(Date::from_ymd_opt(2023, 4, 31), None);
    assert_eq!(Date::from_ymd_opt(2023, 13, 1), None);
    assert_eq!(Date::from_ymd_opt(2023, 1, 0), None);
    assert_eq!(Date::from_ymd_opt(400000, 1, 1), None);
}

#[test]
fn parse_from_str_reads_iso_dates() {
    assert_eq!(Date::parse_from_str("2001-12-15"), Some(d(2001, 12, 15)));
    assert_eq!(Date::parse_from_str("2001-13-01"), None);
    assert_eq!(Date::parse_from_str("2023-02-29"), None);
    assert_eq!(Date::parse_from_str("15.12.2001"), None);
}

#[test]
fn is_today_compares_month_and_day() {
    assert!(is_today(&d(2001, 3, 5), &d(2024, 3, 5)));
    assert!(!is_today(&d(2001, 3, 5), &d(2024, 3, 6)));
    assert!(!is_today(&d(2001, 3, 5), &d(2024, 4, 5)));
}

#[test]
fn age_counts_whole_years() {
    assert_eq!(calculate_age(&d(2001, 3, 5), &d(2024, 3, 5)), 23);
    assert_eq!(calculate_age(&d(2001, 3, 5), &d(2024, 3, 4)), 22);
    assert_eq!(calculate_age(&d(2001, 3, 5), &d(2024, 12, 31)), 23);
    assert_eq!(calculate_age(&d(2001, 3, 5), &d(2001, 3, 5)), 0);
}

#[test]
fn age_goes_up_once_on_the_birthday() {
    let b = d(2001, 3, 5);
    assert_eq!(calculate_age(&b, &d(2030, 3, 4)), 28);
    assert_eq!(calculate_age(&b, &d(2030, 3, 5)), 29);
    assert_eq!(calculate_age(&b, &d(2030, 3, 6)), 29);
    assert_eq!(calculate_age(&b, &d(2030, 12, 31)), 29);
    assert_eq!(calculate_age(&b, &d(2031, 1, 1)), 29);
    assert!(calculate_age(&b, &d(2001, 3, 5)) >= 0);
}

#[test]
fn days_until_is_zero_exactly_on_the_day() {
    let b = d(2001, 3, 5);
    assert_eq!(days_until_next_birthday(&b, &d(2024, 3, 5)), Some(0));
    assert_eq!(days_until_next_birthday(&b, &d(2024, 3, 4)), Some(1));
    assert_eq!(days_until_next_birthday(&b, &d(2024, 3, 6)), Some(364));
    assert_eq!(days_until_next_birthday(&b, &d(2024, 1, 1)), Some(64));
}

#[test]
fn days_until_crosses_the_year_end() {
    assert_eq!(days_until_next_birthday(&d(1990, 1, 1), &d(2023, 12, 31)), Some(1));
    assert_eq!(days_until_next_birthday(&d(1990, 12, 31), &d(2024, 1, 1)), Some(365));
}

#[test]
fn days_until_for_february_29th() {
    let b = d(2000, 2, 29);
    assert_eq!(days_until_next_birthday(&b, &d(2024, 2, 29)), Some(0));
    assert_eq!(days_until_next_birthday(&b, &d(2023, 3, 1)), Some(365));
    assert_eq!(days_until_next_birthday(&b, &d(2025, 3, 1)), None);
}

#[test]
fn calendar_range_ends() {
    assert!(Date::from_ymd_opt(262142, 12, 31).is_some());
    assert!(Date::from_ymd_opt(262143, 1, 1).is_none());
    assert!(Date::from_ymd_opt(-262143, 1, 1).is_some());
    assert!(Date::from_ymd_opt(-262144, 12, 31).is_none());
    assert!(Date::from_ymd_opt(-4, 2, 29).is_some());
    assert!(Date::from_ymd_opt(1900, 2, 29).is_none());
    assert!(Date::from_ymd_opt(2000, 2, 29).is_some());
}

#[test]
fn days_until_at_the_last_representable_year() {
    assert_eq!(days_until_next_birthday(&d(2000, 1, 1), &d(262142, 12, 31)), None);
    assert_eq!(days_until_next_birthday(&d(2000, 12, 31), &d(262142, 12, 31)), Some(0));
}

#[test]
fn days_until_over_long_spans_of_years() {
    assert_eq!(days_until_next_birthday(&d(2000, 3, 1), &d(-100, 3, 2)), Some(364));
    assert_eq!(days_until_next_birthday(&d(2000, 3, 1), &d(-5, 3, 2)), Some(365));
    assert_eq!(days_until_next_birthday(&d(2000, 2, 28), &d(1899, 3, 1)), Some(364));
}
