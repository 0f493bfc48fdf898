use chrono::{Datelike, NaiveDate};
use next_meeting::date::{Date, MAX_DAY, MIN_DAY};

fn date(y: i32, m: u32, d: u32) -> Date {
    Date { day_number: NaiveDate::from_ymd_opt(y, m, d).unwrap().num_days_from_ce() }
}

#[test]
fn the_first_and_the_last_day() {
    assert_eq!(NaiveDate::MIN.num_days_from_ce(), MIN_DAY);
    assert_eq!(NaiveDate::MAX.num_days_from_ce(), MAX_DAY);
    assert_eq!(date(1, 1, 1).day_number, 1);
}

#[test]
fn weekdays_and_weekends() {
    assert_eq!(date(2026, 6, 14).weekday(), 0);
    assert_eq!(date(2026, 6, 15).weekday(), 1);
    assert_eq!(date(2026, 6, 20).weekday(), 6);
    assert!(date(2026, 6, 14).is_weekend());
    assert!(date(2026, 6, 20).is_weekend());
    assert!(!date(2026, 6, 19).is_weekend());
    assert_eq!(date(-5, 3, 1).weekday(), NaiveDate::from_ymd_opt(-5, 3, 1).unwrap().weekday().num_days_from_sunday());
    assert_eq!(Date { day_number: MIN_DAY }.weekday(), NaiveDate::MIN.weekday().num_days_from_sunday());
}

#[test]
fn months_and_days() {
    assert_eq!((date(2026, 6, 15).month0(), date(2026, 6, 15).day()), (5, 15));
    assert_eq!((date(2024, 2, 29).month0(), date(2024, 2, 29).day()), (1, 29));
    assert_eq!((date(2026, 12, 31).month0(), date(2026, 12, 31).day()), (11, 31));
    assert_eq!((date(-1, 1, 1).month0(), date(-1, 1, 1).day()), (0, 1));
}

#[test]
fn days_that_follow() {
    assert_eq!(date(2024, 2, 28).succ_opt(), Some(date(2024, 2, 29)));
    assert_eq!(date(2026, 12, 31).succ_opt(), Some(date(2027, 1, 1)));
    assert_eq!(Date { day_number: MAX_DAY }.succ_opt(), None);
    assert_eq!(date(2026, 6, 15).checked_add_days(21), Some(date(2026, 7, 6)));
    assert_eq!(date(2026, 6, 15).checked_add_days(0), Some(date(2026, 6, 15)));
    assert_eq!(Date { day_number: MAX_DAY - 1 }.checked_add_days(2), None);
    assert_eq!(date(2026, 6, 15).checked_add_days(u64::MAX), None);
}

#[test]
fn english_names() {
    assert_eq!(date(2026, 6, 17).english_weekday(), "Wed");
    assert_eq!(date(2026, 9, 17).english_month(), "Sep");
    let weekdays: Vec<String> = (14..21).map(|d| date(2026, 6, d).english_weekday()).collect();
    assert_eq!(weekdays, ["Sun", "Mon", "Tue", "Wed", "Thu", "Fri", "Sat"]);
    let months: Vec<String> = (1..=12).map(|m| date(2026, m, 1).english_month()).collect();
    assert_eq!(
        months,
        ["Jan", "Feb", "Mar", "Apr", "May", "Jun", "Jul", "Aug", "Sep", "Oct", "Nov", "Dec"]
    );
}
