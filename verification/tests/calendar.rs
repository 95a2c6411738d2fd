use cool_organizer::date::{is_leap_year, Date, Ymd};
use cool_organizer::digits::{i64_to_string, u64_to_string};

#[test]
fn leap_years() {
    assert!(is_leap_year(2000));
    assert!(!is_leap_year(1900));
    assert!(is_leap_year(2024));
    assert!(!is_leap_year(2021));
    assert!(is_leap_year(4));
    assert!(!is_leap_year(100));
}

#[test]
fn to_ymd_examples() {
    assert_eq!(
        Date::ymd(2021, 1).to_ymd(),
        Some(Ymd { year: 2021, month: 1, day: 1 })
    );
    assert_eq!(
        Date::ymd(2021, 31).to_ymd(),
        Some(Ymd { year: 2021, month: 1, day: 31 })
    );
    assert_eq!(
        Date::ymd(2021, 32).to_ymd(),
        Some(Ymd { year: 2021, month: 2, day: 1 })
    );
    assert_eq!(
        Date::ymd(2021, 365).to_ymd(),
        Some(Ymd { year: 2021, month: 12, day: 31 })
    );
    // the 60th day is the 29th of February only in a leap year
    assert_eq!(
        Date::ymd(2020, 60).to_ymd(),
        Some(Ymd { year: 2020, month: 2, day: 29 })
    );
    assert_eq!(
        Date::ymd(2021, 60).to_ymd(),
        Some(Ymd { year: 2021, month: 3, day: 1 })
    );
}

#[test]
fn to_ymd_out_of_range() {
    assert_eq!(Date::ymd(2021, 0).to_ymd(), None);
    assert_eq!(Date::ymd(2021, -5).to_ymd(), None);
    assert_eq!(Date::ymd(2021, 366).to_ymd(), None);
    assert_eq!(Date::ymd(2020, 367).to_ymd(), None);
    assert!(Date::ymd(2020, 366).to_ymd().is_some());
}

#[test]
fn from_ymd_examples() {
    assert_eq!(Date::from_ymd(2021, 1, 1), Some(Date { year: 2021, day: 1 }));
    assert_eq!(Date::from_ymd(2021, 4, 11), Some(Date { year: 2021, day: 101 }));
    assert_eq!(Date::from_ymd(2020, 2, 29), Some(Date { year: 2020, day: 60 }));
    assert_eq!(Date::from_ymd(2020, 12, 31), Some(Date { year: 2020, day: 366 }));
}

#[test]
fn from_ymd_out_of_range() {
    assert_eq!(Date::from_ymd(2021, 2, 29), None);
    assert_eq!(Date::from_ymd(2021, 0, 10), None);
    assert_eq!(Date::from_ymd(2021, 13, 10), None);
    assert_eq!(Date::from_ymd(2021, 4, 31), None);
    assert_eq!(Date::from_ymd(2021, 1, 0), None);
}

#[test]
fn round_trip_all_days() {
    // every valid (year, ordinal day) pair survives the conversion to a
    // conventional date and back, in a leap year and in a common year
    for &year in &[2020i64, 2021] {
        let len = if is_leap_year(year) { 366 } else { 365 };
        for day in 1..=len {
            let d = Date::ymd(year, day);
            let ymd = d.to_ymd().unwrap();
            assert_eq!(
                Date::from_ymd(ymd.year, ymd.month as i64, ymd.day as i64),
                Some(d)
            );
        }
    }
}

#[test]
fn days_remaining_due_today() {
    let today = Date::ymd(2021, 100);
    assert_eq!(Date::ymd(2021, 100).days_remaining_from(today), 0);
}

#[test]
fn days_remaining_ten_days() {
    let today = Date::ymd(2021, 100);
    assert_eq!(Date::ymd(2021, 110).days_remaining_from(today), 10);
    assert_eq!(Date::ymd(2021, 90).days_remaining_from(today), -10);
}

#[test]
fn days_remaining_next_year() {
    // a due date in the following year counts as day 365 + N of this year
    let today = Date::ymd(2021, 360);
    assert_eq!(Date::ymd(2022, 10).days_remaining_from(today), 15);
    // a due date two years out gets no such bump
    assert_eq!(Date::ymd(2023, 10).days_remaining_from(today), -350);
}

#[test]
fn decimal_renderings() {
    assert_eq!(u64_to_string(0), "0");
    assert_eq!(u64_to_string(7), "7");
    assert_eq!(u64_to_string(42), "42");
    assert_eq!(u64_to_string(1234567890), "1234567890");
    assert_eq!(i64_to_string(-10), "-10");
    assert_eq!(i64_to_string(0), "0");
    assert_eq!(i64_to_string(365), "365");
}
