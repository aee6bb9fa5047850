use denote::date::Date;

#[test]
fn a_day_of_the_calendar_is_accepted() {
    assert_eq!(Date::new(2024, 1, 5), Some(Date { year: 2024, month: 1, day: 5 }));
    assert_eq!(Date::new(2024, 12, 31), Some(Date { year: 2024, month: 12, day: 31 }));
    assert_eq!(Date::new(2024, 4, 30), Some(Date { year: 2024, month: 4, day: 30 }));
}

#[test]
fn a_day_that_the_calendar_lacks_is_refused() {
    assert_eq!(Date::new(2024, 0, 5), None);
    assert_eq!(Date::new(2024, 13, 5), None);
    assert_eq!(Date::new(2024, 1, 0), None);
    assert_eq!(Date::new(2024, 1, 32), None);
    assert_eq!(Date::new(2024, 4, 31), None);
}

#[test]
fn february_follows_the_leap_years() {
    assert!(Date::new(2024, 2, 29).is_some());
    assert!(Date::new(2023, 2, 29).is_none());
    assert!(Date::new(2000, 2, 29).is_some());
    assert!(Date::new(1900, 2, 29).is_none());
    assert!(Date::new(2023, 2, 28).is_some());
    assert!(Date::new(2024, 2, 30).is_none());
    assert!(Date::new(-4, 2, 29).is_some());
    assert!(Date::new(-1, 2, 29).is_none());
}
