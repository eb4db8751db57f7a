use blog_core::date::Date;

#[test]
fn accepts_ordinary_dates() {
    assert!(Date::new(2021, 1, 1).is_some());
    assert!(Date::new(2021, 12, 31).is_some());
    assert!(Date::new(1, 1, 1).is_some());
    assert!(Date::new(9999, 12, 31).is_some());
}

#[test]
fn rejects_out_of_range_parts() {
    assert!(Date::new(0, 1, 1).is_none());
    assert!(Date::new(10000, 1, 1).is_none());
    assert!(Date::new(2021, 0, 1).is_none());
    assert!(Date::new(2021, 13, 1).is_none());
    assert!(Date::new(2021, 1, 0).is_none());
    assert!(Date::new(2021, 1, 32).is_none());
    assert!(Date::new(2021, 4, 31).is_none());
}

#[test]
fn leap_years_get_february_29() {
    assert!(Date::new(2020, 2, 29).is_some());
    assert!(Date::new(2000, 2, 29).is_some());
    assert!(Date::new(2021, 2, 29).is_none());
    assert!(Date::new(1900, 2, 29).is_none());
    assert!(Date::new(2020, 2, 30).is_none());
}

#[test]
fn iso_string_is_zero_padded() {
    assert_eq!(Date::new(2021, 1, 2).unwrap().iso_string(), "2021-01-02");
    assert_eq!(Date::new(987, 11, 30).unwrap().iso_string(), "0987-11-30");
    assert_eq!(Date::new(1, 1, 1).unwrap().iso_string(), "0001-01-01");
}
