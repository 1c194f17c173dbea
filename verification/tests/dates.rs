use blog_tools::date::Date;

#[test]
fn a_day_of_the_calendar_is_a_date() {
    let d = Date::new(2024, 3, 19).unwrap();
    assert_eq!(d.year(), 2024);
    assert_eq!(d.month(), 3);
    assert_eq!(d.day(), 19);
}

#[test]
fn days_that_do_not_exist_are_refused() {
    assert!(Date::new(2024, 2, 30).is_none());
    assert!(Date::new(2023, 2, 29).is_none());
    assert!(Date::new(2024, 13, 1).is_none());
    assert!(Date::new(2024, 0, 1).is_none());
    assert!(Date::new(2024, 1, 0).is_none());
    assert!(Date::new(2024, 4, 31).is_none());
    assert!(Date::new(-1, 1, 1).is_none());
    assert!(Date::new(10000, 1, 1).is_none());
}

#[test]
fn leap_years_follow_the_gregorian_rule() {
    assert!(Date::new(2024, 2, 29).is_some());
    assert!(Date::new(2000, 2, 29).is_some());
    assert!(Date::new(1900, 2, 29).is_none());
    assert!(Date::new(2100, 2, 29).is_none());
    assert!(Date::new(0, 2, 29).is_some());
}

#[test]
fn the_iso_text_has_four_two_and_two_digits() {
    assert_eq!(Date::new(2024, 3, 19).unwrap().to_iso(), "2024-03-19");
    assert_eq!(Date::new(987, 12, 1).unwrap().to_iso(), "0987-12-01");
    assert_eq!(Date::new(0, 1, 1).unwrap().to_iso(), "0000-01-01");
    assert_eq!(Date::new(9999, 12, 31).unwrap().to_iso(), "9999-12-31");
}

#[test]
fn the_sitemap_text_starts_with_the_day() {
    assert_eq!(Date::new(2024, 3, 19).unwrap().to_dmy(), "19-03-2024");
    assert_eq!(Date::new(987, 12, 1).unwrap().to_dmy(), "01-12-0987");
    assert_eq!(Date::new(5, 6, 7).unwrap().to_dmy(), "07-06-0005");
}

#[test]
fn the_text_of_a_date_agrees_with_chrono() {
    let d = Date::new(2023, 11, 5).unwrap();
    let c = chrono::NaiveDate::from_ymd_opt(2023, 11, 5).unwrap();
    assert_eq!(d.to_iso(), c.to_string());
    assert_eq!(d.to_dmy(), c.format("%d-%m-%Y").to_string());
}

#[test]
fn a_date_is_read_back_from_its_text() {
    for (y, m, d) in [(2024, 3, 19), (1, 1, 1), (9999, 12, 31), (2000, 2, 29)] {
        let date = Date::new(y, m, d).unwrap();
        assert_eq!(Date::parse(&date.to_iso()), Some(date));
    }
}

#[test]
fn texts_in_another_shape_are_no_dates() {
    assert_eq!(Date::parse("2024-3-19"), None);
    assert_eq!(Date::parse("2024/03/19"), None);
    assert_eq!(Date::parse("2024-03-19 "), None);
    assert_eq!(Date::parse("2024-02-30"), None);
    assert_eq!(Date::parse("24-03-19"), None);
    assert_eq!(Date::parse(""), None);
    assert_eq!(Date::parse("2024"), None);
    assert_eq!(Date::parse("\u{ff12}024-03-19"), None);
    assert_eq!(Date::parse("+2024-03-1"), None);
}

#[test]
fn dates_are_ordered_by_year_month_and_day() {
    let a = Date::new(2024, 1, 1).unwrap();
    let b = Date::new(2024, 6, 1).unwrap();
    let c = Date::new(2023, 12, 31).unwrap();
    let d = Date::new(2024, 1, 2).unwrap();
    assert!(a.is_before(&b));
    assert!(!b.is_before(&a));
    assert!(c.is_before(&a));
    assert!(a.is_before(&d));
    assert!(!a.is_before(&a));
}
