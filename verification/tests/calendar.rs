use cashflow::date::{add_months, get_first_day_of_months_between, Date};

#[test]
fn first_day_to_first_day() {
    let start_date = Date::from_ymd_opt(2020, 1, 1).unwrap();
    let end_date = Date::from_ymd_opt(2020, 3, 1).unwrap();
    let dates = get_first_day_of_months_between(&start_date, &end_date);
    assert_eq!(dates.len(), 3);
    assert_eq!(dates[0], Date::from_ymd_opt(2020, 1, 1).unwrap());
    assert_eq!(dates[1], Date::from_ymd_opt(2020, 2, 1).unwrap());
    assert_eq!(dates[2], Date::from_ymd_opt(2020, 3, 1).unwrap());
}

#[test]
fn middle_to_middle() {
    let start_date = Date::from_ymd_opt(2020, 1, 20).unwrap();
    let end_date = Date::from_ymd_opt(2020, 3, 20).unwrap();
    let dates = get_first_day_of_months_between(&start_date, &end_date);
    assert_eq!(dates.len(), 3);
    assert_eq!(dates[0], Date::from_ymd_opt(2020, 1, 1).unwrap());
    assert_eq!(dates[1], Date::from_ymd_opt(2020, 2, 1).unwrap());
    assert_eq!(dates[2], Date::from_ymd_opt(2020, 3, 1).unwrap());
}

#[test]
fn start_and_end_in_same_month() {
    let start_date = Date::from_ymd_opt(2020, 1, 20).unwrap();
    let end_date = Date::from_ymd_opt(2020, 1, 25).unwrap();
    let dates = get_first_day_of_months_between(&start_date, &end_date);
    assert_eq!(dates.len(), 1);
    assert_eq!(dates[0], Date::from_ymd_opt(2020, 1, 1).unwrap());
}

#[test]
fn return_empty_if_start_after_end() {
    let start_date = Date::from_ymd_opt(2020, 1, 20).unwrap();
    let end_date = Date::from_ymd_opt(2020, 1, 15).unwrap();
    let dates = get_first_day_of_months_between(&start_date, &end_date);
    assert_eq!(dates.len(), 0);
}

#[test]
fn year_boundary_enumeration() {
    let start_date = Date::from_ymd_opt(2020, 11, 15).unwrap();
    let end_date = Date::from_ymd_opt(2021, 1, 15).unwrap();
    let dates = get_first_day_of_months_between(&start_date, &end_date);
    assert_eq!(dates.len(), 3);
    assert_eq!(dates[0], Date::from_ymd_opt(2020, 11, 1).unwrap());
    assert_eq!(dates[1], Date::from_ymd_opt(2020, 12, 1).unwrap());
    assert_eq!(dates[2], Date::from_ymd_opt(2021, 1, 1).unwrap());
}

#[test]
fn from_ymd_rejects_bad_dates() {
    assert!(Date::from_ymd_opt(2021, 2, 29).is_none());
    assert!(Date::from_ymd_opt(2020, 2, 29).is_some());
    assert!(Date::from_ymd_opt(2020, 13, 1).is_none());
    assert!(Date::from_ymd_opt(2020, 0, 1).is_none());
    assert!(Date::from_ymd_opt(2020, 4, 31).is_none());
    assert!(Date::from_ymd_opt(10000, 1, 1).is_none());
}

#[test]
fn add_months_keeps_day_or_fails() {
    let d = Date::from_ymd_opt(2024, 1, 15).unwrap();
    assert_eq!(add_months(&d, 1), Some(Date::from_ymd_opt(2024, 2, 15).unwrap()));
    assert_eq!(add_months(&d, 12), Some(Date::from_ymd_opt(2025, 1, 15).unwrap()));
    let e = Date::from_ymd_opt(2024, 1, 31).unwrap();
    assert_eq!(add_months(&e, 1), None);
    assert_eq!(add_months(&e, 2), Some(Date::from_ymd_opt(2024, 3, 31).unwrap()));
    let f = Date::from_ymd_opt(9999, 12, 1).unwrap();
    assert_eq!(add_months(&f, 1), None);
}
