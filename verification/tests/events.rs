use cashflow::date::Date;
use cashflow::event::{CashEvent, Frequency, Type};
use cashflow::parse::parse_cents;

const UNITS_PER_DOLLAR: i128 = 12_000_000;

fn event(cents: u64, frequency: Frequency, type_: Type, taxable: bool) -> CashEvent {
    CashEvent::new("test".to_string(), cents, frequency, type_, Some(taxable))
}

#[test]
fn frequency_tokens_parse() {
    assert_eq!(Frequency::from_str("m"), Ok(Frequency::Monthly));
    assert_eq!(Frequency::from_str("Month"), Ok(Frequency::Monthly));
    assert_eq!(Frequency::from_str("MONTHLY"), Ok(Frequency::Monthly));
    assert_eq!(Frequency::from_str("d"), Ok(Frequency::Daily));
    assert_eq!(Frequency::from_str("day"), Ok(Frequency::Daily));
    assert_eq!(Frequency::from_str("daily"), Ok(Frequency::Daily));
    assert_eq!(Frequency::from_str("w"), Ok(Frequency::Weekly));
    assert_eq!(Frequency::from_str("week"), Ok(Frequency::Weekly));
    assert_eq!(Frequency::from_str("weekly"), Ok(Frequency::Weekly));
    assert_eq!(Frequency::from_str("BiWeekly"), Ok(Frequency::BiWeekly));
    assert_eq!(Frequency::from_str("quarter"), Ok(Frequency::Quarterly));
    assert_eq!(Frequency::from_str("quarterly"), Ok(Frequency::Quarterly));
    assert_eq!(Frequency::from_str("y"), Ok(Frequency::Yearly));
    assert_eq!(Frequency::from_str("year"), Ok(Frequency::Yearly));
    assert_eq!(Frequency::from_str("yearly"), Ok(Frequency::Yearly));
}

#[test]
fn unrecognized_frequency_fails() {
    assert_eq!(Frequency::from_str("fortnightly"), Err("Invalid frequency"));
    assert_eq!(Frequency::from_str(""), Err("Invalid frequency"));
    assert_eq!(Frequency::from_str("monthlyy"), Err("Invalid frequency"));
}

#[test]
fn onetime_tokens_parse() {
    let d = Date::from_ymd_opt(2024, 3, 15).unwrap();
    assert_eq!(Frequency::from_str("once(2024-03-15)"), Ok(Frequency::OneTime(Some(d))));
    assert_eq!(Frequency::from_str("ONCE(2024-03-15)"), Ok(Frequency::OneTime(Some(d))));
    assert_eq!(Frequency::from_str("1(2024-03-15)"), Ok(Frequency::OneTime(Some(d))));
    assert_eq!(Frequency::from_str("onetime(2024-03-15)"), Ok(Frequency::OneTime(Some(d))));
    assert_eq!(Frequency::from_str("once"), Ok(Frequency::OneTime(None)));
    assert_eq!(Frequency::from_str("once(2024-13-40)"), Ok(Frequency::OneTime(None)));
    assert_eq!(Frequency::from_str("once(2024-3-15)"), Ok(Frequency::OneTime(None)));
    assert_eq!(Frequency::from_str("once(2024-03-15"), Ok(Frequency::OneTime(None)));
    assert_eq!(Frequency::from_str("once()"), Ok(Frequency::OneTime(None)));
}

#[test]
fn type_tokens_parse() {
    assert_eq!(Type::from_str("bill"), Ok(Type::Bill));
    assert_eq!(Type::from_str("Income"), Ok(Type::Income));
    assert_eq!(Type::from_str("INVESTMENT"), Ok(Type::Investment));
    assert_eq!(Type::from_str("sub"), Ok(Type::Subscription));
    assert_eq!(Type::from_str("subscription"), Ok(Type::Subscription));
    assert_eq!(Type::from_str("other"), Ok(Type::Other));
}

#[test]
fn unrecognized_type_fails() {
    assert_eq!(Type::from_str("stocks"), Err("Invalid type"));
    assert_eq!(Type::from_str(""), Err("Invalid type"));
}

#[test]
fn cents_parsing() {
    assert_eq!(parse_cents("1000"), Some(100_000));
    assert_eq!(parse_cents("10.5"), Some(1_050));
    assert_eq!(parse_cents("10.55"), Some(1_055));
    assert_eq!(parse_cents("0"), Some(0));
    assert_eq!(parse_cents("0.00"), Some(0));
    assert_eq!(parse_cents("10.555"), None);
    assert_eq!(parse_cents("10."), None);
    assert_eq!(parse_cents(""), None);
    assert_eq!(parse_cents("abc"), None);
    assert_eq!(parse_cents("-5"), None);
    assert_eq!(parse_cents("1e3"), None);
}

#[test]
fn monthly_income_contributes_plus_amount() {
    let e = event(100_000, Frequency::Monthly, Type::Income, false);
    let m = Date::from_ymd_opt(2024, 5, 1).unwrap();
    assert_eq!(e.get_monthly_amount(&m, 1690), 1000 * UNITS_PER_DOLLAR);
}

#[test]
fn monthly_bill_contributes_minus_amount() {
    let e = event(20_000, Frequency::Monthly, Type::Bill, false);
    let m = Date::from_ymd_opt(2024, 5, 1).unwrap();
    assert_eq!(e.get_monthly_amount(&m, 1690), -200 * UNITS_PER_DOLLAR);
}

#[test]
fn taxable_income_is_reduced_by_rate() {
    let e = event(100_000, Frequency::Monthly, Type::Income, true);
    let m = Date::from_ymd_opt(2024, 5, 1).unwrap();
    // 1000 * (1 - 0.169) = 831 dollars, exactly.
    assert_eq!(e.get_monthly_amount(&m, 1690), 831 * UNITS_PER_DOLLAR);
}

#[test]
fn daily_contributes_thirty_fold() {
    let e = event(1_000, Frequency::Daily, Type::Bill, false);
    let m = Date::from_ymd_opt(2024, 5, 1).unwrap();
    assert_eq!(e.get_monthly_amount(&m, 0), -300 * UNITS_PER_DOLLAR);
    let i = event(1_000, Frequency::Daily, Type::Income, false);
    assert_eq!(i.get_monthly_amount(&m, 0), 300 * UNITS_PER_DOLLAR);
}

#[test]
fn weekly_and_biweekly_factors() {
    let m = Date::from_ymd_opt(2024, 5, 1).unwrap();
    let w = event(10_000, Frequency::Weekly, Type::Income, false);
    assert_eq!(w.get_monthly_amount(&m, 0), 450 * UNITS_PER_DOLLAR);
    let b = event(10_000, Frequency::BiWeekly, Type::Income, false);
    assert_eq!(b.get_monthly_amount(&m, 0), 225 * UNITS_PER_DOLLAR);
}

#[test]
fn quarterly_and_yearly_factors() {
    let m = Date::from_ymd_opt(2024, 5, 1).unwrap();
    let q = event(30_000, Frequency::Quarterly, Type::Bill, false);
    assert_eq!(q.get_monthly_amount(&m, 0), -100 * UNITS_PER_DOLLAR);
    let y = event(12_000, Frequency::Yearly, Type::Bill, false);
    assert_eq!(y.get_monthly_amount(&m, 0), -10 * UNITS_PER_DOLLAR);
}

#[test]
fn dated_onetime_pays_only_its_month() {
    let d = Date::from_ymd_opt(2024, 3, 10).unwrap();
    let e = event(5_000, Frequency::OneTime(Some(d)), Type::Bill, false);
    let hit = Date::from_ymd_opt(2024, 3, 1).unwrap();
    let miss = Date::from_ymd_opt(2024, 4, 1).unwrap();
    let other_year = Date::from_ymd_opt(2025, 3, 1).unwrap();
    assert_eq!(e.get_monthly_amount(&hit, 0), -50 * UNITS_PER_DOLLAR);
    assert_eq!(e.get_monthly_amount(&miss, 0), 0);
    assert_eq!(e.get_monthly_amount(&other_year, 0), 0);
}

#[test]
fn undated_onetime_pays_nothing() {
    let e = event(5_000, Frequency::OneTime(None), Type::Income, false);
    let m = Date::from_ymd_opt(2024, 3, 1).unwrap();
    assert_eq!(e.get_monthly_amount(&m, 0), 0);
}

#[test]
fn new_defaults_taxable_to_false() {
    let e = CashEvent::new("x".to_string(), 100, Frequency::Monthly, Type::Other, None);
    assert!(!e.is_taxable);
    let f = CashEvent::new("x".to_string(), 100, Frequency::Monthly, Type::Other, Some(true));
    assert!(f.is_taxable);
}
