use cashflow::date::Date;
use cashflow::event::{CashEvent, Frequency, Type};
use cashflow::input::{load_events, LoadError, ParseError};
use cashflow::render::{money_string, money_string_padded, month_label, report_line};
use cashflow::report::{project, round_units_to_cents, run_report, MonthRow};

const UNITS_PER_DOLLAR: i128 = 12_000_000;

#[test]
fn loads_events_from_csv() {
    let data = b"name,usd,frequency,type_,is_taxable\n\
                 rent,1000,monthly,bill,false\n\
                 salary,2500.50,m,income,true\n";
    let events = load_events(data).unwrap();
    assert_eq!(events.len(), 2);
    assert_eq!(events[0].name, "rent");
    assert_eq!(events[0].cents, 100_000);
    assert_eq!(events[0].frequency, Frequency::Monthly);
    assert_eq!(events[0].type_, Type::Bill);
    assert!(!events[0].is_taxable);
    assert_eq!(events[1].name, "salary");
    assert_eq!(events[1].cents, 250_050);
    assert!(events[1].is_taxable);
}

#[test]
fn column_order_does_not_matter() {
    let data = b"type_,name,is_taxable,usd,frequency,note\n\
                 income,job,false,100,weekly,extra\n";
    let events = load_events(data).unwrap();
    assert_eq!(events.len(), 1);
    assert_eq!(events[0].name, "job");
    assert_eq!(events[0].cents, 10_000);
    assert_eq!(events[0].frequency, Frequency::Weekly);
    assert_eq!(events[0].type_, Type::Income);
}

#[test]
fn quoted_fields_go_through_the_csv_reader() {
    let data = b"name,usd,frequency,type_,is_taxable\n\
                 \"a, quoted name\",5,monthly,other,false\n";
    let events = load_events(data).unwrap();
    assert_eq!(events.len(), 1);
    assert_eq!(events[0].name, "a, quoted name");
}

#[test]
fn empty_and_header_only_inputs_load_nothing() {
    assert_eq!(load_events(b"").unwrap().len(), 0);
    assert_eq!(load_events(b"name,usd,frequency,type_,is_taxable\n").unwrap().len(), 0);
}

#[test]
fn ragged_row_is_a_csv_error() {
    let data = b"name,usd,frequency,type_,is_taxable\n\
                 rent,1000,monthly\n";
    assert_eq!(load_events(data), Err(LoadError::Csv));
}

#[test]
fn missing_column_is_reported() {
    let data = b"name,amount,frequency,type_,is_taxable\n\
                 rent,1000,monthly,bill,false\n";
    assert_eq!(load_events(data), Err(LoadError::MissingColumn));
}

#[test]
fn bad_fields_abort_the_load() {
    let base = "name,usd,frequency,type_,is_taxable\n";
    let freq = format!("{}rent,1000,fortnightly,bill,false\n", base);
    assert_eq!(load_events(freq.as_bytes()), Err(LoadError::BadRow(ParseError::Frequency)));
    let ty = format!("{}rent,1000,monthly,stocks,false\n", base);
    assert_eq!(load_events(ty.as_bytes()), Err(LoadError::BadRow(ParseError::TypeTag)));
    let amt = format!("{}rent,12x4,monthly,bill,false\n", base);
    assert_eq!(load_events(amt.as_bytes()), Err(LoadError::BadRow(ParseError::Amount)));
    let tax = format!("{}rent,1000,monthly,bill,maybe\n", base);
    assert_eq!(load_events(tax.as_bytes()), Err(LoadError::BadRow(ParseError::Taxable)));
}

#[test]
fn first_bad_row_wins_and_nothing_is_kept() {
    let data = b"name,usd,frequency,type_,is_taxable\n\
                 ok,1,monthly,bill,false\n\
                 bad,1,monthly,nope,false\n\
                 worse,zzz,monthly,bill,false\n";
    assert_eq!(load_events(data), Err(LoadError::BadRow(ParseError::TypeTag)));
}

#[test]
fn two_month_projection_scenario() {
    let events = vec![
        CashEvent::new("salary".to_string(), 100_000, Frequency::Monthly, Type::Income, Some(false)),
        CashEvent::new("rent".to_string(), 20_000, Frequency::Monthly, Type::Bill, Some(false)),
    ];
    let start = Date::from_ymd_opt(2024, 1, 1).unwrap();
    let end = Date::from_ymd_opt(2024, 2, 15).unwrap();
    let rows = project(&events, &start, &end, 1690);
    assert_eq!(rows.len(), 2);
    assert_eq!(rows[0].net_units, 800 * UNITS_PER_DOLLAR);
    assert_eq!(rows[0].cumulative_units, 800 * UNITS_PER_DOLLAR);
    assert_eq!(rows[1].net_units, 800 * UNITS_PER_DOLLAR);
    assert_eq!(rows[1].cumulative_units, 1600 * UNITS_PER_DOLLAR);
    assert_eq!(round_units_to_cents(rows[1].cumulative_units), 160_000);
}

#[test]
fn run_report_enumerates_from_today_through_horizon() {
    let events = vec![CashEvent::new(
        "salary".to_string(),
        100_000,
        Frequency::Monthly,
        Type::Income,
        Some(false),
    )];
    let today = Date::from_ymd_opt(2024, 3, 15).unwrap();
    let rows = run_report(&events, &today, 2, 0).unwrap();
    assert_eq!(rows.len(), 3);
    assert_eq!(rows[0].month, Date::from_ymd_opt(2024, 3, 1).unwrap());
    assert_eq!(rows[2].month, Date::from_ymd_opt(2024, 5, 1).unwrap());
    assert_eq!(rows[2].cumulative_units, 3000 * UNITS_PER_DOLLAR);
}

#[test]
fn run_report_fails_on_impossible_end_date() {
    let events: Vec<CashEvent> = vec![];
    let today = Date::from_ymd_opt(2024, 1, 31).unwrap();
    assert!(run_report(&events, &today, 1, 0).is_err());
}

#[test]
fn taxable_onetime_pays_taxed_amount_once() {
    let d = Date::from_ymd_opt(2024, 4, 20).unwrap();
    let events = vec![CashEvent::new(
        "bonus".to_string(),
        100_000,
        Frequency::OneTime(Some(d)),
        Type::Income,
        Some(true),
    )];
    let start = Date::from_ymd_opt(2024, 3, 1).unwrap();
    let end = Date::from_ymd_opt(2024, 5, 31).unwrap();
    let rows = project(&events, &start, &end, 1690);
    assert_eq!(rows.len(), 3);
    assert_eq!(rows[0].net_units, 0);
    assert_eq!(rows[1].net_units, 831 * UNITS_PER_DOLLAR);
    assert_eq!(rows[2].net_units, 0);
    assert_eq!(rows[2].cumulative_units, 831 * UNITS_PER_DOLLAR);
}

#[test]
fn rounding_to_cents_is_nearest_ties_away() {
    assert_eq!(round_units_to_cents(0), 0);
    assert_eq!(round_units_to_cents(59_999), 0);
    assert_eq!(round_units_to_cents(60_000), 1);
    assert_eq!(round_units_to_cents(-59_999), 0);
    assert_eq!(round_units_to_cents(-60_000), -1);
    assert_eq!(round_units_to_cents(120_000), 1);
}

#[test]
fn month_labels_are_zero_padded() {
    assert_eq!(month_label(&Date::from_ymd_opt(2020, 3, 17).unwrap()), "2020-03");
    assert_eq!(month_label(&Date::from_ymd_opt(987, 12, 1).unwrap()), "0987-12");
}

#[test]
fn money_is_rendered_with_two_decimals() {
    assert_eq!(money_string(123_456), "1234.56");
    assert_eq!(money_string(0), "0.00");
    assert_eq!(money_string(-50), "-0.50");
    assert_eq!(money_string(5), "0.05");
    assert_eq!(money_string_padded(123_456), "   1234.56");
    assert_eq!(money_string_padded(-123_456), "  -1234.56");
    assert_eq!(money_string_padded(123_456_789_012), "1234567890.12");
}

#[test]
fn report_lines_match_the_output_format() {
    let row = MonthRow {
        month: Date::from_ymd_opt(2024, 1, 1).unwrap(),
        net_units: 800 * UNITS_PER_DOLLAR,
        cumulative_units: 1600 * UNITS_PER_DOLLAR,
    };
    assert_eq!(report_line(&row), "2024-01:\t    800.00\t==>\t   1600.00");
}

#[test]
fn frequency_labels() {
    assert_eq!(Frequency::Monthly.label(), "Monthly");
    assert_eq!(Frequency::Daily.label(), "Daily");
    assert_eq!(Frequency::BiWeekly.label(), "BiWeekly");
    assert_eq!(Frequency::OneTime(None).label(), "OneTime");
    let d = Date::from_ymd_opt(2024, 3, 15).unwrap();
    assert_eq!(Frequency::OneTime(Some(d)).label(), "OneTime(2024-03-15)");
}
