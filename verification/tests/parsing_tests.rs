use receipts::calendar::{parse_date, parse_time, Date, Time};
use receipts::money::parse_money;

#[test]
fn money_parses_to_exact_cents() {
    assert_eq!(parse_money("35.35"), Some(3535));
    assert_eq!(parse_money("6.49"), Some(649));
    assert_eq!(parse_money("12.00"), Some(1200));
    assert_eq!(parse_money("0.25"), Some(25));
    assert_eq!(parse_money("10"), Some(1000));
    assert_eq!(parse_money("10.5"), Some(1050));
    assert_eq!(parse_money("0.03"), Some(3));
    assert_eq!(parse_money("0"), Some(0));
}

#[test]
fn money_rejects_malformed_strings() {
    assert_eq!(parse_money(""), None);
    assert_eq!(parse_money("."), None);
    assert_eq!(parse_money(".50"), None);
    assert_eq!(parse_money("10."), None);
    assert_eq!(parse_money("10.123"), None);
    assert_eq!(parse_money("1e3"), None);
    assert_eq!(parse_money("-1.00"), None);
    assert_eq!(parse_money("1 .00"), None);
    assert_eq!(parse_money("1.0.0"), None);
    assert_eq!(parse_money("ten"), None);
}

#[test]
fn money_rejects_values_beyond_u64() {
    // u64::MAX is 18446744073709551615: that many cents is the ceiling
    assert_eq!(parse_money("184467440737095516.15"), Some(u64::MAX));
    assert_eq!(parse_money("184467440737095516.16"), None);
    assert_eq!(parse_money("18446744073709551615"), None);
    assert_eq!(parse_money("999999999999999999999999"), None);
}

#[test]
fn dates_parse_to_their_components() {
    assert_eq!(
        parse_date("2022-01-01"),
        Some(Date { year: 2022, month: 1, day: 1 })
    );
    assert_eq!(
        parse_date("1999-12-31"),
        Some(Date { year: 1999, month: 12, day: 31 })
    );
    assert_eq!(parse_date("2022-00-10"), None);
    assert_eq!(parse_date("2022-04-31"), None);
    assert_eq!(parse_date("2022/01/01"), None);
    assert_eq!(parse_date("22-01-01"), None);
    assert_eq!(parse_date(""), None);
}

#[test]
fn times_parse_to_their_components() {
    assert_eq!(parse_time("13:01"), Some(Time { hour: 13, minute: 1 }));
    assert_eq!(parse_time("00:00"), Some(Time { hour: 0, minute: 0 }));
    assert_eq!(parse_time("23:59"), Some(Time { hour: 23, minute: 59 }));
    assert_eq!(parse_time("24:00"), None);
    assert_eq!(parse_time("12:60"), None);
    assert_eq!(parse_time("9:30"), None);
    assert_eq!(parse_time("12-30"), None);
    assert_eq!(parse_time(""), None);
}
