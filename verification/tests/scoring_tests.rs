use receipts::receipt::{RawItem, Receipt, ReceiptError};

fn raw(desc: &str, price: &str) -> RawItem {
    RawItem { short_description: desc.to_string(), price: price.to_string() }
}

fn build(retailer: &str, date: &str, time: &str, items: Vec<RawItem>, total: &str) -> Receipt {
    Receipt::from_parts(retailer.to_string(), date, time, items, total).unwrap()
}

#[test]
fn target_example_scores_28() {
    let r = build(
        "Target",
        "2022-01-01",
        "13:01",
        vec![
            raw("Mountain Dew 12PK", "6.49"),
            raw("Emils Cheese Pizza", "12.25"),
            raw("Knorr Creamy Chicken", "1.26"),
            raw("Doritos Nacho Cheese", "3.35"),
            raw("   Klarbrunn 12-PK 12 FL OZ  ", "12.00"),
        ],
        "35.35",
    );
    assert_eq!(r.points(), 28);
}

#[test]
fn corner_market_example_scores_109() {
    let r = build(
        "M&M Corner Market",
        "2022-03-20",
        "14:33",
        vec![
            raw("Gatorade", "2.25"),
            raw("Gatorade", "2.25"),
            raw("Gatorade", "2.25"),
            raw("Gatorade", "2.25"),
        ],
        "9.00",
    );
    assert_eq!(r.points(), 109);
}

#[test]
fn retailer_rule_counts_alphanumerics_only() {
    // A neutral receipt: even day, off-hours time, non-round total, one
    // item whose description does not qualify.
    let base = |retailer: &str| {
        build(retailer, "2022-01-02", "13:01", vec![raw("ab", "1.01")], "1.01")
    };
    assert_eq!(base("&&&").points(), 0);
    assert_eq!(base("abc123").points(), 6);
    // punctuation and whitespace add nothing
    assert_eq!(base("a b-c!").points(), 3);
    assert_eq!(base("Target").points(), 6);
}

#[test]
fn round_dollar_and_quarter_bonuses_stack_to_75() {
    let base = |total: &str| {
        build("&", "2022-01-02", "13:01", vec![raw("ab", "1.01")], total)
    };
    // whole dollars: both bonuses
    assert_eq!(base("10.00").points(), 75);
    // quarter multiple only
    assert_eq!(base("10.25").points(), 25);
    // neither
    assert_eq!(base("10.10").points(), 0);
}

#[test]
fn item_pairs_earn_five_points_each() {
    let base = |n: usize| {
        let items: Vec<RawItem> = (0..n).map(|_| raw("ab", "1.01")).collect();
        build("&", "2022-01-02", "13:01", items, "1.01").points()
    };
    assert_eq!(base(1), 0);
    assert_eq!(base(2), 5);
    assert_eq!(base(3), 5);
    assert_eq!(base(4), 10);
}

#[test]
fn description_trimmed_to_multiple_of_three_earns_fifth_of_price() {
    let base = |desc: &str, price: &str| {
        build("&", "2022-01-02", "13:01", vec![raw(desc, price)], "1.01").points()
    };
    // 18 characters: ceil(12.25 * 0.2) = 3
    assert_eq!(base("Emils Cheese Pizza", "12.25"), 3);
    // trimmed to 24 characters: ceil(12.00 * 0.2) = 3
    assert_eq!(base("   Klarbrunn 12-PK 12 FL OZ  ", "12.00"), 3);
    // 17 characters: no points
    assert_eq!(base("Mountain Dew 12PK", "6.49"), 0);
}

#[test]
fn description_trimmed_to_empty_still_qualifies() {
    // Whitespace-only description trims to length 0, a multiple of three:
    // it contributes ceil(price * 0.2).
    let r = build("&", "2022-01-02", "13:01", vec![raw("   ", "1.01")], "1.01");
    assert_eq!(r.points(), 1);
}

#[test]
fn odd_purchase_day_earns_six() {
    let base = |date: &str| {
        build("&", date, "13:01", vec![raw("ab", "1.01")], "1.01").points()
    };
    assert_eq!(base("2022-01-01"), 6);
    assert_eq!(base("2022-01-02"), 0);
    assert_eq!(base("2022-01-31"), 6);
}

#[test]
fn afternoon_window_is_open_at_both_ends() {
    let base = |time: &str| {
        build("&", "2022-01-02", time, vec![raw("ab", "1.01")], "1.01").points()
    };
    assert_eq!(base("14:00"), 0);
    assert_eq!(base("16:00"), 0);
    assert_eq!(base("14:01"), 10);
    assert_eq!(base("15:59"), 10);
    assert_eq!(base("13:59"), 0);
}

#[test]
fn scoring_is_deterministic() {
    let make = || {
        build(
            "Target",
            "2022-01-01",
            "13:01",
            vec![raw("Mountain Dew 12PK", "6.49")],
            "6.49",
        )
    };
    let a = make();
    assert_eq!(a.points(), a.points());
    assert_eq!(make().points(), make().points());
}

#[test]
fn validation_reports_the_first_failing_field() {
    let items = || vec![raw("ab", "1.01")];
    assert_eq!(
        Receipt::from_parts("".to_string(), "2022-01-02", "13:01", items(), "1.01"),
        Err(ReceiptError::Retailer)
    );
    assert_eq!(
        Receipt::from_parts("T".to_string(), "2022-13-01", "13:01", items(), "1.01"),
        Err(ReceiptError::Date)
    );
    assert_eq!(
        Receipt::from_parts("T".to_string(), "2022-02-30", "13:01", items(), "1.01"),
        Err(ReceiptError::Date)
    );
    assert_eq!(
        Receipt::from_parts("T".to_string(), "2022-1-02", "13:01", items(), "1.01"),
        Err(ReceiptError::Date)
    );
    assert_eq!(
        Receipt::from_parts("T".to_string(), "2022-01-02", "24:00", items(), "1.01"),
        Err(ReceiptError::Time)
    );
    assert_eq!(
        Receipt::from_parts("T".to_string(), "2022-01-02", "1:30", items(), "1.01"),
        Err(ReceiptError::Time)
    );
    assert_eq!(
        Receipt::from_parts("T".to_string(), "2022-01-02", "13:01", vec![], "1.01"),
        Err(ReceiptError::Items)
    );
    assert_eq!(
        Receipt::from_parts(
            "T".to_string(),
            "2022-01-02",
            "13:01",
            vec![raw("ab", "1.01"), raw("", "1.01")],
            "1.01"
        ),
        Err(ReceiptError::ItemDescription)
    );
    assert_eq!(
        Receipt::from_parts(
            "T".to_string(),
            "2022-01-02",
            "13:01",
            vec![raw("ab", "not a price")],
            "1.01"
        ),
        Err(ReceiptError::ItemPrice)
    );
    assert_eq!(
        Receipt::from_parts("T".to_string(), "2022-01-02", "13:01", items(), "1.2.3"),
        Err(ReceiptError::Total)
    );
}

#[test]
fn leap_years_are_honoured() {
    let items = || vec![raw("ab", "1.01")];
    assert!(Receipt::from_parts("T".to_string(), "2024-02-29", "13:01", items(), "1.01").is_ok());
    assert_eq!(
        Receipt::from_parts("T".to_string(), "2023-02-29", "13:01", items(), "1.01"),
        Err(ReceiptError::Date)
    );
    assert_eq!(
        Receipt::from_parts("T".to_string(), "1900-02-29", "13:01", items(), "1.01"),
        Err(ReceiptError::Date)
    );
    assert!(Receipt::from_parts("T".to_string(), "2000-02-29", "13:01", items(), "1.01").is_ok());
}
