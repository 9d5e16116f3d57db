use hledger_parse::{Amount, Date, DecimalValue, Posting, PostingComplexAmount, Price, Status};

fn amount(currency: &str, negative: bool, mantissa: u128, scale: u32) -> Amount {
    Amount { currency: currency.to_string(), value: DecimalValue { negative, mantissa, scale } }
}

#[test]
fn posting_with_amount() {
    let posting = Posting {
        status: Status::Pending,
        account: "expenses:food".into(),
        amount: Some(amount("EUR", false, 100, 0)),
        unit_price: None,
        total_price: None,
        balance_assertion: None,
    };
    assert_eq!(posting.to_text(), "  ! expenses:food  100 EUR");
}

#[test]
fn posting_with_unit_price() {
    let posting = Posting {
        status: Status::Pending,
        account: "expenses:food".into(),
        amount: Some(amount("EUR", false, 100, 0)),
        unit_price: Some(amount("USD", false, 105, 2)),
        total_price: None,
        balance_assertion: None,
    };
    assert_eq!(posting.to_text(), "  ! expenses:food  100 EUR @ 1.05 USD");
}

#[test]
fn posting_with_total_price() {
    let posting = Posting {
        status: Status::Cleared,
        account: "assets:cash".into(),
        amount: Some(amount("EUR", true, 100, 0)),
        unit_price: None,
        total_price: Some(amount("USD", false, 105, 0)),
        balance_assertion: None,
    };
    assert_eq!(posting.to_text(), "  * assets:cash  -100 EUR @@ 105 USD");
}

#[test]
fn posting_without_amount() {
    let posting = Posting {
        status: Status::Unmarked,
        account: "assets:bank".into(),
        amount: None,
        unit_price: None,
        total_price: None,
        balance_assertion: None,
    };
    assert_eq!(posting.to_text(), "   assets:bank");
}

#[test]
fn complex_amount_default_is_empty() {
    let c = PostingComplexAmount::default();
    assert!(c.amount.is_none() && c.unit_price.is_none() && c.total_price.is_none());
}

#[test]
fn price_text() {
    let price = Price {
        commodity: "EUR".to_string(),
        date: Date::from_ymd_opt(2022, 6, 23).unwrap(),
        amount: amount("USD", false, 105, 2),
    };
    assert_eq!(price.to_text(), "P 2022-06-23 EUR 1.05 USD");
}

#[test]
fn dates_that_do_not_exist() {
    assert!(Date::from_ymd_opt(2023, 2, 29).is_none());
    assert!(Date::from_ymd_opt(2024, 2, 29).is_some());
    assert!(Date::from_ymd_opt(1900, 2, 29).is_none());
    assert!(Date::from_ymd_opt(2000, 2, 29).is_some());
    assert!(Date::from_ymd_opt(2022, 13, 1).is_none());
    assert!(Date::from_ymd_opt(2022, 4, 31).is_none());
}

#[test]
fn date_text_outside_four_digit_years() {
    assert_eq!(Date::from_ymd_opt(10000, 1, 2).unwrap().to_text(), "+10000-01-02");
    assert_eq!(Date::from_ymd_opt(-5, 12, 31).unwrap().to_text(), "-0005-12-31");
    assert_eq!(Date::from_ymd_opt(7, 3, 4).unwrap().to_text(), "0007-03-04");
}
