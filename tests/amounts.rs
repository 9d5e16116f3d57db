use hledger_parse::{parse_amount, parse_currency_string, parse_money_amount, Amount, AmountError, DecimalValue};

fn dec(negative: bool, mantissa: u128, scale: u32) -> DecimalValue {
    DecimalValue { negative, mantissa, scale }
}

fn amount(currency: &str, value: DecimalValue) -> Amount {
    Amount { currency: currency.to_string(), value }
}

#[test]
fn suffix_positive() {
    assert_eq!(parse_amount("100 EUR"), Ok((amount("EUR", dec(false, 100, 0)), 7)));
}

#[test]
fn suffix_negative() {
    assert_eq!(parse_amount("-100 EUR"), Ok((amount("EUR", dec(true, 100, 0)), 8)));
}

#[test]
fn prefix_positive() {
    assert_eq!(parse_amount("EUR 100"), Ok((amount("EUR", dec(false, 100, 0)), 7)));
}

#[test]
fn prefix_sign_before_currency() {
    assert_eq!(parse_amount("-EUR 100"), Ok((amount("EUR", dec(true, 100, 0)), 8)));
}

#[test]
fn prefix_sign_before_number() {
    assert_eq!(parse_amount("EUR -100"), Ok((amount("EUR", dec(true, 100, 0)), 8)));
}

#[test]
fn prefix_attached_currency() {
    assert_eq!(parse_amount("$5.25"), Ok((amount("$", dec(false, 525, 2)), 5)));
}

#[test]
fn doubled_sign_is_refused() {
    assert_eq!(parse_amount("-EUR -100"), Err(AmountError::Unmatched { position: 5 }));
}

#[test]
fn plus_sign_keeps_positive() {
    assert_eq!(parse_amount("+7 EUR"), Ok((amount("EUR", dec(false, 7, 0)), 6)));
}

#[test]
fn quoted_currency_is_trimmed() {
    assert_eq!(
        parse_amount("3 \" My Coin 2 \""),
        Ok((amount("My Coin 2", dec(false, 3, 0)), 15))
    );
}

#[test]
fn missing_currency_is_refused() {
    assert_eq!(parse_amount("100"), Err(AmountError::Unmatched { position: 0 }));
}

#[test]
fn amount_stops_before_rest() {
    assert_eq!(parse_amount("12,50 USD @ 1 EUR"), Ok((amount("USD", dec(false, 1250, 2)), 9)));
}

#[test]
fn negative_zero_keeps_its_sign() {
    assert_eq!(parse_amount("-0 EUR"), Ok((amount("EUR", dec(true, 0, 0)), 6)));
}

#[test]
fn comma_and_point_agree() {
    let a = parse_money_amount("1,05").unwrap();
    let b = parse_money_amount("1.05").unwrap();
    assert_eq!(a, b);
    assert_eq!(a, (dec(false, 105, 2), 4));
}

#[test]
fn grouping_spaces() {
    assert_eq!(parse_money_amount("1 000 000"), Ok((dec(false, 1000000, 0), 9)));
}

#[test]
fn grouping_needs_digits_after_space() {
    assert_eq!(parse_money_amount("12 EUR"), Ok((dec(false, 12, 0), 2)));
}

#[test]
fn separator_without_digits_is_not_taken() {
    assert_eq!(parse_money_amount("5."), Ok((dec(false, 5, 0), 1)));
}

#[test]
fn number_missing() {
    assert_eq!(parse_money_amount("EUR"), Err(AmountError::Unmatched { position: 0 }));
}

#[test]
fn integer_part_too_large() {
    let r = parse_money_amount("99999999999999999999999999999999");
    assert!(matches!(r, Err(AmountError::InvalidAmount { position: 32, .. })));
    let r = parse_amount("99999999999999999999999999999999 EUR");
    assert!(matches!(r, Err(AmountError::InvalidAmount { position: 32, .. })));
}

#[test]
fn largest_mantissa() {
    assert_eq!(
        parse_money_amount("79228162514264337593543950335"),
        Ok((dec(false, 79228162514264337593543950335, 0), 29))
    );
}

#[test]
fn currency_bare_and_quoted() {
    assert_eq!(parse_currency_string("EUR 5"), Ok(("EUR".to_string(), 3)));
    assert_eq!(parse_currency_string("\"a 1\" 5"), Ok(("a 1".to_string(), 5)));
    assert_eq!(parse_currency_string("\"open"), Ok(("\"open".to_string(), 5)));
    assert_eq!(parse_currency_string("5 EUR"), Err(AmountError::Unmatched { position: 0 }));
}

#[test]
fn decimal_text() {
    assert_eq!(dec(false, 105, 2).to_text(), "1.05");
    assert_eq!(dec(false, 5, 3).to_text(), "0.005");
    assert_eq!(dec(true, 0, 0).to_text(), "-0");
    assert_eq!(dec(false, 0, 2).to_text(), "0.00");
    assert_eq!(dec(true, 1000000, 0).to_text(), "-1000000");
}

#[test]
fn suffix_round_trip() {
    let a = amount("EUR", dec(true, 1234, 3));
    let text = a.to_text();
    assert_eq!(text, "-1.234 EUR");
    assert_eq!(parse_amount(&text), Ok((a, 10)));
}

#[test]
fn plus_suffix_round_trip() {
    let a = amount("USD", dec(false, 105, 2));
    let text = format!("+{}", a.to_text());
    assert_eq!(text, "+1.05 USD");
    assert_eq!(parse_amount(&text), Ok((a.clone(), 9)));
    assert_eq!(parse_amount(&text).unwrap().0.to_text(), "1.05 USD");
}

#[test]
fn unmatched_reports_where_prefix_form_stopped() {
    assert_eq!(parse_amount("EUR x"), Err(AmountError::Unmatched { position: 4 }));
    assert_eq!(parse_amount("  5"), Err(AmountError::Unmatched { position: 2 }));
}

#[test]
fn unicode_white_space_is_trimmed() {
    assert_eq!(
        parse_amount("2 \"\u{a0}EUR\u{3000}\""),
        Ok((amount("EUR", dec(false, 2, 0)), 9))
    );
}
