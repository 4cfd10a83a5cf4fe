use xapo2ks::money::{parse_decimal, Currency, Decimal, MoneyError};

#[test]
fn currency_codes_in_any_case() {
    assert_eq!(Currency::parse_code("USD"), Ok(Currency::Usd));
    assert_eq!(Currency::parse_code("usd"), Ok(Currency::Usd));
    assert_eq!(Currency::parse_code("Usd"), Ok(Currency::Usd));
    assert_eq!(Currency::parse_code("BTC"), Ok(Currency::Btc));
    assert_eq!("btc".parse::<Currency>(), Ok(Currency::Btc));
}

#[test]
fn unknown_currency_is_an_error() {
    assert_eq!(
        Currency::parse_code("eth"),
        Err(MoneyError::UnknownCurrency("ETH".to_string()))
    );
    assert_eq!(
        Currency::parse_code(""),
        Err(MoneyError::UnknownCurrency("".to_string()))
    );
    assert_eq!(
        Currency::parse_code("USDT"),
        Err(MoneyError::UnknownCurrency("USDT".to_string()))
    );
}

#[test]
fn currency_codes_render_upper_case() {
    assert_eq!(Currency::Usd.code(), "USD");
    assert_eq!(Currency::Btc.code(), "BTC");
}

#[test]
fn amount_text_round_trips() {
    for text in ["0.00000001", "-0.5", "1.50", "0", "123", "79228162514264337593543950335"] {
        let d = parse_decimal(text).unwrap();
        assert_eq!(d.to_text(), text);
        let again = parse_decimal(&d.to_text()).unwrap();
        assert_eq!(again.mantissa(), d.mantissa());
        assert_eq!(again.scale(), d.scale());
    }
}

#[test]
fn scientific_amounts_parse() {
    let d = parse_decimal("1.2E-5").unwrap();
    assert_eq!(d.to_text(), "0.000012");
    assert_eq!(d, Decimal::try_new(12, 6).unwrap());
}

#[test]
fn bad_amount_is_an_error() {
    assert!(parse_decimal("abc").is_err());
    assert!(parse_decimal("").is_err());
}

#[test]
fn decimal_equality_is_by_value() {
    assert_eq!(Decimal::try_new(10, 1).unwrap(), Decimal::from_u64(1));
    assert_ne!(Decimal::try_new(11, 1).unwrap(), Decimal::from_u64(1));
}

#[test]
fn decimal_arithmetic() {
    let a = Decimal::from_u64(1);
    let b = Decimal::from_u64(2);
    assert_eq!(a.checked_add(&b).unwrap().to_text(), "3");
    let c = Decimal::try_new(-5, 1).unwrap();
    assert_eq!(c.abs().to_text(), "0.5");
    assert_eq!(c.to_text(), "-0.5");
    let big = Decimal::try_new(79228162514264337593543950335, 0).unwrap();
    assert!(big.checked_add(&big).is_none());
}

#[test]
fn decimal_range_is_checked() {
    assert!(Decimal::try_new(1, 29).is_none());
    assert!(Decimal::try_new(79228162514264337593543950336, 0).is_none());
    assert!(Decimal::try_new(-79228162514264337593543950335, 28).is_some());
}
