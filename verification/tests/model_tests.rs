use pricedb::decimal::DecimalValue;
use pricedb::model::{Price, SecurityFilter, SecuritySymbol};
use rust_decimal::Decimal;

#[test]
fn test_parse() {
    let s = SecuritySymbol::new("XETRA:EL4X");

    assert_eq!(s.namespace, "XETRA");
    assert_eq!(s.mnemonic, "EL4X");
}

#[test]
fn test_parse_currency() {
    let s = SecuritySymbol::new("AUD");

    assert_eq!(s.namespace, "");
    assert_eq!(s.mnemonic, "AUD");
}

#[test]
fn test_parse_lowercase() {
    let s = SecuritySymbol::new("xetra:el4x");

    assert_eq!(s.namespace, "XETRA");
    assert_eq!(s.mnemonic, "EL4X");
}

#[test]
fn scale_calculation() {
    let mut p = Price::new();

    // we need only the price values
    p.value = 12345;
    p.denom = 100;
    assert_eq!(2, p.scale());

    p.value = 12345;
    p.denom = 1000;
    assert_eq!(3, p.scale());
}

#[test]
fn price_value() {
    let mut p = Price::new();
    // we need only the price values
    p.value = 12345;
    p.denom = 100;

    let actual = p.to_decimal();

    assert_eq!(actual, DecimalValue { mantissa: 12345, scale: 2 });
    assert_eq!(actual.render(), "123.45");
    // the exact decimal library renders the same digits
    assert_eq!(actual.render(), Decimal::from_str_exact("123.45").unwrap().to_string());
}

#[test]
/// What is the default?
fn test_sec_filter_default() {
    let def = SecurityFilter::default();
    let new = SecurityFilter::new();

    assert_eq!(def, new);
}

#[test]
fn test_default_time() {
    assert_eq!(Price::default_time(), "00:00:00");
}

#[test]
fn test_symbol_display() {
    let s = SecuritySymbol::new("XETRA:EL4X");
    assert_eq!(s.display_string(), "XETRA:EL4X");
}
