use chrono::{Datelike, NaiveDateTime, Timelike};
use pricedb::datetime::parse_datetime;
use pricedb::model::Price;
use pricedb::price_flat_file::{parse_line, PriceFlatFile, PriceRecord};

#[test]
fn price_test_parsing_date_time() {
    let date_time_string = "2022-03-04 17:01:02";
    let result = NaiveDateTime::parse_from_str(&date_time_string, "%Y-%m-%d %H:%M:%S");
    assert!(result.is_ok());

    let actual = result.expect("parsed");

    assert_eq!(2022, actual.date().year());
    assert_eq!(3, actual.date().month());
    assert_eq!(4, actual.date().day());
    assert_eq!(17, actual.time().hour());
    assert_eq!(1, actual.time().minute());
    assert_eq!(2, actual.time().second());
}

#[test]
fn price_flat_file_test_parsing_date_time() {
    let date_time_string = "2022-03-04 17:01:02";
    let result = parse_datetime(date_time_string);
    assert!(result.is_some());

    let actual = result.expect("parsed");

    assert_eq!(2022, actual.year);
    assert_eq!(3, actual.month);
    assert_eq!(4, actual.day);
    assert_eq!(17, actual.hour);
    assert_eq!(1, actual.minute);
    assert_eq!(2, actual.second);
}

#[test]
fn test_parsing_empty_time() {
    // Price -> PriceRecord
    let price = Price {
        symbol: "HY".into(),
        id: 1,
        date: "2023-03-04".into(),
        time: "".into(),
        value: 150,
        denom: 10,
        currency: "EUR".into(),
    };

    let date_time_string = "2023-03-04 00:00:00";
    let result = NaiveDateTime::parse_from_str(&date_time_string, "%Y-%m-%d %H:%M:%S");
    assert!(result.is_ok());

    let actual = PriceRecord::from_price(&price).expect("converted");

    assert_eq!("2023-03-04 00:00:00", format!("{} {}", actual.date, actual.time));
}

#[test]
fn test_load() {
    let content = "P 2023-04-14 GBP 1.132283 EUR\nP 2023-04-15 12:00:00 VEUR_AS 1.5 EUR\nP 2023-03-11 USD 1.11 EUR\n";
    let actual = PriceFlatFile::load("tests/prices.txt", content).expect("loaded");

    // test the number of records in the file.
    assert_eq!(3, actual.len());
}

#[test]
fn test_add() {
    // Create an empty list
    let mut prices_file = PriceFlatFile::default();

    let price = PriceRecord {
        date: "2023-03-04".into(),
        time: "12:24:36".into(),
        symbol: "EL4X_DE".into(),
        value: 150,
        denom: 1,
        currency: "EUR".into(),
    };
    // Add a new price to the list
    prices_file.add(price);
    assert_eq!(1, prices_file.len());
}

/// Add a price with the same symbol to test replacement.
#[test]
fn test_add_new_value() {
    // Create an empty list
    let mut prices_file = PriceFlatFile::default();

    let price = PriceRecord {
        date: "2023-03-04".into(),
        time: "12:24:36".into(),
        symbol: "EL4X_DE".into(),
        value: 150,
        denom: 1,
        currency: "EUR".into(),
    };
    // Add a new price to the list
    prices_file.add(price);
    assert_eq!(1, prices_file.len());
    assert_eq!(150, prices_file.get("EL4X_DE").expect("got first").value);

    // Add a price for the same symbol
    let price2 = PriceRecord {
        date: "2023-03-04".into(),
        time: "13:00:00".into(),
        symbol: "EL4X_DE".into(),
        value: 155,
        denom: 1,
        currency: "EUR".into(),
    };
    // Add a new price to the list
    prices_file.add(price2);

    // Still must have only one record.
    assert_eq!(1, prices_file.len());
    // with the new value.
    assert_eq!(155, prices_file.get("EL4X_DE").expect("got first").value);
}

#[test]
fn test_format_wo_time() {
    let price = PriceRecord {
        date: "2023-04-15".into(),
        time: "00:00:00".into(),
        symbol: "VEUR_AS".into(),
        value: 1324,
        denom: 100,
        currency: "EUR".into(),
    };

    let actual = price.to_line();

    assert_eq!("P 2023-04-15 VEUR_AS 13.24 EUR", actual);
}

#[test]
fn test_format_with_time() {
    let price = PriceRecord {
        date: "2023-04-15".into(),
        time: "10:00:00".into(),
        symbol: "VEUR_AS".into(),
        value: 1324,
        denom: 100,
        currency: "EUR".into(),
    };

    let actual = price.to_line();

    assert_eq!("P 2023-04-15 10:00:00 VEUR_AS 13.24 EUR", actual);
}

/// Loading a journal and saving it back produces the records in date,
/// time and symbol order, byte for byte.
#[test]
fn test_flat_file_round_trip() {
    let content = "P 2023-04-14 GBP 1.132283 EUR\nP 2023-04-15 12:00:00 VEUR_AS 1.5 EUR\nP 2023-03-11 USD 1.11 EUR\n";
    let loaded = PriceFlatFile::load("prices.txt", content).expect("loaded");

    let saved = loaded.save();

    assert_eq!(
        "P 2023-03-11 USD 1.11 EUR\nP 2023-04-14 GBP 1.132283 EUR\nP 2023-04-15 12:00:00 VEUR_AS 1.5 EUR\n",
        saved
    );
}

/// Saving twice produces byte-identical text.
#[test]
fn test_save_deterministic() {
    let content = "P 2023-04-14 GBP 1.132283 EUR\nP 2023-03-11 USD 1.11 EUR\n";
    let loaded = PriceFlatFile::load("prices.txt", content).expect("loaded");

    assert_eq!(loaded.save(), loaded.save());
}

#[test]
fn test_parse_line_rejects_bad_token_count() {
    assert!(parse_line("P 2023-04-14 GBP 1.132283").is_none());
    assert!(parse_line("").is_none());
    assert!(parse_line("P 2023-04-14 10:00:00 GBP 1.132283 EUR extra").is_none());
}

#[test]
fn test_parse_line_rejects_bad_date() {
    assert!(parse_line("P 2023-02-30 GBP 1.1 EUR").is_none());
    assert!(parse_line("P 2023-13-01 GBP 1.1 EUR").is_none());
}

#[test]
fn test_parse_line_rejects_bad_decimal() {
    assert!(parse_line("P 2023-04-14 GBP 1.1.2 EUR").is_none());
    assert!(parse_line("P 2023-04-14 GBP abc EUR").is_none());
}

#[test]
fn test_load_rejects_malformed_line() {
    let content = "P 2023-04-14 GBP 1.132283 EUR\nnot a price line\n";
    let r = PriceFlatFile::load("prices.txt", content);
    assert_eq!(r.unwrap_err(), pricedb::model::PriceDbError::Parse);
}
