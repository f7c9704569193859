use pricedb::decimal::parse_decimal;
use pricedb::ledger_formatter::{format_price, format_prices};
use pricedb::model::{Price, SecuritySymbol, SymbolMetadata, PriceDbError};
use pricedb::quote::fixerio::{get_rate_file_path, Fixerio};
use pricedb::quote::vanguard_au_2023_detail::VanguardAu3Downloader;
use pricedb::quote::{DownloaderKind, Quote};

#[test]
fn test_url_generation() {
    let symbol = SecuritySymbol::new("VANGUARD:HY");
    let dl = VanguardAu3Downloader::new();

    let actual = dl.get_url(&symbol);

    assert_eq!(
        "https://www.vanguard.com.au/personal/api/products/personal/fund/8148/prices?limit=-1",
        actual
    );
}

#[test]
#[allow(non_snake_case)]
fn yahooFinanceDownloader_test_assemble_url_xetra() {
    let x = pricedb::quote::yahooFinanceDownloader::YahooFinanceDownloader::new();
    let s = SecuritySymbol { namespace: "XETRA".to_string(), mnemonic: "EL4X".to_string() };

    let first = x.assemble_url(&s);
    assert_eq!("https://query1.finance.yahoo.com/v8/finance/chart/EL4X.DE", first);
}

#[test]
#[allow(non_snake_case)]
fn yahooFinanceDownloader_test_assemble_url_vhyl() {
    let x = pricedb::quote::yahooFinanceDownloader::YahooFinanceDownloader::new();
    let s = SecuritySymbol { namespace: "".to_string(), mnemonic: "VHYL".to_string() };

    let first = x.assemble_url(&s);
    assert_eq!("https://query1.finance.yahoo.com/v8/finance/chart/VHYL", first);
}

#[test]
fn yahoo_finance_downloader_test_assemble_url_xetra() {
    let x = pricedb::quote::yahoo_finance_downloader::YahooFinanceDownloader::new();
    let s = SecuritySymbol { namespace: "XETRA".to_string(), mnemonic: "EL4X".to_string() };

    let first = x.assemble_url(&s);
    assert_eq!("https://query1.finance.yahoo.com/v8/finance/chart/EL4X.DE", first);
}

#[test]
fn yahoo_finance_downloader_test_assemble_url_vhyl() {
    let x = pricedb::quote::yahoo_finance_downloader::YahooFinanceDownloader::new();
    let s = SecuritySymbol { namespace: "".to_string(), mnemonic: "BND".to_string() };

    let first = x.assemble_url(&s);
    assert_eq!("https://query1.finance.yahoo.com/v8/finance/chart/BND", first);
}

#[test]
fn test_instantiation() {
    let f = Fixerio::new("abcdefghijklmnopqrstuvwxyz012345".to_owned());

    let key = f.api_key();
    assert_ne!(key, String::default());
    assert_eq!(key.len(), 32);
}

#[test]
fn test_rate_file_path() {
    let path = get_rate_file_path("/tmp", "2022-12-06");
    assert_eq!("/tmp/fixerio_2022-12-06.json", path);
}

#[test]
fn test_quote_configuration() {
    let mut q = Quote::new();
    q.set_currency("aud");
    q.set_source("yahoo_finance");

    assert_eq!(Some("AUD".to_owned()), q.currency);
    assert_eq!(Some("yahoo_finance".to_owned()), q.source);
    assert_eq!(DownloaderKind::YahooFinance, q.get_downloader());

    q.set_source("fixerio");
    assert_eq!(DownloaderKind::Fixerio, q.get_downloader());
    q.set_source("vanguard_au");
    assert_eq!(DownloaderKind::VanguardAu, q.get_downloader());
}

#[test]
fn test_vanguard_parse_price() {
    let dl = VanguardAu3Downloader::new();
    let p = dl
        .parse_price("2023-05-01".to_owned(), "1.2345".to_owned(), "AUD".to_owned())
        .expect("parsed");

    assert_eq!("2023-05-01", p.date);
    assert_eq!(12345, p.value);
    assert_eq!(10000, p.denom);
    assert_eq!("AUD", p.currency);

    let bad = dl.parse_price("01 May 2023".to_owned(), "1.2345".to_owned(), "AUD".to_owned());
    assert!(matches!(bad, Err(PriceDbError::Parse)));
}

#[test]
fn test_parse_decimal_exact() {
    assert_eq!(Some((12345, 100)), parse_decimal("123.45"));
    assert_eq!(Some((150, 1)), parse_decimal("150"));
    assert_eq!(Some((-5, 100)), parse_decimal("-0.05"));
    assert_eq!(None, parse_decimal("1.1.2"));
    assert_eq!(None, parse_decimal(""));
    assert_eq!(None, parse_decimal("12."));
}

#[test]
fn test_single_price_formatting() {
    let mut sm = SymbolMetadata::new();
    sm.symbol = "EL4X".into();
    sm.ledger_symbol = Some("EL4X_DE".into());

    let price = Price {
        symbol: "EL4X".to_string(),
        id: 113,
        date: "2022-12-01".into(),
        time: "12:25:34".into(),
        value: 12534,
        denom: 100,
        currency: "EUR".into(),
    };

    let actual = format_price(&price, &sm);

    assert_eq!(actual, "P 2022-12-01 12:25:34 EL4X_DE 125.34 EUR");
}

#[test]
fn test_format_price_wo_time() {
    let mut sm = SymbolMetadata::new();
    sm.symbol = "VAS".into();
    sm.ledger_symbol = Some("VAS_AX".into());

    let price = Price {
        symbol: "VAS".into(),
        id: 113,
        date: "2022-12-01".into(),
        time: Price::default_time(),
        value: 12534,
        denom: 100,
        currency: "AUD".into(),
    };

    let actual = format_price(&price, &sm);

    assert_eq!(actual, "P 2022-12-01 00:00:00 VAS_AX 125.34 AUD");
}

/// Exporting renders the prices chronologically, oldest first.
#[test]
fn test_export_prices_sorted() {
    let mk = |date: &str, time: &str, sym: &str, value: i64| Price {
        symbol: sym.to_owned(),
        id: 0,
        date: date.to_owned(),
        time: time.to_owned(),
        value,
        denom: 100,
        currency: "EUR".into(),
    };
    let prices = vec![
        mk("2022-12-02", "00:00:00", "XETRA:EL4X", 200),
        mk("2022-12-01", "12:00:00", "XETRA:EL4X", 100),
    ];
    let mut sm = SymbolMetadata::new();
    sm.namespace = Some("XETRA".into());
    sm.symbol = "EL4X".into();
    let securities = vec![sm];

    let out = pricedb::ledger_formatter::export_prices(&prices, &securities).expect("exported");
    assert_eq!(
        "P 2022-12-01 12:00:00 EL4X 1.00 EUR\nP 2022-12-02 00:00:00 EL4X 2.00 EUR\n",
        out
    );
}

#[test]
fn test_format_prices_missing_security() {
    let prices = vec![Price {
        symbol: "XETRA:EL4X".into(),
        id: 1,
        date: "2022-12-01".into(),
        time: "00:00:00".into(),
        value: 12534,
        denom: 100,
        currency: "EUR".into(),
    }];
    let securities: Vec<SymbolMetadata> = Vec::new();

    let r = format_prices(&prices, &securities);
    assert_eq!(Err(PriceDbError::NotFound), r);
}

#[test]
fn test_format_prices_with_alias() {
    let prices = vec![Price {
        symbol: "XETRA:EL4X".into(),
        id: 1,
        date: "2022-12-01".into(),
        time: "00:00:00".into(),
        value: 12534,
        denom: 100,
        currency: "EUR".into(),
    }];
    let mut sm = SymbolMetadata::new();
    sm.namespace = Some("XETRA".into());
    sm.symbol = "EL4X".into();
    sm.ledger_symbol = Some("EL4X_DE".into());
    let securities = vec![sm];

    let r = format_prices(&prices, &securities).expect("formatted");
    assert_eq!("P 2022-12-01 00:00:00 EL4X_DE 125.34 EUR\n", r);
}
