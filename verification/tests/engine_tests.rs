use pricedb::config::PriceDbConfig;
use pricedb::model::{Price, PriceFilter, Security, SecurityFilter, SymbolMetadata, PriceDbError};
use pricedb::App;

fn price(symbol: &str, date: &str, time: &str, value: i64, denom: i64, currency: &str) -> Price {
    Price {
        symbol: symbol.to_owned(),
        id: 0,
        date: date.to_owned(),
        time: time.to_owned(),
        value,
        denom,
        currency: currency.to_owned(),
    }
}

fn test_app() -> App {
    App::new(PriceDbConfig::default())
}

/// Reconciling the identical observation twice leaves one stored row and
/// performs no second write.
#[test]
fn test_upsert_idempotent() {
    let mut app = test_app();
    let p = price("VTI", "2022-12-01", "13:25:44", 1033, 100, "EUR");

    let first = app.add_price(&p).expect("reconciled");
    assert_eq!(1, first.inserted);
    assert_eq!(0, first.updated);

    let second = app.add_price(&p).expect("reconciled");
    assert_eq!(0, second.inserted);
    assert_eq!(0, second.updated);

    assert_eq!(1, app.store.get_prices(None).len());
}

/// A changed value for an existing key is updated in place.
#[test]
fn test_upsert_updates_value() {
    let mut app = test_app();
    app.add_price(&price("VTI", "2022-12-01", "13:25:44", 1033, 100, "EUR")).expect("inserted");

    let outcome = app
        .add_price(&price("VTI", "2022-12-01", "13:25:44", 1044, 100, "EUR"))
        .expect("reconciled");
    assert_eq!(0, outcome.inserted);
    assert_eq!(1, outcome.updated);

    let rows = app.store.get_prices(None);
    assert_eq!(1, rows.len());
    assert_eq!(1044, rows[0].value);
}

/// A currency disagreement on an existing key is refused, never silently
/// overwritten.
#[test]
fn test_upsert_currency_conflict() {
    let mut app = test_app();
    app.add_price(&price("VTI", "2022-12-01", "13:25:44", 1033, 100, "EUR")).expect("inserted");

    let r = app.add_price(&price("VTI", "2022-12-01", "13:25:44", 1044, 100, "USD"));
    assert_eq!(Err(PriceDbError::Conflict), r);

    // nothing changed
    let rows = app.store.get_prices(None);
    assert_eq!(1, rows.len());
    assert_eq!(1033, rows[0].value);
    assert_eq!("EUR", rows[0].currency);
}

/// Pruning every symbol over history counts [3, 1, 5] leaves exactly one
/// price per symbol and deletes (3-1)+(5-1) = 6 rows.
#[test]
fn test_prune_all() {
    let mut app = test_app();
    // three prices for A
    app.add_price(&price("A", "2023-01-01", "00:00:00", 1, 1, "EUR")).unwrap();
    app.add_price(&price("A", "2023-01-02", "00:00:00", 2, 1, "EUR")).unwrap();
    app.add_price(&price("A", "2023-01-03", "00:00:00", 3, 1, "EUR")).unwrap();
    // one price for B
    app.add_price(&price("B", "2023-01-01", "00:00:00", 4, 1, "EUR")).unwrap();
    // five prices for C
    app.add_price(&price("C", "2023-01-01", "00:00:00", 5, 1, "EUR")).unwrap();
    app.add_price(&price("C", "2023-01-02", "00:00:00", 6, 1, "EUR")).unwrap();
    app.add_price(&price("C", "2023-01-03", "00:00:00", 7, 1, "EUR")).unwrap();
    app.add_price(&price("C", "2023-01-03", "12:00:00", 8, 1, "EUR")).unwrap();
    app.add_price(&price("C", "2023-01-04", "00:00:00", 9, 1, "EUR")).unwrap();

    let result = app.prune(&None);

    assert_eq!(3, result.processed);
    assert_eq!(6, result.deleted);

    // exactly one price per symbol, the newest
    let a = app.store.get_prices_for_security("A");
    assert_eq!(1, a.len());
    assert_eq!("2023-01-03", a[0].date);
    let b = app.store.get_prices_for_security("B");
    assert_eq!(1, b.len());
    let c = app.store.get_prices_for_security("C");
    assert_eq!(1, c.len());
    assert_eq!("2023-01-04", c[0].date);
}

/// Pruning a symbol with exactly one stored price is a no-op.
#[test]
fn test_prune_single_price_noop() {
    let mut app = test_app();
    app.add_price(&price("VTI", "2023-01-01", "00:00:00", 1, 1, "EUR")).unwrap();

    let result = app.prune(&Some("VTI".to_owned()));

    assert_eq!(1, result.processed);
    assert_eq!(0, result.deleted);
    assert_eq!(1, app.store.get_prices(None).len());
}

/// Pruning one symbol leaves the others untouched.
#[test]
fn test_prune_one_symbol() {
    let mut app = test_app();
    app.add_price(&price("A", "2023-01-01", "00:00:00", 1, 1, "EUR")).unwrap();
    app.add_price(&price("A", "2023-01-02", "00:00:00", 2, 1, "EUR")).unwrap();
    app.add_price(&price("B", "2023-01-01", "00:00:00", 3, 1, "EUR")).unwrap();
    app.add_price(&price("B", "2023-01-02", "00:00:00", 4, 1, "EUR")).unwrap();

    let result = app.prune(&Some("A".to_owned()));

    assert_eq!(1, result.processed);
    assert_eq!(1, result.deleted);
    assert_eq!(1, app.store.get_prices_for_security("A").len());
    assert_eq!(2, app.store.get_prices_for_security("B").len());
}

/// The history of a symbol comes back newest first.
#[test]
fn test_history_newest_first() {
    let mut app = test_app();
    app.add_price(&price("A", "2023-01-02", "00:00:00", 2, 1, "EUR")).unwrap();
    app.add_price(&price("A", "2023-01-03", "00:00:00", 3, 1, "EUR")).unwrap();
    app.add_price(&price("A", "2023-01-01", "00:00:00", 1, 1, "EUR")).unwrap();

    let hist = app.store.get_prices_for_security("A");
    assert_eq!(3, hist.len());
    assert_eq!("2023-01-03", hist[0].date);
    assert_eq!("2023-01-02", hist[1].date);
    assert_eq!("2023-01-01", hist[2].date);
}

fn security(id: i64, namespace: &str, symbol: &str, currency: &str) -> Security {
    Security {
        id,
        namespace: Some(namespace.to_owned()),
        symbol: symbol.to_owned(),
        updater: None,
        currency: Some(currency.to_owned()),
        ledger_symbol: None,
        notes: None,
    }
}

/// A lowercase currency filter matches the uppercase stored value and
/// nothing else.
#[test]
fn test_filter_currency_case_insensitive() {
    let mut app = test_app();
    app.store.add_security(&security(1, "ASX", "VAS", "AUD"));
    app.store.add_security(&security(2, "NYSE", "VTI", "USD"));

    let filter = SecurityFilter {
        currency: Some("aud".to_owned()),
        agent: None,
        exchange: None,
        symbol: None,
    };
    let matched = app.store.get_securities(Some(filter));

    assert_eq!(1, matched.len());
    assert_eq!("VAS", matched[0].symbol);
}

#[test]
fn test_get_securities_wo_filter() {
    let mut app = test_app();
    app.store.add_security(&security(1, "NYSE", "VTI", "USD"));
    app.store.add_security(&security(2, "XETRA", "EL49", "EUR"));
    app.store.add_security(&security(3, "ASX", "VAS", "AUD"));
    app.store.add_security(&security(4, "LSE", "VHYL", "GBP"));

    let securities = app.store.get_securities(None);

    assert_ne!(securities.len(), 0);
    assert_eq!(securities.len(), 4);
}

#[test]
fn test_get_security_by_symbol() {
    let mut app = test_app();
    app.store.add_security(&security(1, "NYSE", "VTI", "USD"));
    app.store.add_security(&security(2, "XETRA", "EL49", "EUR"));

    let symbol = "EL49";

    let actual = app.store.get_security_by_symbol(symbol).expect("security found");

    assert_eq!(actual.currency, Some("EUR".to_string()));
    assert_eq!(actual.namespace, Some("XETRA".to_string()));
}

#[test]
fn test_get_prices_w_empty_filter() {
    let mut app = test_app();
    app.add_price(&price("VTI", "2022-12-01", "00:00:00", 12345, 100, "EUR")).unwrap();
    app.add_price(&price("VTI", "2022-12-02", "00:00:00", 10101, 100, "EUR")).unwrap();
    app.add_price(&price("EL49", "2022-12-01", "00:00:00", 1234, 100, "EUR")).unwrap();
    app.add_price(&price("VAS", "2022-12-01", "00:00:00", 123456789, 10000, "EUR")).unwrap();
    app.add_price(&price("VHYL", "2022-12-01", "00:00:00", 123456, 1000, "EUR")).unwrap();

    let filter = PriceFilter { symbol: None, date: None, time: None };
    let actual = app.store.get_prices(Some(filter));

    println!("prices: {:?}", actual);

    assert!(actual.len() == 5);
}

#[test]
fn test_get_prices_w_filter() {
    let mut app = test_app();
    app.add_price(&price("VTI", "2022-12-01", "00:00:00", 12345, 100, "EUR")).unwrap();
    app.add_price(&price("VTI", "2022-12-02", "00:00:00", 10101, 100, "EUR")).unwrap();
    app.add_price(&price("EL49", "2022-12-01", "00:00:00", 1234, 100, "EUR")).unwrap();

    let filter = PriceFilter { symbol: Some("VTI".to_owned()), date: None, time: None };
    let actual = app.store.get_prices(Some(filter));

    println!("prices: {:?}", actual);

    assert_eq!(actual.len(), 2);
}

#[test]
fn test_get_quote_params() {
    let mut cfg = PriceDbConfig::default();
    cfg.symbols_path = "conf-symbols.csv".to_owned();
    cfg.prices_path = "conf-prices.txt".to_owned();
    let app = App::new(cfg);

    let (symbols, prices) = app.get_quote_params(&None, &Some("cli-prices.txt".to_owned()));
    assert_eq!("conf-symbols.csv", symbols);
    assert_eq!("cli-prices.txt", prices);
}

fn meta(namespace: &str, symbol: &str, currency: &str, updater: Option<&str>) -> SymbolMetadata {
    SymbolMetadata {
        namespace: Some(namespace.to_owned()),
        symbol: symbol.to_owned(),
        ledger_symbol: None,
        currency: Some(currency.to_owned()),
        updater: updater.map(|u| u.to_owned()),
    }
}

#[test]
fn test_get_securities_list_filter() {
    let app = test_app();
    let list = vec![
        meta("XETRA", "EL4X", "EUR", Some("yahoo_finance")),
        meta("ASX", "VAS", "AUD", Some("yahoo_finance")),
        meta("CURRENCY", "AUD", "EUR", Some("fixerio")),
    ];

    let mut filter = SecurityFilter::new();
    filter.currency = Some("aud".to_owned());
    let matched = app.get_securities(list, Some(filter));

    assert_eq!(1, matched.len());
    assert_eq!("VAS", matched[0].symbol);
}

/// A fetched observation lands in the flat file under the security's
/// journal alias, and a later one for the same security replaces it.
#[test]
fn test_record_quote() {
    let mut file = pricedb::price_flat_file::PriceFlatFile::default();
    let mut sec = SymbolMetadata::new();
    sec.namespace = Some("XETRA".to_owned());
    sec.symbol = "EL4X".to_owned();
    sec.ledger_symbol = Some("EL4X_DE".to_owned());

    let fetched = price("XETRA:EL4X", "2023-05-01", "", 12534, 100, "EUR");
    pricedb::record_quote(&mut file, &fetched, &sec).expect("recorded");

    assert_eq!(1, file.len());
    let stored = file.get("EL4X_DE").expect("stored under the alias");
    assert_eq!("2023-05-01", stored.date);
    assert_eq!("00:00:00", stored.time);
    assert_eq!(12534, stored.value);

    let newer = price("XETRA:EL4X", "2023-05-02", "10:00:00", 12600, 100, "EUR");
    pricedb::record_quote(&mut file, &newer, &sec).expect("recorded");

    assert_eq!(1, file.len());
    assert_eq!("2023-05-02", file.get("EL4X_DE").expect("replaced").date);
}

#[test]
fn test_record_quote_rejects_bad_date() {
    let mut file = pricedb::price_flat_file::PriceFlatFile::default();
    let sec = SymbolMetadata::new();
    let fetched = price("X", "01 May 2023", "", 1, 1, "EUR");

    let r = pricedb::record_quote(&mut file, &fetched, &sec);
    assert_eq!(Err(PriceDbError::Parse), r);
    assert_eq!(0, file.len());
}

#[test]
fn test_error_messages() {
    assert_eq!("currency mismatch for an existing price", PriceDbError::Conflict.message());
    assert_eq!("malformed price journal text", PriceDbError::Parse.message());
    assert_eq!("store statement failed", PriceDbError::Query.message());
    assert_eq!("no matching record", PriceDbError::NotFound.message());
}
