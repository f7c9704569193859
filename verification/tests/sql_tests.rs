use pricedb::model::{Price, SecurityFilter};
use pricedb::sql::{
    generate_delete_price, generate_insert_price, generate_select_prices_symbols,
    generate_select_securities_having_prices, generate_select_security_with_filter,
    generate_update_price, get_drop_price, get_price_columns, get_query_parameters,
    assemble_select_query, PriceSchema, PriceSymbolOrder, SqlValue,
};

fn create_dummy_price() -> Price {
    Price {
        symbol: "".to_owned(),
        id: 13,
        date: "2022-12-07".to_owned(),
        time: "12:00:01".to_owned(),
        value: 12345,
        denom: 100,
        currency: "EUR".to_owned(),
    }
}

#[test]
fn test_sec_query_wo_params() {
    let filter = SecurityFilter { currency: None, agent: None, exchange: None, symbol: None };
    let (sql, values) = generate_select_security_with_filter(&filter);

    let expected = r#"SELECT "security"."id", "security"."namespace", "security"."symbol", "security"."updater", "security"."currency", "security"."ledger_symbol", "security"."notes" FROM "security""#;
    assert_eq!(expected, sql);

    // There are no parameters.
    assert!(values.len() == 0);
}

#[test]
fn test_sec_query_w_params() {
    let filter = SecurityFilter {
        currency: Some("AUD".to_owned()),
        agent: None,
        exchange: None,
        symbol: None,
    };
    let (sql, values) = generate_select_security_with_filter(&filter);

    println!("{:?}", values);

    let expected = r#"SELECT "security"."id", "security"."namespace", "security"."symbol", "security"."updater", "security"."currency", "security"."ledger_symbol", "security"."notes" FROM "security" WHERE "currency" = ?"#;
    assert_eq!(expected, sql);
    let exp_val = SqlValue::Text("AUD".to_owned());
    assert_eq!(exp_val, values[0]);
}

#[test]
fn test_sec_query_lowercase_currency_is_uppercased() {
    let filter = SecurityFilter {
        currency: Some("aud".to_owned()),
        agent: None,
        exchange: None,
        symbol: None,
    };
    let (_sql, values) = generate_select_security_with_filter(&filter);

    assert_eq!(SqlValue::Text("AUD".to_owned()), values[0]);
}

#[test]
fn test_price_insert_statement() {
    let new_price = Price {
        symbol: "TEST:TEST".to_owned(),
        id: 0,
        date: "2022-12-01".to_string(),
        time: Price::default_time(),
        value: 100,
        denom: 10,
        currency: "AUD".to_string(),
    };

    let (sql, values) = generate_insert_price(&new_price);

    let expected = r#"INSERT INTO "price" ("symbol", "date", "time", "value", "denom", "currency") VALUES (?, ?, ?, ?, ?, ?)"#;
    assert_eq!(expected, sql);

    // Assert parameters

    assert_eq!(values[0], SqlValue::Text("TEST:TEST".to_string()));
    assert_eq!(values[1], SqlValue::Text("2022-12-01".to_string()));
    assert_eq!(values[2], SqlValue::Text("00:00:00".to_owned()));
    assert_eq!(values[3], SqlValue::Int(100));
    assert_eq!(values[4], SqlValue::Int(10));
    assert_eq!(values[5], SqlValue::Text("AUD".to_string()));
}

#[test]
fn test_gen_update_price() {
    let price = create_dummy_price();

    let (sql, params) = generate_update_price(&price);

    println!("update: {sql:?}");
    println!("{params:?}");

    assert_eq!(
        sql,
        r#"UPDATE "price" SET "date" = ?, "time" = ?, "value" = ?, "denom" = ?, "currency" = ? WHERE "id" = ?"#
    );

    // time
    let actual_time = &params[1];
    assert_eq!(*actual_time, SqlValue::Text(price.time));

    // currency
    let actual_currency = &params[4];
    assert_eq!(*actual_currency, SqlValue::Text(price.currency));
}

#[test]
fn test_gen_delete_price() {
    let price = create_dummy_price();

    let (sql, values) = generate_delete_price(price.id);

    assert_eq!(sql, r#"DELETE FROM "price" WHERE "id" = ?"#);

    assert!(values.len() == 1);

    assert_eq!(values[0], SqlValue::Int(13));
}

#[test]
fn test_drop_price() {
    let actual = get_drop_price();

    assert_eq!(r#"DROP TABLE IF EXISTS "price""#, actual);
}

#[test]
fn test_select_securities_having_prices() {
    let (sql, values) = generate_select_securities_having_prices();

    assert_eq!(
        r#"SELECT "security"."id", "security"."namespace", "security"."symbol", "security"."updater", "security"."currency", "security"."ledger_symbol", "security"."notes" FROM "security" INNER JOIN "price" ON "security"."id" = "price"."security_id" ORDER BY "security"."namespace" ASC, "security"."symbol" ASC"#,
        sql
    );
    assert!(values.len() == 0);
}

#[test]
fn test_select_prices_symbols() {
    let actual = generate_select_prices_symbols(PriceSymbolOrder::Symbol);
    assert_eq!(
        "SELECT price.id, security_id, date, time, value, denom, price.currency, namespace, symbol FROM price INNER JOIN security ON price.security_id = security.id ORDER BY namespace, symbol",
        actual
    );
}

#[test]
fn test_price_columns() {
    let cols = get_price_columns();
    assert_eq!(7, cols.len());
    assert_eq!((PriceSchema::Table, PriceSchema::Symbol), cols[0]);
    assert_eq!((PriceSchema::Table, PriceSchema::Currency), cols[6]);
}

#[test]
fn test_assemble_select_query_plain() {
    let columns = get_query_parameters(&Some("EUR".to_owned()), &None, &None, &None);
    let sql = assemble_select_query(columns);
    assert_eq!("select * from security where currency = ?", sql);

    let no_columns = get_query_parameters(&None, &None, &None, &None);
    let all = assemble_select_query(no_columns);
    assert_eq!("select * from security", all);
}
