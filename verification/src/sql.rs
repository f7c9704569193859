//! The dynamic-predicate query layer: each optional filter field folds into
//! one parameterized equality condition, so every statement is built from a
//! fixed text skeleton plus placeholders — injection-safe and byte-exact.

use vstd::prelude::*;
use crate::model::{Price, PriceFilter, PriceFilterView, PriceView, SecurityFilter, SecurityFilterView};
use crate::text::{strs_view, to_upper, upper_of};

verus! {

/// The price table and its columns, as statement identifiers.
#[derive(Debug, Clone, Copy, PartialEq, Eq, Structural)]
pub enum PriceSchema {
    Table,
    Id,
    Symbol,
    Date,
    Time,
    Value,
    Denom,
    Currency,
}

/// The security table and its columns, as statement identifiers.
#[derive(Debug, Clone, Copy, PartialEq, Eq, Structural)]
pub enum SecuritySchema {
    Table,
    Id,
    Namespace,
    Symbol,
    Updater,
    Currency,
    LedgerSymbol,
    Notes,
}

/// A bound statement parameter.
#[derive(Debug, PartialEq)]
pub enum SqlValue {
    Text(String),
    Int(i64),
}

/// The mathematical image of a parameter.
pub enum SqlValueView {
    Text(Seq<char>),
    Int(int),
}

impl View for SqlValue {
    type V = SqlValueView;

    open spec fn view(&self) -> SqlValueView {
        match self {
            SqlValue::Text(s) => SqlValueView::Text(s@),
            SqlValue::Int(i) => SqlValueView::Int(*i as int),
        }
    }
}

/// The images of a parameter list.
pub open spec fn vals_of(s: Seq<SqlValue>) -> Seq<SqlValueView> {
    s.map_values(|v: SqlValue| v@)
}

/// Conditions joined with AND.
pub open spec fn and_join(conds: Seq<Seq<char>>) -> Seq<char>
    decreases conds.len(),
{
    if conds.len() == 0 {
        Seq::empty()
    } else if conds.len() == 1 {
        conds[0]
    } else {
        and_join(conds.drop_last()) + " AND "@ + conds.last()
    }
}

/// The WHERE clause for a condition list; no conditions, no clause.
pub open spec fn where_clause(conds: Seq<Seq<char>>) -> Seq<char> {
    if conds.len() == 0 {
        Seq::empty()
    } else {
        " WHERE "@ + and_join(conds)
    }
}

/// Appends the WHERE clause of the given conditions to a statement base.
fn append_where(base: String, conds: &Vec<String>) -> (r: String)
    ensures
        r@ == base@ + where_clause(strs_view(conds@)),
{
    let ghost b0 = base@;
    let mut out = base;
    let ghost cs = strs_view(conds@);
    let mut i: usize = 0;
    while i < conds.len()
        invariant
            0 <= i <= conds@.len(),
            cs == strs_view(conds@),
            out@ == b0 + (if i == 0 {
                Seq::<char>::empty()
            } else {
                " WHERE "@ + and_join(cs.take(i as int))
            }),
        decreases conds@.len() - i,
    {
        if i == 0 {
            out.append(" WHERE ");
        } else {
            out.append(" AND ");
        }
        out.append(conds[i].as_str());
        proof {
            assert(cs.take(i + 1).drop_last() =~= cs.take(i as int));
            assert(cs.take(i + 1).last() == cs[i as int]);
            if i == 0 {
                assert(cs.take(1) =~= seq![cs[0]]);
                assert(and_join(cs.take(1)) == cs[0]);
            }
            assert(out@ =~= b0 + (" WHERE "@ + and_join(cs.take(i + 1))));
        }
        i += 1;
    }
    proof {
        assert(cs.take(cs.len() as int) =~= cs);
    }
    out
}

/// The condition texts a security filter folds into, in statement order.
pub open spec fn sec_conds(f: SecurityFilterView) -> Seq<Seq<char>> {
    (if f.agent is Some {
        seq!["\"updater\" = ?"@]
    } else {
        Seq::empty()
    }) + (if f.currency is Some {
        seq!["\"currency\" = ?"@]
    } else {
        Seq::empty()
    }) + (if f.exchange is Some {
        seq!["\"namespace\" = ?"@]
    } else {
        Seq::empty()
    }) + (if f.symbol is Some {
        seq!["\"symbol\" = ?"@]
    } else {
        Seq::empty()
    })
}

/// The parameters a security filter binds: the agent verbatim, the rest
/// uppercased.
pub open spec fn sec_params(f: SecurityFilterView) -> Seq<SqlValueView> {
    (match f.agent {
        Some(a) => seq![SqlValueView::Text(a)],
        None => Seq::empty(),
    }) + (match f.currency {
        Some(c) => seq![SqlValueView::Text(upper_of(c))],
        None => Seq::empty(),
    }) + (match f.exchange {
        Some(e) => seq![SqlValueView::Text(upper_of(e))],
        None => Seq::empty(),
    }) + (match f.symbol {
        Some(s) => seq![SqlValueView::Text(upper_of(s))],
        None => Seq::empty(),
    })
}

/// The SELECT over securities with a filter's predicate list.
pub open spec fn select_security_sql(f: SecurityFilterView) -> Seq<char> {
    "SELECT \"security\".\"id\", \"security\".\"namespace\", \"security\".\"symbol\", \"security\".\"updater\", \"security\".\"currency\", \"security\".\"ledger_symbol\", \"security\".\"notes\" FROM \"security\""@
        + where_clause(sec_conds(f))
}

/// Generates the SELECT statement with the given security filters.
pub fn generate_select_security_with_filter(filter: &SecurityFilter) -> (r: (String, Vec<SqlValue>))
    ensures
        r.0@ == select_security_sql(filter@),
        vals_of(r.1@) == sec_params(filter@),
{
    let mut conds: Vec<String> = Vec::new();
    let mut params: Vec<SqlValue> = Vec::new();
    match &filter.agent {
        Some(a) => {
            conds.push("\"updater\" = ?".to_owned());
            params.push(SqlValue::Text(a.clone()));
        },
        None => {},
    }
    match &filter.currency {
        Some(c) => {
            conds.push("\"currency\" = ?".to_owned());
            params.push(SqlValue::Text(to_upper(c.as_str())));
        },
        None => {},
    }
    match &filter.exchange {
        Some(e) => {
            conds.push("\"namespace\" = ?".to_owned());
            params.push(SqlValue::Text(to_upper(e.as_str())));
        },
        None => {},
    }
    match &filter.symbol {
        Some(s) => {
            conds.push("\"symbol\" = ?".to_owned());
            params.push(SqlValue::Text(to_upper(s.as_str())));
        },
        None => {},
    }
    proof {
        assert(strs_view(conds@) =~= sec_conds(filter@));
        assert(vals_of(params@) =~= sec_params(filter@));
    }
    let sql = append_where(
        "SELECT \"security\".\"id\", \"security\".\"namespace\", \"security\".\"symbol\", \"security\".\"updater\", \"security\".\"currency\", \"security\".\"ledger_symbol\", \"security\".\"notes\" FROM \"security\"".to_owned(),
        &conds,
    );
    (sql, params)
}

/// The condition texts a price filter folds into, in statement order.
pub open spec fn price_conds(f: PriceFilterView) -> Seq<Seq<char>> {
    (if f.symbol is Some {
        seq!["\"symbol\" = ?"@]
    } else {
        Seq::empty()
    }) + (if f.date is Some {
        seq!["\"date\" = ?"@]
    } else {
        Seq::empty()
    }) + (if f.time is Some {
        seq!["\"time\" = ?"@]
    } else {
        Seq::empty()
    })
}

/// The parameters a price filter binds, verbatim.
pub open spec fn price_params(f: PriceFilterView) -> Seq<SqlValueView> {
    (match f.symbol {
        Some(s) => seq![SqlValueView::Text(s)],
        None => Seq::empty(),
    }) + (match f.date {
        Some(d) => seq![SqlValueView::Text(d)],
        None => Seq::empty(),
    }) + (match f.time {
        Some(t) => seq![SqlValueView::Text(t)],
        None => Seq::empty(),
    })
}

/// The SELECT over prices with a filter's predicate list.
pub open spec fn select_price_sql(f: PriceFilterView) -> Seq<char> {
    "SELECT \"price\".\"symbol\", \"price\".\"id\", \"price\".\"date\", \"price\".\"time\", \"price\".\"value\", \"price\".\"denom\", \"price\".\"currency\" FROM \"price\""@
        + where_clause(price_conds(f))
}

/// Generates the SELECT statement with the given price filters.
pub fn generate_select_price_with_filter(filter: &PriceFilter) -> (r: (String, Vec<SqlValue>))
    ensures
        r.0@ == select_price_sql(filter@),
        vals_of(r.1@) == price_params(filter@),
{
    let mut conds: Vec<String> = Vec::new();
    let mut params: Vec<SqlValue> = Vec::new();
    match &filter.symbol {
        Some(s) => {
            conds.push("\"symbol\" = ?".to_owned());
            params.push(SqlValue::Text(s.clone()));
        },
        None => {},
    }
    match &filter.date {
        Some(d) => {
            conds.push("\"date\" = ?".to_owned());
            params.push(SqlValue::Text(d.clone()));
        },
        None => {},
    }
    match &filter.time {
        Some(t) => {
            conds.push("\"time\" = ?".to_owned());
            params.push(SqlValue::Text(t.clone()));
        },
        None => {},
    }
    proof {
        assert(strs_view(conds@) =~= price_conds(filter@));
        assert(vals_of(params@) =~= price_params(filter@));
    }
    let sql = append_where(
        "SELECT \"price\".\"symbol\", \"price\".\"id\", \"price\".\"date\", \"price\".\"time\", \"price\".\"value\", \"price\".\"denom\", \"price\".\"currency\" FROM \"price\"".to_owned(),
        &conds,
    );
    (sql, params)
}

/// The parameters an INSERT binds: the row's fields in column order.
pub open spec fn insert_price_params(p: PriceView) -> Seq<SqlValueView> {
    seq![
        SqlValueView::Text(p.symbol),
        SqlValueView::Text(p.date),
        SqlValueView::Text(p.time),
        SqlValueView::Int(p.value),
        SqlValueView::Int(p.denom),
        SqlValueView::Text(p.currency),
    ]
}

/// Generates the INSERT statement for one price row.
pub fn generate_insert_price(price: &Price) -> (r: (String, Vec<SqlValue>))
    ensures
        r.0@
            == "INSERT INTO \"price\" (\"symbol\", \"date\", \"time\", \"value\", \"denom\", \"currency\") VALUES (?, ?, ?, ?, ?, ?)"@,
        vals_of(r.1@) == insert_price_params(price@),
{
    let sql =
        "INSERT INTO \"price\" (\"symbol\", \"date\", \"time\", \"value\", \"denom\", \"currency\") VALUES (?, ?, ?, ?, ?, ?)".to_owned();
    let mut params: Vec<SqlValue> = Vec::new();
    params.push(SqlValue::Text(price.symbol.clone()));
    params.push(SqlValue::Text(price.date.clone()));
    params.push(SqlValue::Text(price.time.clone()));
    params.push(SqlValue::Int(price.value));
    params.push(SqlValue::Int(price.denom));
    params.push(SqlValue::Text(price.currency.clone()));
    proof {
        assert(vals_of(params@) =~= insert_price_params(price@));
    }
    (sql, params)
}

/// Assignments joined with commas.
pub open spec fn comma_join(parts: Seq<Seq<char>>) -> Seq<char>
    decreases parts.len(),
{
    if parts.len() == 0 {
        Seq::empty()
    } else if parts.len() == 1 {
        parts[0]
    } else {
        comma_join(parts.drop_last()) + ", "@ + parts.last()
    }
}

/// The assignment texts an UPDATE writes: every non-default field of the
/// incoming record, in column order.
pub open spec fn update_assigns(p: PriceView) -> Seq<Seq<char>> {
    (if p.symbol.len() > 0 {
        seq!["\"symbol\" = ?"@]
    } else {
        Seq::empty()
    }) + (if p.date.len() > 0 {
        seq!["\"date\" = ?"@]
    } else {
        Seq::empty()
    }) + (if p.time.len() > 0 {
        seq!["\"time\" = ?"@]
    } else {
        Seq::empty()
    }) + (if p.value != 0 {
        seq!["\"value\" = ?"@]
    } else {
        Seq::empty()
    }) + (if p.denom != 0 {
        seq!["\"denom\" = ?"@]
    } else {
        Seq::empty()
    }) + (if p.currency.len() > 0 {
        seq!["\"currency\" = ?"@]
    } else {
        Seq::empty()
    })
}

/// The parameters an UPDATE binds: the written values, then the row id.
pub open spec fn update_params(p: PriceView) -> Seq<SqlValueView> {
    (if p.symbol.len() > 0 {
        seq![SqlValueView::Text(p.symbol)]
    } else {
        Seq::empty()
    }) + (if p.date.len() > 0 {
        seq![SqlValueView::Text(p.date)]
    } else {
        Seq::empty()
    }) + (if p.time.len() > 0 {
        seq![SqlValueView::Text(p.time)]
    } else {
        Seq::empty()
    }) + (if p.value != 0 {
        seq![SqlValueView::Int(p.value)]
    } else {
        Seq::empty()
    }) + (if p.denom != 0 {
        seq![SqlValueView::Int(p.denom)]
    } else {
        Seq::empty()
    }) + (if p.currency.len() > 0 {
        seq![SqlValueView::Text(p.currency)]
    } else {
        Seq::empty()
    }) + seq![SqlValueView::Int(p.id)]
}

/// The UPDATE statement text for one price row, keyed by id.
pub open spec fn update_price_sql(p: PriceView) -> Seq<char> {
    "UPDATE \"price\" SET "@ + comma_join(update_assigns(p)) + " WHERE \"id\" = ?"@
}

/// Appends a comma-joined assignment list to a statement base.
fn append_assigns(base: String, assigns: &Vec<String>) -> (r: String)
    ensures
        r@ == base@ + comma_join(strs_view(assigns@)),
{
    let ghost b0 = base@;
    let mut out = base;
    let ghost parts = strs_view(assigns@);
    let mut i: usize = 0;
    proof {
        assert(parts.take(0) =~= Seq::<Seq<char>>::empty());
    }
    while i < assigns.len()
        invariant
            0 <= i <= assigns@.len(),
            parts == strs_view(assigns@),
            out@ == b0 + comma_join(parts.take(i as int)),
        decreases assigns@.len() - i,
    {
        if i > 0 {
            out.append(", ");
        }
        out.append(assigns[i].as_str());
        proof {
            assert(parts.take(i + 1).drop_last() =~= parts.take(i as int));
            assert(parts.take(i + 1).last() == parts[i as int]);
            if i == 0 {
                assert(parts.take(1) =~= seq![parts[0]]);
                assert(comma_join(parts.take(1)) == parts[0]);
            }
            assert(out@ =~= b0 + comma_join(parts.take(i + 1)));
        }
        i += 1;
    }
    proof {
        assert(parts.take(parts.len() as int) =~= parts);
    }
    out
}

/// Generates the UPDATE statement for one price row: only the record's
/// non-default fields are written, and the row is selected by its id.
#[verifier::rlimit(100)]
pub fn generate_update_price(price: &Price) -> (r: (String, Vec<SqlValue>))
    ensures
        r.0@ == update_price_sql(price@),
        vals_of(r.1@) == update_params(price@),
{
    let mut assigns: Vec<String> = Vec::new();
    let mut params: Vec<SqlValue> = Vec::new();
    if !price.symbol.as_str().is_empty() {
        assigns.push("\"symbol\" = ?".to_owned());
        params.push(SqlValue::Text(price.symbol.clone()));
    }
    if !price.date.as_str().is_empty() {
        assigns.push("\"date\" = ?".to_owned());
        params.push(SqlValue::Text(price.date.clone()));
    }
    if !price.time.as_str().is_empty() {
        assigns.push("\"time\" = ?".to_owned());
        params.push(SqlValue::Text(price.time.clone()));
    }
    if price.value != 0 {
        assigns.push("\"value\" = ?".to_owned());
        params.push(SqlValue::Int(price.value));
    }
    if price.denom != 0 {
        assigns.push("\"denom\" = ?".to_owned());
        params.push(SqlValue::Int(price.denom));
    }
    if !price.currency.as_str().is_empty() {
        assigns.push("\"currency\" = ?".to_owned());
        params.push(SqlValue::Text(price.currency.clone()));
    }
    params.push(SqlValue::Int(price.id));
    proof {
        assert(strs_view(assigns@) =~= update_assigns(price@));
        assert(vals_of(params@) =~= update_params(price@));
    }
    let mut sql = append_assigns("UPDATE \"price\" SET ".to_owned(), &assigns);
    sql.append(" WHERE \"id\" = ?");
    (sql, params)
}

/// Generates the DELETE statement for one price row id.
pub fn generate_delete_price(id: i64) -> (r: (String, Vec<SqlValue>))
    ensures
        r.0@ == "DELETE FROM \"price\" WHERE \"id\" = ?"@,
        vals_of(r.1@) == seq![SqlValueView::Int(id as int)],
{
    let sql = "DELETE FROM \"price\" WHERE \"id\" = ?".to_owned();
    let mut params: Vec<SqlValue> = Vec::new();
    params.push(SqlValue::Int(id));
    proof {
        assert(vals_of(params@) =~= seq![SqlValueView::Int(id as int)]);
    }
    (sql, params)
}

/// Generates the SELECT of all securities that have linked price rows.
pub fn generate_select_securities_having_prices() -> (r: (String, Vec<SqlValue>))
    ensures
        r.0@
            == "SELECT \"security\".\"id\", \"security\".\"namespace\", \"security\".\"symbol\", \"security\".\"updater\", \"security\".\"currency\", \"security\".\"ledger_symbol\", \"security\".\"notes\" FROM \"security\" INNER JOIN \"price\" ON \"security\".\"id\" = \"price\".\"security_id\" ORDER BY \"security\".\"namespace\" ASC, \"security\".\"symbol\" ASC"@,
        r.1@.len() == 0,
{
    let sql =
        "SELECT \"security\".\"id\", \"security\".\"namespace\", \"security\".\"symbol\", \"security\".\"updater\", \"security\".\"currency\", \"security\".\"ledger_symbol\", \"security\".\"notes\" FROM \"security\" INNER JOIN \"price\" ON \"security\".\"id\" = \"price\".\"security_id\" ORDER BY \"security\".\"namespace\" ASC, \"security\".\"symbol\" ASC".to_owned();
    let params: Vec<SqlValue> = Vec::new();
    (sql, params)
}

/// The two orders the joined price-and-symbol listing can come in.
#[derive(Debug, Clone, Copy, PartialEq, Eq, Structural)]
pub enum PriceSymbolOrder {
    Symbol,
    DateTime,
}

/// Generates the SELECT of all prices joined with their symbols, in the
/// requested order.
pub fn generate_select_prices_symbols(order: PriceSymbolOrder) -> (r: String)
    ensures
        order is Symbol ==> r@ == "SELECT price.id, security_id, date, time, value, denom, price.currency, namespace, symbol FROM price INNER JOIN security ON price.security_id = security.id ORDER BY namespace, symbol"@,
        order is DateTime ==> r@ == "SELECT price.id, security_id, date, time, value, denom, price.currency, namespace, symbol FROM price INNER JOIN security ON price.security_id = security.id ORDER BY date, time"@,
{
    let mut sql =
        "SELECT price.id, security_id, date, time, value, denom, price.currency, namespace, symbol FROM price INNER JOIN security ON price.security_id = security.id ".to_owned();
    let order_str = match order {
        PriceSymbolOrder::Symbol => "ORDER BY namespace, symbol",
        PriceSymbolOrder::DateTime => "ORDER BY date, time",
    };
    sql.append(order_str);
    proof {
        if order is Symbol {
            assert(sql@ =~= "SELECT price.id, security_id, date, time, value, denom, price.currency, namespace, symbol FROM price INNER JOIN security ON price.security_id = security.id ORDER BY namespace, symbol"@)
                by {
                reveal_strlit(
                    "SELECT price.id, security_id, date, time, value, denom, price.currency, namespace, symbol FROM price INNER JOIN security ON price.security_id = security.id ",
                );
                reveal_strlit("ORDER BY namespace, symbol");
                reveal_strlit(
                    "SELECT price.id, security_id, date, time, value, denom, price.currency, namespace, symbol FROM price INNER JOIN security ON price.security_id = security.id ORDER BY namespace, symbol",
                );
            }
        } else {
            assert(sql@ =~= "SELECT price.id, security_id, date, time, value, denom, price.currency, namespace, symbol FROM price INNER JOIN security ON price.security_id = security.id ORDER BY date, time"@)
                by {
                reveal_strlit(
                    "SELECT price.id, security_id, date, time, value, denom, price.currency, namespace, symbol FROM price INNER JOIN security ON price.security_id = security.id ",
                );
                reveal_strlit("ORDER BY date, time");
                reveal_strlit(
                    "SELECT price.id, security_id, date, time, value, denom, price.currency, namespace, symbol FROM price INNER JOIN security ON price.security_id = security.id ORDER BY date, time",
                );
            }
        }
    }
    sql
}

/// The statement that drops the price table if it exists.
pub fn get_drop_price() -> (r: String)
    ensures
        r@ == "DROP TABLE IF EXISTS \"price\""@,
{
    "DROP TABLE IF EXISTS \"price\"".to_owned()
}

/// The statement that drops the security table if it exists.
pub fn get_drop_security() -> (r: String)
    ensures
        r@ == "DROP TABLE IF EXISTS \"security\""@,
{
    "DROP TABLE IF EXISTS \"security\"".to_owned()
}

/// The schema of the price table.
pub fn create_price() -> (r: String)
    ensures
        r@
            == "CREATE TABLE IF NOT EXISTS \"price\" ( \"symbol\" text, \"id\" integer NOT NULL PRIMARY KEY AUTOINCREMENT, \"date\" text, \"time\" text NULL, \"value\" integer, \"denom\" integer, \"currency\" text )"@,
{
    "CREATE TABLE IF NOT EXISTS \"price\" ( \"symbol\" text, \"id\" integer NOT NULL PRIMARY KEY AUTOINCREMENT, \"date\" text, \"time\" text NULL, \"value\" integer, \"denom\" integer, \"currency\" text )".to_owned()
}

/// The schema of the security table.
pub fn create_security() -> (r: String)
    ensures
        r@
            == "CREATE TABLE IF NOT EXISTS \"security\" ( \"id\" integer NOT NULL PRIMARY KEY AUTOINCREMENT, \"namespace\" text NULL, \"symbol\" text, \"updater\" text NULL, \"currency\" text NULL, \"ledger_symbol\" text NULL, \"notes\" text NULL )"@,
{
    "CREATE TABLE IF NOT EXISTS \"security\" ( \"id\" integer NOT NULL PRIMARY KEY AUTOINCREMENT, \"namespace\" text NULL, \"symbol\" text, \"updater\" text NULL, \"currency\" text NULL, \"ledger_symbol\" text NULL, \"notes\" text NULL )".to_owned()
}

/// The price columns a row query reads, in order.
pub fn get_price_columns() -> (r: Vec<(PriceSchema, PriceSchema)>)
    ensures
        r@ == seq![
            (PriceSchema::Table, PriceSchema::Symbol),
            (PriceSchema::Table, PriceSchema::Id),
            (PriceSchema::Table, PriceSchema::Date),
            (PriceSchema::Table, PriceSchema::Time),
            (PriceSchema::Table, PriceSchema::Value),
            (PriceSchema::Table, PriceSchema::Denom),
            (PriceSchema::Table, PriceSchema::Currency),
        ],
{
    let mut r: Vec<(PriceSchema, PriceSchema)> = Vec::new();
    r.push((PriceSchema::Table, PriceSchema::Symbol));
    r.push((PriceSchema::Table, PriceSchema::Id));
    r.push((PriceSchema::Table, PriceSchema::Date));
    r.push((PriceSchema::Table, PriceSchema::Time));
    r.push((PriceSchema::Table, PriceSchema::Value));
    r.push((PriceSchema::Table, PriceSchema::Denom));
    r.push((PriceSchema::Table, PriceSchema::Currency));
    proof {
        assert(r@ =~= seq![
            (PriceSchema::Table, PriceSchema::Symbol),
            (PriceSchema::Table, PriceSchema::Id),
            (PriceSchema::Table, PriceSchema::Date),
            (PriceSchema::Table, PriceSchema::Time),
            (PriceSchema::Table, PriceSchema::Value),
            (PriceSchema::Table, PriceSchema::Denom),
            (PriceSchema::Table, PriceSchema::Currency),
        ]);
    }
    r
}

/// The columns a plain security query names for each present filter field,
/// in statement order.
pub fn get_query_parameters(
    currency: &Option<String>,
    agent: &Option<String>,
    mnemonic: &Option<String>,
    exchange: &Option<String>,
) -> (r: Vec<String>)
    ensures
        strs_view(r@) == (if currency is Some {
            seq!["currency"@]
        } else {
            Seq::empty()
        }) + (if agent is Some {
            seq!["updater"@]
        } else {
            Seq::empty()
        }) + (if exchange is Some {
            seq!["namespace"@]
        } else {
            Seq::empty()
        }) + (if mnemonic is Some {
            seq!["symbol"@]
        } else {
            Seq::empty()
        }),
{
    let mut columns: Vec<String> = Vec::new();
    if currency.is_some() {
        columns.push("currency".to_owned());
    }
    if agent.is_some() {
        columns.push("updater".to_owned());
    }
    if exchange.is_some() {
        columns.push("namespace".to_owned());
    }
    if mnemonic.is_some() {
        columns.push("symbol".to_owned());
    }
    proof {
        assert(strs_view(columns@) =~= (if currency is Some {
            seq!["currency"@]
        } else {
            Seq::<Seq<char>>::empty()
        }) + (if agent is Some {
            seq!["updater"@]
        } else {
            Seq::empty()
        }) + (if exchange is Some {
            seq!["namespace"@]
        } else {
            Seq::empty()
        }) + (if mnemonic is Some {
            seq!["symbol"@]
        } else {
            Seq::empty()
        }));
    }
    columns
}

/// The plain-text condition list of a legacy security query.
pub open spec fn plain_conds(columns: Seq<Seq<char>>) -> Seq<char>
    decreases columns.len(),
{
    if columns.len() == 0 {
        Seq::empty()
    } else if columns.len() == 1 {
        columns[0] + " = ?"@
    } else {
        plain_conds(columns.drop_last()) + " and "@ + columns.last() + " = ?"@
    }
}

/// Assembles a plain SELECT over securities from a column list: one
/// placeholder condition per column.
pub fn assemble_select_query(columns: Vec<String>) -> (r: String)
    ensures
        columns@.len() == 0 ==> r@ == "select * from security"@,
        columns@.len() > 0 ==> r@ == "select * from security where "@ + plain_conds(
            strs_view(columns@),
        ),
{
    let mut sql = "select * from security".to_owned();
    if columns.len() == 0 {
        return sql;
    }
    sql.append(" where ");
    let ghost cs = strs_view(columns@);
    let mut i: usize = 0;
    while i < columns.len()
        invariant
            0 <= i <= columns@.len(),
            cs == strs_view(columns@),
            sql@ == "select * from security"@ + " where "@ + (if i == 0 {
                Seq::<char>::empty()
            } else {
                plain_conds(cs.take(i as int))
            }),
        decreases columns@.len() - i,
    {
        if i > 0 {
            sql.append(" and ");
        }
        sql.append(columns[i].as_str());
        sql.append(" = ?");
        proof {
            assert(cs.take(i + 1).drop_last() =~= cs.take(i as int));
            assert(cs.take(i + 1).last() == cs[i as int]);
            if i == 0 {
                assert(cs.take(1) =~= seq![cs[0]]);
                assert(plain_conds(cs.take(1)) == cs[0] + " = ?"@);
            }
            assert(sql@ =~= "select * from security"@ + " where "@ + plain_conds(cs.take(i + 1)));
        }
        i += 1;
    }
    proof {
        assert(cs.take(cs.len() as int) =~= cs);
        reveal_strlit("select * from security");
        reveal_strlit(" where ");
        reveal_strlit("select * from security where ");
        assert("select * from security"@ + " where "@ =~= "select * from security where "@);
    }
    sql
}

} // verus!
