//! The current retail-fund downloader: fund addresses from the fund table,
//! and exact parsing of the plain `(date, price, currency)` triple the fund
//! detail endpoint hands back. The transfer itself stays with the
//! surrounding tooling.

use vstd::prelude::*;
use crate::decimal::{
    decimal_ok, decimal_scale, decimal_val, parse_decimal,
};
use crate::datetime::valid_date;
use crate::digits::pow10;
use crate::model::{Price, PriceDbError, SecuritySymbol};
use crate::quote::vanguard_au::standard_funds;
use crate::seqs::{find_first, lemma_find_first, lemma_find_first_at, lemma_find_first_none};
use crate::text::str_eq;

verus! {

pub struct VanguardAu3Downloader {
    funds_map: Vec<(String, String)>,
}

impl VanguardAu3Downloader {
    /// The fund table this downloader ships with.
    pub closed spec fn funds_spec(&self) -> Seq<(Seq<char>, Seq<char>)> {
        self.funds_map@.map_values(|p: (String, String)| (p.0@, p.1@))
    }

    pub fn new() -> (r: Self)
        ensures
            r.funds_spec() == standard_funds(),
    {
        let mut funds_map: Vec<(String, String)> = Vec::new();
        funds_map.push(("VANGUARD:BOND".to_owned(), "8123".to_owned()));
        funds_map.push(("VANGUARD:HINT".to_owned(), "8146".to_owned()));
        funds_map.push(("VANGUARD:PROP".to_owned(), "8147".to_owned()));
        funds_map.push(("VANGUARD:HY".to_owned(), "8148".to_owned()));
        let r = VanguardAu3Downloader { funds_map };
        proof {
            assert(r.funds_spec() =~= standard_funds());
        }
        r
    }

    /// The price-listing address of one fund. Only symbols of the fund table
    /// are handled by this downloader.
    pub fn get_url(&self, symbol: &SecuritySymbol) -> (r: String)
        requires
            find_first(
                self.funds_spec(),
                |p: (Seq<char>, Seq<char>)| p.0 == symbol.namespace@ + seq![':']
                    + symbol.mnemonic@,
            ) >= 0,
        ensures
            ({
                let k = find_first(
                    self.funds_spec(),
                    |p: (Seq<char>, Seq<char>)| p.0 == symbol.namespace@ + seq![':']
                        + symbol.mnemonic@,
                );
                r@ == "https://www.vanguard.com.au/personal/api/products/personal/fund/"@
                    + self.funds_spec()[k].1 + "/prices?limit=-1"@
            }),
    {
        let ghost fs = self.funds_spec();
        let ghost pred = |p: (Seq<char>, Seq<char>)| p.0 == symbol.namespace@ + seq![':']
            + symbol.mnemonic@;
        let sec_symbol = symbol.display_string();
        let mut i: usize = 0;
        while i < self.funds_map.len()
            invariant
                0 <= i <= self.funds_map@.len(),
                fs == self.funds_spec(),
                pred == (|p: (Seq<char>, Seq<char>)| p.0 == symbol.namespace@ + seq![':']
                    + symbol.mnemonic@),
                sec_symbol@ == symbol.namespace@ + seq![':'] + symbol.mnemonic@,
                find_first(fs, pred) >= 0,
                forall|j: int| 0 <= j < i ==> !pred(#[trigger] fs[j]),
            decreases self.funds_map@.len() - i,
        {
            if str_eq(self.funds_map[i].0.as_str(), sec_symbol.as_str()) {
                proof {
                    assert(fs[i as int].0 == sec_symbol@);
                    lemma_find_first_at(fs, pred, i as int);
                }
                let mut out: String =
                    "https://www.vanguard.com.au/personal/api/products/personal/fund/".to_owned();
                out.append(self.funds_map[i].1.as_str());
                out.append("/prices?limit=-1");
                proof {
                    assert(out@
                        =~= "https://www.vanguard.com.au/personal/api/products/personal/fund/"@
                        + fs[i as int].1 + "/prices?limit=-1"@);
                }
                return out;
            }
            i += 1;
        }
        proof {
            lemma_find_first_none(fs, pred);
            assert(false);
        }
        String::new()
    }

    /// Turns the plain `(date, price, currency)` triple of one listing entry
    /// into a price observation: the date must be a real calendar date and
    /// the price exact decimal text within machine range.
    pub fn parse_price(&self, date: String, price: String, currency: String) -> (r: Result<
        Price,
        PriceDbError,
    >)
        ensures
            match r {
                Ok(p) => {
                    &&& valid_date(date@)
                    &&& decimal_ok(price@)
                    &&& p@.date == date@
                    &&& p@.value == decimal_val(price@)
                    &&& p@.denom == pow10(decimal_scale(price@))
                    &&& p@.currency == currency@
                    &&& p@.symbol.len() == 0
                    &&& p@.time.len() == 0
                },
                Err(e) => e == PriceDbError::Parse && (!valid_date(date@) || !decimal_ok(price@)
                    || decimal_scale(price@) > 18 || decimal_val(price@) > i64::MAX || decimal_val(
                    price@,
                ) < i64::MIN),
            },
    {
        if crate::datetime::parse_date(date.as_str()).is_none() {
            return Err(PriceDbError::Parse);
        }
        match parse_decimal(price.as_str()) {
            None => Err(PriceDbError::Parse),
            Some((v, d)) => Ok(
                Price {
                    symbol: String::new(),
                    id: 0,
                    date,
                    time: String::new(),
                    value: v,
                    denom: d,
                    currency,
                },
            ),
        }
    }
}

} // verus!
