//! Configuration definition: paths and provider credentials supplied by the
//! surrounding tooling, opaque to the engine.

use vstd::prelude::*;

verus! {

/// The configuration file schema.
#[derive(Debug)]
pub struct PriceDbConfig {
    /// The full path to the price database file.
    pub price_database_path: String,
    pub alphavantage_api_key: String,
    pub fixerio_api_key: String,
    /// The full path to the file where the prices will be exported.
    pub prices_path: String,
    pub symbols_path: String,
}

impl Clone for PriceDbConfig {
    fn clone(&self) -> (r: Self)
        ensures
            r.price_database_path@ == self.price_database_path@,
            r.alphavantage_api_key@ == self.alphavantage_api_key@,
            r.fixerio_api_key@ == self.fixerio_api_key@,
            r.prices_path@ == self.prices_path@,
            r.symbols_path@ == self.symbols_path@,
    {
        PriceDbConfig {
            price_database_path: self.price_database_path.clone(),
            alphavantage_api_key: self.alphavantage_api_key.clone(),
            fixerio_api_key: self.fixerio_api_key.clone(),
            prices_path: self.prices_path.clone(),
            symbols_path: self.symbols_path.clone(),
        }
    }
}

impl Default for PriceDbConfig {
    /// The defaults: a temporary in-memory database and empty paths.
    fn default() -> (r: Self)
        ensures
            r.price_database_path@ == ":memory:"@,
            r.alphavantage_api_key@.len() == 0,
            r.fixerio_api_key@.len() == 0,
            r.prices_path@.len() == 0,
            r.symbols_path@.len() == 0,
    {
        PriceDbConfig {
            price_database_path: ":memory:".to_owned(),
            alphavantage_api_key: String::new(),
            fixerio_api_key: String::new(),
            prices_path: String::new(),
            symbols_path: String::new(),
        }
    }
}

} // verus!
