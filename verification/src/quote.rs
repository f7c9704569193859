//! Quote fetching support: the request state a price download is configured
//! with, and the choice of download agent. The network transfer itself is an
//! external collaborator; the engine only depends on the observation shape
//! it hands back.

#[allow(non_snake_case)]
pub mod yahooFinanceDownloader;
pub mod fixerio;
pub mod vanguard_au;
pub mod vanguard_au_2023_detail;
pub mod yahoo_finance_downloader;

use vstd::prelude::*;
use crate::model::opt_view;
use crate::text::{str_eq, to_upper, upper_of};

verus! {

/// The download agents the engine can be pointed at.
#[derive(Debug, Clone, Copy, PartialEq, Eq, Structural)]
pub enum DownloaderKind {
    YahooFinance,
    Fixerio,
    VanguardAu,
}

/// A configured quote request: which symbols, from which source, in which
/// currency.
#[derive(Debug)]
pub struct Quote {
    pub symbol: Option<String>,
    pub exchange: Option<String>,
    pub source: Option<String>,
    pub currency: Option<String>,
}

impl Quote {
    pub fn new() -> (r: Self)
        ensures
            opt_view(r.symbol) is None,
            opt_view(r.exchange) is None,
            opt_view(r.source) is None,
            opt_view(r.currency) is None,
    {
        Quote { symbol: None, exchange: None, source: None, currency: None }
    }

    /// Sets the quote currency, normalized to uppercase.
    pub fn set_currency(&mut self, currency: &str)
        ensures
            opt_view(final(self).currency) == Some(upper_of(currency@)),
            final(self).symbol == old(self).symbol,
            final(self).exchange == old(self).exchange,
            final(self).source == old(self).source,
    {
        self.currency = Some(to_upper(currency));
    }

    /// Sets the data source, verbatim.
    pub fn set_source(&mut self, source: &str)
        ensures
            opt_view(final(self).source) == Some(source@),
            final(self).symbol == old(self).symbol,
            final(self).exchange == old(self).exchange,
            final(self).currency == old(self).currency,
    {
        self.source = Some(source.to_owned());
    }

    /// The download agent this request names. The source must be one of the
    /// known agent names; anything else has no agent.
    pub fn get_downloader(&self) -> (r: DownloaderKind)
        requires
            opt_view(self.source) == Some("yahoo_finance"@) || opt_view(self.source) == Some(
                "fixerio"@,
            ) || opt_view(self.source) == Some("vanguard_au"@),
        ensures
            opt_view(self.source) == Some("yahoo_finance"@) ==> r == DownloaderKind::YahooFinance,
            opt_view(self.source) == Some("fixerio"@) ==> r == DownloaderKind::Fixerio,
            opt_view(self.source) == Some("vanguard_au"@) ==> r == DownloaderKind::VanguardAu,
    {
        proof {
            broadcast use vstd::string::group_string_axioms;

            reveal_strlit("yahoo_finance");
            reveal_strlit("fixerio");
            reveal_strlit("vanguard_au");
            assert("yahoo_finance"@.len() == 13);
            assert("fixerio"@.len() == 7);
            assert("vanguard_au"@.len() == 11);
        }
        match &self.source {
            Some(s) => {
                if str_eq(s.as_str(), "yahoo_finance") {
                    DownloaderKind::YahooFinance
                } else if str_eq(s.as_str(), "fixerio") {
                    DownloaderKind::Fixerio
                } else {
                    proof {
                        assert(s@ == "vanguard_au"@);
                    }
                    DownloaderKind::VanguardAu
                }
            },
            None => {
                proof {
                    assert(false);
                }
                DownloaderKind::YahooFinance
            },
        }
    }
}

} // verus!
