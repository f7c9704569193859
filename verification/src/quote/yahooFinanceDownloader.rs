//! The earlier cut of the chart-address builder, kept alongside the
//! reworked one: same namespace table, same address shape.

use vstd::prelude::*;
use crate::model::SecuritySymbol;
use crate::seqs::{find_first, lemma_find_first, lemma_find_first_at, lemma_find_first_none};
use crate::text::str_eq;

verus! {

/// The provider's market suffix for an exchange namespace: the mapped
/// suffix when the namespace is known, else the namespace itself.
pub open spec fn mapped_suffix(ns: Seq<(Seq<char>, Seq<char>)>, key: Seq<char>) -> Seq<char> {
    let k = find_first(ns, |p: (Seq<char>, Seq<char>)| p.0 == key);
    if k < 0 {
        key
    } else {
        ns[k].1
    }
}

/// The namespace table this downloader ships with.
pub open spec fn standard_namespaces() -> Seq<(Seq<char>, Seq<char>)> {
    seq![
        ("AMS"@, "AS"@),
        ("ASX"@, "AX"@),
        ("BATS"@, ""@),
        ("BVME"@, "MI"@),
        ("FWB"@, "F"@),
        ("LSE"@, "L"@),
        ("NASDAQ"@, ""@),
        ("NYSE"@, ""@),
        ("NYSEARCA"@, ""@),
        ("XETRA"@, "DE"@),
    ]
}

pub struct YahooFinanceDownloader {
    url: String,
    namespaces: Vec<(String, String)>,
}

impl YahooFinanceDownloader {
    /// The base chart address.
    pub closed spec fn url_spec(&self) -> Seq<char> {
        self.url@
    }

    /// The namespace-to-suffix table.
    pub closed spec fn namespaces_spec(&self) -> Seq<(Seq<char>, Seq<char>)> {
        self.namespaces@.map_values(|p: (String, String)| (p.0@, p.1@))
    }

    pub fn new() -> (r: Self)
        ensures
            r.url_spec() == "https://query1.finance.yahoo.com/v8/finance/chart/"@,
            r.namespaces_spec() == standard_namespaces(),
    {
        let mut namespaces: Vec<(String, String)> = Vec::new();
        namespaces.push(("AMS".to_owned(), "AS".to_owned()));
        namespaces.push(("ASX".to_owned(), "AX".to_owned()));
        namespaces.push(("BATS".to_owned(), "".to_owned()));
        namespaces.push(("BVME".to_owned(), "MI".to_owned()));
        namespaces.push(("FWB".to_owned(), "F".to_owned()));
        namespaces.push(("LSE".to_owned(), "L".to_owned()));
        namespaces.push(("NASDAQ".to_owned(), "".to_owned()));
        namespaces.push(("NYSE".to_owned(), "".to_owned()));
        namespaces.push(("NYSEARCA".to_owned(), "".to_owned()));
        namespaces.push(("XETRA".to_owned(), "DE".to_owned()));
        let r = YahooFinanceDownloader {
            url: "https://query1.finance.yahoo.com/v8/finance/chart/".to_owned(),
            namespaces,
        };
        proof {
            assert(r.namespaces_spec() =~= standard_namespaces());
        }
        r
    }

    /// The chart address of one symbol: the base, the mnemonic, and a dotted
    /// market suffix whenever the (mapped) namespace is non-empty.
    pub fn assemble_url(&self, symbol: &SecuritySymbol) -> (r: String)
        ensures
            ({
                let suffix = mapped_suffix(self.namespaces_spec(), symbol.namespace@);
                r@ == self.url_spec() + symbol.mnemonic@ + (if suffix.len() == 0 {
                    Seq::<char>::empty()
                } else {
                    seq!['.'] + suffix
                })
            }),
    {
        let ghost ns = self.namespaces_spec();
        let ghost pred = |p: (Seq<char>, Seq<char>)| p.0 == symbol.namespace@;
        let mut suffix: &String = &symbol.namespace;
        let mut i: usize = 0;
        let mut found = false;
        while i < self.namespaces.len()
            invariant_except_break
                0 <= i <= self.namespaces@.len(),
                ns == self.namespaces_spec(),
                pred == (|p: (Seq<char>, Seq<char>)| p.0 == symbol.namespace@),
                found == false,
                suffix@ == symbol.namespace@,
                forall|j: int| 0 <= j < i ==> !pred(#[trigger] ns[j]),
            ensures
                ns == self.namespaces_spec(),
                pred == (|p: (Seq<char>, Seq<char>)| p.0 == symbol.namespace@),
                found ==> find_first(ns, pred) >= 0 && suffix@ == ns[find_first(ns, pred)].1,
                !found ==> (forall|j: int| 0 <= j < ns.len() ==> !pred(#[trigger] ns[j]))
                    && suffix@ == symbol.namespace@,
            decreases self.namespaces@.len() - i,
        {
            if str_eq(self.namespaces[i].0.as_str(), symbol.namespace.as_str()) {
                suffix = &self.namespaces[i].1;
                found = true;
                proof {
                    assert(ns[i as int].0 == symbol.namespace@);
                    lemma_find_first_at(ns, pred, i as int);
                    assert(suffix@ == ns[i as int].1);
                }
                break;
            }
            i += 1;
        }
        proof {
            if !found {
                lemma_find_first_none(ns, pred);
            }
        }
        let mut url = self.url.clone();
        url.append(symbol.mnemonic.as_str());
        if !suffix.as_str().is_empty() {
            crate::text::push_char(&mut url, '.');
            url.append(suffix.as_str());
            proof {
                assert(url@ =~= self.url_spec() + symbol.mnemonic@ + (seq!['.'] + mapped_suffix(
                    ns,
                    symbol.namespace@,
                )));
            }
        } else {
            proof {
                assert(url@ =~= self.url_spec() + symbol.mnemonic@);
            }
        }
        url
    }
}

} // verus!
