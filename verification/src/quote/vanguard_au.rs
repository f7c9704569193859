//! The deprecated retail-fund downloader: its fund table and the record the
//! fund listing decodes into. The listing download and its legacy date
//! format stay with the surrounding tooling.

use vstd::prelude::*;

verus! {

/// The retail fund table: full symbol to provider fund id.
pub open spec fn standard_funds() -> Seq<(Seq<char>, Seq<char>)> {
    seq![
        ("VANGUARD:BOND"@, "8123"@),
        ("VANGUARD:HINT"@, "8146"@),
        ("VANGUARD:PROP"@, "8147"@),
        ("VANGUARD:HY"@, "8148"@),
    ]
}

pub struct VanguardAuDownloader {
    funds_map: Vec<(String, String)>,
}

impl VanguardAuDownloader {
    /// The fund table this downloader ships with.
    pub closed spec fn funds_spec(&self) -> Seq<(Seq<char>, Seq<char>)> {
        self.funds_map@.map_values(|p: (String, String)| (p.0@, p.1@))
    }

    pub fn new() -> (r: Self)
        ensures
            r.funds_spec() == standard_funds(),
    {
        let mut funds_map: Vec<(String, String)> = Vec::new();
        funds_map.push(("VANGUARD:BOND".to_owned(), "8123".to_owned()));
        funds_map.push(("VANGUARD:HINT".to_owned(), "8146".to_owned()));
        funds_map.push(("VANGUARD:PROP".to_owned(), "8147".to_owned()));
        funds_map.push(("VANGUARD:HY".to_owned(), "8148".to_owned()));
        let r = VanguardAuDownloader { funds_map };
        proof {
            assert(r.funds_spec() =~= standard_funds());
        }
        r
    }
}

/// One fund's listing entry, as decoded from the provider's data set.
#[derive(Debug)]
pub struct FundInfo {
    pub name: String,
    pub identifier: String,
    pub date: String,
    pub value: String,
    pub mstar_id: String,
}

impl FundInfo {
    pub fn new() -> (r: Self)
        ensures
            r.name@.len() == 0,
            r.identifier@.len() == 0,
            r.date@.len() == 0,
            r.value@.len() == 0,
            r.mstar_id@.len() == 0,
    {
        FundInfo {
            name: String::new(),
            identifier: String::new(),
            date: String::new(),
            value: String::new(),
            mstar_id: String::new(),
        }
    }
}

} // verus!
