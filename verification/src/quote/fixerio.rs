//! Support for the currency-rate provider: the request state and the cache
//! file naming. Fetching, caching and rate decoding are outside work done by
//! the surrounding tooling, which hands plain values back.

use vstd::prelude::*;

verus! {

/// A rate download agent holding its access key.
pub struct Fixerio {
    api_key: String,
}

impl Fixerio {
    /// The configured access key.
    pub closed spec fn key_spec(&self) -> Seq<char> {
        self.api_key@
    }

    /// Builds the agent around the access key the configuration supplies.
    pub fn new(api_key: String) -> (r: Self)
        ensures
            r.key_spec() == api_key@,
    {
        Fixerio { api_key }
    }

    /// The configured access key, for assembling the request address.
    pub fn api_key(&self) -> (r: &str)
        ensures
            r@ == self.key_spec(),
    {
        self.api_key.as_str()
    }
}

/// The cache file path for the rates of one day: the cache directory, the
/// provider prefix, the date, and the data suffix.
pub fn get_rate_file_path(cache_path: &str, today_iso_str: &str) -> (r: String)
    ensures
        r@ == cache_path@ + seq!['/'] + "fixerio_"@ + today_iso_str@ + ".json"@,
{
    let mut out: String = cache_path.to_owned();
    crate::text::push_char(&mut out, '/');
    out.append("fixerio_");
    out.append(today_iso_str);
    out.append(".json");
    proof {
        assert(out@ =~= cache_path@ + seq!['/'] + "fixerio_"@ + today_iso_str@ + ".json"@);
    }
    out
}

} // verus!
