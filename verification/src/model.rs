//! Model definitions: prices, securities, their filters, and the
//! `NAMESPACE:MNEMONIC` symbol identity.

use vstd::prelude::*;
use crate::decimal::{is_pow10, log10_of, scale_of_denom, DecimalValue};
use crate::digits::pow10;
use crate::text::{find_char, find_char_in, to_upper, upper_of};

verus! {

/// The error taxonomy of the engine. File input and output failures stay with
/// the caller that touches the file system.
#[derive(Debug, Clone, Copy, PartialEq, Eq, Structural)]
pub enum PriceDbError {
    /// A price for the same `(symbol, date, time)` key carries another
    /// currency: a broken identity mapping upstream, never silently resolved.
    Conflict,
    /// Malformed journal text or an unparsable decimal; the whole load fails.
    Parse,
    /// A store statement failed.
    Query,
    /// No row matched.
    NotFound,
}

impl PriceDbError {
    /// A short diagnostic for the operator.
    pub fn message(&self) -> (r: &'static str)
        ensures
            *self is Conflict ==> r@ == "currency mismatch for an existing price"@,
            *self is Parse ==> r@ == "malformed price journal text"@,
            *self is Query ==> r@ == "store statement failed"@,
            *self is NotFound ==> r@ == "no matching record"@,
    {
        match self {
            PriceDbError::Conflict => "currency mismatch for an existing price",
            PriceDbError::Parse => "malformed price journal text",
            PriceDbError::Query => "store statement failed",
            PriceDbError::NotFound => "no matching record",
        }
    }
}

/// The mathematical image of an `Option<String>`.
pub open spec fn opt_view(o: Option<String>) -> Option<Seq<char>> {
    match o {
        Some(s) => Some(s@),
        None => None,
    }
}

/// A single price observation. The decimal it denotes is `value / denom`,
/// with `denom` always a power of ten.
#[derive(Debug)]
pub struct Price {
    /// Symbol in format NAMESPACE:MNEMONIC
    pub symbol: String,
    pub id: i64,
    pub date: String,
    pub time: String,
    pub value: i64,
    pub denom: i64,
    pub currency: String,
}

/// The mathematical image of a `Price`.
#[verifier::ext_equal]
pub struct PriceView {
    pub symbol: Seq<char>,
    pub id: int,
    pub date: Seq<char>,
    pub time: Seq<char>,
    pub value: int,
    pub denom: int,
    pub currency: Seq<char>,
}

impl View for Price {
    type V = PriceView;

    open spec fn view(&self) -> PriceView {
        PriceView {
            symbol: self.symbol@,
            id: self.id as int,
            date: self.date@,
            time: self.time@,
            value: self.value as int,
            denom: self.denom as int,
            currency: self.currency@,
        }
    }
}

impl Clone for Price {
    fn clone(&self) -> (r: Self)
        ensures
            r@ == self@,
    {
        Price {
            symbol: self.symbol.clone(),
            id: self.id,
            date: self.date.clone(),
            time: self.time.clone(),
            value: self.value,
            denom: self.denom,
            currency: self.currency.clone(),
        }
    }
}

impl Price {
    /// An empty price observation.
    pub fn new() -> (r: Self)
        ensures
            r@.symbol.len() == 0,
            r@.id == 0,
            r@.date.len() == 0,
            r@.time.len() == 0,
            r@.value == 0,
            r@.denom == 0,
            r@.currency.len() == 0,
    {
        Price {
            symbol: String::new(),
            id: 0,
            date: String::new(),
            time: String::new(),
            value: 0,
            denom: 0,
            currency: String::new(),
        }
    }

    /// The fixed-point view of this price: the mantissa is `value` and the
    /// scale is the exact power-of-ten exponent of `denom`.
    pub fn to_decimal(&self) -> (r: DecimalValue)
        requires
            is_pow10(self.denom as int),
        ensures
            r.mantissa == self.value,
            pow10(r.scale as nat) == self.denom as int,
            r.scale <= 18,
    {
        let scale = self.scale();
        DecimalValue { mantissa: self.value, scale }
    }

    /// The power-of-ten exponent of `denom`, from its exact decimal digit
    /// count — never from floating-point arithmetic.
    pub fn scale(&self) -> (r: u32)
        requires
            is_pow10(self.denom as int),
        ensures
            pow10(r as nat) == self.denom as int,
            r as nat == log10_of(self.denom as int),
            r <= 18,
    {
        scale_of_denom(self.denom)
    }

    /// The time assumed for a price that carries none: midnight.
    pub fn default_time() -> (r: String)
        ensures
            r@ == "00:00:00"@,
    {
        "00:00:00".to_owned()
    }
}

/// Selects the existing row for an upsert key; present fields are matched
/// verbatim, absent fields impose no constraint.
#[derive(Debug)]
pub struct PriceFilter {
    pub symbol: Option<String>,
    pub date: Option<String>,
    pub time: Option<String>,
}

#[verifier::ext_equal]
pub struct PriceFilterView {
    pub symbol: Option<Seq<char>>,
    pub date: Option<Seq<char>>,
    pub time: Option<Seq<char>>,
}

impl View for PriceFilter {
    type V = PriceFilterView;

    open spec fn view(&self) -> PriceFilterView {
        PriceFilterView {
            symbol: opt_view(self.symbol),
            date: opt_view(self.date),
            time: opt_view(self.time),
        }
    }
}

impl PriceFilter {
    pub fn new() -> (r: Self)
        ensures
            r@.symbol is None,
            r@.date is None,
            r@.time is None,
    {
        PriceFilter { symbol: None, date: None, time: None }
    }
}

/// Whether a price row satisfies a price filter.
pub open spec fn price_matches(f: PriceFilterView, p: PriceView) -> bool {
    &&& match f.symbol {
        Some(s) => p.symbol == s,
        None => true,
    }
    &&& match f.date {
        Some(d) => p.date == d,
        None => true,
    }
    &&& match f.time {
        Some(t) => p.time == t,
        None => true,
    }
}

/// Decides `price_matches`.
pub fn matches_price(f: &PriceFilter, p: &Price) -> (r: bool)
    ensures
        r == price_matches(f@, p@),
{
    let sym_ok = match &f.symbol {
        Some(s) => crate::text::str_eq(s.as_str(), p.symbol.as_str()),
        None => true,
    };
    let date_ok = match &f.date {
        Some(d) => crate::text::str_eq(d.as_str(), p.date.as_str()),
        None => true,
    };
    let time_ok = match &f.time {
        Some(t) => crate::text::str_eq(t.as_str(), p.time.as_str()),
        None => true,
    };
    sym_ok && date_ok && time_ok
}

/// Selects securities; `currency`, `exchange` and `symbol` are normalized to
/// uppercase before comparison, `agent` is compared verbatim, and absent
/// fields impose no constraint.
#[derive(Debug, Default, PartialEq)]
pub struct SecurityFilter {
    pub currency: Option<String>,
    pub agent: Option<String>,
    pub exchange: Option<String>,
    pub symbol: Option<String>,
}

#[verifier::ext_equal]
pub struct SecurityFilterView {
    pub currency: Option<Seq<char>>,
    pub agent: Option<Seq<char>>,
    pub exchange: Option<Seq<char>>,
    pub symbol: Option<Seq<char>>,
}

impl View for SecurityFilter {
    type V = SecurityFilterView;

    open spec fn view(&self) -> SecurityFilterView {
        SecurityFilterView {
            currency: opt_view(self.currency),
            agent: opt_view(self.agent),
            exchange: opt_view(self.exchange),
            symbol: opt_view(self.symbol),
        }
    }
}

impl SecurityFilter {
    pub fn new() -> (r: Self)
        ensures
            r@.currency is None,
            r@.agent is None,
            r@.exchange is None,
            r@.symbol is None,
    {
        SecurityFilter { currency: None, agent: None, exchange: None, symbol: None }
    }
}

/// Reference data for one security; read-only for the engine.
#[derive(Debug)]
pub struct Security {
    pub id: i64,
    pub namespace: Option<String>,
    pub symbol: String,
    pub updater: Option<String>,
    pub currency: Option<String>,
    pub ledger_symbol: Option<String>,
    pub notes: Option<String>,
}

#[verifier::ext_equal]
pub struct SecurityView {
    pub id: int,
    pub namespace: Option<Seq<char>>,
    pub symbol: Seq<char>,
    pub updater: Option<Seq<char>>,
    pub currency: Option<Seq<char>>,
    pub ledger_symbol: Option<Seq<char>>,
    pub notes: Option<Seq<char>>,
}

impl View for Security {
    type V = SecurityView;

    open spec fn view(&self) -> SecurityView {
        SecurityView {
            id: self.id as int,
            namespace: opt_view(self.namespace),
            symbol: self.symbol@,
            updater: opt_view(self.updater),
            currency: opt_view(self.currency),
            ledger_symbol: opt_view(self.ledger_symbol),
            notes: opt_view(self.notes),
        }
    }
}

fn clone_opt_string(o: &Option<String>) -> (r: Option<String>)
    ensures
        opt_view(r) == opt_view(*o),
{
    match o {
        Some(s) => Some(s.clone()),
        None => None,
    }
}

impl Clone for Security {
    fn clone(&self) -> (r: Self)
        ensures
            r@ == self@,
    {
        Security {
            id: self.id,
            namespace: clone_opt_string(&self.namespace),
            symbol: self.symbol.clone(),
            updater: clone_opt_string(&self.updater),
            currency: clone_opt_string(&self.currency),
            ledger_symbol: clone_opt_string(&self.ledger_symbol),
            notes: clone_opt_string(&self.notes),
        }
    }
}

impl Security {
    pub fn new() -> (r: Self)
        ensures
            r@.id == 0,
            r@.namespace is None,
            r@.symbol.len() == 0,
            r@.updater is None,
            r@.currency is None,
            r@.ledger_symbol is None,
            r@.notes is None,
    {
        Security {
            id: 0,
            namespace: None,
            symbol: String::new(),
            updater: None,
            currency: None,
            ledger_symbol: None,
            notes: None,
        }
    }
}

/// Whether a security satisfies a filter: present fields build one equality
/// condition each; `currency`, `exchange` and `symbol` are uppercased first.
pub open spec fn security_matches(f: SecurityFilterView, s: SecurityView) -> bool {
    &&& match f.currency {
        Some(c) => s.currency == Some(upper_of(c)),
        None => true,
    }
    &&& match f.agent {
        Some(a) => s.updater == Some(a),
        None => true,
    }
    &&& match f.exchange {
        Some(e) => s.namespace == Some(upper_of(e)),
        None => true,
    }
    &&& match f.symbol {
        Some(sy) => s.symbol == upper_of(sy),
        None => true,
    }
}

/// Decides `security_matches`.
pub fn matches_security(f: &SecurityFilter, s: &Security) -> (r: bool)
    ensures
        r == security_matches(f@, s@),
{
    let currency_ok = match &f.currency {
        Some(c) => {
            let cu = to_upper(c.as_str());
            match &s.currency {
                Some(sc) => crate::text::str_eq(sc.as_str(), cu.as_str()),
                None => false,
            }
        },
        None => true,
    };
    let agent_ok = match &f.agent {
        Some(a) => match &s.updater {
            Some(u) => crate::text::str_eq(u.as_str(), a.as_str()),
            None => false,
        },
        None => true,
    };
    let exchange_ok = match &f.exchange {
        Some(e) => {
            let eu = to_upper(e.as_str());
            match &s.namespace {
                Some(ns) => crate::text::str_eq(ns.as_str(), eu.as_str()),
                None => false,
            }
        },
        None => true,
    };
    let symbol_ok = match &f.symbol {
        Some(sy) => {
            let su = to_upper(sy.as_str());
            crate::text::str_eq(s.symbol.as_str(), su.as_str())
        },
        None => true,
    };
    currency_ok && agent_ok && exchange_ok && symbol_ok
}

/// A security identity split into its exchange namespace and mnemonic.
#[derive(Debug)]
pub struct SecuritySymbol {
    pub namespace: String,
    pub mnemonic: String,
}

/// The text between the first and second colon of `s` (to its end when there
/// is no second colon), given a first colon at index `k`.
pub open spec fn second_colon_part(s: Seq<char>, k: int) -> Seq<char> {
    let rest = s.skip(k + 1);
    let k2 = find_char(rest, ':');
    if k2 < 0 {
        rest
    } else {
        rest.take(k2)
    }
}

impl SecuritySymbol {
    /// Parse symbol syntax, i.e. "XETRA:EL4X". A bare string with no colon is
    /// an empty namespace with the whole text as mnemonic. Both parts are
    /// uppercased.
    pub fn new(symbol: &str) -> (r: SecuritySymbol)
        ensures
            find_char(symbol@, ':') < 0 ==> r.namespace@ == Seq::<char>::empty() && r.mnemonic@
                == upper_of(symbol@),
            find_char(symbol@, ':') >= 0 ==> {
                let k = find_char(symbol@, ':');
                r.namespace@ == upper_of(symbol@.take(k)) && r.mnemonic@ == upper_of(
                    second_colon_part(symbol@, k),
                )
            },
    {
        match find_char_in(symbol, ':') {
            None => SecuritySymbol { namespace: String::new(), mnemonic: to_upper(symbol) },
            Some(k) => {
                let n = symbol.unicode_len();
                let first = symbol.substring_char(0, k);
                let rest = symbol.substring_char(k + 1, n);
                proof {
                    assert(first@ =~= symbol@.take(k as int));
                    assert(rest@ =~= symbol@.skip(k + 1));
                }
                let second = match find_char_in(rest, ':') {
                    None => {
                        proof {
                            assert(rest@ =~= second_colon_part(symbol@, k as int));
                        }
                        rest
                    },
                    Some(k2) => {
                        let cut = rest.substring_char(0, k2);
                        proof {
                            assert(cut@ =~= second_colon_part(symbol@, k as int));
                        }
                        cut
                    },
                };
                SecuritySymbol { namespace: to_upper(first), mnemonic: to_upper(second) }
            },
        }
    }

    /// Builds the identity from an already separated exchange and symbol.
    pub fn new_separated(exchange: &str, symbol: &str) -> (r: Self)
        ensures
            r.namespace@ == upper_of(exchange@),
            r.mnemonic@ == upper_of(symbol@),
    {
        SecuritySymbol { namespace: to_upper(exchange), mnemonic: to_upper(symbol) }
    }

    /// Renders the identity as "NAMESPACE:MNEMONIC".
    pub fn display_string(&self) -> (r: String)
        ensures
            r@ == self.namespace@ + seq![':'] + self.mnemonic@,
    {
        let mut out = self.namespace.clone();
        crate::text::push_char(&mut out, ':');
        out.append(self.mnemonic.as_str());
        proof {
            assert(out@ =~= self.namespace@ + seq![':'] + self.mnemonic@);
        }
        out
    }
}

/// Master data for one symbol as the journal tooling keeps it: the mnemonic,
/// an optional exchange namespace, an optional display alias for the ledger,
/// and the data-source fields used for filtering.
#[derive(Debug)]
pub struct SymbolMetadata {
    pub namespace: Option<String>,
    pub symbol: String,
    pub ledger_symbol: Option<String>,
    pub currency: Option<String>,
    pub updater: Option<String>,
}

#[verifier::ext_equal]
pub struct SymbolMetadataView {
    pub namespace: Option<Seq<char>>,
    pub symbol: Seq<char>,
    pub ledger_symbol: Option<Seq<char>>,
    pub currency: Option<Seq<char>>,
    pub updater: Option<Seq<char>>,
}

impl View for SymbolMetadata {
    type V = SymbolMetadataView;

    open spec fn view(&self) -> SymbolMetadataView {
        SymbolMetadataView {
            namespace: opt_view(self.namespace),
            symbol: self.symbol@,
            ledger_symbol: opt_view(self.ledger_symbol),
            currency: opt_view(self.currency),
            updater: opt_view(self.updater),
        }
    }
}

impl Clone for SymbolMetadata {
    fn clone(&self) -> (r: Self)
        ensures
            r@ == self@,
    {
        SymbolMetadata {
            namespace: clone_opt_string(&self.namespace),
            symbol: self.symbol.clone(),
            ledger_symbol: clone_opt_string(&self.ledger_symbol),
            currency: clone_opt_string(&self.currency),
            updater: clone_opt_string(&self.updater),
        }
    }
}

impl SymbolMetadata {
    pub fn new() -> (r: Self)
        ensures
            r@.namespace is None,
            r@.symbol.len() == 0,
            r@.ledger_symbol is None,
            r@.currency is None,
            r@.updater is None,
    {
        SymbolMetadata {
            namespace: None,
            symbol: String::new(),
            ledger_symbol: None,
            currency: None,
            updater: None,
        }
    }

    /// "NAMESPACE:SYMBOL" when a namespace is present, else the bare symbol.
    pub fn symbol_w_namespace(&self) -> (r: String)
        ensures
            match self@.namespace {
                Some(ns) => r@ == ns + seq![':'] + self@.symbol,
                None => r@ == self@.symbol,
            },
    {
        match &self.namespace {
            Some(ns) => {
                let mut out = ns.clone();
                crate::text::push_char(&mut out, ':');
                out.append(self.symbol.as_str());
                proof {
                    assert(out@ =~= self@.namespace.unwrap() + seq![':'] + self@.symbol);
                }
                out
            },
            None => self.symbol.clone(),
        }
    }

    /// The symbol under which this security appears in the journal: the
    /// ledger alias when one exists, else the bare mnemonic.
    pub fn get_symbol(&self) -> (r: String)
        ensures
            match self@.ledger_symbol {
                Some(ls) => r@ == ls,
                None => r@ == self@.symbol,
            },
    {
        match &self.ledger_symbol {
            Some(ls) => ls.clone(),
            None => self.symbol.clone(),
        }
    }
}

/// Whether a symbol-metadata row passes a security filter. A field the row
/// itself lacks imposes no constraint, matching the journal tooling.
pub open spec fn symbol_meta_matches(f: SecurityFilterView, m: SymbolMetadataView) -> bool {
    &&& match f.agent {
        Some(a) => match m.updater {
            Some(u) => u == a,
            None => true,
        },
        None => true,
    }
    &&& match f.currency {
        Some(c) => match m.currency {
            Some(mc) => mc == upper_of(c),
            None => true,
        },
        None => true,
    }
    &&& match f.exchange {
        Some(e) => match m.namespace {
            Some(mn) => mn == upper_of(e),
            None => true,
        },
        None => true,
    }
    &&& match f.symbol {
        Some(s) => m.symbol == upper_of(s),
        None => true,
    }
}

/// Decides `symbol_meta_matches`.
pub fn matches_symbol_meta(f: &SecurityFilter, m: &SymbolMetadata) -> (r: bool)
    ensures
        r == symbol_meta_matches(f@, m@),
{
    let agent_ok = match &f.agent {
        Some(a) => match &m.updater {
            Some(u) => crate::text::str_eq(u.as_str(), a.as_str()),
            None => true,
        },
        None => true,
    };
    let currency_ok = match &f.currency {
        Some(c) => {
            let cu = to_upper(c.as_str());
            match &m.currency {
                Some(mc) => crate::text::str_eq(mc.as_str(), cu.as_str()),
                None => true,
            }
        },
        None => true,
    };
    let exchange_ok = match &f.exchange {
        Some(e) => {
            let eu = to_upper(e.as_str());
            match &m.namespace {
                Some(mn) => crate::text::str_eq(mn.as_str(), eu.as_str()),
                None => true,
            }
        },
        None => true,
    };
    let symbol_ok = match &f.symbol {
        Some(s) => {
            let su = to_upper(s.as_str());
            crate::text::str_eq(m.symbol.as_str(), su.as_str())
        },
        None => true,
    };
    agent_ok && currency_ok && exchange_ok && symbol_ok
}

} // verus!
