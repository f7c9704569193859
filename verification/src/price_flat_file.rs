//! Maintains the prices in a flat file of ledger-journal lines,
//! `P <date>[ <time>] <symbol> <decimal> <currency>`: a diff-friendly,
//! latest-price-only store keyed by symbol. Loading rejects any malformed
//! line; saving orders the records by date, time and symbol and renders
//! byte-identical text for equal contents.

use vstd::prelude::*;
use crate::datetime::{valid_date, valid_time};
use crate::decimal::{
    decimal_ok, decimal_scale, decimal_val, is_pow10, lemma_decimal_round_trip, lemma_pow10_log10,
    log10_of, parse_decimal, render_decimal, spec_render,
};
use crate::digits::pow10;
use crate::model::{Price, PriceDbError};
use crate::seqs::{find_first, lemma_find_first_at, lemma_find_first_none};
use crate::text::{
    chars_le, chars_lt, is_ws, lemma_chars_le_antisymm, lemma_chars_le_refl, lemma_chars_le_total,
    lemma_chars_le_trans, push_char, str_eq, str_le, strs_view, tokenize, tokens_of,
};

verus! {

/// One priced symbol as the flat file keeps it: a date, a time of day, and
/// an exact fixed-point value `value / denom`.
#[derive(Debug)]
pub struct PriceRecord {
    pub date: String,
    pub time: String,
    pub symbol: String,
    pub value: i64,
    pub denom: i64,
    pub currency: String,
}

/// The mathematical image of a `PriceRecord`.
#[verifier::ext_equal]
pub struct RecordView {
    pub date: Seq<char>,
    pub time: Seq<char>,
    pub symbol: Seq<char>,
    pub value: int,
    pub denom: int,
    pub currency: Seq<char>,
}

impl View for PriceRecord {
    type V = RecordView;

    open spec fn view(&self) -> RecordView {
        RecordView {
            date: self.date@,
            time: self.time@,
            symbol: self.symbol@,
            value: self.value as int,
            denom: self.denom as int,
            currency: self.currency@,
        }
    }
}

impl Clone for PriceRecord {
    fn clone(&self) -> (r: Self)
        ensures
            r@ == self@,
    {
        PriceRecord {
            date: self.date.clone(),
            time: self.time.clone(),
            symbol: self.symbol.clone(),
            value: self.value,
            denom: self.denom,
            currency: self.currency.clone(),
        }
    }
}

/// A token as the journal writes it: non-empty, free of whitespace.
pub open spec fn token_ok(s: Seq<char>) -> bool {
    s.len() > 0 && forall|i: int| 0 <= i < s.len() ==> !is_ws(#[trigger] s[i])
}

/// The canonical midnight time text.
pub open spec fn midnight_text() -> Seq<char> {
    "00:00:00"@
}

/// A well-formed flat-file record: a real calendar date and time, journal
/// tokens for symbol and currency, and a power-of-ten divisor, all within
/// machine range.
pub open spec fn record_wf(r: RecordView) -> bool {
    &&& valid_date(r.date)
    &&& valid_time(r.time)
    &&& token_ok(r.symbol)
    &&& token_ok(r.currency)
    &&& is_pow10(r.denom)
    &&& i64::MIN <= r.value <= i64::MAX
    &&& 1 <= r.denom <= i64::MAX
}

/// The journal line of a record: the midnight time token is omitted, the
/// value is rendered as exact decimal text.
pub open spec fn line_of(r: RecordView) -> Seq<char> {
    seq!['P', ' '] + r.date + (if r.time == midnight_text() {
        Seq::<char>::empty()
    } else {
        seq![' '] + r.time
    }) + seq![' '] + r.symbol + seq![' '] + spec_render(r.value, log10_of(r.denom)) + seq![' ']
        + r.currency
}

/// What a list of parsed tokens means: a line has five tokens without a time
/// (midnight is assumed) or six with one; the first token is the line tag
/// and is not inspected, matching the journal tooling.
pub open spec fn record_of_tokens(
    date: Seq<char>,
    time: Seq<char>,
    symbol: Seq<char>,
    value: Seq<char>,
    currency: Seq<char>,
) -> Option<RecordView> {
    if valid_date(date) && valid_time(time) && decimal_ok(value) && decimal_scale(value) <= 18
        && i64::MIN <= decimal_val(value) <= i64::MAX {
        Some(
            RecordView {
                date,
                time,
                symbol,
                value: decimal_val(value),
                denom: pow10(decimal_scale(value)) as int,
                currency,
            },
        )
    } else {
        None
    }
}

/// What one journal line means, if anything.
pub open spec fn parse_line_spec(l: Seq<char>) -> Option<RecordView> {
    let ts = tokens_of(l);
    if ts.len() == 5 {
        record_of_tokens(ts[1], midnight_text(), ts[2], ts[3], ts[4])
    } else if ts.len() == 6 {
        record_of_tokens(ts[1], ts[2], ts[3], ts[4], ts[5])
    } else {
        None
    }
}

/// Parses one journal line. Returns `None` exactly when the line does not
/// denote a record: wrong token count, malformed date, time or decimal, or a
/// mantissa out of machine range.
pub fn parse_line(line: &str) -> (r: Option<PriceRecord>)
    ensures
        match r {
            Some(rec) => parse_line_spec(line@) == Some(rec@) && record_wf(rec@),
            None => parse_line_spec(line@) is None,
        },
{
    let parts = tokenize(line);
    let ghost ts = tokens_of(line@);
    proof {
        crate::text::lemma_tokens_ok(line@);
        assert(forall|i: int| 0 <= i < parts@.len() ==> (#[trigger] parts@[i])@ == ts[i]);
    }
    if parts.len() == 5 {
        let time = Price::default_time();
        proof {
            crate::datetime::lemma_midnight_valid();
        }
        build_record(&parts[1], time, &parts[2], &parts[3], &parts[4])
    } else if parts.len() == 6 {
        let time = parts[2].clone();
        build_record(&parts[1], time, &parts[3], &parts[4], &parts[5])
    } else {
        None
    }
}

/// Assembles and checks a record from its five meaningful tokens.
fn build_record(
    date: &String,
    time: String,
    symbol: &String,
    value: &String,
    currency: &String,
) -> (r: Option<PriceRecord>)
    requires
        token_ok(symbol@),
        token_ok(currency@),
    ensures
        match r {
            Some(rec) => record_of_tokens(date@, time@, symbol@, value@, currency@) == Some(rec@)
                && record_wf(rec@),
            None => record_of_tokens(date@, time@, symbol@, value@, currency@) is None,
        },
{
    if crate::datetime::parse_date(date.as_str()).is_none() {
        return None;
    }
    if crate::datetime::parse_time(time.as_str()).is_none() {
        return None;
    }
    let parsed = parse_decimal(value.as_str());
    match parsed {
        None => {
            proof {
                if decimal_ok(value@) && decimal_scale(value@) <= 18 {
                    assert(!(i64::MIN <= decimal_val(value@) <= i64::MAX));
                }
            }
            None
        },
        Some((v, d)) => {
            proof {
                crate::decimal::lemma_is_pow10_pow10(decimal_scale(value@));
            }
            Some(
                PriceRecord {
                    date: date.clone(),
                    time,
                    symbol: symbol.clone(),
                    value: v,
                    denom: d,
                    currency: currency.clone(),
                },
            )
        },
    }
}

impl PriceRecord {
    /// Renders the record as its journal line, omitting a midnight time.
    pub fn to_line(&self) -> (r: String)
        requires
            is_pow10(self@.denom),
        ensures
            r@ == line_of(self@),
    {
        proof {
            reveal_strlit("P ");
            reveal_strlit(" ");
        }
        let mut out: String = "P ".to_owned();
        out.append(self.date.as_str());
        if !str_eq(self.time.as_str(), "00:00:00") {
            proof {
                reveal_strlit("00:00:00");
            }
            out.append(" ");
            out.append(self.time.as_str());
        } else {
            proof {
                reveal_strlit("00:00:00");
            }
        }
        out.append(" ");
        out.append(self.symbol.as_str());
        out.append(" ");
        let dec = render_decimal(self.value, self.denom);
        out.append(dec.as_str());
        out.append(" ");
        out.append(self.currency.as_str());
        proof {
            assert(out@ =~= line_of(self@));
        }
        out
    }

    /// Converts a stored price into a flat-file record; an empty time means
    /// midnight. Returns the parse error when the price's text fields do not
    /// form a valid record.
    pub fn from_price(item: &Price) -> (r: Result<PriceRecord, PriceDbError>)
        ensures
            match r {
                Ok(rec) => {
                    &&& record_wf(rec@)
                    &&& rec@.date == item@.date
                    &&& rec@.time == (if item@.time.len() == 0 {
                        midnight_text()
                    } else {
                        item@.time
                    })
                    &&& rec@.symbol == item@.symbol
                    &&& rec@.value == item@.value
                    &&& rec@.denom == item@.denom
                    &&& rec@.currency == item@.currency
                },
                Err(e) => e == PriceDbError::Parse && !(valid_date(item@.date) && (item@.time.len()
                    == 0 || valid_time(item@.time)) && is_pow10(item@.denom) && token_ok(
                    item@.symbol,
                ) && token_ok(item@.currency)),
            },
    {
        let time: String = if item.time.as_str().is_empty() {
            let t = Price::default_time();
            t
        } else {
            item.time.clone()
        };
        proof {
            crate::datetime::lemma_midnight_valid();
        }
        if crate::datetime::parse_date(item.date.as_str()).is_none() {
            return Err(PriceDbError::Parse);
        }
        if crate::datetime::parse_time(time.as_str()).is_none() {
            return Err(PriceDbError::Parse);
        }
        if !check_pow10(item.denom) {
            return Err(PriceDbError::Parse);
        }
        if !check_token(item.symbol.as_str()) {
            return Err(PriceDbError::Parse);
        }
        if !check_token(item.currency.as_str()) {
            return Err(PriceDbError::Parse);
        }
        Ok(
            PriceRecord {
                date: item.date.clone(),
                time,
                symbol: item.symbol.clone(),
                value: item.value,
                denom: item.denom,
                currency: item.currency.clone(),
            },
        )
    }
}

/// Decides `is_pow10`.
pub fn check_pow10(n: i64) -> (r: bool)
    ensures
        r == is_pow10(n as int),
    decreases n,
{
    if n < 1 {
        false
    } else if n == 1 {
        true
    } else if n % 10 == 0 {
        check_pow10(n / 10)
    } else {
        false
    }
}

/// The save order of records: ascending by date, then time, then symbol.
/// The remaining fields break any mathematical tie, which makes the order
/// total and the saved text a function of the contents alone; records with
/// equal keys never coexist in one file.
pub open spec fn rec_le(a: RecordView, b: RecordView) -> bool {
    if a.date != b.date {
        chars_lt(a.date, b.date)
    } else if a.time != b.time {
        chars_lt(a.time, b.time)
    } else if a.symbol != b.symbol {
        chars_lt(a.symbol, b.symbol)
    } else if a.value != b.value {
        a.value < b.value
    } else if a.denom != b.denom {
        a.denom < b.denom
    } else {
        chars_le(a.currency, b.currency)
    }
}

/// The save order relates every pair one way or the other.
pub proof fn lemma_rec_le_connected(a: RecordView, b: RecordView)
    ensures
        rec_le(a, b) || rec_le(b, a),
{
    lemma_chars_le_total(a.date, b.date);
    lemma_chars_le_total(a.time, b.time);
    lemma_chars_le_total(a.symbol, b.symbol);
    lemma_chars_le_total(a.currency, b.currency);
}

proof fn lemma_chars_lt_trans(a: Seq<char>, b: Seq<char>, c: Seq<char>)
    requires
        chars_lt(a, b),
        chars_lt(b, c),
    ensures
        chars_lt(a, c),
{
    lemma_chars_le_trans(a, b, c);
    if a == c {
        lemma_chars_le_antisymm(a, b);
    }
}

/// The save order is a total order on record views.
pub proof fn lemma_rec_le_total_ordering()
    ensures
        vstd::relations::total_ordering(|a: RecordView, b: RecordView| rec_le(a, b)),
{
    let leq = |a: RecordView, b: RecordView| rec_le(a, b);
    assert forall|x: RecordView| #[trigger] leq(x, x) by {
        lemma_chars_le_refl(x.currency);
    }
    assert forall|x: RecordView, y: RecordView| #[trigger] leq(x, y) && #[trigger] leq(y, x)
        implies x == y by {
        if x.date != y.date {
            lemma_chars_le_antisymm(x.date, y.date);
        } else if x.time != y.time {
            lemma_chars_le_antisymm(x.time, y.time);
        } else if x.symbol != y.symbol {
            lemma_chars_le_antisymm(x.symbol, y.symbol);
        } else if x.value != y.value {
        } else if x.denom != y.denom {
        } else {
            lemma_chars_le_antisymm(x.currency, y.currency);
            assert(x =~= y);
        }
    }
    assert forall|x: RecordView, y: RecordView, z: RecordView|
        #[trigger] leq(x, y) && #[trigger] leq(y, z) implies leq(x, z) by {
        lemma_rec_le_trans(x, y, z);
    }
    assert forall|x: RecordView, y: RecordView| #[trigger] leq(x, y) || #[trigger] leq(y, x) by {
        lemma_chars_le_total(x.date, y.date);
        lemma_chars_le_total(x.time, y.time);
        lemma_chars_le_total(x.symbol, y.symbol);
        lemma_chars_le_total(x.currency, y.currency);
    }
}

proof fn lemma_rec_le_trans(x: RecordView, y: RecordView, z: RecordView)
    requires
        rec_le(x, y),
        rec_le(y, z),
    ensures
        rec_le(x, z),
{
    if x.date != y.date || y.date != z.date {
        if x.date != y.date && y.date != z.date {
            lemma_chars_lt_trans(x.date, y.date, z.date);
        }
    } else {
        if x.time != y.time || y.time != z.time {
            if x.time != y.time && y.time != z.time {
                lemma_chars_lt_trans(x.time, y.time, z.time);
            }
        } else {
            if x.symbol != y.symbol || y.symbol != z.symbol {
                if x.symbol != y.symbol && y.symbol != z.symbol {
                    lemma_chars_lt_trans(x.symbol, y.symbol, z.symbol);
                }
            } else {
                if x.value == y.value && y.value == z.value && x.denom == y.denom && y.denom
                    == z.denom {
                    lemma_chars_le_trans(x.currency, y.currency, z.currency);
                }
            }
        }
    }
}

/// Decides `rec_le`.
pub fn record_le(a: &PriceRecord, b: &PriceRecord) -> (r: bool)
    ensures
        r == rec_le(a@, b@),
{
    if !str_eq(a.date.as_str(), b.date.as_str()) {
        str_le(a.date.as_str(), b.date.as_str())
    } else if !str_eq(a.time.as_str(), b.time.as_str()) {
        str_le(a.time.as_str(), b.time.as_str())
    } else if !str_eq(a.symbol.as_str(), b.symbol.as_str()) {
        str_le(a.symbol.as_str(), b.symbol.as_str())
    } else if a.value != b.value {
        a.value < b.value
    } else if a.denom != b.denom {
        a.denom < b.denom
    } else {
        str_le(a.currency.as_str(), b.currency.as_str())
    }
}

/// Decides `token_ok`.
pub fn check_token(s: &str) -> (r: bool)
    ensures
        r == token_ok(s@),
{
    let n = s.unicode_len();
    if n == 0 {
        return false;
    }
    let mut i: usize = 0;
    while i < n
        invariant
            0 <= i <= n,
            n == s@.len(),
            forall|j: int| 0 <= j < i ==> !is_ws(#[trigger] s@[j]),
        decreases n - i,
    {
        if crate::text::char_is_ws(s.get_char(i)) {
            return false;
        }
        i += 1;
    }
    true
}

proof fn lemma_date_token(s: Seq<char>)
    requires
        valid_date(s),
    ensures
        token_ok(s),
{
    assert forall|i: int| 0 <= i < s.len() implies !is_ws(#[trigger] s[i]) by {
        if i == 4 || i == 7 {
            assert(s[i] == '-');
        } else {
            assert(crate::digits::is_digit(s[i]));
            assert((' ' as u32) == 32 && ('\t' as u32) == 9 && ('\r' as u32) == 13);
            if s[i] == ' ' || s[i] == '\t' || s[i] == '\r' {
                assert((s[i] as u32) < 48);
            }
        }
    }
}

proof fn lemma_time_token(s: Seq<char>)
    requires
        valid_time(s),
    ensures
        token_ok(s),
{
    assert forall|i: int| 0 <= i < s.len() implies !is_ws(#[trigger] s[i]) by {
        if i == 2 || i == 5 {
            assert(s[i] == ':');
        } else {
            assert(crate::digits::is_digit(s[i]));
            assert((' ' as u32) == 32 && ('\t' as u32) == 9 && ('\r' as u32) == 13);
            if s[i] == ' ' || s[i] == '\t' || s[i] == '\r' {
                assert((s[i] as u32) < 48);
            }
        }
    }
}

proof fn lemma_digits_no_ws(s: Seq<char>)
    requires
        crate::digits::all_digits(s),
    ensures
        forall|i: int| 0 <= i < s.len() ==> !is_ws(#[trigger] s[i]),
{
    assert forall|i: int| 0 <= i < s.len() implies !is_ws(#[trigger] s[i]) by {
        assert(crate::digits::is_digit(s[i]));
        if s[i] == ' ' || s[i] == '\t' || s[i] == '\r' {
            assert((s[i] as u32) < 48);
        }
    }
}

proof fn lemma_render_token(v: int, s: nat)
    ensures
        token_ok(spec_render(v, s)),
{
    let m: nat = if v < 0 {
        (-v) as nat
    } else {
        v as nat
    };
    let rm = crate::decimal::spec_render_mag(m, s);
    assert forall|i: int| 0 <= i < rm.len() implies !is_ws(#[trigger] rm[i]) by {
        if s == 0 {
            crate::digits::lemma_dec_digits_val(m);
            lemma_digits_no_ws(rm);
        } else {
            let p = pow10(s);
            crate::digits::lemma_pow10_pos(s);
            let a = crate::digits::dec_digits(m / p);
            let b = crate::digits::padded_digits((m % p) as nat, s);
            crate::digits::lemma_dec_digits_val(m / p);
            crate::digits::lemma_padded_digits_val((m % p) as nat, s);
            lemma_digits_no_ws(a);
            lemma_digits_no_ws(b);
            if i < a.len() {
                assert(rm[i] == a[i]);
            } else if i == a.len() {
                assert(rm[i] == '.');
            } else {
                assert(rm[i] == b[i - a.len() - 1]);
            }
        }
    }
    if s == 0 {
        crate::digits::lemma_dec_digits_val(m);
    } else {
        crate::digits::lemma_pow10_pos(s);
        crate::digits::lemma_dec_digits_val(m / pow10(s));
    }
    if v < 0 {
        assert(spec_render(v, s) =~= seq!['-'] + rm);
        assert forall|i: int| 0 <= i < spec_render(v, s).len() implies !is_ws(
            #[trigger] spec_render(v, s)[i],
        ) by {
            if i == 0 {
                assert(spec_render(v, s)[0] == '-');
            } else {
                assert(spec_render(v, s)[i] == rm[i - 1]);
            }
        }
    } else {
        assert(spec_render(v, s) == rm);
    }
}

#[verifier::rlimit(80)]
proof fn lemma_line_tokens(r: RecordView)
    requires
        record_wf(r),
    ensures
        r.time == midnight_text() ==> tokens_of(line_of(r)) == seq![
            seq!['P'],
            r.date,
            r.symbol,
            spec_render(r.value, log10_of(r.denom)),
            r.currency,
        ],
        r.time != midnight_text() ==> tokens_of(line_of(r)) == seq![
            seq!['P'],
            r.date,
            r.time,
            r.symbol,
            spec_render(r.value, log10_of(r.denom)),
            r.currency,
        ],
{
    let sc = log10_of(r.denom);
    let dtok = spec_render(r.value, sc);
    lemma_date_token(r.date);
    lemma_time_token(r.time);
    lemma_render_token(r.value, sc);
    // assemble the token list from the back
    let tail1 = seq![' '] + r.currency;
    let tail2 = dtok + tail1;
    let tail3 = seq![' '] + tail2;
    let tail4 = r.symbol + tail3;
    let tail5 = seq![' '] + tail4;
    assert(r.currency + Seq::<char>::empty() =~= r.currency);
    crate::text::lemma_tokens_token_then(r.currency, Seq::<char>::empty());
    assert(tokens_of(r.currency) =~= seq![r.currency]);
    crate::text::lemma_tokens_space_then(r.currency);
    assert(tail1.drop_first() =~= r.currency);
    crate::text::lemma_tokens_token_then(dtok, tail1);
    assert(tokens_of(tail2) =~= seq![dtok, r.currency]);
    crate::text::lemma_tokens_space_then(tail2);
    crate::text::lemma_tokens_token_then(r.symbol, tail3);
    assert(tokens_of(tail4) =~= seq![r.symbol, dtok, r.currency]);
    crate::text::lemma_tokens_space_then(tail4);
    assert(tokens_of(tail5) == tokens_of(tail4));
    let rest = if r.time == midnight_text() {
        r.date + tail5
    } else {
        r.date + (seq![' '] + (r.time + tail5))
    };
    if r.time == midnight_text() {
        crate::text::lemma_tokens_token_then(r.date, tail5);
        assert(tokens_of(rest) =~= seq![r.date, r.symbol, dtok, r.currency]);
    } else {
        crate::text::lemma_tokens_token_then(r.time, tail5);
        assert(tokens_of(r.time + tail5) =~= seq![r.time, r.symbol, dtok, r.currency]);
        crate::text::lemma_tokens_space_then(r.time + tail5);
        assert(tokens_of(seq![' '] + (r.time + tail5)) == tokens_of(r.time + tail5));
        crate::text::lemma_tokens_token_then(r.date, seq![' '] + (r.time + tail5));
        assert(tokens_of(rest) =~= seq![r.date, r.time, r.symbol, dtok, r.currency]);
    }
    let whole = seq!['P'] + (seq![' '] + rest);
    assert(('P' as u32) == 80);
    assert(!is_ws('P'));
    crate::text::lemma_tokens_space_then(rest);
    crate::text::lemma_tokens_token_then(seq!['P'], seq![' '] + rest);
    assert(tokens_of(whole) =~= seq![seq!['P']] + tokens_of(rest));
    assert(line_of(r) =~= whole);
    assert(tokens_of(line_of(r)) == tokens_of(whole));
    if r.time == midnight_text() {
        assert(tokens_of(whole) =~= seq![seq!['P'], r.date, r.symbol, dtok, r.currency]);
    } else {
        assert(tokens_of(whole) =~= seq![seq!['P'], r.date, r.time, r.symbol, dtok, r.currency]);
    }
}

/// Round trip: the journal line of any well-formed record parses back to
/// the identical record — same date, time, symbol, exact `(value, denom)`
/// pair and currency, with no drift.
pub proof fn lemma_line_round_trip(r: RecordView)
    requires
        record_wf(r),
    ensures
        parse_line_spec(line_of(r)) == Some(r),
{
    let sc = log10_of(r.denom);
    let dtok = spec_render(r.value, sc);
    lemma_line_tokens(r);
    lemma_decimal_round_trip(r.value, sc);
    lemma_pow10_log10(r.denom);
    crate::decimal::lemma_pow10_18_19();
    if sc >= 19 {
        if sc > 19 {
            crate::digits::lemma_pow10_increases(19, sc);
        }
        assert(pow10(sc) >= pow10(19));
        assert(false);
    }
    let ts = tokens_of(line_of(r));
    if r.time == midnight_text() {
        assert(ts.len() == 5);
        assert(ts[1] == r.date && ts[2] == r.symbol && ts[3] == dtok && ts[4] == r.currency);
        let got = record_of_tokens(ts[1], midnight_text(), ts[2], ts[3], ts[4]);
        assert(crate::decimal::decimal_val(dtok) == r.value);
        assert(crate::decimal::decimal_scale(dtok) == sc);
        assert(pow10(sc) == r.denom);
        assert(got is Some);
        assert(got.unwrap() =~= r);
    } else {
        assert(ts.len() == 6);
        assert(ts[1] == r.date && ts[2] == r.time && ts[3] == r.symbol && ts[4] == dtok && ts[5]
            == r.currency);
        let got = record_of_tokens(ts[1], ts[2], ts[3], ts[4], ts[5]);
        assert(crate::decimal::decimal_val(dtok) == r.value);
        assert(crate::decimal::decimal_scale(dtok) == sc);
        assert(pow10(sc) == r.denom);
        assert(got is Some);
        assert(got.unwrap() =~= r);
    }
}

/// The mathematical image of a record table.
pub open spec fn recs_of(s: Seq<PriceRecord>) -> Seq<RecordView> {
    s.map_values(|r: PriceRecord| r@)
}

/// Records in save order.
pub open spec fn rec_sorted(s: Seq<RecordView>) -> bool {
    forall|i: int, j: int| 0 <= i < j < s.len() ==> #[trigger] rec_le(s[i], s[j])
}

/// Sorts records into save order.
fn sort_records(input: Vec<PriceRecord>) -> (r: Vec<PriceRecord>)
    ensures
        recs_of(r@).to_multiset() == recs_of(input@).to_multiset(),
        rec_sorted(recs_of(r@)),
{
    broadcast use vstd::seq_lib::group_to_multiset_ensures;

    let mut out: Vec<PriceRecord> = Vec::new();
    let mut i: usize = 0;
    proof {
        assert(recs_of(out@) =~= Seq::<RecordView>::empty());
        assert(recs_of(input@.take(0)) =~= Seq::<RecordView>::empty());
    }
    while i < input.len()
        invariant
            0 <= i <= input@.len(),
            rec_sorted(recs_of(out@)),
            recs_of(out@).to_multiset() == recs_of(input@.take(i as int)).to_multiset(),
        decreases input@.len() - i,
    {
        let p = input[i].clone();
        let mut pos: usize = 0;
        while pos < out.len()
            invariant_except_break
                0 <= pos <= out@.len(),
                forall|k: int| 0 <= k < pos ==> rec_le(#[trigger] out@[k]@, p@),
            ensures
                0 <= pos <= out@.len(),
                forall|k: int| 0 <= k < pos ==> rec_le(#[trigger] out@[k]@, p@),
                pos < out@.len() ==> !rec_le(out@[pos as int]@, p@),
            decreases out@.len() - pos,
        {
            if !record_le(&out[pos], &p) {
                break;
            }
            pos += 1;
        }
        proof {
            assert(forall|k: int| 0 <= k < out@.len() ==> recs_of(out@)[k] == #[trigger] out@[k]@);
            if pos < out@.len() {
                lemma_rec_le_connected(out@[pos as int]@, p@);
                assert(rec_le(p@, recs_of(out@)[pos as int]));
            }
        }
        let ghost old_out = out@;
        out.insert(pos, p);
        proof {
            broadcast use vstd::seq_lib::group_to_multiset_ensures;

            lemma_rec_le_total_ordering();
            let ov = recs_of(old_out);
            let nv = recs_of(out@);
            assert(nv =~= ov.insert(pos as int, input@[i as int]@));
            crate::seqs::lemma_insert_multiset(ov, pos as int, input@[i as int]@);
            assert forall|x: int, y: int| 0 <= x < y < nv.len() implies rec_le(nv[x], nv[y]) by {
                let pv = input@[i as int]@;
                let leq = |a: RecordView, b: RecordView| rec_le(a, b);
                if y < pos {
                    assert(nv[x] == ov[x] && nv[y] == ov[y]);
                } else if y == pos {
                    assert(nv[x] == ov[x] && nv[y] == pv);
                } else if x < pos {
                    assert(nv[x] == ov[x] && nv[y] == ov[y - 1]);
                    assert(rec_le(ov[x], pv));
                    if y - 1 >= pos {
                        if y - 1 > pos {
                            assert(leq(pv, ov[pos as int]) && leq(ov[pos as int], ov[y - 1]));
                            assert(leq(pv, ov[y - 1]));
                        }
                        assert(leq(ov[x], pv) && leq(pv, ov[y - 1]));
                        assert(leq(ov[x], ov[y - 1]));
                    }
                } else if x == pos {
                    assert(nv[x] == pv && nv[y] == ov[y - 1]);
                    assert(rec_le(pv, ov[pos as int]));
                    if y - 1 > pos {
                        assert(leq(pv, ov[pos as int]) && leq(ov[pos as int], ov[y - 1]));
                        assert(leq(pv, ov[y - 1]));
                    }
                } else {
                    assert(nv[x] == ov[x - 1] && nv[y] == ov[y - 1]);
                }
            }
            assert(recs_of(input@.take(i + 1)) =~= recs_of(input@.take(i as int)).push(
                input@[i as int]@,
            ));
            assert(nv.to_multiset() =~= recs_of(input@.take(i + 1)).to_multiset());
        }
        i += 1;
    }
    proof {
        assert(input@.take(input@.len() as int) =~= input@);
    }
    out
}

/// The text of a record list: one journal line each, each ending in a
/// newline.
pub open spec fn lines_text(s: Seq<RecordView>) -> Seq<char>
    decreases s.len(),
{
    if s.len() == 0 {
        Seq::empty()
    } else {
        lines_text(s.drop_last()) + line_of(s.last()) + seq!['\n']
    }
}

/// The saved text of a record table: its records in save order, rendered
/// line by line. A function of the contents alone, so saving an unmodified
/// table reproduces byte-identical text.
pub open spec fn flat_file_text(m: Seq<RecordView>) -> Seq<char> {
    lines_text(m.sort_by(|a: RecordView, b: RecordView| rec_le(a, b)))
}

/// Replacing-or-appending one record under its symbol key.
pub open spec fn insert_record(acc: Seq<RecordView>, r: RecordView) -> Seq<RecordView> {
    let k = find_first(acc, |x: RecordView| x.symbol == r.symbol);
    if k < 0 {
        acc.push(r)
    } else {
        acc.update(k, r)
    }
}

/// The record table a sequence of parsed lines denotes: each parsed record
/// replaces any earlier one of the same symbol; one bad line fails the lot.
pub open spec fn load_fold(lines: Seq<Seq<char>>, upto: int) -> Option<Seq<RecordView>>
    decreases upto,
{
    if upto <= 0 {
        Some(Seq::empty())
    } else {
        match load_fold(lines, upto - 1) {
            None => None,
            Some(acc) => match parse_line_spec(lines[upto - 1]) {
                None => None,
                Some(r) => Some(insert_record(acc, r)),
            },
        }
    }
}

proof fn lemma_load_fold_none(lines: Seq<Seq<char>>, i: int, j: int)
    requires
        0 <= i <= j,
        load_fold(lines, i) is None,
    ensures
        load_fold(lines, j) is None,
    decreases j - i,
{
    if i < j {
        lemma_load_fold_none(lines, i, j - 1);
    }
}

/// The lines of a text: split at each newline, with a final line not closed
/// by a newline kept and a trailing newline producing no empty final line.
pub open spec fn split_lines(s: Seq<char>) -> Seq<Seq<char>>
    decreases s.len(),
    via split_lines_decreases
{
    if s.len() == 0 {
        Seq::empty()
    } else {
        let k = crate::text::find_char(s, '\n');
        if k < 0 {
            seq![s]
        } else {
            seq![s.take(k)] + split_lines(s.skip(k + 1))
        }
    }
}

#[via_fn]
proof fn split_lines_decreases(s: Seq<char>) {
    if s.len() > 0 {
        crate::text::lemma_find_char_bounds(s, '\n');
    }
}

/// Splits text into lines.
fn split_lines_exec(content: &str) -> (r: Vec<String>)
    ensures
        strs_view(r@) == split_lines(content@),
{
    let cv = crate::text::str_to_chars(content);
    let r = split_lines_from(&cv, 0);
    proof {
        assert(cv@.skip(0) =~= content@);
    }
    r
}

fn split_lines_from(v: &Vec<char>, from: usize) -> (r: Vec<String>)
    requires
        from <= v@.len(),
    ensures
        strs_view(r@) == split_lines(v@.skip(from as int)),
    decreases v@.len() - from,
{
    let ghost s = v@.skip(from as int);
    if from >= v.len() {
        let r: Vec<String> = Vec::new();
        proof {
            assert(s =~= Seq::<char>::empty());
            assert(strs_view(r@) =~= split_lines(s));
        }
        return r;
    }
    let mut j: usize = from;
    while j < v.len()
        invariant_except_break
            from <= j <= v@.len(),
            forall|i: int| from <= i < j ==> v@[i] != '\n',
        ensures
            from <= j <= v@.len(),
            forall|i: int| from <= i < j ==> v@[i] != '\n',
            j < v@.len() ==> v@[j as int] == '\n',
        decreases v@.len() - j,
    {
        if v[j] == '\n' {
            break;
        }
        j += 1;
    }
    proof {
        assert(forall|i: int| 0 <= i < s.len() ==> s[i] == #[trigger] v@[from + i]);
    }
    let mut line_chars: Vec<char> = Vec::new();
    let mut i: usize = from;
    while i < j
        invariant
            from <= i <= j <= v@.len(),
            line_chars@ == v@.subrange(from as int, i as int),
        decreases j - i,
    {
        line_chars.push(v[i]);
        proof {
            assert(line_chars@ =~= v@.subrange(from as int, i + 1));
        }
        i += 1;
    }
    let line = crate::text::chars_to_string(&line_chars);
    if j >= v.len() {
        proof {
            crate::text::lemma_find_char_none(s, '\n');
        }
        let mut r: Vec<String> = Vec::new();
        r.push(line);
        proof {
            assert(v@.subrange(from as int, j as int) =~= s);
            assert(strs_view(r@) =~= split_lines(s));
        }
        return r;
    }
    proof {
        assert(s[j - from] == '\n');
        crate::text::lemma_find_char_at(s, '\n', j - from);
    }
    let rest = split_lines_from(v, j + 1);
    let mut r: Vec<String> = Vec::new();
    r.push(line);
    let mut t: usize = 0;
    while t < rest.len()
        invariant
            0 <= t <= rest@.len(),
            r@.len() == t + 1,
            r@[0]@ == v@.subrange(from as int, j as int),
            forall|x: int| 0 <= x < t ==> r@[x + 1] == #[trigger] rest@[x],
        decreases rest@.len() - t,
    {
        r.push(rest[t].clone());
        t += 1;
    }
    proof {
        assert(s.take(j - from) =~= v@.subrange(from as int, j as int));
        assert(s.skip(j - from + 1) =~= v@.skip(j + 1));
        assert(strs_view(r@) =~= seq![s.take(j - from)] + split_lines(s.skip(j - from + 1)));
    }
    r
}

/// The flat-file store: a latest-price-only mapping keyed by symbol, loaded
/// from and saved to one journal text. Loading the file and writing it back
/// wholesale is last-writer-wins by design; there is no locking.
#[derive(Debug)]
pub struct PriceFlatFile {
    pub file_path: String,
    prices: Vec<PriceRecord>,
}

impl PriceFlatFile {
    /// The stored records, in table order.
    pub closed spec fn records(&self) -> Seq<RecordView> {
        recs_of(self.prices@)
    }

    /// The path this store was loaded from.
    pub closed spec fn path(&self) -> Seq<char> {
        self.file_path@
    }

    /// Well-formed store: valid records, one per symbol.
    pub open spec fn wf(&self) -> bool {
        &&& forall|i: int| 0 <= i < self.records().len() ==> record_wf(#[trigger] self.records()[i])
        &&& forall|i: int, j: int|
            0 <= i < j < self.records().len() ==> (#[trigger] self.records()[i]).symbol != (
            #[trigger] self.records()[j]).symbol
    }

    /// How many symbols are stored.
    pub fn len(&self) -> (n: usize)
        ensures
            n as int == self.records().len(),
    {
        self.prices.len()
    }

    /// The stored record of one symbol.
    pub fn get(&self, symbol: &str) -> (r: Option<PriceRecord>)
        ensures
            ({
                let k = find_first(self.records(), |x: RecordView| x.symbol == symbol@);
                match r {
                    Some(rec) => k >= 0 && rec@ == self.records()[k],
                    None => k < 0,
                }
            }),
    {
        let ghost pred = |x: RecordView| x.symbol == symbol@;
        let mut i: usize = 0;
        while i < self.prices.len()
            invariant
                0 <= i <= self.prices@.len(),
                pred == (|x: RecordView| x.symbol == symbol@),
                forall|j: int| 0 <= j < i ==> !pred(#[trigger] self.records()[j]),
            decreases self.prices@.len() - i,
        {
            if str_eq(self.prices[i].symbol.as_str(), symbol) {
                proof {
                    lemma_find_first_at(self.records(), pred, i as int);
                }
                return Some(self.prices[i].clone());
            }
            i += 1;
        }
        proof {
            lemma_find_first_none(self.records(), pred);
        }
        None
    }

    /// Inserts a record under its symbol key; an existing record of the same
    /// symbol is replaced — the flat file keeps the latest price only.
    pub fn add(&mut self, rec: PriceRecord)
        requires
            old(self).wf(),
            record_wf(rec@),
        ensures
            final(self).wf(),
            final(self).records() == insert_record(old(self).records(), rec@),
            final(self).path() == old(self).path(),
    {
        let ghost pred = |x: RecordView| x.symbol == rec@.symbol;
        let mut i: usize = 0;
        while i < self.prices.len()
            invariant
                self == old(self),
                old(self).wf(),
                record_wf(rec@),
                0 <= i <= self.prices@.len(),
                pred == (|x: RecordView| x.symbol == rec@.symbol),
                forall|j: int| 0 <= j < i ==> !pred(#[trigger] self.records()[j]),
            decreases self.prices@.len() - i,
        {
            if str_eq(self.prices[i].symbol.as_str(), rec.symbol.as_str()) {
                proof {
                    lemma_find_first_at(self.records(), pred, i as int);
                }
                let ghost before = self.records();
                vstd::pervasive::VecAdditionalExecFns::set(&mut self.prices, i, rec);
                proof {
                    assert(self.records() =~= before.update(i as int, rec@));
                    assert forall|a: int, b: int|
                        0 <= a < b < self.records().len() implies (
                    #[trigger] self.records()[a]).symbol != (#[trigger] self.records()[b]).symbol by {
                        assert(before[a].symbol != before[b].symbol);
                        if a == i {
                            assert(self.records()[a].symbol == before[a].symbol);
                        } else if b == i {
                            assert(self.records()[b].symbol == before[b].symbol);
                        }
                    }
                }
                return ;
            }
            i += 1;
        }
        proof {
            lemma_find_first_none(self.records(), pred);
        }
        let ghost before = self.records();
        self.prices.push(rec);
        proof {
            assert(self.records() =~= before.push(rec@));
            assert forall|a: int, b: int|
                0 <= a < b < self.records().len() implies (#[trigger] self.records()[a]).symbol
                != (#[trigger] self.records()[b]).symbol by {
                if b == self.records().len() - 1 {
                    assert(!pred(before[a]));
                }
            }
        }
    }

    /// Parses a whole journal text. One malformed line fails the load; there
    /// is no partial recovery.
    pub fn load(file_path: &str, content: &str) -> (r: Result<PriceFlatFile, PriceDbError>)
        ensures
            ({
                let lines = split_lines(content@);
                match r {
                    Ok(f) => {
                        &&& f.wf()
                        &&& f.path() == file_path@
                        &&& Some(f.records()) == load_fold(lines, lines.len() as int)
                    },
                    Err(e) => e == PriceDbError::Parse && load_fold(lines, lines.len() as int)
                        is None,
                }
            }),
    {
        let ghost lines = split_lines(content@);
        let parts = split_lines_exec(content);
        proof {
            assert(forall|i: int| 0 <= i < parts@.len() ==> (#[trigger] parts@[i])@ == lines[i]);
        }
        let mut f = PriceFlatFile { file_path: file_path.to_owned(), prices: Vec::new() };
        proof {
            assert(f.records() =~= Seq::<RecordView>::empty());
        }
        let mut i: usize = 0;
        while i < parts.len()
            invariant
                0 <= i <= parts@.len(),
                lines == split_lines(content@),
                parts@.len() == lines.len(),
                forall|j: int| 0 <= j < parts@.len() ==> (#[trigger] parts@[j])@ == lines[j],
                f.wf(),
                f.path() == file_path@,
                Some(f.records()) == load_fold(lines, i as int),
            decreases parts@.len() - i,
        {
            match parse_line(parts[i].as_str()) {
                None => {
                    proof {
                        assert(load_fold(lines, i + 1) is None);
                        lemma_load_fold_none(lines, i + 1, lines.len() as int);
                    }
                    return Err(PriceDbError::Parse);
                },
                Some(rec) => {
                    f.add(rec);
                },
            }
            i += 1;
        }
        Ok(f)
    }

    /// Renders the whole store: records sorted ascending by date, time and
    /// symbol, one line each, with a trailing newline. Two saves of an
    /// unmodified store produce byte-identical text.
    pub fn save(&self) -> (r: String)
        requires
            self.wf(),
        ensures
            r@ == flat_file_text(self.records()),
    {
        broadcast use vstd::seq_lib::group_to_multiset_ensures;

        let ghost leq = |a: RecordView, b: RecordView| rec_le(a, b);
        let mut copy: Vec<PriceRecord> = Vec::new();
        let mut i: usize = 0;
        proof {
            assert(recs_of(copy@) =~= self.records().take(0));
        }
        while i < self.prices.len()
            invariant
                0 <= i <= self.prices@.len(),
                recs_of(copy@) == self.records().take(i as int),
            decreases self.prices@.len() - i,
        {
            let ghost prev = copy@;
            copy.push(self.prices[i].clone());
            proof {
                assert(recs_of(copy@) =~= recs_of(prev).push(self.prices@[i as int]@));
                assert(self.records()[i as int] == self.prices@[i as int]@);
                assert(self.records().take(i + 1) =~= self.records().take(i as int).push(
                    self.records()[i as int],
                ));
                assert(recs_of(copy@) =~= self.records().take(i + 1));
            }
            i += 1;
        }
        proof {
            assert(self.records().take(self.records().len() as int) =~= self.records());
        }
        let sorted = sort_records(copy);
        proof {
            lemma_rec_le_total_ordering();
            self.records().lemma_sort_by_ensures(leq);
            assert forall|x: int, y: int|
                0 <= x < y < recs_of(sorted@).len() implies leq(
                recs_of(sorted@)[x],
                recs_of(sorted@)[y],
            ) by {
                assert(rec_le(recs_of(sorted@)[x], recs_of(sorted@)[y]));
            }
            assert(vstd::relations::sorted_by(recs_of(sorted@), leq));
            vstd::seq_lib::lemma_sorted_unique(
                recs_of(sorted@),
                self.records().sort_by(leq),
                leq,
            );
            assert(recs_of(sorted@) == self.records().sort_by(leq));
        }
        let ghost sv = recs_of(sorted@);
        let mut out = String::new();
        let mut k: usize = 0;
        proof {
            assert(out@ =~= lines_text(sv.take(0)));
        }
        while k < sorted.len()
            invariant
                0 <= k <= sorted@.len(),
                sv == recs_of(sorted@),
                self.wf(),
                sv.to_multiset() == self.records().to_multiset(),
                out@ == lines_text(sv.take(k as int)),
            decreases sorted@.len() - k,
        {
            proof {
                broadcast use vstd::seq_lib::group_to_multiset_ensures;

                assert(sv.contains(sv[k as int]));
                crate::seqs::lemma_multiset_transfer(sv, self.records(), sv[k as int]);
                let w = choose|w: int|
                    0 <= w < self.records().len() && self.records()[w] == sv[k as int];
                assert(record_wf(self.records()[w]));
                assert(is_pow10(sorted@[k as int]@.denom));
            }
            let line = sorted[k].to_line();
            out.append(line.as_str());
            push_char(&mut out, '\n');
            proof {
                assert(sv.take(k + 1).drop_last() =~= sv.take(k as int));
                assert(sv.take(k + 1).last() == sv[k as int]);
                assert(out@ =~= lines_text(sv.take(k + 1)));
            }
            k += 1;
        }
        proof {
            assert(sv.take(sv.len() as int) =~= sv);
        }
        out
    }
}

impl Default for PriceFlatFile {
    /// An empty store bound to no file.
    fn default() -> (r: Self)
        ensures
            r.wf(),
            r.records().len() == 0,
            r.path().len() == 0,
    {
        let r = PriceFlatFile { file_path: String::new(), prices: Vec::new() };
        proof {
            assert(r.records() =~= Seq::<RecordView>::empty());
        }
        r
    }
}

} // verus!
