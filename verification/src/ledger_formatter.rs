//! Formats stored prices as ledger journal lines, preferring a security's
//! ledger alias over its raw mnemonic.

use vstd::prelude::*;
use crate::decimal::{is_pow10, log10_of, render_decimal, spec_render};
use crate::model::{Price, PriceDbError, PriceView, SymbolMetadata, SymbolMetadataView};
use crate::seqs::{find_first, lemma_find_first_at, lemma_find_first_none};
use crate::text::{chars_lt, lemma_chars_le_antisymm, lemma_chars_le_trans, str_eq};

verus! {

/// The symbol a security displays in the journal: its ledger alias when one
/// exists, else its raw mnemonic.
pub open spec fn display_symbol(m: SymbolMetadataView) -> Seq<char> {
    match m.ledger_symbol {
        Some(l) => l,
        None => m.symbol,
    }
}

/// The full "NAMESPACE:SYMBOL" text of a security row.
pub open spec fn symbol_w_ns(m: SymbolMetadataView) -> Seq<char> {
    match m.namespace {
        Some(n) => n + seq![':'] + m.symbol,
        None => m.symbol,
    }
}

/// One formatted price line: the date and time always appear, and the
/// security's display symbol stands in for the raw one.
pub open spec fn price_line(p: PriceView, m: SymbolMetadataView) -> Seq<char> {
    "P "@ + p.date + seq![' '] + p.time + seq![' '] + display_symbol(m) + seq![' '] + spec_render(
        p.value,
        log10_of(p.denom),
    ) + seq![' '] + p.currency
}

/// Formats a single price record against its security's metadata.
pub fn format_price(price: &Price, sec: &SymbolMetadata) -> (r: String)
    requires
        is_pow10(price@.denom),
    ensures
        r@ == price_line(price@, sec@),
{
    proof {
        reveal_strlit("P ");
        reveal_strlit(" ");
    }
    let mut out: String = "P ".to_owned();
    out.append(price.date.as_str());
    out.append(" ");
    out.append(price.time.as_str());
    out.append(" ");
    let alias = sec.get_symbol();
    out.append(alias.as_str());
    out.append(" ");
    let dec = render_decimal(price.value, price.denom);
    out.append(dec.as_str());
    out.append(" ");
    out.append(price.currency.as_str());
    proof {
        assert(out@ =~= price_line(price@, sec@));
    }
    out
}

/// What formatting a price list denotes: each price resolved against the
/// security whose full symbol matches, one line each ending in a newline;
/// a price without a matching security fails the whole run.
pub open spec fn format_fold(
    prices: Seq<PriceView>,
    metas: Seq<SymbolMetadataView>,
    upto: int,
) -> Option<Seq<char>>
    decreases upto,
{
    if upto <= 0 {
        Some(Seq::empty())
    } else {
        match format_fold(prices, metas, upto - 1) {
            None => None,
            Some(acc) => {
                let k = find_first(
                    metas,
                    |m: SymbolMetadataView| symbol_w_ns(m) == prices[upto - 1].symbol,
                );
                if k < 0 {
                    None
                } else {
                    Some(acc + price_line(prices[upto - 1], metas[k]) + seq!['\n'])
                }
            },
        }
    }
}

/// Formats a list of prices against the securities metadata. Fails with
/// `NotFound` when a price has no matching security.
pub fn format_prices(prices: &Vec<Price>, securities: &Vec<SymbolMetadata>) -> (r: Result<
    String,
    PriceDbError,
>)
    requires
        forall|i: int| 0 <= i < prices@.len() ==> is_pow10((#[trigger] prices@[i])@.denom),
    ensures
        ({
            let pv = prices@.map_values(|p: Price| p@);
            let mv = securities@.map_values(|m: SymbolMetadata| m@);
            match r {
                Ok(s) => Some(s@) == format_fold(pv, mv, pv.len() as int),
                Err(e) => e == PriceDbError::NotFound && format_fold(pv, mv, pv.len() as int)
                    is None,
            }
        }),
{
    let ghost pv = prices@.map_values(|p: Price| p@);
    let ghost mv = securities@.map_values(|m: SymbolMetadata| m@);
    let mut out = String::new();
    let mut i: usize = 0;
    proof {
        assert(out@ =~= Seq::<char>::empty());
    }
    while i < prices.len()
        invariant
            0 <= i <= prices@.len(),
            pv == prices@.map_values(|p: Price| p@),
            mv == securities@.map_values(|m: SymbolMetadata| m@),
            forall|t: int| 0 <= t < prices@.len() ==> is_pow10((#[trigger] prices@[t])@.denom),
            Some(out@) == format_fold(pv, mv, i as int),
        decreases prices@.len() - i,
    {
        let ghost pred = |m: SymbolMetadataView| symbol_w_ns(m) == pv[i as int].symbol;
        let sec = match find_security(securities, &prices[i].symbol) {
            Some(j) => j,
            None => {
                proof {
                    assert(format_fold(pv, mv, i + 1) is None);
                    lemma_format_fold_none(pv, mv, i + 1, pv.len() as int);
                }
                return Err(PriceDbError::NotFound);
            },
        };
        proof {
            crate::seqs::lemma_find_first(mv, pred);
            assert(find_first(mv, pred) == sec as int);
            assert((sec as int) < mv.len());
        }
        let line = format_price(&prices[i], &securities[sec]);
        out.append(line.as_str());
        crate::text::push_char(&mut out, '\n');
        proof {
            assert(securities@[sec as int]@ == mv[sec as int]);
            assert(prices@[i as int]@ == pv[i as int]);
            assert(format_fold(pv, mv, i + 1) == Some(
                format_fold(pv, mv, i as int).unwrap() + price_line(pv[i as int], mv[sec as int])
                    + seq!['\n'],
            ));
            assert(out@ =~= format_fold(pv, mv, i as int).unwrap() + price_line(
                pv[i as int],
                mv[sec as int],
            ) + seq!['\n']);
        }
        i += 1;
    }
    Ok(out)
}

/// Finds the security whose full symbol matches the given one.
fn find_security(securities: &Vec<SymbolMetadata>, symbol: &String) -> (r: Option<usize>)
    ensures
        ({
            let mv = securities@.map_values(|m: SymbolMetadata| m@);
            let k = find_first(mv, |m: SymbolMetadataView| symbol_w_ns(m) == symbol@);
            match r {
                Some(j) => k == j as int,
                None => k < 0,
            }
        }),
{
    let ghost mv = securities@.map_values(|m: SymbolMetadata| m@);
    let ghost pred = |m: SymbolMetadataView| symbol_w_ns(m) == symbol@;
    let mut j: usize = 0;
    while j < securities.len()
        invariant
            0 <= j <= securities@.len(),
            mv == securities@.map_values(|m: SymbolMetadata| m@),
            pred == (|m: SymbolMetadataView| symbol_w_ns(m) == symbol@),
            forall|t: int| 0 <= t < j ==> !pred(#[trigger] mv[t]),
        decreases securities@.len() - j,
    {
        let full = securities[j].symbol_w_namespace();
        if str_eq(full.as_str(), symbol.as_str()) {
            proof {
                assert(symbol_w_ns(mv[j as int]) == symbol@);
                lemma_find_first_at(mv, pred, j as int);
            }
            return Some(j);
        }
        j += 1;
    }
    proof {
        lemma_find_first_none(mv, pred);
    }
    None
}

/// The export order: ascending by date, then time, then the full
/// `NAMESPACE:MNEMONIC` symbol text. The remaining fields break any
/// mathematical tie, which makes the order total and the exported text a
/// function of the store contents alone.
pub open spec fn export_le(a: PriceView, b: PriceView) -> bool {
    if a.date != b.date {
        chars_lt(a.date, b.date)
    } else if a.time != b.time {
        chars_lt(a.time, b.time)
    } else if a.symbol != b.symbol {
        chars_lt(a.symbol, b.symbol)
    } else if a.currency != b.currency {
        chars_lt(a.currency, b.currency)
    } else if a.id != b.id {
        a.id < b.id
    } else if a.value != b.value {
        a.value < b.value
    } else {
        a.denom <= b.denom
    }
}

proof fn lemma_chars_lt_trans(a: Seq<char>, b: Seq<char>, c: Seq<char>)
    requires
        chars_lt(a, b),
        chars_lt(b, c),
    ensures
        chars_lt(a, c),
{
    lemma_chars_le_trans(a, b, c);
    if a == c {
        lemma_chars_le_antisymm(a, b);
    }
}

/// The export order is a total order on price rows.
pub proof fn lemma_export_le_total_ordering()
    ensures
        vstd::relations::total_ordering(|a: PriceView, b: PriceView| export_le(a, b)),
{
    let leq = |a: PriceView, b: PriceView| export_le(a, b);
    assert forall|x: PriceView| #[trigger] leq(x, x) by {}
    assert forall|x: PriceView, y: PriceView| #[trigger] leq(x, y) && #[trigger] leq(y, x)
        implies x == y by {
        if x.date != y.date {
            lemma_chars_le_antisymm(x.date, y.date);
        } else if x.time != y.time {
            lemma_chars_le_antisymm(x.time, y.time);
        } else if x.symbol != y.symbol {
            lemma_chars_le_antisymm(x.symbol, y.symbol);
        } else if x.currency != y.currency {
            lemma_chars_le_antisymm(x.currency, y.currency);
        } else {
            assert(x =~= y);
        }
    }
    assert forall|x: PriceView, y: PriceView, z: PriceView|
        #[trigger] leq(x, y) && #[trigger] leq(y, z) implies leq(x, z) by {
        lemma_export_le_trans(x, y, z);
    }
    assert forall|x: PriceView, y: PriceView| #[trigger] leq(x, y) || #[trigger] leq(y, x) by {
        crate::text::lemma_chars_le_total(x.date, y.date);
        crate::text::lemma_chars_le_total(x.time, y.time);
        crate::text::lemma_chars_le_total(x.symbol, y.symbol);
        crate::text::lemma_chars_le_total(x.currency, y.currency);
    }
}

/// The export order relates every pair one way or the other.
pub proof fn lemma_export_le_connected(a: PriceView, b: PriceView)
    ensures
        export_le(a, b) || export_le(b, a),
{
    crate::text::lemma_chars_le_total(a.date, b.date);
    crate::text::lemma_chars_le_total(a.time, b.time);
    crate::text::lemma_chars_le_total(a.symbol, b.symbol);
    crate::text::lemma_chars_le_total(a.currency, b.currency);
}

proof fn lemma_export_le_trans(x: PriceView, y: PriceView, z: PriceView)
    requires
        export_le(x, y),
        export_le(y, z),
    ensures
        export_le(x, z),
{
    if x.date != y.date || y.date != z.date {
        if x.date != y.date && y.date != z.date {
            lemma_chars_lt_trans(x.date, y.date, z.date);
        }
    } else if x.time != y.time || y.time != z.time {
        if x.time != y.time && y.time != z.time {
            lemma_chars_lt_trans(x.time, y.time, z.time);
        }
    } else if x.symbol != y.symbol || y.symbol != z.symbol {
        if x.symbol != y.symbol && y.symbol != z.symbol {
            lemma_chars_lt_trans(x.symbol, y.symbol, z.symbol);
        }
    } else if x.currency != y.currency || y.currency != z.currency {
        if x.currency != y.currency && y.currency != z.currency {
            lemma_chars_lt_trans(x.currency, y.currency, z.currency);
        }
    }
}

/// Decides `export_le`.
fn price_export_le(a: &Price, b: &Price) -> (r: bool)
    ensures
        r == export_le(a@, b@),
{
    if !str_eq(a.date.as_str(), b.date.as_str()) {
        crate::text::str_le(a.date.as_str(), b.date.as_str())
    } else if !str_eq(a.time.as_str(), b.time.as_str()) {
        crate::text::str_le(a.time.as_str(), b.time.as_str())
    } else if !str_eq(a.symbol.as_str(), b.symbol.as_str()) {
        crate::text::str_le(a.symbol.as_str(), b.symbol.as_str())
    } else if !str_eq(a.currency.as_str(), b.currency.as_str()) {
        crate::text::str_le(a.currency.as_str(), b.currency.as_str())
    } else if a.id != b.id {
        a.id < b.id
    } else if a.value != b.value {
        a.value < b.value
    } else {
        a.denom <= b.denom
    }
}

/// Price rows in export order.
pub open spec fn export_sorted(s: Seq<PriceView>) -> bool {
    forall|i: int, j: int| 0 <= i < j < s.len() ==> #[trigger] export_le(s[i], s[j])
}

/// Sorts price rows into export order.
fn sort_for_export(input: Vec<Price>) -> (r: Vec<Price>)
    ensures
        views_list(r@).to_multiset() == views_list(input@).to_multiset(),
        export_sorted(views_list(r@)),
{
    broadcast use vstd::seq_lib::group_to_multiset_ensures;

    let mut out: Vec<Price> = Vec::new();
    let mut i: usize = 0;
    proof {
        assert(views_list(out@) =~= Seq::<PriceView>::empty());
        assert(views_list(input@.take(0)) =~= Seq::<PriceView>::empty());
    }
    while i < input.len()
        invariant
            0 <= i <= input@.len(),
            export_sorted(views_list(out@)),
            views_list(out@).to_multiset() == views_list(input@.take(i as int)).to_multiset(),
        decreases input@.len() - i,
    {
        let p = input[i].clone();
        let mut pos: usize = 0;
        while pos < out.len()
            invariant_except_break
                0 <= pos <= out@.len(),
                forall|k: int| 0 <= k < pos ==> export_le(#[trigger] out@[k]@, p@),
            ensures
                0 <= pos <= out@.len(),
                forall|k: int| 0 <= k < pos ==> export_le(#[trigger] out@[k]@, p@),
                pos < out@.len() ==> !export_le(out@[pos as int]@, p@),
            decreases out@.len() - pos,
        {
            if !price_export_le(&out[pos], &p) {
                break;
            }
            pos += 1;
        }
        proof {
            assert(forall|k: int|
                0 <= k < out@.len() ==> views_list(out@)[k] == #[trigger] out@[k]@);
            if pos < out@.len() {
                lemma_export_le_connected(out@[pos as int]@, p@);
                assert(export_le(p@, views_list(out@)[pos as int]));
            }
        }
        let ghost old_out = out@;
        out.insert(pos, p);
        proof {
            broadcast use vstd::seq_lib::group_to_multiset_ensures;

            lemma_export_le_total_ordering();
            let leq = |a: PriceView, b: PriceView| export_le(a, b);
            let ov = views_list(old_out);
            let nv = views_list(out@);
            assert(nv =~= ov.insert(pos as int, input@[i as int]@));
            crate::seqs::lemma_insert_multiset(ov, pos as int, input@[i as int]@);
            assert forall|x: int, y: int| 0 <= x < y < nv.len() implies export_le(nv[x], nv[y]) by {
                let pv = input@[i as int]@;
                if y < pos {
                    assert(nv[x] == ov[x] && nv[y] == ov[y]);
                } else if y == pos {
                    assert(nv[x] == ov[x] && nv[y] == pv);
                } else if x < pos {
                    assert(nv[x] == ov[x] && nv[y] == ov[y - 1]);
                    assert(export_le(ov[x], pv));
                    if y - 1 >= pos {
                        if y - 1 > pos {
                            assert(leq(pv, ov[pos as int]) && leq(ov[pos as int], ov[y - 1]));
                            assert(leq(pv, ov[y - 1]));
                        }
                        assert(leq(ov[x], pv) && leq(pv, ov[y - 1]));
                        assert(leq(ov[x], ov[y - 1]));
                    }
                } else if x == pos {
                    assert(nv[x] == pv && nv[y] == ov[y - 1]);
                    assert(export_le(pv, ov[pos as int]));
                    if y - 1 > pos {
                        assert(leq(pv, ov[pos as int]) && leq(ov[pos as int], ov[y - 1]));
                        assert(leq(pv, ov[y - 1]));
                    }
                } else {
                    assert(nv[x] == ov[x - 1] && nv[y] == ov[y - 1]);
                }
            }
            assert(views_list(input@.take(i + 1)) =~= views_list(input@.take(i as int)).push(
                input@[i as int]@,
            ));
            assert(nv.to_multiset() =~= views_list(input@.take(i + 1)).to_multiset());
        }
        i += 1;
    }
    proof {
        assert(input@.take(input@.len() as int) =~= input@);
    }
    out
}

/// The mathematical image of a price list.
pub open spec fn views_list(s: Seq<Price>) -> Seq<PriceView> {
    s.map_values(|p: Price| p@)
}

/// The exported journal text of the current prices: rows in export order,
/// each rendered against its security's metadata. A function of the
/// contents alone, so exporting an unchanged store reproduces identical
/// text; a price without a matching security fails the export.
pub open spec fn export_text(
    prices: Seq<PriceView>,
    metas: Seq<SymbolMetadataView>,
) -> Option<Seq<char>> {
    let sorted = prices.sort_by(|a: PriceView, b: PriceView| export_le(a, b));
    format_fold(sorted, metas, sorted.len() as int)
}

/// Renders the whole price table as a chronological journal: sorted
/// ascending by date, time and symbol, one line per price.
pub fn export_prices(prices: &Vec<Price>, securities: &Vec<SymbolMetadata>) -> (r: Result<
    String,
    PriceDbError,
>)
    requires
        forall|i: int| 0 <= i < prices@.len() ==> is_pow10((#[trigger] prices@[i])@.denom),
    ensures
        ({
            let pv = views_list(prices@);
            let mv = securities@.map_values(|m: SymbolMetadata| m@);
            match r {
                Ok(s) => Some(s@) == export_text(pv, mv),
                Err(e) => e == PriceDbError::NotFound && export_text(pv, mv) is None,
            }
        }),
{
    broadcast use vstd::seq_lib::group_to_multiset_ensures;

    let ghost pv = views_list(prices@);
    let ghost leq = |a: PriceView, b: PriceView| export_le(a, b);
    let mut copy: Vec<Price> = Vec::new();
    let mut i: usize = 0;
    proof {
        assert(views_list(copy@) =~= pv.take(0));
    }
    while i < prices.len()
        invariant
            0 <= i <= prices@.len(),
            pv == views_list(prices@),
            views_list(copy@) == pv.take(i as int),
        decreases prices@.len() - i,
    {
        let ghost prev = copy@;
        copy.push(prices[i].clone());
        proof {
            assert(views_list(copy@) =~= views_list(prev).push(prices@[i as int]@));
            assert(pv.take(i + 1) =~= pv.take(i as int).push(pv[i as int]));
            assert(views_list(copy@) =~= pv.take(i + 1));
        }
        i += 1;
    }
    proof {
        assert(pv.take(pv.len() as int) =~= pv);
    }
    let sorted = sort_for_export(copy);
    proof {
        lemma_export_le_total_ordering();
        pv.lemma_sort_by_ensures(leq);
        assert forall|x: int, y: int|
            0 <= x < y < views_list(sorted@).len() implies leq(
            views_list(sorted@)[x],
            views_list(sorted@)[y],
        ) by {
            assert(export_le(views_list(sorted@)[x], views_list(sorted@)[y]));
        }
        assert(vstd::relations::sorted_by(views_list(sorted@), leq));
        vstd::seq_lib::lemma_sorted_unique(views_list(sorted@), pv.sort_by(leq), leq);
        assert(views_list(sorted@) == pv.sort_by(leq));
        assert forall|t: int|
            0 <= t < sorted@.len() implies is_pow10((#[trigger] sorted@[t])@.denom) by {
            assert(views_list(sorted@).contains(views_list(sorted@)[t]));
            crate::seqs::lemma_multiset_transfer(
                views_list(sorted@),
                pv,
                views_list(sorted@)[t],
            );
            let w = choose|w: int| 0 <= w < pv.len() && pv[w] == views_list(sorted@)[t];
            assert(is_pow10(prices@[w]@.denom));
        }
    }
    format_prices(&sorted, securities)
}

proof fn lemma_format_fold_none(
    prices: Seq<PriceView>,
    metas: Seq<SymbolMetadataView>,
    i: int,
    j: int,
)
    requires
        0 <= i <= j,
        format_fold(prices, metas, i) is None,
    ensures
        format_fold(prices, metas, j) is None,
    decreases j - i,
{
    if i < j {
        lemma_format_fold_none(prices, metas, i, j - 1);
    }
}

} // verus!
