//! The relational price store, modelled as verified in-memory tables with the
//! same capability set as the SQL backend: insert, update, delete, filtered
//! queries, and newest-first price history. The natural key of a price is
//! `(symbol, date, time)`; the store keeps at most one row per key.

use vstd::prelude::*;
use crate::model::{
    matches_price, matches_security, price_matches, security_matches, Price, PriceDbError,
    PriceFilter, PriceFilterView, PriceView, Security, SecurityFilter, SecurityView,
};
use crate::seqs::{
    find_first, lemma_filter_equiv, lemma_filter_push, lemma_find_first, lemma_insert_multiset,
};
use crate::text::{
    chars_le, chars_lt, lemma_chars_le_antisymm, lemma_chars_le_total, lemma_chars_le_trans,
    str_eq, str_le,
};

verus! {

/// The mathematical image of a row table.
pub open spec fn views_of(s: Seq<Price>) -> Seq<PriceView> {
    s.map_values(|p: Price| p@)
}

pub open spec fn sec_views_of(s: Seq<Security>) -> Seq<SecurityView> {
    s.map_values(|p: Security| p@)
}

/// Two price rows describe the same observation instant of the same symbol.
pub open spec fn same_key(a: PriceView, b: PriceView) -> bool {
    a.symbol == b.symbol && a.date == b.date && a.time == b.time
}

/// A newest-first ordered sequence of price rows.
pub open spec fn newest_sorted(s: Seq<PriceView>) -> bool {
    forall|i: int, j: int| 0 <= i < j < s.len() ==> #[trigger] newest_first_le(s[i], s[j])
}

/// "Not older": `a` may stand before `b` in a newest-first history. Valid
/// dates and times are fixed-width, so their lexicographic order is their
/// chronological order.
pub open spec fn newest_first_le(a: PriceView, b: PriceView) -> bool {
    if a.date != b.date {
        chars_lt(b.date, a.date)
    } else if a.time != b.time {
        chars_lt(b.time, a.time)
    } else {
        true
    }
}

pub proof fn lemma_newest_first_total(a: PriceView, b: PriceView)
    ensures
        newest_first_le(a, b) || newest_first_le(b, a),
{
    lemma_chars_le_total(a.date, b.date);
    lemma_chars_le_total(a.time, b.time);
}

pub proof fn lemma_newest_first_trans(a: PriceView, b: PriceView, c: PriceView)
    requires
        newest_first_le(a, b),
        newest_first_le(b, c),
    ensures
        newest_first_le(a, c),
{
    if a.date != b.date || b.date != c.date {
        if a.date != b.date && b.date != c.date {
            lemma_chars_le_trans(c.date, b.date, a.date);
            if a.date == c.date {
                lemma_chars_le_antisymm(b.date, a.date);
            }
        }
    } else {
        // all three dates equal
        if a.time != b.time || b.time != c.time {
            if a.time != b.time && b.time != c.time {
                lemma_chars_le_trans(c.time, b.time, a.time);
                if a.time == c.time {
                    lemma_chars_le_antisymm(b.time, a.time);
                }
            }
        }
    }
}

/// Both ways round means the same observation instant.
pub proof fn lemma_newest_first_antisymm(a: PriceView, b: PriceView)
    requires
        newest_first_le(a, b),
        newest_first_le(b, a),
    ensures
        a.date == b.date && a.time == b.time,
{
    if a.date != b.date {
        lemma_chars_le_antisymm(a.date, b.date);
    } else if a.time != b.time {
        lemma_chars_le_antisymm(a.time, b.time);
    }
}

/// Decides `newest_first_le`.
pub fn price_newer_eq(a: &Price, b: &Price) -> (r: bool)
    ensures
        r == newest_first_le(a@, b@),
{
    if !str_eq(a.date.as_str(), b.date.as_str()) {
        str_le(b.date.as_str(), a.date.as_str())
    } else if !str_eq(a.time.as_str(), b.time.as_str()) {
        str_le(b.time.as_str(), a.time.as_str())
    } else {
        true
    }
}

/// Sorts price rows newest first: descending by date, then time.
pub fn sort_newest_first(input: Vec<Price>) -> (r: Vec<Price>)
    ensures
        views_of(r@).to_multiset() == views_of(input@).to_multiset(),
        newest_sorted(views_of(r@)),
{
    broadcast use vstd::seq_lib::group_to_multiset_ensures;

    let mut out: Vec<Price> = Vec::new();
    let mut i: usize = 0;
    proof {
        assert(views_of(out@) =~= Seq::<PriceView>::empty());
        assert(views_of(input@.take(0)) =~= Seq::<PriceView>::empty());
    }
    while i < input.len()
        invariant
            0 <= i <= input@.len(),
            newest_sorted(views_of(out@)),
            views_of(out@).to_multiset() == views_of(input@.take(i as int)).to_multiset(),
        decreases input@.len() - i,
    {
        let p = input[i].clone();
        let mut pos: usize = 0;
        while pos < out.len()
            invariant_except_break
                0 <= pos <= out@.len(),
                forall|k: int| 0 <= k < pos ==> newest_first_le(#[trigger] out@[k]@, p@),
            ensures
                0 <= pos <= out@.len(),
                forall|k: int| 0 <= k < pos ==> newest_first_le(#[trigger] out@[k]@, p@),
                pos < out@.len() ==> !newest_first_le(out@[pos as int]@, p@),
            decreases out@.len() - pos,
        {
            if !price_newer_eq(&out[pos], &p) {
                break;
            }
            pos += 1;
        }
        proof {
            assert(forall|k: int|
                0 <= k < out@.len() ==> views_of(out@)[k] == #[trigger] out@[k]@);
            if pos < out@.len() {
                lemma_newest_first_total(out@[pos as int]@, p@);
                assert(newest_first_le(p@, views_of(out@)[pos as int]));
            }
        }
        let ghost old_out = out@;
        out.insert(pos, p);
        proof {
            broadcast use vstd::seq_lib::group_to_multiset_ensures;

            let ov = views_of(old_out);
            let nv = views_of(out@);
            assert(nv =~= ov.insert(pos as int, input@[i as int]@));
            lemma_insert_multiset(ov, pos as int, input@[i as int]@);
            // the new sequence is still sorted
            assert forall|x: int, y: int| 0 <= x < y < nv.len() implies newest_first_le(
                nv[x],
                nv[y],
            ) by {
                let pv = input@[i as int]@;
                if y < pos {
                    assert(nv[x] == ov[x] && nv[y] == ov[y]);
                } else if y == pos {
                    assert(nv[x] == ov[x] && nv[y] == pv);
                } else if x < pos {
                    assert(nv[x] == ov[x] && nv[y] == ov[y - 1]);
                    if y - 1 >= pos {
                        assert(newest_first_le(ov[x], pv));
                        if y - 1 > pos {
                            assert(newest_first_le(pv, ov[pos as int]));
                            lemma_newest_first_trans(ov[x], pv, ov[pos as int]);
                            lemma_newest_first_trans(ov[x], ov[pos as int], ov[y - 1]);
                        } else {
                            lemma_newest_first_trans(ov[x], pv, ov[y - 1]);
                        }
                    }
                } else if x == pos {
                    assert(nv[x] == pv && nv[y] == ov[y - 1]);
                    assert(newest_first_le(pv, ov[pos as int]));
                    assert(y - 1 >= pos);
                    if y - 1 > pos {
                        lemma_newest_first_trans(pv, ov[pos as int], ov[y - 1]);
                    }
                } else {
                    assert(nv[x] == ov[x - 1] && nv[y] == ov[y - 1]);
                }
            }
            // the processed prefix grew by one element
            assert(views_of(input@.take(i + 1)) =~= views_of(input@.take(i as int)).push(
                input@[i as int]@,
            ));
            assert(nv.to_multiset() =~= views_of(input@.take(i + 1)).to_multiset());
        }
        i += 1;
    }
    proof {
        assert(input@.take(input@.len() as int) =~= input@);
    }
    out
}

/// Pairwise well-formedness of a price table: distinct natural keys and
/// distinct surrogate ids.
pub open spec fn rows_distinct(a: PriceView, b: PriceView) -> bool {
    !same_key(a, b) && a.id != b.id
}

pub open spec fn wf_prices(s: Seq<PriceView>) -> bool {
    forall|i: int, j: int| 0 <= i < j < s.len() ==> #[trigger] rows_distinct(s[i], s[j])
}

/// The rows of one symbol.
pub open spec fn prices_of_symbol(s: Seq<PriceView>, sym: Seq<char>) -> Seq<PriceView> {
    s.filter(|p: PriceView| p.symbol == sym)
}

/// The rows passing a price filter.
pub open spec fn prices_matching(s: Seq<PriceView>, fv: PriceFilterView) -> Seq<PriceView> {
    s.filter(|p: PriceView| price_matches(fv, p))
}

/// The securities passing a security filter.
pub open spec fn securities_matching(s: Seq<SecurityView>, fv: crate::model::SecurityFilterView) -> Seq<
    SecurityView,
> {
    s.filter(|x: SecurityView| security_matches(fv, x))
}

/// The view of an optional price filter; no filter selects everything.
pub open spec fn opt_price_filter_view(f: Option<PriceFilter>) -> PriceFilterView {
    match f {
        Some(x) => x@,
        None => PriceFilterView { symbol: None, date: None, time: None },
    }
}

pub open spec fn opt_security_filter_view(f: Option<SecurityFilter>) -> crate::model::SecurityFilterView {
    match f {
        Some(x) => x@,
        None => crate::model::SecurityFilterView {
            currency: None,
            agent: None,
            exchange: None,
            symbol: None,
        },
    }
}

/// The given price with its surrogate id replaced.
pub open spec fn with_id(p: PriceView, id: int) -> PriceView {
    PriceView { id, ..p }
}

/// How an update statement changes a row: each field of the incoming record
/// that holds its default value is left alone, the others are written.
pub open spec fn merge_price(oldp: PriceView, newp: PriceView) -> PriceView {
    PriceView {
        symbol: if newp.symbol.len() > 0 {
            newp.symbol
        } else {
            oldp.symbol
        },
        id: oldp.id,
        date: if newp.date.len() > 0 {
            newp.date
        } else {
            oldp.date
        },
        time: if newp.time.len() > 0 {
            newp.time
        } else {
            oldp.time
        },
        value: if newp.value != 0 {
            newp.value
        } else {
            oldp.value
        },
        denom: if newp.denom != 0 {
            newp.denom
        } else {
            oldp.denom
        },
        currency: if newp.currency.len() > 0 {
            newp.currency
        } else {
            oldp.currency
        },
    }
}

/// An in-memory table-backed store with the relational capability set. It is
/// single-writer by construction: the caller owns it for the whole run.
pub struct Store {
    prices: Vec<Price>,
    securities: Vec<Security>,
    next_id: i64,
}

impl Store {
    pub closed spec fn prices_view(&self) -> Seq<PriceView> {
        views_of(self.prices@)
    }

    pub closed spec fn securities_view(&self) -> Seq<SecurityView> {
        sec_views_of(self.securities@)
    }

    pub closed spec fn next_id_spec(&self) -> int {
        self.next_id as int
    }

    /// The store invariant: unique natural keys, unique ids, ids below the
    /// id counter.
    pub open spec fn wf(&self) -> bool {
        &&& wf_prices(self.prices_view())
        &&& forall|i: int|
            0 <= i < self.prices_view().len() ==> (#[trigger] self.prices_view()[i].id)
                < self.next_id_spec()
        &&& 0 < self.next_id_spec()
    }

    /// An empty store.
    pub fn new() -> (r: Store)
        ensures
            r.wf(),
            r.prices_view().len() == 0,
            r.securities_view().len() == 0,
    {
        let r = Store { prices: Vec::new(), securities: Vec::new(), next_id: 1 };
        proof {
            assert(r.prices_view() =~= Seq::<PriceView>::empty());
            assert(r.securities_view() =~= Seq::<SecurityView>::empty());
        }
        r
    }

    /// Idempotent schema setup: drop whatever is there and start empty.
    pub fn create_tables(&mut self)
        ensures
            final(self).wf(),
            final(self).prices_view().len() == 0,
            final(self).securities_view().len() == 0,
    {
        self.prices = Vec::new();
        self.securities = Vec::new();
        self.next_id = 1;
        proof {
            assert(self.prices_view() =~= Seq::<PriceView>::empty());
            assert(self.securities_view() =~= Seq::<SecurityView>::empty());
        }
    }

    /// Inserts a new price row under a fresh id. The caller has ruled out an
    /// existing row with the same `(symbol, date, time)` key; reconciliation
    /// is the one writer and looks the key up first.
    pub fn add_price(&mut self, new_price: &Price) -> (r: usize)
        requires
            old(self).wf(),
            old(self).next_id_spec() < i64::MAX,
            forall|i: int|
                0 <= i < old(self).prices_view().len() ==> !same_key(
                    #[trigger] old(self).prices_view()[i],
                    new_price@,
                ),
        ensures
            final(self).wf(),
            final(self).prices_view() == old(self).prices_view().push(
                with_id(new_price@, old(self).next_id_spec()),
            ),
            final(self).securities_view() == old(self).securities_view(),
            final(self).next_id_spec() == old(self).next_id_spec() + 1,
            r == 1,
    {
        let mut row = new_price.clone();
        row.id = self.next_id;
        self.prices.push(row);
        self.next_id = self.next_id + 1;
        proof {
            let ov = old(self).prices_view();
            let nv = self.prices_view();
            let stamped = with_id(new_price@, old(self).next_id_spec());
            assert(nv =~= ov.push(stamped));
            assert forall|i: int, j: int| 0 <= i < j < nv.len() implies #[trigger] rows_distinct(
                nv[i],
                nv[j],
            ) by {
                if j == nv.len() - 1 {
                    assert(nv[i] == ov[i]);
                    assert(!same_key(ov[i], new_price@));
                    assert(!same_key(ov[i], stamped));
                    assert(ov[i].id < old(self).next_id_spec());
                }
            }
        }
        1
    }

    /// Inserts a security row as given.
    pub fn add_security(&mut self, security: &Security) -> (r: usize)
        ensures
            final(self).securities_view() == old(self).securities_view().push(security@),
            final(self).prices_view() == old(self).prices_view(),
            final(self).next_id_spec() == old(self).next_id_spec(),
            old(self).wf() ==> final(self).wf(),
            r == 1,
    {
        self.securities.push(security.clone());
        proof {
            assert(self.securities_view() =~= old(self).securities_view().push(security@));
        }
        1
    }

    /// Deletes the price row with the given id; reports how many rows went.
    pub fn delete_price(&mut self, id: i64) -> (r: Result<usize, PriceDbError>)
        requires
            old(self).wf(),
        ensures
            final(self).wf(),
            final(self).prices_view() == old(self).prices_view().filter(
                (|p: PriceView| p.id != id as int),
            ),
            final(self).securities_view() == old(self).securities_view(),
            final(self).next_id_spec() == old(self).next_id_spec(),
            r == Ok::<usize, PriceDbError>(
                (old(self).prices_view().len() - final(self).prices_view().len()) as usize,
            ),
    {
        let ghost keep = |p: PriceView| p.id != id as int;
        let mut out: Vec<Price> = Vec::new();
        let mut i: usize = 0;
        proof {
            assert(views_of(out@) =~= Seq::<PriceView>::empty());
            assert(self.prices_view().take(0).filter(keep) =~= Seq::<PriceView>::empty());
        }
        while i < self.prices.len()
            invariant
                0 <= i <= self.prices@.len(),
                keep == (|p: PriceView| p.id != id as int),
                views_of(out@) == self.prices_view().take(i as int).filter(keep),
                out@.len() <= i,
            decreases self.prices@.len() - i,
        {
            proof {
                assert(self.prices_view().take(i + 1).drop_last() =~= self.prices_view().take(
                    i as int,
                ));
                crate::seqs::lemma_filter_push(
                    self.prices_view().take(i as int),
                    self.prices_view()[i as int],
                    keep,
                );
                assert(self.prices_view().take(i + 1) =~= self.prices_view().take(i as int).push(
                    self.prices_view()[i as int],
                ));
            }
            if self.prices[i].id != id {
                out.push(self.prices[i].clone());
                proof {
                    assert(views_of(out@) =~= self.prices_view().take(i + 1).filter(keep));
                }
            }
            i += 1;
        }
        let removed = self.prices.len() - out.len();
        proof {
            assert(self.prices_view().take(self.prices@.len() as int) =~= self.prices_view());
            lemma_filter_pairwise_prices(self.prices_view(), keep);
            lemma_filter_id_bound(self.prices_view(), keep, self.next_id_spec());
            self.prices_view().lemma_filter_len(keep);
        }
        self.prices = out;
        Ok(removed)
    }

    /// All price rows that pass the filter, in table order.
    pub fn get_prices(&self, filter: Option<PriceFilter>) -> (r: Vec<Price>)
        ensures
            views_of(r@) == prices_matching(self.prices_view(), opt_price_filter_view(filter)),
    {
        let f = match &filter {
            Some(x) => PriceFilter {
                symbol: clone_opt(&x.symbol),
                date: clone_opt(&x.date),
                time: clone_opt(&x.time),
            },
            None => PriceFilter::new(),
        };
        proof {
            assert(f@ =~= opt_price_filter_view(filter));
        }
        let ghost fv = opt_price_filter_view(filter);
        let ghost keep = |p: PriceView| price_matches(fv, p);
        let mut out: Vec<Price> = Vec::new();
        let mut i: usize = 0;
        proof {
            assert(views_of(out@) =~= Seq::<PriceView>::empty());
            assert(self.prices_view().take(0).filter(keep) =~= Seq::<PriceView>::empty());
        }
        while i < self.prices.len()
            invariant
                0 <= i <= self.prices@.len(),
                fv == opt_price_filter_view(filter),
                f@ == fv,
                keep == (|p: PriceView| price_matches(fv, p)),
                views_of(out@) == self.prices_view().take(i as int).filter(keep),
            decreases self.prices@.len() - i,
        {
            proof {
                crate::seqs::lemma_filter_push(
                    self.prices_view().take(i as int),
                    self.prices_view()[i as int],
                    keep,
                );
                assert(self.prices_view().take(i + 1) =~= self.prices_view().take(i as int).push(
                    self.prices_view()[i as int],
                ));
            }
            if matches_price(&f, &self.prices[i]) {
                out.push(self.prices[i].clone());
                proof {
                    assert(views_of(out@) =~= self.prices_view().take(i + 1).filter(keep));
                }
            }
            i += 1;
        }
        proof {
            assert(self.prices_view().take(self.prices@.len() as int) =~= self.prices_view());
        }
        out
    }

    /// All securities that pass the filter, in table order.
    pub fn get_securities(&self, filter: Option<SecurityFilter>) -> (r: Vec<Security>)
        ensures
            sec_views_of(r@) == securities_matching(
                self.securities_view(),
                opt_security_filter_view(filter),
            ),
    {
        let f = match &filter {
            Some(x) => SecurityFilter {
                currency: clone_opt(&x.currency),
                agent: clone_opt(&x.agent),
                exchange: clone_opt(&x.exchange),
                symbol: clone_opt(&x.symbol),
            },
            None => SecurityFilter::new(),
        };
        proof {
            assert(f@ =~= opt_security_filter_view(filter));
        }
        let ghost fv = opt_security_filter_view(filter);
        let ghost keep = |x: SecurityView| security_matches(fv, x);
        let mut out: Vec<Security> = Vec::new();
        let mut i: usize = 0;
        proof {
            assert(sec_views_of(out@) =~= Seq::<SecurityView>::empty());
            assert(self.securities_view().take(0).filter(keep) =~= Seq::<SecurityView>::empty());
        }
        while i < self.securities.len()
            invariant
                0 <= i <= self.securities@.len(),
                fv == opt_security_filter_view(filter),
                f@ == fv,
                keep == (|x: SecurityView| security_matches(fv, x)),
                sec_views_of(out@) == self.securities_view().take(i as int).filter(keep),
            decreases self.securities@.len() - i,
        {
            proof {
                crate::seqs::lemma_filter_push(
                    self.securities_view().take(i as int),
                    self.securities_view()[i as int],
                    keep,
                );
                assert(self.securities_view().take(i + 1) =~= self.securities_view().take(
                    i as int,
                ).push(self.securities_view()[i as int]));
            }
            if matches_security(&f, &self.securities[i]) {
                out.push(self.securities[i].clone());
                proof {
                    assert(sec_views_of(out@) =~= self.securities_view().take(i + 1).filter(keep));
                }
            }
            i += 1;
        }
        proof {
            assert(self.securities_view().take(self.securities@.len() as int)
                =~= self.securities_view());
        }
        out
    }
}

/// Whether some price row carries this symbol.
pub open spec fn has_price(prices: Seq<PriceView>, sym: Seq<char>) -> bool {
    exists|i: int| 0 <= i < prices.len() && (#[trigger] prices[i]).symbol == sym
}

impl Store {
    /// Updates the row whose id matches, writing each non-default field of
    /// the given record; reports how many rows changed. The caller keeps the
    /// row on its `(symbol, date, time)` key.
    pub fn update_price(&mut self, price: &Price) -> (r: Result<usize, PriceDbError>)
        requires
            old(self).wf(),
            forall|i: int|
                0 <= i < old(self).prices_view().len() && (#[trigger] old(
                    self,
                ).prices_view()[i]).id == price@.id ==> same_key(
                    merge_price(old(self).prices_view()[i], price@),
                    old(self).prices_view()[i],
                ),
        ensures
            final(self).wf(),
            final(self).securities_view() == old(self).securities_view(),
            final(self).next_id_spec() == old(self).next_id_spec(),
            ({
                let k = find_first(
                    old(self).prices_view(),
                    |p: PriceView| p.id == price@.id,
                );
                if k < 0 {
                    final(self).prices_view() == old(self).prices_view() && r == Ok::<
                        usize,
                        PriceDbError,
                    >(0)
                } else {
                    final(self).prices_view() == old(self).prices_view().update(
                        k,
                        merge_price(old(self).prices_view()[k], price@),
                    ) && r == Ok::<usize, PriceDbError>(1)
                }
            }),
    {
        let ghost pred = |p: PriceView| p.id == price@.id;
        let mut i: usize = 0;
        while i < self.prices.len()
            invariant
                self == old(self),
                old(self).wf(),
                forall|j: int|
                    0 <= j < old(self).prices_view().len() && (#[trigger] old(
                        self,
                    ).prices_view()[j]).id == price@.id ==> same_key(
                        merge_price(old(self).prices_view()[j], price@),
                        old(self).prices_view()[j],
                    ),
                0 <= i <= self.prices@.len(),
                pred == (|p: PriceView| p.id == price@.id),
                forall|j: int| 0 <= j < i ==> !pred(#[trigger] self.prices_view()[j]),
            decreases self.prices@.len() - i,
        {
            if self.prices[i].id == price.id {
                proof {
                    crate::seqs::lemma_find_first_at(self.prices_view(), pred, i as int);
                }
                let existing = self.prices[i].clone();
                let merged = Price {
                    symbol: if price.symbol.as_str().is_empty() {
                        existing.symbol.clone()
                    } else {
                        price.symbol.clone()
                    },
                    id: existing.id,
                    date: if price.date.as_str().is_empty() {
                        existing.date.clone()
                    } else {
                        price.date.clone()
                    },
                    time: if price.time.as_str().is_empty() {
                        existing.time.clone()
                    } else {
                        price.time.clone()
                    },
                    value: if price.value != 0 {
                        price.value
                    } else {
                        existing.value
                    },
                    denom: if price.denom != 0 {
                        price.denom
                    } else {
                        existing.denom
                    },
                    currency: if price.currency.as_str().is_empty() {
                        existing.currency.clone()
                    } else {
                        price.currency.clone()
                    },
                };
                let ghost before = self.prices_view();
                vstd::pervasive::VecAdditionalExecFns::set(&mut self.prices, i, merged);
                proof {
                    let nv = self.prices_view();
                    let mv = merge_price(before[i as int], price@);
                    assert(nv =~= before.update(i as int, mv));
                    assert forall|a: int, b: int|
                        0 <= a < b < nv.len() implies #[trigger] rows_distinct(nv[a], nv[b]) by {
                        if a != i && b != i {
                            assert(rows_distinct(before[a], before[b]));
                        } else {
                            assert(same_key(mv, before[i as int]));
                            assert(mv.id == before[i as int].id);
                            if a == i {
                                assert(rows_distinct(before[a], before[b]));
                                assert(!same_key(before[a], before[b]));
                            } else {
                                assert(rows_distinct(before[a], before[b]));
                                assert(!same_key(before[a], before[b]));
                            }
                        }
                    }
                    assert forall|a: int|
                        0 <= a < nv.len() implies (#[trigger] nv[a].id) < self.next_id_spec() by {
                        assert(before[a].id < self.next_id_spec());
                    }
                }
                return Ok(1);
            }
            i += 1;
        }
        proof {
            crate::seqs::lemma_find_first_none(self.prices_view(), pred);
        }
        Ok(0)
    }

    /// The price history of one symbol, ordered newest first: descending by
    /// date, then by time.
    pub fn get_prices_for_security(&self, symbol: &str) -> (r: Vec<Price>)
        ensures
            views_of(r@).to_multiset() == prices_of_symbol(
                self.prices_view(),
                symbol@,
            ).to_multiset(),
            newest_sorted(views_of(r@)),
    {
        let ghost keep = |p: PriceView| p.symbol == symbol@;
        let mut picked: Vec<Price> = Vec::new();
        let mut i: usize = 0;
        proof {
            assert(views_of(picked@) =~= Seq::<PriceView>::empty());
            assert(self.prices_view().take(0).filter(keep) =~= Seq::<PriceView>::empty());
        }
        while i < self.prices.len()
            invariant
                0 <= i <= self.prices@.len(),
                keep == (|p: PriceView| p.symbol == symbol@),
                views_of(picked@) == self.prices_view().take(i as int).filter(keep),
            decreases self.prices@.len() - i,
        {
            proof {
                crate::seqs::lemma_filter_push(
                    self.prices_view().take(i as int),
                    self.prices_view()[i as int],
                    keep,
                );
                assert(self.prices_view().take(i + 1) =~= self.prices_view().take(i as int).push(
                    self.prices_view()[i as int],
                ));
            }
            if str_eq(self.prices[i].symbol.as_str(), symbol) {
                picked.push(self.prices[i].clone());
                proof {
                    assert(views_of(picked@) =~= self.prices_view().take(i + 1).filter(keep));
                }
            }
            i += 1;
        }
        proof {
            assert(self.prices_view().take(self.prices@.len() as int) =~= self.prices_view());
        }
        sort_newest_first(picked)
    }

    /// The first security whose symbol equals the uppercased argument.
    pub fn get_security_by_symbol(&self, symbol: &str) -> (r: Option<Security>)
        ensures
            ({
                let k = find_first(
                    self.securities_view(),
                    |x: SecurityView| x.symbol == crate::text::upper_of(symbol@),
                );
                match r {
                    Some(s) => k >= 0 && s@ == self.securities_view()[k],
                    None => k < 0,
                }
            }),
    {
        let su = crate::text::to_upper(symbol);
        let ghost pred = |x: SecurityView| x.symbol == crate::text::upper_of(symbol@);
        let mut i: usize = 0;
        while i < self.securities.len()
            invariant
                0 <= i <= self.securities@.len(),
                su@ == crate::text::upper_of(symbol@),
                pred == (|x: SecurityView| x.symbol == crate::text::upper_of(symbol@)),
                forall|j: int| 0 <= j < i ==> !pred(#[trigger] self.securities_view()[j]),
            decreases self.securities@.len() - i,
        {
            if str_eq(self.securities[i].symbol.as_str(), su.as_str()) {
                proof {
                    crate::seqs::lemma_find_first_at(self.securities_view(), pred, i as int);
                }
                return Some(self.securities[i].clone());
            }
            i += 1;
        }
        proof {
            crate::seqs::lemma_find_first_none(self.securities_view(), pred);
        }
        None
    }

    /// Whether any price row carries this symbol.
    pub fn symbol_has_price(&self, symbol: &str) -> (r: bool)
        ensures
            r == has_price(self.prices_view(), symbol@),
    {
        let mut i: usize = 0;
        while i < self.prices.len()
            invariant
                0 <= i <= self.prices@.len(),
                forall|j: int| 0 <= j < i ==> (#[trigger] self.prices_view()[j]).symbol != symbol@,
            decreases self.prices@.len() - i,
        {
            if str_eq(self.prices[i].symbol.as_str(), symbol) {
                proof {
                    assert(self.prices_view()[i as int].symbol == symbol@);
                }
                return true;
            }
            i += 1;
        }
        false
    }

    /// The securities that have at least one stored price, in table order.
    pub fn get_securities_having_prices(&self) -> (r: Vec<Security>)
        ensures
            sec_views_of(r@) == self.securities_view().filter(
                (|x: SecurityView| has_price(self.prices_view(), x.symbol)),
            ),
    {
        let ghost keep = |x: SecurityView| has_price(self.prices_view(), x.symbol);
        let mut out: Vec<Security> = Vec::new();
        let mut i: usize = 0;
        proof {
            assert(sec_views_of(out@) =~= Seq::<SecurityView>::empty());
            assert(self.securities_view().take(0).filter(keep) =~= Seq::<SecurityView>::empty());
        }
        while i < self.securities.len()
            invariant
                0 <= i <= self.securities@.len(),
                keep == (|x: SecurityView| has_price(self.prices_view(), x.symbol)),
                sec_views_of(out@) == self.securities_view().take(i as int).filter(keep),
            decreases self.securities@.len() - i,
        {
            proof {
                crate::seqs::lemma_filter_push(
                    self.securities_view().take(i as int),
                    self.securities_view()[i as int],
                    keep,
                );
                assert(self.securities_view().take(i + 1) =~= self.securities_view().take(
                    i as int,
                ).push(self.securities_view()[i as int]));
            }
            if self.symbol_has_price(self.securities[i].symbol.as_str()) {
                out.push(self.securities[i].clone());
                proof {
                    assert(sec_views_of(out@) =~= self.securities_view().take(i + 1).filter(keep));
                }
            }
            i += 1;
        }
        proof {
            assert(self.securities_view().take(self.securities@.len() as int)
                =~= self.securities_view());
        }
        out
    }

    /// The number of stored price rows.
    pub fn count_prices(&self) -> (n: usize)
        ensures
            n as int == self.prices_view().len(),
    {
        self.prices.len()
    }

    /// The distinct symbols that have at least one stored price, in order of
    /// first appearance.
    pub fn get_symbols_with_prices(&self) -> (r: Vec<String>)
        ensures
            symlist_view(r@) == distinct_syms(self.prices_view()),
    {
        let mut out: Vec<String> = Vec::new();
        let mut i: usize = 0;
        proof {
            assert(symlist_view(out@) =~= Seq::<Seq<char>>::empty());
            assert(self.prices_view().take(0) =~= Seq::<PriceView>::empty());
        }
        while i < self.prices.len()
            invariant
                0 <= i <= self.prices@.len(),
                symlist_view(out@) == distinct_syms(self.prices_view().take(i as int)),
            decreases self.prices@.len() - i,
        {
            let sym = &self.prices[i].symbol;
            let mut seen = false;
            let mut k: usize = 0;
            while k < out.len()
                invariant_except_break
                    0 <= k <= out@.len(),
                    seen == false,
                    forall|j: int| 0 <= j < k ==> (#[trigger] out@[j])@ != sym@,
                ensures
                    seen ==> exists|j: int| 0 <= j < out@.len() && (#[trigger] out@[j])@ == sym@,
                    !seen ==> forall|j: int| 0 <= j < out@.len() ==> (#[trigger] out@[j])@ != sym@,
                decreases out@.len() - k,
            {
                if str_eq(out[k].as_str(), sym.as_str()) {
                    seen = true;
                    proof {
                        assert(out@[k as int]@ == sym@);
                    }
                    break;
                }
                k += 1;
            }
            proof {
                let dt = distinct_syms(self.prices_view().take(i as int));
                assert(self.prices_view().take(i + 1).drop_last() =~= self.prices_view().take(
                    i as int,
                ));
                assert(self.prices_view().take(i + 1).last() == self.prices_view()[i as int]);
                if seen {
                    let j = choose|j: int| 0 <= j < out@.len() && (#[trigger] out@[j])@ == sym@;
                    assert(symlist_view(out@)[j] == sym@);
                    assert(dt.contains(sym@));
                } else {
                    if dt.contains(sym@) {
                        let j = choose|j: int| 0 <= j < dt.len() && dt[j] == sym@;
                        assert(symlist_view(out@)[j] == sym@);
                        assert(out@[j]@ == sym@);
                    }
                }
            }
            let ghost prev_out = out@;
            if !seen {
                let copy = sym.clone();
                out.push(copy);
                proof {
                    assert(symlist_view(out@) =~= symlist_view(prev_out).push(
                        self.prices_view()[i as int].symbol,
                    ));
                }
            }
            i += 1;
        }
        proof {
            assert(self.prices_view().take(self.prices@.len() as int) =~= self.prices_view());
        }
        out
    }
}

/// The texts of a list of symbol strings.
pub open spec fn symlist_view(l: Seq<String>) -> Seq<Seq<char>> {
    l.map_values(|x: String| x@)
}


/// Whether `p` is the newest stored price of its own symbol.
pub open spec fn is_newest(s: Seq<PriceView>, p: PriceView) -> bool {
    forall|i: int|
        0 <= i < s.len() && (#[trigger] s[i]).symbol == p.symbol ==> newest_first_le(p, s[i])
}

/// The distinct symbols of a price table, in order of first appearance.
pub open spec fn distinct_syms(s: Seq<PriceView>) -> Seq<Seq<char>>
    decreases s.len(),
{
    if s.len() == 0 {
        Seq::empty()
    } else {
        let t = distinct_syms(s.drop_last());
        if t.contains(s.last().symbol) {
            t
        } else {
            t.push(s.last().symbol)
        }
    }
}

/// The distinct-symbol list covers exactly the symbols present, once each.
pub proof fn lemma_distinct_syms(s: Seq<PriceView>)
    ensures
        forall|k: int| 0 <= k < distinct_syms(s).len() ==> has_price(s, #[trigger] distinct_syms(s)[k]),
        forall|i: int| 0 <= i < s.len() ==> distinct_syms(s).contains((#[trigger] s[i]).symbol),
        forall|k1: int, k2: int|
            0 <= k1 < k2 < distinct_syms(s).len() ==> distinct_syms(s)[k1] != distinct_syms(s)[k2],
    decreases s.len(),
{
    if s.len() > 0 {
        let t = s.drop_last();
        let ds = distinct_syms(s);
        let dt = distinct_syms(t);
        lemma_distinct_syms(t);
        assert(forall|i: int| 0 <= i < t.len() ==> t[i] == #[trigger] s[i]);
        assert forall|k: int| 0 <= k < ds.len() implies has_price(s, #[trigger] ds[k]) by {
            if k < dt.len() {
                assert(has_price(t, dt[k]));
                let w = choose|w: int| 0 <= w < t.len() && (#[trigger] t[w]).symbol == dt[k];
                assert(s[w].symbol == dt[k]);
            } else {
                assert(ds[k] == s.last().symbol);
                assert(s[s.len() - 1].symbol == ds[k]);
            }
        }
        assert forall|i: int| 0 <= i < s.len() implies ds.contains((#[trigger] s[i]).symbol) by {
            if i < s.len() - 1 {
                assert(dt.contains(t[i].symbol));
                let w = choose|w: int| 0 <= w < dt.len() && dt[w] == t[i].symbol;
                assert(ds[w] == t[i].symbol);
            } else {
                if dt.contains(s.last().symbol) {
                    let w = choose|w: int| 0 <= w < dt.len() && dt[w] == s.last().symbol;
                    assert(ds[w] == s.last().symbol);
                } else {
                    assert(ds[ds.len() - 1] == s.last().symbol);
                }
            }
        }
        if !dt.contains(s.last().symbol) {
            assert forall|k1: int, k2: int| 0 <= k1 < k2 < ds.len() implies ds[k1] != ds[k2] by {
                if k2 == ds.len() - 1 {
                    assert(ds[k1] == dt[k1]);
                    if ds[k1] == s.last().symbol {
                        assert(dt.contains(s.last().symbol));
                    }
                }
            }
        }
    }
}

fn clone_opt(o: &Option<String>) -> (r: Option<String>)
    ensures
        crate::model::opt_view(r) == crate::model::opt_view(*o),
{
    match o {
        Some(s) => Some(s.clone()),
        None => None,
    }
}

/// Well-formedness carries over to any filtered table.
pub proof fn lemma_filter_pairwise_prices(s: Seq<PriceView>, pred: spec_fn(PriceView) -> bool)
    requires
        wf_prices(s),
    ensures
        wf_prices(s.filter(pred)),
{
    assert forall|i: int, j: int| 0 <= i < j < s.len() implies #[trigger] rows_distinct(
        s[j],
        s[i],
    ) by {
        assert(rows_distinct(s[i], s[j]));
    }
    crate::seqs::lemma_filter_pairwise(s, pred, |a: PriceView, b: PriceView| rows_distinct(a, b));
    assert forall|i: int, j: int| 0 <= i < j < s.filter(pred).len() implies #[trigger] rows_distinct(
        s.filter(pred)[i],
        s.filter(pred)[j],
    ) by {
        let prop = |a: PriceView, b: PriceView| rows_distinct(a, b);
        assert(prop(s.filter(pred)[i], s.filter(pred)[j]));
    }
}

/// The id bound carries over to any filtered table.
proof fn lemma_filter_id_bound(s: Seq<PriceView>, pred: spec_fn(PriceView) -> bool, bound: int)
    requires
        forall|i: int| 0 <= i < s.len() ==> (#[trigger] s[i].id) < bound,
    ensures
        forall|i: int| 0 <= i < s.filter(pred).len() ==> (#[trigger] s.filter(pred)[i].id) < bound,
{
    crate::seqs::lemma_filter_members(s, pred);
    assert forall|i: int| 0 <= i < s.filter(pred).len() implies (#[trigger] s.filter(
        pred,
    )[i].id) < bound by {
        assert(s.contains(s.filter(pred)[i]));
        let j = choose|j: int| 0 <= j < s.len() && s[j] == s.filter(pred)[i];
        assert(s[j].id < bound);
    }
}

} // verus!
