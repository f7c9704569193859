//! Price database engine: a fixed-point price store with insert-or-update
//! reconciliation, history pruning, dynamic filtered queries, and a
//! deterministic ledger-style flat-file codec.
//!
//! The engine is single-process and single-writer: one `App` owns its store
//! for the duration of a run, and the read-then-write in reconciliation is
//! not atomic against any concurrent writer.

use vstd::prelude::*;

pub mod config;
pub mod datetime;
pub mod decimal;
pub mod digits;
pub mod ledger_formatter;
pub mod model;
pub mod price_flat_file;
pub mod quote;
pub mod seqs;
pub mod sql;
pub mod store;
pub mod text;

use crate::config::PriceDbConfig;
use crate::model::{opt_view, Price, PriceDbError, PriceFilter, PriceView, SecurityFilter};
use crate::seqs::{
    find_first, lemma_count2_dup, lemma_dup_count, lemma_filter_all, lemma_filter_equiv,
    lemma_find_first, lemma_find_first_at,
};
use crate::store::{
    distinct_syms, is_newest, lemma_distinct_syms, lemma_filter_pairwise_prices,
    lemma_newest_first_antisymm, merge_price, newest_first_le, newest_sorted, prices_of_symbol,
    rows_distinct, same_key, symlist_view, views_of, wf_prices, with_id, Store,
};

verus! {

/// What one reconciliation run reports: how many rows were inserted and how
/// many updated (each 0 or 1).
#[derive(Debug, Clone, Copy, PartialEq, Eq, Structural)]
pub struct UpsertOutcome {
    pub inserted: u32,
    pub updated: u32,
}

/// What one pruning run reports: how many symbols were processed and how
/// many price rows were deleted in total.
#[derive(Debug, Clone, Copy, PartialEq, Eq, Structural)]
pub struct PruneResult {
    pub processed: usize,
    pub deleted: usize,
}

/// The row an update writes during reconciliation: the existing row with the
/// incoming value and denominator, under the update statement's rule that a
/// default (zero) field is left alone.
pub open spec fn upsert_merged(ex: PriceView, p: PriceView) -> PriceView {
    merge_price(ex, PriceView { value: p.value, denom: p.denom, ..ex })
}

/// The table after reconciling one observation: insert when the
/// `(symbol, date, time)` key is absent, leave a conflicting or identical row
/// alone, update the value otherwise.
pub open spec fn upsert_prices(prices: Seq<PriceView>, next_id: int, p: PriceView) -> Seq<
    PriceView,
> {
    let k = find_first(prices, |q: PriceView| same_key(q, p));
    if k < 0 {
        prices.push(with_id(p, next_id))
    } else if prices[k].currency != p.currency {
        prices
    } else if prices[k].value == p.value && prices[k].denom == p.denom {
        prices
    } else {
        prices.update(k, upsert_merged(prices[k], p))
    }
}

/// What reconciling one observation reports: a currency disagreement on an
/// existing key is a conflict and changes nothing; otherwise exactly the
/// performed action is counted.
pub open spec fn upsert_result(prices: Seq<PriceView>, p: PriceView) -> Result<
    UpsertOutcome,
    PriceDbError,
> {
    let k = find_first(prices, |q: PriceView| same_key(q, p));
    if k < 0 {
        Ok(UpsertOutcome { inserted: 1, updated: 0 })
    } else if prices[k].currency != p.currency {
        Err(PriceDbError::Conflict)
    } else if prices[k].value == p.value && prices[k].denom == p.denom {
        Ok(UpsertOutcome { inserted: 0, updated: 0 })
    } else {
        Ok(UpsertOutcome { inserted: 0, updated: 1 })
    }
}

/// Whether a row survives pruning one symbol: rows of other symbols always
/// do, and of the pruned symbol only the newest.
pub open spec fn keep_row(p: PriceView, orig: Seq<PriceView>, sym: Seq<char>) -> bool {
    p.symbol != sym || is_newest(orig, p)
}

/// Whether a row's id escapes the first `upto` entries of a newest-first
/// history (entry 0, the newest, is never deleted).
pub open spec fn not_deleted_upto(p: PriceView, hist: Seq<PriceView>, upto: int) -> bool {
    forall|j: int| 1 <= j < upto ==> p.id != (#[trigger] hist[j]).id
}

/// Application logic over one store, exposing the engine as a library.
pub struct App {
    pub config: PriceDbConfig,
    pub store: Store,
}

impl App {
    pub open spec fn wf(&self) -> bool {
        self.store.wf()
    }

    pub open spec fn prices(&self) -> Seq<PriceView> {
        self.store.prices_view()
    }

    pub open spec fn securities(&self) -> Seq<crate::model::SecurityView> {
        self.store.securities_view()
    }

    pub open spec fn next_price_id(&self) -> int {
        self.store.next_id_spec()
    }

    pub fn new(config: PriceDbConfig) -> (r: App)
        ensures
            r.wf(),
            r.prices().len() == 0,
            r.securities().len() == 0,
            r.config == config,
    {
        App { config, store: Store::new() }
    }

    /// Reconciles one incoming observation with the store (upsert): inserts
    /// when its `(symbol, date, time)` key is new, refuses a currency
    /// disagreement, skips an identical row, and updates a changed value.
    /// The store keeps at most one row per key throughout.
    pub fn add_price(&mut self, new_price: &Price) -> (r: Result<UpsertOutcome, PriceDbError>)
        requires
            old(self).wf(),
            old(self).next_price_id() < i64::MAX,
        ensures
            final(self).wf(),
            final(self).prices() == upsert_prices(
                old(self).prices(),
                old(self).next_price_id(),
                new_price@,
            ),
            r == upsert_result(old(self).prices(), new_price@),
            final(self).securities() == old(self).securities(),
            final(self).config == old(self).config,
    {
        let ghost pv = self.store.prices_view();
        let ghost keypred = |q: PriceView| same_key(q, new_price@);
        let filter = PriceFilter {
            symbol: Some(new_price.symbol.clone()),
            date: Some(new_price.date.clone()),
            time: Some(new_price.time.clone()),
        };
        let ghost fv = filter@;
        let rows = self.store.get_prices(Some(filter));
        proof {
            assert(crate::store::opt_price_filter_view(Some(filter)) == fv);
            lemma_filter_equiv(pv, |q: PriceView| crate::model::price_matches(fv, q), keypred);
            lemma_find_first(pv, keypred);
            assert(views_of(rows@) == pv.filter(keypred));
        }
        let ghost k = find_first(pv, keypred);
        if rows.len() == 0 {
            proof {
                if k >= 0 {
                    assert(pv.filter(keypred).len() > 0);
                }
                assert(k < 0);
            }
            let _n = self.store.add_price(new_price);
            return Ok(UpsertOutcome { inserted: 1, updated: 0 });
        }
        proof {
            if k < 0 {
                assert(pv.filter(keypred).len() == 0);
            }
            assert(k >= 0);
            assert(views_of(rows@)[0] == pv[k]);
            assert(rows@[0]@ == pv[k]);
        }
        let existing = &rows[0];
        if !crate::text::str_eq(existing.currency.as_str(), new_price.currency.as_str()) {
            return Err(PriceDbError::Conflict);
        }
        if existing.value == new_price.value && existing.denom == new_price.denom {
            return Ok(UpsertOutcome { inserted: 0, updated: 0 });
        }
        let mut updated = existing.clone();
        updated.value = new_price.value;
        updated.denom = new_price.denom;
        proof {
            // the row at k is the only one with this id, and the merge keeps
            // its key
            assert(updated@ == PriceView { value: new_price@.value, denom: new_price@.denom, ..pv[k] });
            assert forall|i: int|
                0 <= i < pv.len() && (#[trigger] pv[i]).id == updated@.id implies same_key(
                merge_price(pv[i], updated@),
                pv[i],
            ) by {
                if i != k {
                    assert(rows_distinct(pv[if i < k {
                        i
                    } else {
                        k
                    }], pv[if i < k {
                        k
                    } else {
                        i
                    }]));
                }
            }
            assert forall|i: int| 0 <= i < k implies !((#[trigger] pv[i]).id == updated@.id) by {
                assert(rows_distinct(pv[i], pv[k]));
            }
            lemma_find_first_at(pv, |q: PriceView| q.id == updated@.id, k);
        }
        match self.store.update_price(&updated) {
            Ok(_n) => {
                proof {
                    assert(merge_price(pv[k], updated@) == upsert_merged(pv[k], new_price@));
                }
                Ok(UpsertOutcome { inserted: 0, updated: 1 })
            },
            Err(e) => Err(e),
        }
    }

    /// Deletes the stored history of one symbol, keeping only its newest
    /// price; reports the number of rows deleted. A symbol with at most one
    /// stored price is left untouched.
    pub fn prune_for_sec(&mut self, symbol: &str) -> (deleted: usize)
        requires
            old(self).wf(),
        ensures
            final(self).wf(),
            final(self).prices() == old(self).prices().filter(
                (|p: PriceView| keep_row(p, old(self).prices(), symbol@)),
            ),
            final(self).securities() == old(self).securities(),
            final(self).next_price_id() == old(self).next_price_id(),
            final(self).config == old(self).config,
            deleted == old(self).prices().len() - final(self).prices().len(),
    {
        broadcast use vstd::seq_lib::group_to_multiset_ensures;
        broadcast use vstd::seq_lib::group_filter_ensures;

        let ghost orig = self.store.prices_view();
        let ghost keep = |p: PriceView| keep_row(p, orig, symbol@);
        let total = self.store.count_prices();
        let prices = self.store.get_prices_for_security(symbol);
        let ghost histv = views_of(prices@);
        proof {
            assert(forall|j: int| 0 <= j < histv.len() ==> histv[j] == #[trigger] prices@[j]@);
        }
        if prices.len() <= 1 {
            proof {
                lemma_prune_small(orig, histv, symbol@);
                lemma_filter_all(orig, keep);
            }
            return 0;
        }
        let mut deleted: usize = 0;
        let mut k: usize = 1;
        proof {
            assert forall|t: int| 0 <= t < orig.len() implies not_deleted_upto(
                #[trigger] orig[t],
                histv,
                1,
            ) by {}
            lemma_filter_all(orig, |p: PriceView| not_deleted_upto(p, histv, 1));
        }
        while k < prices.len()
            invariant
                old(self).wf(),
                orig == old(self).store.prices_view(),
                orig.len() == total,
                histv == views_of(prices@),
                forall|j: int| 0 <= j < histv.len() ==> histv[j] == #[trigger] prices@[j]@,
                histv.to_multiset() == prices_of_symbol(orig, symbol@).to_multiset(),
                newest_sorted(histv),
                1 <= k <= histv.len(),
                self.store.wf(),
                self.store.securities_view() == old(self).store.securities_view(),
                self.store.next_id_spec() == old(self).store.next_id_spec(),
                self.config == old(self).config,
                self.store.prices_view() == orig.filter(
                    (|p: PriceView| not_deleted_upto(p, histv, k as int)),
                ),
                deleted == orig.len() - self.store.prices_view().len(),
            decreases histv.len() - k,
        {
            let ghost before = self.store.prices_view();
            let del_id = prices[k].id;
            let res = self.store.delete_price(del_id);
            proof {
                assert(histv[k as int].id == del_id as int);
                assert(self.store.prices_view() == before.filter(
                    (|p: PriceView| p.id != del_id as int),
                ));
                assert forall|t: int|
                    0 <= t < orig.len() implies ((not_deleted_upto(
                    #[trigger] orig[t],
                    histv,
                    k as int,
                ) && orig[t].id != del_id as int) <==> not_deleted_upto(orig[t], histv, k + 1)) by {
                    if not_deleted_upto(orig[t], histv, k + 1) {
                        assert(orig[t].id != histv[k as int].id);
                    }
                }
                crate::seqs::lemma_filter_compose_equiv(
                    orig,
                    |p: PriceView| not_deleted_upto(p, histv, k as int),
                    |p: PriceView| p.id != del_id as int,
                    |p: PriceView| not_deleted_upto(p, histv, k + 1),
                );
                assert(self.store.prices_view() == orig.filter(
                    (|p: PriceView| not_deleted_upto(p, histv, k + 1)),
                ));
            }
            match res {
                Ok(n) => {
                    deleted = deleted + n;
                },
                Err(_) => {
                    proof {
                        assert(false);
                    }
                },
            }
            k += 1;
        }
        proof {
            lemma_prune_survivors(orig, histv, symbol@);
            lemma_filter_equiv(
                orig,
                |p: PriceView| not_deleted_upto(p, histv, histv.len() as int),
                keep,
            );
        }
        deleted
    }

    /// Prunes stored history, keeping the single newest price per symbol:
    /// for one target symbol, or for every symbol that has at least one
    /// stored price. Reports how many symbols were processed and how many
    /// price rows were deleted in total.
    pub fn prune(&mut self, symbol: &Option<String>) -> (r: PruneResult)
        requires
            old(self).wf(),
        ensures
            final(self).wf(),
            final(self).securities() == old(self).securities(),
            final(self).config == old(self).config,
            r.deleted == old(self).prices().len() - final(self).prices().len(),
            match opt_view(*symbol) {
                Some(sym) => final(self).prices() == old(self).prices().filter(
                    (|p: PriceView| keep_row(p, old(self).prices(), sym)),
                ) && r.processed == 1,
                None => final(self).prices() == old(self).prices().filter(
                    (|p: PriceView| is_newest(old(self).prices(), p)),
                ) && r.processed == distinct_syms(old(self).prices()).len(),
            },
    {
        match symbol {
            Some(s) => {
                let d = self.prune_for_sec(s.as_str());
                PruneResult { processed: 1, deleted: d }
            },
            None => {
                let ghost orig = self.store.prices_view();
                let total = self.store.count_prices();
                let syms = self.store.get_symbols_with_prices();
                let ghost ds = symlist_view(syms@);
                proof {
                    lemma_distinct_syms(orig);
                    assert forall|t: int| 0 <= t < orig.len() implies kept_prefix(
                        #[trigger] orig[t],
                        orig,
                        ds,
                        0,
                    ) by {}
                    lemma_filter_all(orig, |p: PriceView| kept_prefix(p, orig, ds, 0));
                }
                let mut deleted: usize = 0;
                let mut i: usize = 0;
                while i < syms.len()
                    invariant
                        old(self).wf(),
                        orig == old(self).store.prices_view(),
                        orig.len() == total,
                        ds == symlist_view(syms@),
                        ds == distinct_syms(orig),
                        forall|j: int| 0 <= j < ds.len() ==> ds[j] == (#[trigger] syms@[j])@,
                        0 <= i <= ds.len(),
                        self.store.wf(),
                        self.store.securities_view() == old(self).store.securities_view(),
                        self.config == old(self).config,
                        self.store.prices_view() == orig.filter(
                            (|p: PriceView| kept_prefix(p, orig, ds, i as int)),
                        ),
                        deleted == orig.len() - self.store.prices_view().len(),
                    decreases ds.len() - i,
                {
                    let ghost cur = self.store.prices_view();
                    let d = self.prune_for_sec(syms[i].as_str());
                    proof {
                        lemma_distinct_syms(orig);
                        assert(self.store.prices_view() == cur.filter(
                            (|p: PriceView| keep_row(p, cur, ds[i as int])),
                        ));
                        lemma_prune_step(orig, cur, ds, i as int);
                        crate::seqs::lemma_filter_compose_equiv(
                            orig,
                            |p: PriceView| kept_prefix(p, orig, ds, i as int),
                            |p: PriceView| keep_row(p, cur, ds[i as int]),
                            |p: PriceView| kept_prefix(p, orig, ds, i + 1),
                        );
                    }
                    deleted = deleted + d;
                    i += 1;
                }
                proof {
                    lemma_distinct_syms(orig);
                    assert forall|t: int|
                        0 <= t < orig.len() implies (kept_prefix(#[trigger] orig[t], orig, ds, ds.len() as int)
                        <==> is_newest(orig, orig[t])) by {
                        if !is_newest(orig, orig[t]) {
                            assert(ds.contains(orig[t].symbol));
                            let j = choose|j: int| 0 <= j < ds.len() && ds[j] == orig[t].symbol;
                            assert(!kept_prefix(orig[t], orig, ds, ds.len() as int));
                        }
                    }
                    lemma_filter_equiv(
                        orig,
                        |p: PriceView| kept_prefix(p, orig, ds, ds.len() as int),
                        |p: PriceView| is_newest(orig, p),
                    );
                }
                PruneResult { processed: syms.len(), deleted }
            },
        }
    }

    /// The configuration parameters for a quote run: each path comes from
    /// the command line when given there, else from the configuration file.
    pub fn get_quote_params(
        &self,
        symbols_path_param: &Option<String>,
        price_path_param: &Option<String>,
    ) -> (r: (String, String))
        ensures
            r.0@ == match opt_view(*symbols_path_param) {
                Some(p) => p,
                None => self.config.symbols_path@,
            },
            r.1@ == match opt_view(*price_path_param) {
                Some(p) => p,
                None => self.config.prices_path@,
            },
    {
        let symbol_path = match symbols_path_param {
            Some(path) => path.clone(),
            None => self.config.symbols_path.clone(),
        };
        let prices_path = match price_path_param {
            Some(path) => path.clone(),
            None => self.config.prices_path.clone(),
        };
        (symbol_path, prices_path)
    }

    /// Applies a security filter to a loaded symbols list. A filter field
    /// that the row itself lacks imposes no constraint; no filter at all
    /// selects everything.
    pub fn get_securities(
        &self,
        list: Vec<crate::model::SymbolMetadata>,
        filter: Option<SecurityFilter>,
    ) -> (r: Vec<crate::model::SymbolMetadata>)
        ensures
            match filter {
                None => metas_of(r@) == metas_of(list@),
                Some(f) => metas_of(r@) == metas_of(list@).filter(
                    (|m: crate::model::SymbolMetadataView| crate::model::symbol_meta_matches(
                        f@,
                        m,
                    )),
                ),
            },
    {
        let f = match filter {
            Some(f) => f,
            None => {
                return list;
            },
        };
        let ghost fv = f@;
        let ghost keep = |m: crate::model::SymbolMetadataView| crate::model::symbol_meta_matches(
            fv,
            m,
        );
        let mut out: Vec<crate::model::SymbolMetadata> = Vec::new();
        let mut i: usize = 0;
        proof {
            assert(metas_of(out@) =~= Seq::<crate::model::SymbolMetadataView>::empty());
            assert(metas_of(list@).take(0) =~= Seq::<crate::model::SymbolMetadataView>::empty());
            assert(metas_of(list@).take(0).filter(keep) =~= Seq::<
                crate::model::SymbolMetadataView,
            >::empty());
        }
        while i < list.len()
            invariant
                0 <= i <= list@.len(),
                fv == f@,
                keep == (|m: crate::model::SymbolMetadataView| crate::model::symbol_meta_matches(
                    fv,
                    m,
                )),
                metas_of(out@) == metas_of(list@).take(i as int).filter(keep),
            decreases list@.len() - i,
        {
            proof {
                crate::seqs::lemma_filter_push(
                    metas_of(list@).take(i as int),
                    metas_of(list@)[i as int],
                    keep,
                );
                assert(metas_of(list@).take(i + 1) =~= metas_of(list@).take(i as int).push(
                    metas_of(list@)[i as int],
                ));
            }
            if crate::model::matches_symbol_meta(&f, &list[i]) {
                out.push(list[i].clone());
                proof {
                    assert(metas_of(out@) =~= metas_of(list@).take(i + 1).filter(keep));
                }
            }
            i += 1;
        }
        proof {
            assert(metas_of(list@).take(list@.len() as int) =~= metas_of(list@));
        }
        out
    }
}

/// Reconciliation is idempotent: after one observation is reconciled,
/// reconciling the identical observation again changes nothing, and where
/// the first call succeeded the second reports no insert and no update.
/// (The update statement treats a zero field as "leave it alone", so the law
/// speaks of observations with a nonzero mantissa and divisor; for those
/// with a zero field the second call still changes no row, but may report an
/// update.)
pub proof fn lemma_upsert_idempotent(prices: Seq<PriceView>, id1: int, id2: int, p: PriceView)
    requires
        wf_prices(prices),
        p.value != 0,
        p.denom != 0,
    ensures
        upsert_prices(upsert_prices(prices, id1, p), id2, p) == upsert_prices(prices, id1, p),
        upsert_result(prices, p) is Ok ==> upsert_result(upsert_prices(prices, id1, p), p) == Ok::<
            UpsertOutcome,
            PriceDbError,
        >(UpsertOutcome { inserted: 0, updated: 0 }),
        upsert_result(prices, p) is Err ==> upsert_result(upsert_prices(prices, id1, p), p)
            == upsert_result(prices, p),
{
    let keypred = |q: PriceView| same_key(q, p);
    lemma_find_first(prices, keypred);
    let k = find_first(prices, keypred);
    let s1 = upsert_prices(prices, id1, p);
    if k < 0 {
        let stamped = with_id(p, id1);
        assert(s1 == prices.push(stamped));
        assert(keypred(stamped));
        assert forall|i: int| 0 <= i < s1.len() - 1 implies !keypred(#[trigger] s1[i]) by {
            assert(s1[i] == prices[i]);
        }
        lemma_find_first_at(s1, keypred, s1.len() - 1);
        let k1 = find_first(s1, keypred);
        assert(s1[k1] == stamped);
        assert(s1[k1].currency == p.currency && s1[k1].value == p.value && s1[k1].denom == p.denom);
    } else if prices[k].currency != p.currency {
        assert(s1 == prices);
    } else if prices[k].value == p.value && prices[k].denom == p.denom {
        assert(s1 == prices);
    } else {
        let merged = upsert_merged(prices[k], p);
        assert(s1 == prices.update(k, merged));
        assert(same_key(merged, prices[k]));
        assert(keypred(merged));
        assert forall|i: int| 0 <= i < k implies !keypred(#[trigger] s1[i]) by {
            assert(s1[i] == prices[i]);
        }
        lemma_find_first_at(s1, keypred, k);
        assert(merged.currency == p.currency);
        assert(merged.value == p.value && merged.denom == p.denom);
    }
}

/// A currency disagreement on an existing `(symbol, date, time)` key is
/// fatal: the store is left unchanged and the conflict is reported, never
/// silently resolved by picking one of the two currencies.
pub proof fn lemma_upsert_currency_conflict(prices: Seq<PriceView>, next_id: int, p: PriceView)
    requires
        ({
            let k = find_first(prices, |q: PriceView| same_key(q, p));
            k >= 0 && prices[k].currency != p.currency
        }),
    ensures
        upsert_prices(prices, next_id, p) == prices,
        upsert_result(prices, p) == Err::<UpsertOutcome, PriceDbError>(PriceDbError::Conflict),
{
}

/// The texts of a list of symbol metadata rows.
pub open spec fn metas_of(s: Seq<crate::model::SymbolMetadata>) -> Seq<
    crate::model::SymbolMetadataView,
> {
    s.map_values(|m: crate::model::SymbolMetadata| m@)
}

/// The flat-file record one fetched observation turns into: an absent time
/// means midnight, and the security's journal symbol replaces the raw one.
pub open spec fn quote_record(
    p: PriceView,
    m: crate::model::SymbolMetadataView,
) -> crate::price_flat_file::RecordView {
    crate::price_flat_file::RecordView {
        date: p.date,
        time: if p.time.len() == 0 {
            crate::price_flat_file::midnight_text()
        } else {
            p.time
        },
        symbol: match m.ledger_symbol {
            Some(l) => l,
            None => m.symbol,
        },
        value: p.value,
        denom: p.denom,
        currency: p.currency,
    }
}

/// One decision step of a quote run: the fetched observation is converted,
/// filed under the security's journal symbol, and stored in the flat file —
/// where the latest price per symbol wins. The fetch itself is outside work
/// done by the caller.
pub fn record_quote(
    prices_file: &mut crate::price_flat_file::PriceFlatFile,
    price: &Price,
    sec: &crate::model::SymbolMetadata,
) -> (r: Result<(), PriceDbError>)
    requires
        old(prices_file).wf(),
    ensures
        final(prices_file).wf(),
        final(prices_file).path() == old(prices_file).path(),
        match r {
            Ok(_) => {
                &&& crate::price_flat_file::record_wf(quote_record(price@, sec@))
                &&& crate::price_flat_file::token_ok(price@.symbol)
                &&& final(prices_file).records() == crate::price_flat_file::insert_record(
                    old(prices_file).records(),
                    quote_record(price@, sec@),
                )
            },
            Err(e) => {
                &&& e == PriceDbError::Parse
                &&& !(crate::price_flat_file::record_wf(quote_record(price@, sec@))
                    && crate::price_flat_file::token_ok(price@.symbol))
                &&& final(prices_file).records() == old(prices_file).records()
            },
        },
{
    proof {
        crate::datetime::lemma_midnight_valid();
    }
    let mut rec = match crate::price_flat_file::PriceRecord::from_price(price) {
        Ok(rec) => rec,
        Err(e) => {
            return Err(e);
        },
    };
    let alias = sec.get_symbol();
    if !crate::price_flat_file::check_token(alias.as_str()) {
        return Err(PriceDbError::Parse);
    }
    rec.symbol = alias;
    proof {
        assert(rec@ == quote_record(price@, sec@));
    }
    prices_file.add(rec);
    Ok(())
}

/// Whether a row survives pruning of the first `upto` symbols of the list:
/// its symbol is not among them, or it is its symbol's newest price.
pub open spec fn kept_prefix(
    p: PriceView,
    orig: Seq<PriceView>,
    syms: Seq<Seq<char>>,
    upto: int,
) -> bool {
    (forall|j: int| 0 <= j < upto ==> p.symbol != #[trigger] syms[j]) || is_newest(orig, p)
}

/// With at most one stored price of the symbol, every row is already the
/// newest of its symbol or belongs to another symbol.
proof fn lemma_prune_small(orig: Seq<PriceView>, histv: Seq<PriceView>, sym: Seq<char>)
    requires
        histv.to_multiset() == prices_of_symbol(orig, sym).to_multiset(),
        histv.len() <= 1,
    ensures
        forall|t: int| 0 <= t < orig.len() ==> keep_row(#[trigger] orig[t], orig, sym),
{
    broadcast use vstd::seq_lib::group_to_multiset_ensures;
    broadcast use vstd::seq_lib::group_filter_ensures;

    let f = prices_of_symbol(orig, sym);
    assert(f.len() == f.to_multiset().len());
    assert(histv.len() == histv.to_multiset().len());
    assert forall|t: int| 0 <= t < orig.len() implies keep_row(#[trigger] orig[t], orig, sym) by {
        let p = orig[t];
        if p.symbol == sym {
            assert(f.contains(p));
            assert(f.len() >= 1);
            assert(f.len() == 1);
            assert forall|j: int|
                0 <= j < orig.len() && (#[trigger] orig[j]).symbol == p.symbol implies
                newest_first_le(p, orig[j]) by {
                assert(f.contains(orig[j]));
                let a = choose|a: int| 0 <= a < f.len() && f[a] == p;
                let b = choose|b: int| 0 <= b < f.len() && f[b] == orig[j];
                assert(a == 0 && b == 0);
                assert(orig[j] == p);
            }
        }
    }
}

/// After deleting every history entry but the newest, the survivors of the
/// symbol are exactly its newest price.
proof fn lemma_prune_survivors(orig: Seq<PriceView>, histv: Seq<PriceView>, sym: Seq<char>)
    requires
        wf_prices(orig),
        histv.to_multiset() == prices_of_symbol(orig, sym).to_multiset(),
        newest_sorted(histv),
        histv.len() >= 2,
    ensures
        forall|t: int|
            0 <= t < orig.len() ==> (not_deleted_upto(#[trigger] orig[t], histv, histv.len() as int)
                <==> keep_row(orig[t], orig, sym)),
{
    broadcast use vstd::seq_lib::group_to_multiset_ensures;
    broadcast use vstd::seq_lib::group_filter_ensures;

    let f = prices_of_symbol(orig, sym);
    crate::seqs::lemma_filter_members(orig, |p: PriceView| p.symbol == sym);
    lemma_filter_pairwise_prices(orig, |p: PriceView| p.symbol == sym);
    assert forall|t: int|
        0 <= t < orig.len() implies (not_deleted_upto(#[trigger] orig[t], histv, histv.len() as int)
        <==> keep_row(orig[t], orig, sym)) by {
        let p = orig[t];
        if p.symbol != sym {
            // rows of other symbols never stand in the history
            assert forall|j: int| 1 <= j < histv.len() implies p.id != (#[trigger] histv[j]).id by {
                assert(histv.contains(histv[j]));
                crate::seqs::lemma_multiset_transfer(histv, f, histv[j]);
                assert(f.contains(histv[j]));
                let w = choose|w: int| 0 <= w < f.len() && f[w] == histv[j];
                assert(f[w].symbol == sym);
                assert(orig.contains(histv[j]));
                let w2 = choose|w2: int| 0 <= w2 < orig.len() && orig[w2] == histv[j];
                if p.id == histv[j].id {
                    if t != w2 {
                        assert(rows_distinct(orig[if t < w2 {
                            t
                        } else {
                            w2
                        }], orig[if t < w2 {
                            w2
                        } else {
                            t
                        }]));
                    }
                }
            }
        } else {
            assert(f.contains(p));
            crate::seqs::lemma_multiset_transfer(f, histv, p);
            assert(histv.contains(p));
            let j0 = choose|j0: int| 0 <= j0 < histv.len() && histv[j0] == p;
            if is_newest(orig, p) {
                // p can only stand at the head of the history
                assert forall|j: int|
                    1 <= j < histv.len() implies p.id != (#[trigger] histv[j]).id by {
                    if p.id == histv[j].id {
                        assert(histv.contains(histv[j]));
                        crate::seqs::lemma_multiset_transfer(histv, f, histv[j]);
                        assert(f.contains(histv[j]));
                        assert(orig.contains(histv[j]));
                        let w2 = choose|w2: int| 0 <= w2 < orig.len() && orig[w2] == histv[j];
                        if t != w2 {
                            assert(rows_distinct(orig[if t < w2 {
                                t
                            } else {
                                w2
                            }], orig[if t < w2 {
                                w2
                            } else {
                                t
                            }]));
                            assert(false);
                        }
                        assert(p == histv[j]);
                        // the head is also a row of this symbol in the store
                        assert(histv.contains(histv[0]));
                        crate::seqs::lemma_multiset_transfer(histv, f, histv[0]);
                        assert(f.contains(histv[0]));
                        let w0 = choose|w0: int| 0 <= w0 < orig.len() && orig[w0] == histv[0];
                        assert(orig[w0].symbol == sym);
                        assert(newest_first_le(p, orig[w0]));
                        assert(newest_first_le(histv[0], histv[j]));
                        lemma_newest_first_antisymm(p, histv[0]);
                        assert(same_key(p, histv[0]));
                        if t != w0 {
                            assert(rows_distinct(orig[if t < w0 {
                                t
                            } else {
                                w0
                            }], orig[if t < w0 {
                                w0
                            } else {
                                t
                            }]));
                            assert(false);
                        }
                        assert(histv[0] == p && histv[j] == p);
                        lemma_dup_count(histv, 0, j);
                        assert(f.to_multiset().count(p) >= 2);
                        lemma_count2_dup(f, p);
                        let (a, b): (int, int) = choose|a: int, b: int|
                            0 <= a < b < f.len() && f[a] == p && f[b] == p;
                        assert(rows_distinct(f[a], f[b]));
                        assert(false);
                    }
                }
            } else {
                // some strictly newer row exists, so p is not the head and
                // its id is deleted
                let w = choose|w: int|
                    0 <= w < orig.len() && (#[trigger] orig[w]).symbol == p.symbol
                        && !newest_first_le(p, orig[w]);
                assert(f.contains(orig[w]));
                crate::seqs::lemma_multiset_transfer(f, histv, orig[w]);
                assert(histv.contains(orig[w]));
                let jw = choose|jw: int| 0 <= jw < histv.len() && histv[jw] == orig[w];
                if j0 == 0 {
                    if jw == 0 {
                        assert(orig[w] == p);
                        assert(newest_first_le(p, p));
                        assert(false);
                    }
                    assert(newest_first_le(histv[0], histv[jw]));
                    assert(false);
                }
                assert(1 <= j0 < histv.len() && p.id == histv[j0].id);
                assert(!not_deleted_upto(p, histv, histv.len() as int));
            }
        }
    }
}

/// One pruning step extends the processed prefix by one symbol.
proof fn lemma_prune_step(orig: Seq<PriceView>, cur: Seq<PriceView>, ds: Seq<Seq<char>>, i: int)
    requires
        0 <= i < ds.len(),
        cur == orig.filter((|p: PriceView| kept_prefix(p, orig, ds, i))),
        forall|k1: int, k2: int| 0 <= k1 < k2 < ds.len() ==> ds[k1] != ds[k2],
    ensures
        forall|t: int|
            0 <= t < orig.len() ==> ((kept_prefix(#[trigger] orig[t], orig, ds, i) && keep_row(
                orig[t],
                cur,
                ds[i],
            )) <==> kept_prefix(orig[t], orig, ds, i + 1)),
{
    broadcast use vstd::seq_lib::group_filter_ensures;

    crate::seqs::lemma_filter_members(orig, |p: PriceView| kept_prefix(p, orig, ds, i));
    assert forall|t: int|
        0 <= t < orig.len() implies ((kept_prefix(#[trigger] orig[t], orig, ds, i) && keep_row(
        orig[t],
        cur,
        ds[i],
    )) <==> kept_prefix(orig[t], orig, ds, i + 1)) by {
        let p = orig[t];
        if is_newest(orig, p) {
            // rows of cur are rows of orig, so p stays the newest in cur
            assert forall|j: int|
                0 <= j < cur.len() && (#[trigger] cur[j]).symbol == p.symbol implies
                newest_first_le(p, cur[j]) by {
                assert(orig.contains(cur[j]));
                let w = choose|w: int| 0 <= w < orig.len() && orig[w] == cur[j];
                assert(newest_first_le(p, orig[w]));
            }
            assert(is_newest(cur, p));
            assert(kept_prefix(p, orig, ds, i));
            assert(kept_prefix(p, orig, ds, i + 1));
            assert(keep_row(p, cur, ds[i]));
        } else {
            if forall|j: int| 0 <= j < i ==> p.symbol != #[trigger] ds[j] {
                if p.symbol == ds[i] {
                    // every stored row of this symbol is still present, so p
                    // is still superseded in cur
                    let w = choose|w: int|
                        0 <= w < orig.len() && (#[trigger] orig[w]).symbol == p.symbol
                            && !newest_first_le(p, orig[w]);
                    assert(kept_prefix(orig[w], orig, ds, i)) by {
                        assert(forall|j: int| 0 <= j < i ==> ds[i] != #[trigger] ds[j]);
                    }
                    assert(cur.contains(orig[w]));
                    let cw = choose|cw: int| 0 <= cw < cur.len() && cur[cw] == orig[w];
                    assert(!is_newest(cur, p)) by {
                        assert(cur[cw].symbol == p.symbol && !newest_first_le(p, cur[cw]));
                    }
                    assert(!keep_row(p, cur, ds[i]));
                    assert(!kept_prefix(p, orig, ds, i + 1)) by {
                        assert(p.symbol == ds[i]);
                    }
                } else {
                    assert(keep_row(p, cur, ds[i]));
                    assert(kept_prefix(p, orig, ds, i));
                    assert(kept_prefix(p, orig, ds, i + 1)) by {
                        assert(forall|j: int| 0 <= j < i + 1 ==> p.symbol != #[trigger] ds[j]);
                    }
                }
            } else {
                assert(!kept_prefix(p, orig, ds, i));
                assert(!kept_prefix(p, orig, ds, i + 1)) by {
                    let j = choose|j: int| 0 <= j < i && p.symbol == #[trigger] ds[j];
                    assert(0 <= j < i + 1 && p.symbol == ds[j]);
                }
            }
        }
    }
}

} // verus!
