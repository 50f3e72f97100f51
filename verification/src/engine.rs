use vstd::prelude::*;

use crate::agg::{aggregate_spec, GroupMap};
use crate::dataset::PeriodDataset;
use crate::period_store::{cap_u64, load_shape, rows_sum, sweep_shape, PeriodStore, MAX_PERIODS};
use crate::result_cache::{expire_shape, hit_bump_shape, hits_sum, infos_of, lru_insert_shape,
    sorted_by_access_desc, CacheEntryInfo, ResultCache, ResultKey, MAX_RESULTS};

verus! {

/// The result-cache key of a comparison request.
pub open spec fn rkey(key1: u32, key2: u32, filter: i64) -> ResultKey {
    ResultKey { key1, key2, filter }
}

/// The failure taxonomy of the engine.  Every operation either fully
/// succeeds or fails with one of these, with no side effect on cache
/// state.
#[derive(Clone, Copy, PartialEq, Eq, Structural, Debug)]
pub enum EngineError {
    /// A recognized compressed payload was malformed, or the column
    /// data could not be read.
    Decode,
    /// No alias of the anchor column was present in the source schema.
    Schema,
    /// A comparison referenced a period key absent from the store.
    NotLoaded(u32),
    /// Malformed query input, such as mismatched array lengths.
    Validation,
    /// A shared-state lock was poisoned or unavailable.
    Lock,
}

/// The two per-period group mappings a comparison returns.
pub struct ComparePair {
    pub period1: GroupMap,
    pub period2: GroupMap,
}

/// A point-in-time summary of both stores.
#[derive(Clone, Copy, PartialEq, Eq, Structural, Debug)]
pub struct ResourceStats {
    pub periods_loaded: u64,
    pub total_rows: u64,
    pub approx_ram_kb: u64,
    pub results_cached: u64,
    pub cumulative_hits: u64,
    pub max_periods: u64,
    pub max_results: u64,
}

/// The two-level caching and aggregation engine: a raw-period store
/// with capacity-bounded LRU eviction, and a memoized-result store with
/// LRU and TTL eviction.
pub struct Engine {
    pub periods: PeriodStore,
    pub results: ResultCache,
}

impl Engine {
    pub open spec fn wf(self) -> bool {
        self.periods.wf() && self.results.wf()
    }

    pub fn new() -> (e: Engine)
        ensures
            e.wf(),
            e.periods.periods() == Map::<u32, crate::period_store::StoredPeriod>::empty(),
            e.results.cached() == Map::<ResultKey, crate::result_cache::ResultEntry>::empty(),
    {
        Engine { periods: PeriodStore::new(), results: ResultCache::new() }
    }

    /// Insert or replace one period's dataset, evicting the least
    /// recently accessed period if a new key arrives at capacity.
    /// Returns the row count.  The memoized results are untouched.
    pub fn load_dataset(&mut self, key: u32, ds: PeriodDataset, now: u64) -> (r: usize)
        requires
            old(self).wf(),
            ds.wf(),
        ensures
            final(self).wf(),
            r == ds.n,
            load_shape(old(self).periods.periods(), final(self).periods.periods(), key, ds, now),
            final(self).results == old(self).results,
    {
        self.periods.load(key, ds, now)
    }

    /// Whether a period's raw dataset is loaded.
    pub fn is_period_cached(&self, key: u32) -> (r: bool)
        requires
            self.wf(),
        ensures
            r == self.periods.periods().dom().contains(key),
    {
        self.periods.contains(key)
    }

    /// Whether a comparison is memoized.
    pub fn is_result_cached(&self, key1: u32, key2: u32, filter: i64) -> (r: bool)
        requires
            self.wf(),
        ensures
            r == self.results.cached().dom().contains(rkey(key1, key2, filter)),
    {
        self.results.contains(ResultKey { key1, key2, filter })
    }

    /// Remove one period's raw dataset.  Returns whether it was present.
    pub fn evict_period(&mut self, key: u32) -> (r: bool)
        requires
            old(self).wf(),
        ensures
            final(self).wf(),
            r == old(self).periods.periods().dom().contains(key),
            final(self).periods.periods() == old(self).periods.periods().remove(key),
            final(self).results == old(self).results,
    {
        self.periods.evict(key)
    }

    /// Remove one memoized comparison.  Returns whether it was present.
    pub fn evict_result(&mut self, key1: u32, key2: u32, filter: i64) -> (r: bool)
        requires
            old(self).wf(),
        ensures
            final(self).wf(),
            r == old(self).results.cached().dom().contains(rkey(key1, key2, filter)),
            final(self).results.cached() == old(self).results.cached().remove(
                rkey(key1, key2, filter)),
            final(self).periods == old(self).periods,
    {
        self.results.evict(ResultKey { key1, key2, filter })
    }

    /// Remove exactly the memoized results whose idle time is at least
    /// `ttl_seconds`; every other entry keeps its state unchanged.
    /// Returns how many entries were removed.
    pub fn expire_results(&mut self, ttl_seconds: u64, now: u64) -> (r: usize)
        requires
            old(self).wf(),
        ensures
            final(self).wf(),
            expire_shape(
                old(self).results.cached(),
                final(self).results.cached(),
                ttl_seconds,
                now,
                r as int,
            ),
            final(self).periods == old(self).periods,
    {
        self.results.expire_older_than(ttl_seconds, now)
    }

    /// Among the periods outside `current_year`, keep only the `keep`
    /// most recently accessed; current-year periods are never touched.
    /// Returns how many periods were removed.
    pub fn sweep_periods(&mut self, keep: usize, current_year: u32) -> (r: usize)
        requires
            old(self).wf(),
        ensures
            final(self).wf(),
            sweep_shape(
                old(self).periods.periods(),
                final(self).periods.periods(),
                keep,
                current_year,
                r as int,
            ),
            final(self).results == old(self).results,
    {
        self.periods.sweep_retain_recent(keep, current_year)
    }

    /// Compare two loaded periods under a status filter, memoized.
    ///
    /// A memoized comparison is answered from the result cache alone —
    /// the returned aggregates equal the cached ones entry for entry,
    /// the raw datasets are not read, and only the entry's last-access
    /// time and access count move.  A miss aggregates both periods,
    /// memoizes the pair with an access count of one (evicting the
    /// least recently accessed result if a new key arrives at
    /// capacity), and bumps both periods' last-access times.
    pub fn compare(&mut self, key1: u32, key2: u32, filter: i64, now: u64) -> (r: Result<
        ComparePair,
        EngineError,
    >)
        requires
            old(self).wf(),
        ensures
            final(self).wf(),
            r is Ok <==> old(self).results.cached().dom().contains(
                rkey(key1, key2, filter)) || (old(self).periods.periods().dom().contains(key1)
                && old(self).periods.periods().dom().contains(key2)),
            // memoization: a hit returns the cached pair, bit for bit,
            // and leaves the period store untouched
            old(self).results.cached().dom().contains(rkey(key1, key2, filter)) ==> {
                &&& r matches Ok(pair) && pair.period1.entries@ == old(self).results.cached()[
                    rkey(key1, key2, filter)].agg1.entries@ && pair.period2.entries@ == old(self).results.cached()[
                    rkey(key1, key2, filter)].agg2.entries@
                &&& final(self).periods == old(self).periods
                &&& hit_bump_shape(
                    old(self).results.cached(),
                    final(self).results.cached(),
                    rkey(key1, key2, filter),
                    now,
                )
            },
            // a miss with both periods loaded aggregates and memoizes
            !old(self).results.cached().dom().contains(rkey(key1, key2, filter))
                && old(self).periods.periods().dom().contains(key1) && old(
                self,
            ).periods.periods().dom().contains(key2) ==> {
                &&& r matches Ok(pair) && {
                    &&& pair.period1.wf() && pair.period2.wf()
                    &&& pair.period1.groups() == aggregate_spec(
                        old(self).periods.periods()[key1].ds,
                        filter,
                    )
                    &&& pair.period2.groups() == aggregate_spec(
                        old(self).periods.periods()[key2].ds,
                        filter,
                    )
                    &&& final(self).results.cached()[rkey(key1, key2, filter)].agg1.entries@ == pair.period1.entries@
                    &&& final(self).results.cached()[rkey(key1, key2, filter)].agg2.entries@ == pair.period2.entries@
                }
                &&& lru_insert_shape(
                    old(self).results.cached(),
                    final(self).results.cached(),
                    rkey(key1, key2, filter),
                )
                &&& final(self).results.cached()[rkey(key1, key2, filter)].computed_at
                    == now
                &&& final(self).results.cached()[rkey(key1, key2, filter)].last_accessed
                    == now
                &&& final(self).results.cached()[rkey(key1, key2, filter)].access_count
                    == 1
                // the raw datasets themselves are unchanged; both
                // periods' last-access times are bumped
                &&& final(self).periods.periods().dom() == old(self).periods.periods().dom()
                &&& final(self).periods.periods()[key1].ds == old(self).periods.periods()[key1].ds
                &&& final(self).periods.periods()[key2].ds == old(self).periods.periods()[key2].ds
                &&& final(self).periods.periods()[key1].last_accessed == now
                &&& final(self).periods.periods()[key2].last_accessed == now
                &&& final(self).periods.periods()[key1].loaded_at == old(
                    self,
                ).periods.periods()[key1].loaded_at
                &&& final(self).periods.periods()[key2].loaded_at == old(
                    self,
                ).periods.periods()[key2].loaded_at
                &&& forall|k: u32|
                    old(self).periods.periods().dom().contains(k) && k != key1 && k != key2
                        ==> #[trigger] final(self).periods.periods()[k] == old(
                        self,
                    ).periods.periods()[k]
            },
            // a miss that references an absent period fails without any
            // side effect
            !old(self).results.cached().dom().contains(rkey(key1, key2, filter))
                && !old(self).periods.periods().dom().contains(key1) ==> r == Err::<
                ComparePair,
                EngineError,
            >(EngineError::NotLoaded(key1)) && *final(self) == *old(self),
            !old(self).results.cached().dom().contains(rkey(key1, key2, filter)) && old(
                self,
            ).periods.periods().dom().contains(key1) && !old(
                self,
            ).periods.periods().dom().contains(key2) ==> r == Err::<ComparePair, EngineError>(
                EngineError::NotLoaded(key2),
            ) && *final(self) == *old(self),
    {
        let rk = ResultKey { key1, key2, filter };
        match self.results.hit(rk, now) {
            Some((g1, g2)) => Ok(ComparePair { period1: g1, period2: g2 }),
            None => {
                let agg1 = match self.periods.aggregate_key(key1, filter) {
                    Some(g) => g,
                    None => {
                        return Err(EngineError::NotLoaded(key1));
                    },
                };
                let agg2 = match self.periods.aggregate_key(key2, filter) {
                    Some(g) => g,
                    None => {
                        return Err(EngineError::NotLoaded(key2));
                    },
                };
                self.periods.touch(key1, now);
                self.periods.touch(key2, now);
                let out1 = agg1.duplicate();
                let out2 = agg2.duplicate();
                self.results.insert_lru(rk, agg1, agg2, now);
                Ok(ComparePair { period1: out1, period2: out2 })
            },
        }
    }

    /// A point-in-time summary: loaded periods, total rows, the
    /// approximate memory they take, memoized results, cumulative hits,
    /// and both capacity bounds.
    pub fn resource_stats(&self) -> (r: ResourceStats)
        requires
            self.wf(),
        ensures
            r.periods_loaded == self.periods.periods().dom().len(),
            r.total_rows == cap_u64(rows_sum(self.periods.entries@)),
            r.approx_ram_kb == cap_u64(rows_sum(self.periods.entries@) * 96) / 1024,
            r.results_cached == self.results.cached().dom().len(),
            r.cumulative_hits == cap_u64(hits_sum(self.results.entries@)),
            r.max_periods == MAX_PERIODS,
            r.max_results == MAX_RESULTS,
    {
        let rows = self.periods.total_rows();
        let ram_bytes: u64 = if rows > u64::MAX / 96 {
            u64::MAX
        } else {
            rows * 96
        };
        proof {
            let s = rows_sum(self.periods.entries@);
            assert(s >= 0) by {
                crate::period_store::lemma_rows_sum_nonneg(self.periods.entries@);
            }
            assert(ram_bytes == cap_u64(s * 96)) by {
                assert(s * 96 >= s);
                if s > u64::MAX {
                    assert(s * 96 > u64::MAX);
                } else {
                    assert(rows == s);
                }
            }
        }
        ResourceStats {
            periods_loaded: self.periods.len() as u64,
            total_rows: rows,
            approx_ram_kb: ram_bytes / 1024,
            results_cached: self.results.len() as u64,
            cumulative_hits: self.results.cumulative_hits(),
            max_periods: MAX_PERIODS as u64,
            max_results: MAX_RESULTS as u64,
        }
    }

    /// The cache introspection listing: one row per memoized result,
    /// sorted by access count, most accessed first.
    pub fn cache_info(&self, now: u64) -> (r: Vec<CacheEntryInfo>)
        requires
            self.wf(),
        ensures
            r@.to_multiset() == infos_of(self.results.entries@, now).to_multiset(),
            sorted_by_access_desc(r@),
    {
        self.results.infos_sorted(now)
    }
}

} // verus!
