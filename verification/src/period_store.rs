use vstd::prelude::*;

use crate::assoc::{keys_unique, lemma_entries_dom_len, lemma_map_of_props, lemma_map_of_push,
    lemma_map_of_remove, lemma_map_of_update, map_of};
use crate::dataset::PeriodDataset;
use vstd::pervasive::VecAdditionalExecFns;

verus! {

/// Capacity bound of the raw-period store.
pub const MAX_PERIODS: usize = 24;

/// A dataset with its cache metadata.
pub struct StoredPeriod {
    pub ds: PeriodDataset,
    pub loaded_at: u64,
    pub last_accessed: u64,
}

/// Whether a period key lies outside the given year (its year component
/// differs).  Keys follow the `year * 100 + month` convention.
pub open spec fn is_historic(key: u32, current_year: u32) -> bool {
    key / 100 != current_year
}

/// The historic period keys of a store mapping.
pub open spec fn hist_keys(m: Map<u32, StoredPeriod>, current_year: u32) -> Set<u32> {
    m.dom().filter(|k: u32| is_historic(k, current_year))
}

/// Historic entries in a key-value sequence, counted back to front.
pub open spec fn seq_hist_count(s: Seq<(u32, StoredPeriod)>, current_year: u32) -> nat
    decreases s.len(),
{
    if s.len() == 0 {
        0
    } else {
        seq_hist_count(s.drop_last(), current_year) + if is_historic(s.last().0, current_year) {
            1nat
        } else {
            0nat
        }
    }
}

/// Under unique keys, the historic key set is finite and as large as the
/// count of historic entries.
proof fn lemma_hist_count(s: Seq<(u32, StoredPeriod)>, current_year: u32)
    requires
        keys_unique(s),
    ensures
        hist_keys(map_of(s), current_year).finite(),
        hist_keys(map_of(s), current_year).len() == seq_hist_count(s, current_year),
    decreases s.len(),
{
    if s.len() == 0 {
        assert(hist_keys(map_of(s), current_year) =~= Set::<u32>::empty());
    } else {
        let d = s.drop_last();
        assert(keys_unique(d));
        lemma_hist_count(d, current_year);
        lemma_map_of_props(d);
        let k0 = s.last().0;
        assert(!map_of(d).dom().contains(k0)) by {
            if map_of(d).dom().contains(k0) {
                let i = choose|i: int| 0 <= i < d.len() && d[i].0 == k0;
                assert(s[i].0 == s[s.len() - 1].0);
            }
        }
        if is_historic(k0, current_year) {
            assert(hist_keys(map_of(s), current_year) =~= hist_keys(
                map_of(d),
                current_year,
            ).insert(k0));
        } else {
            assert(hist_keys(map_of(s), current_year) =~= hist_keys(map_of(d), current_year));
        }
    }
}

/// How a bounded LRU load reshapes the store mapping: the key holds the
/// fresh dataset afterwards, every other surviving entry is carried over
/// unchanged, and when a new key is inserted at capacity one entry with
/// the globally smallest last-access time has left.  Capacity law:
/// loading a fresh key into a full store keeps the store at capacity and
/// evicts a least-recently-accessed entry.
pub open spec fn load_shape(
    pre: Map<u32, StoredPeriod>,
    post: Map<u32, StoredPeriod>,
    key: u32,
    ds: PeriodDataset,
    now: u64,
) -> bool {
    &&& post.dom().contains(key)
    &&& post[key].ds == ds
    &&& post[key].loaded_at == now
    &&& post[key].last_accessed == now
    &&& (pre.dom().contains(key) ==> {
        &&& post.dom() == pre.dom()
        &&& forall|k: u32| pre.dom().contains(k) && k != key ==> #[trigger] post[k] == pre[k]
    })
    &&& (!pre.dom().contains(key) && pre.dom().len() < MAX_PERIODS ==> {
        &&& post.dom() == pre.dom().insert(key)
        &&& forall|k: u32| pre.dom().contains(k) ==> #[trigger] post[k] == pre[k]
    })
    &&& (!pre.dom().contains(key) && pre.dom().len() == MAX_PERIODS ==> exists|victim: u32|
        {
            &&& pre.dom().contains(victim)
            &&& (forall|k: u32|
                pre.dom().contains(k) ==> (#[trigger] pre[k]).last_accessed
                    >= pre[victim].last_accessed)
            &&& post.dom() == pre.dom().remove(victim).insert(key)
            &&& (forall|k: u32|
                pre.dom().contains(k) && k != victim ==> #[trigger] post[k] == pre[k])
        })
}

/// The bounded raw-period store: one dataset per period key, with LRU
/// eviction on overflow.
pub struct PeriodStore {
    pub entries: Vec<(u32, StoredPeriod)>,
}

impl PeriodStore {
    /// Well-formedness: unique keys, within capacity, well-formed datasets.
    pub open spec fn wf(self) -> bool {
        &&& keys_unique(self.entries@)
        &&& self.entries@.len() <= MAX_PERIODS
        &&& forall|i: int| 0 <= i < self.entries@.len() ==> (#[trigger] self.entries@[i]).1.ds.wf()
    }

    /// The mapping this store denotes.
    pub open spec fn periods(self) -> Map<u32, StoredPeriod> {
        map_of(self.entries@)
    }

    pub fn new() -> (s: PeriodStore)
        ensures
            s.wf(),
            s.periods() == Map::<u32, StoredPeriod>::empty(),
    {
        PeriodStore { entries: Vec::new() }
    }

    fn find(&self, key: u32) -> (r: Option<usize>)
        ensures
            match r {
                Some(j) => j < self.entries@.len() && self.entries@[j as int].0 == key,
                None => forall|i: int| 0 <= i < self.entries@.len() ==> self.entries@[i].0 != key,
            },
    {
        let n = self.entries.len();
        let mut i: usize = 0;
        while i < n
            invariant
                i <= n,
                n == self.entries@.len(),
                forall|j: int| 0 <= j < i ==> self.entries@[j].0 != key,
            decreases n - i,
        {
            if self.entries[i].0 == key {
                return Some(i);
            }
            i = i + 1;
        }
        None
    }

    /// Whether a period key is loaded.
    pub fn contains(&self, key: u32) -> (r: bool)
        requires
            self.wf(),
        ensures
            r == self.periods().dom().contains(key),
    {
        proof {
            lemma_map_of_props(self.entries@);
        }
        self.find(key).is_some()
    }

    /// Number of loaded periods.
    pub fn len(&self) -> (r: usize)
        requires
            self.wf(),
        ensures
            r == self.periods().dom().len(),
            r <= MAX_PERIODS,
    {
        proof {
            lemma_entries_dom_len(self.entries@);
        }
        self.entries.len()
    }

    /// Remove one period outright.  Returns whether it was present.
    pub fn evict(&mut self, key: u32) -> (r: bool)
        requires
            old(self).wf(),
        ensures
            final(self).wf(),
            r == old(self).periods().dom().contains(key),
            final(self).periods() == old(self).periods().remove(key),
    {
        proof {
            lemma_map_of_props(self.entries@);
        }
        match self.find(key) {
            Some(i) => {
                proof {
                    lemma_map_of_remove(old(self).entries@, i as int);
                }
                self.entries.remove(i);
                true
            },
            None => {
                proof {
                    assert(old(self).periods().remove(key) =~= old(self).periods());
                }
                false
            },
        }
    }

    /// Index of the entry with the globally smallest last-access time.
    fn lru_victim(&self) -> (r: Option<usize>)
        ensures
            match r {
                Some(b) => b < self.entries@.len() && forall|j: int|
                    0 <= j < self.entries@.len() ==> self.entries@[j].1.last_accessed
                        >= self.entries@[b as int].1.last_accessed,
                None => self.entries@.len() == 0,
            },
    {
        let n = self.entries.len();
        if n == 0 {
            return None;
        }
        let mut best: usize = 0;
        let mut i: usize = 1;
        while i < n
            invariant
                best < i <= n,
                n == self.entries@.len(),
                forall|j: int| 0 <= j < i ==> self.entries@[j].1.last_accessed
                    >= self.entries@[best as int].1.last_accessed,
            decreases n - i,
        {
            if self.entries[i].1.last_accessed < self.entries[best].1.last_accessed {
                best = i;
            }
            i = i + 1;
        }
        Some(best)
    }

    /// Insert or replace the dataset of a period.  If the store is at
    /// capacity and the key is new, the entry with the globally smallest
    /// last-access time is evicted first.  Returns the row count.
    pub fn load(&mut self, key: u32, ds: PeriodDataset, now: u64) -> (r: usize)
        requires
            old(self).wf(),
            ds.wf(),
        ensures
            final(self).wf(),
            r == ds.n,
            load_shape(old(self).periods(), final(self).periods(), key, ds, now),
    {
        proof {
            lemma_map_of_props(self.entries@);
            lemma_entries_dom_len(self.entries@);
        }
        let n = ds.n;
        let stored = StoredPeriod { ds, loaded_at: now, last_accessed: now };
        match self.find(key) {
            Some(i) => {
                proof {
                    lemma_map_of_update(old(self).entries@, i as int, key, stored);
                }
                self.entries.set(i, (key, stored));
                proof {
                    lemma_map_of_props(old(self).entries@);
                    assert(final(self).periods().dom() =~= old(self).periods().dom());
                }
            },
            None => {
                if self.entries.len() >= MAX_PERIODS {
                    let vi = match self.lru_victim() {
                        Some(vi) => vi,
                        None => {
                            proof {
                                assert(false);
                            }
                            0
                        },
                    };
                    let ghost victim = self.entries@[vi as int].0;
                    proof {
                        lemma_map_of_remove(old(self).entries@, vi as int);
                        lemma_map_of_props(old(self).entries@);
                    }
                    self.entries.remove(vi);
                    let ghost mid = self.entries@;
                    proof {
                        lemma_map_of_props(mid);
                        lemma_map_of_push(mid, key, stored);
                        assert(forall|j: int| 0 <= j < mid.len() ==> mid[j].0 != key);
                        assert(keys_unique(mid.push((key, stored)))) by {
                            assert(forall|p: int, q: int|
                                0 <= p < q < mid.push((key, stored)).len() && q < mid.len()
                                    ==> mid.push((key, stored))[p].0 != mid.push(
                                    (key, stored),
                                )[q].0);
                        }
                    }
                    self.entries.push((key, stored));
                    proof {
                        assert(final(self).periods().dom() =~= old(self).periods().dom().remove(
                            victim,
                        ).insert(key));
                        assert(exists|v: u32|
                            {
                                &&& old(self).periods().dom().contains(v)
                                &&& (forall|k: u32|
                                    old(self).periods().dom().contains(k)
                                        ==> (#[trigger] old(self).periods()[k]).last_accessed
                                        >= old(self).periods()[v].last_accessed)
                                &&& final(self).periods().dom() == old(
                                    self,
                                ).periods().dom().remove(v).insert(key)
                                &&& (forall|k: u32|
                                    old(self).periods().dom().contains(k) && k != v
                                        ==> final(self).periods()[k] == old(self).periods()[k])
                            }) by {
                            assert(old(self).periods().dom().contains(victim));
                            assert(forall|k: u32|
                                old(self).periods().dom().contains(k)
                                    ==> (#[trigger] old(self).periods()[k]).last_accessed >= old(
                                    self,
                                ).periods()[victim].last_accessed) by {
                                lemma_map_of_props(old(self).entries@);
                            }
                        }
                    }
                } else {
                    proof {
                        lemma_map_of_push(old(self).entries@, key, stored);
                        assert(keys_unique(old(self).entries@.push((key, stored)))) by {
                            assert(forall|j: int|
                                0 <= j < old(self).entries@.len() ==> old(self).entries@[j].0
                                    != key);
                        }
                    }
                    self.entries.push((key, stored));
                    proof {
                        assert(final(self).periods().dom() =~= old(self).periods().dom().insert(
                            key,
                        ));
                    }
                }
            },
        }
        n
    }

    /// Bump the last-access time of a loaded period.
    pub fn touch(&mut self, key: u32, now: u64)
        requires
            old(self).wf(),
        ensures
            final(self).wf(),
            old(self).periods().dom().contains(key) ==> {
                &&& final(self).periods().dom() == old(self).periods().dom()
                &&& final(self).periods()[key].ds == old(self).periods()[key].ds
                &&& final(self).periods()[key].loaded_at == old(self).periods()[key].loaded_at
                &&& final(self).periods()[key].last_accessed == now
                &&& forall|k: u32|
                    old(self).periods().dom().contains(k) && k != key
                        ==> final(self).periods()[k] == old(self).periods()[k]
            },
            !old(self).periods().dom().contains(key) ==> *final(self) == *old(self),
    {
        proof {
            lemma_map_of_props(self.entries@);
        }
        match self.find(key) {
            Some(i) => {
                proof {
                    lemma_map_of_remove(old(self).entries@, i as int);
                    lemma_map_of_props(old(self).entries@);
                }
                let mut e = self.entries.remove(i);
                e.1.last_accessed = now;
                let ghost mid = self.entries@;
                proof {
                    lemma_map_of_props(mid);
                    lemma_map_of_push(mid, key, e.1);
                    assert forall|p: int, q: int|
                        0 <= p < q < mid.push((key, e.1)).len() implies mid.push(
                        (key, e.1),
                    )[p].0 != mid.push((key, e.1))[q].0 by {
                        if q < mid.len() {
                            assert(mid[p].0 != mid[q].0);
                        } else {
                            assert(!map_of(mid).dom().contains(key));
                            assert(map_of(mid).dom().contains(mid[p].0));
                        }
                    }
                }
                self.entries.push(e);
                proof {
                    assert(final(self).periods() =~= old(self).periods().insert(key, e.1));
                    assert(final(self).periods().dom() =~= old(self).periods().dom());
                }
            },
            None => {},
        }
    }
}

} // verus!

verus! {

/// How a retention sweep reshapes the store mapping: nothing is
/// modified, only removed; current-year periods are never touched;
/// exactly the historic overflow beyond `keep` goes; and no removed
/// historic entry was accessed more recently than a kept one.
pub open spec fn sweep_shape(
    pre: Map<u32, StoredPeriod>,
    post: Map<u32, StoredPeriod>,
    keep: usize,
    current_year: u32,
    removed: int,
) -> bool {
    &&& forall|k: u32| #[trigger]
        post.dom().contains(k) ==> pre.dom().contains(k) && post[k] == pre[k]
    &&& forall|k: u32| #[trigger]
        pre.dom().contains(k) && !is_historic(k, current_year) ==> post.dom().contains(k)
    &&& hist_keys(post, current_year).len() == if hist_keys(pre, current_year).len() > keep {
        keep as int
    } else {
        hist_keys(pre, current_year).len() as int
    }
    &&& removed == hist_keys(pre, current_year).len() - hist_keys(post, current_year).len()
    &&& forall|k1: u32, k2: u32|
        pre.dom().contains(k1) && !post.dom().contains(k1) && post.dom().contains(k2)
            && is_historic(k2, current_year) ==> (#[trigger] pre[k1]).last_accessed
            <= (#[trigger] pre[k2]).last_accessed
}

/// Cap an unbounded non-negative integer into the unsigned 64-bit range.
pub open spec fn cap_u64(v: int) -> u64 {
    if v > u64::MAX {
        u64::MAX
    } else if v < 0 {
        0
    } else {
        v as u64
    }
}

/// Total row count of the entries of a store, back to front.
pub open spec fn rows_sum(s: Seq<(u32, StoredPeriod)>) -> int
    decreases s.len(),
{
    if s.len() == 0 {
        0
    } else {
        rows_sum(s.drop_last()) + s.last().1.ds.n
    }
}

impl PeriodStore {
    fn count_historic(&self, current_year: u32) -> (r: usize)
        requires
            self.wf(),
        ensures
            r == hist_keys(self.periods(), current_year).len(),
            r <= self.entries@.len(),
    {
        let n = self.entries.len();
        let mut cnt: usize = 0;
        let mut i: usize = 0;
        while i < n
            invariant
                i <= n,
                cnt <= i,
                n == self.entries@.len(),
                cnt == seq_hist_count(self.entries@.take(i as int), current_year),
            decreases n - i,
        {
            proof {
                assert(self.entries@.take(i + 1).drop_last() =~= self.entries@.take(i as int));
                assert(self.entries@.take(i + 1).last() == self.entries@[i as int]);
            }
            if self.entries[i].0 / 100 != current_year {
                cnt = cnt + 1;
            }
            i = i + 1;
        }
        proof {
            assert(self.entries@.take(n as int) =~= self.entries@);
            lemma_hist_count(self.entries@, current_year);
        }
        cnt
    }

    /// Index of the historic entry with the smallest last-access time.
    fn historic_lru(&self, current_year: u32) -> (r: Option<usize>)
        ensures
            match r {
                Some(b) => b < self.entries@.len() && is_historic(
                    self.entries@[b as int].0,
                    current_year,
                ) && forall|j: int|
                    0 <= j < self.entries@.len() && is_historic(self.entries@[j].0, current_year)
                        ==> self.entries@[j].1.last_accessed
                        >= self.entries@[b as int].1.last_accessed,
                None => forall|j: int|
                    0 <= j < self.entries@.len() ==> !is_historic(
                        self.entries@[j].0,
                        current_year,
                    ),
            },
    {
        let n = self.entries.len();
        let mut best: Option<usize> = None;
        let mut i: usize = 0;
        while i < n
            invariant
                i <= n,
                n == self.entries@.len(),
                match best {
                    Some(b) => b < i && is_historic(self.entries@[b as int].0, current_year)
                        && forall|j: int|
                        0 <= j < i && is_historic(self.entries@[j].0, current_year)
                            ==> self.entries@[j].1.last_accessed
                            >= self.entries@[b as int].1.last_accessed,
                    None => forall|j: int|
                        0 <= j < i ==> !is_historic(self.entries@[j].0, current_year),
                },
            decreases n - i,
        {
            if self.entries[i].0 / 100 != current_year {
                best = match best {
                    Some(b) => {
                        if self.entries[i].1.last_accessed
                            < self.entries[b].1.last_accessed {
                            Some(i)
                        } else {
                            Some(b)
                        }
                    },
                    None => Some(i),
                };
            }
            i = i + 1;
        }
        best
    }

    /// Among the periods outside the current year, keep only the `keep`
    /// most recently accessed and remove the rest, oldest first.
    /// Current-year periods are never touched.  Returns how many entries
    /// were removed.
    pub fn sweep_retain_recent(&mut self, keep: usize, current_year: u32) -> (r: usize)
        requires
            old(self).wf(),
        ensures
            final(self).wf(),
            sweep_shape(old(self).periods(), final(self).periods(), keep, current_year, r as int),
    {
        let ghost m0 = self.periods();
        let mut removed: usize = 0;
        let mut ch = self.count_historic(current_year);
        let ghost h0 = hist_keys(m0, current_year).len();
        while ch > keep
            invariant
                self.wf(),
                ch == hist_keys(self.periods(), current_year).len(),
                removed == h0 - ch,
                ch <= h0 <= MAX_PERIODS,
                h0 == hist_keys(m0, current_year).len(),
                removed > 0 ==> ch >= keep,
                forall|k: u32| #[trigger]
                    self.periods().dom().contains(k) ==> m0.dom().contains(k)
                        && self.periods()[k] == m0[k],
                forall|k: u32| #[trigger]
                    m0.dom().contains(k) && !is_historic(k, current_year)
                        ==> self.periods().dom().contains(k),
                forall|k1: u32, k2: u32|
                    m0.dom().contains(k1) && !self.periods().dom().contains(k1)
                        && self.periods().dom().contains(k2) && is_historic(k2, current_year)
                        ==> (#[trigger] m0[k1]).last_accessed <= (#[trigger] m0[k2]).last_accessed,
            decreases ch,
        {
            let ghost pre = *self;
            proof {
                lemma_map_of_props(self.entries@);
                lemma_hist_count(self.entries@, current_year);
            }
            match self.historic_lru(current_year) {
                Some(i) => {
                    let ghost vkey = self.entries@[i as int].0;
                    proof {
                        lemma_map_of_remove(pre.entries@, i as int);
                        assert(hist_keys(pre.periods(), current_year).contains(vkey));
                    }
                    self.entries.remove(i);
                    removed = removed + 1;
                    ch = ch - 1;
                    proof {
                        assert(hist_keys(self.periods(), current_year) =~= hist_keys(
                            pre.periods(),
                            current_year,
                        ).remove(vkey));
                        // the removed entry is oldest among remaining historic ones
                        assert forall|k2: u32|
                            self.periods().dom().contains(k2) && is_historic(k2, current_year)
                                implies m0[vkey].last_accessed <= (
                        #[trigger] m0[k2]).last_accessed by {
                            let j = choose|j: int|
                                0 <= j < pre.entries@.len() && pre.entries@[j].0 == k2;
                            assert(pre.entries@[j].1.last_accessed
                                >= pre.entries@[i as int].1.last_accessed);
                            assert(pre.periods()[k2] == pre.entries@[j].1);
                            assert(pre.periods()[vkey] == pre.entries@[i as int].1);
                        }
                    }
                },
                None => {
                    proof {
                        assert(hist_keys(self.periods(), current_year) =~= Set::<u32>::empty())
                            by {
                            lemma_map_of_props(self.entries@);
                        }
                        assert(false);
                    }
                },
            }
        }
        proof {
            lemma_hist_count(self.entries@, current_year);
        }
        removed
    }

    /// Total rows held across all loaded periods, saturating.
    pub fn total_rows(&self) -> (r: u64)
        requires
            self.wf(),
        ensures
            r == cap_u64(rows_sum(self.entries@)),
    {
        let n = self.entries.len();
        let mut acc: u64 = 0;
        let mut i: usize = 0;
        while i < n
            invariant
                i <= n,
                n == self.entries@.len(),
                acc == cap_u64(rows_sum(self.entries@.take(i as int))),
                rows_sum(self.entries@.take(i as int)) >= 0,
            decreases n - i,
        {
            proof {
                assert(self.entries@.take(i + 1).drop_last() =~= self.entries@.take(i as int));
                assert(self.entries@.take(i + 1).last() == self.entries@[i as int]);
            }
            let rows = self.entries[i].1.ds.n as u64;
            acc = acc.saturating_add(rows);
            i = i + 1;
        }
        proof {
            assert(self.entries@.take(n as int) =~= self.entries@);
        }
        acc
    }
}

} // verus!

verus! {

impl PeriodStore {
    /// Aggregate the dataset of a loaded period under a status filter.
    /// Returns nothing when the period is not loaded.
    pub fn aggregate_key(&self, key: u32, filter: i64) -> (r: Option<crate::agg::GroupMap>)
        requires
            self.wf(),
        ensures
            r is Some <==> self.periods().dom().contains(key),
            r matches Some(g) ==> {
                &&& g.wf()
                &&& g.groups() == crate::agg::aggregate_spec(self.periods()[key].ds, filter)
                &&& crate::agg::groups_nonneg(g.groups())
            },
    {
        proof {
            lemma_map_of_props(self.entries@);
        }
        match self.find(key) {
            Some(i) => Some(crate::agg::aggregate(&self.entries[i].1.ds, filter)),
            None => None,
        }
    }
}

} // verus!

verus! {

/// Row counts are non-negative, so their sum is.
pub proof fn lemma_rows_sum_nonneg(s: Seq<(u32, StoredPeriod)>)
    ensures
        rows_sum(s) >= 0,
    decreases s.len(),
{
    if s.len() > 0 {
        lemma_rows_sum_nonneg(s.drop_last());
    }
}

} // verus!
