use vstd::prelude::*;

use crate::agg::GroupMap;
use vstd::multiset::Multiset;
use crate::assoc::{keys_unique, lemma_entries_dom_len, lemma_map_of_props, lemma_map_of_push,
    lemma_map_of_remove, map_of};

verus! {

/// Capacity bound of the memoized-result store.
pub const MAX_RESULTS: usize = 200;

/// The key of a memoized comparison: the two period keys and the status
/// filter (negative filter means "no filter applied").
#[derive(Clone, Copy, PartialEq, Eq, Structural, Debug)]
pub struct ResultKey {
    pub key1: u32,
    pub key2: u32,
    pub filter: i64,
}

/// A memoized comparison: the two per-period group mappings and the
/// entry's cache metadata.
pub struct ResultEntry {
    pub agg1: GroupMap,
    pub agg2: GroupMap,
    pub computed_at: u64,
    pub last_accessed: u64,
    pub access_count: u64,
}

/// One row of the cache introspection listing.
#[derive(Clone, Copy, PartialEq, Eq, Structural, Debug)]
pub struct CacheEntryInfo {
    pub key1: u32,
    pub key2: u32,
    pub filter: i64,
    pub access_count: u64,
    pub age_seconds: u64,
    pub idle_seconds: u64,
}

/// Idle time of an entry: elapsed seconds since its last access,
/// saturating at zero for clocks that move backwards.
pub open spec fn idle_of(e: ResultEntry, now: u64) -> u64 {
    if now >= e.last_accessed {
        (now - e.last_accessed) as u64
    } else {
        0
    }
}

/// Age of an entry: elapsed seconds since it was computed.
pub open spec fn age_of(e: ResultEntry, now: u64) -> u64 {
    if now >= e.computed_at {
        (now - e.computed_at) as u64
    } else {
        0
    }
}

/// The introspection row of one entry.
pub open spec fn info_of(k: ResultKey, e: ResultEntry, now: u64) -> CacheEntryInfo {
    CacheEntryInfo {
        key1: k.key1,
        key2: k.key2,
        filter: k.filter,
        access_count: e.access_count,
        age_seconds: age_of(e, now),
        idle_seconds: idle_of(e, now),
    }
}

/// Sorted by access count, most accessed first.
pub open spec fn sorted_by_access_desc(s: Seq<CacheEntryInfo>) -> bool {
    forall|i: int, j: int| 0 <= i < j < s.len() ==> s[i].access_count >= s[j].access_count
}

/// How a bounded LRU insert reshapes the cache mapping: the key is
/// present afterwards, every other surviving entry is carried over
/// unchanged, and when a new key is inserted at capacity one entry with
/// the globally smallest last-access time has left.
pub open spec fn lru_insert_shape(
    pre: Map<ResultKey, ResultEntry>,
    post: Map<ResultKey, ResultEntry>,
    key: ResultKey,
) -> bool {
    &&& post.dom().contains(key)
    &&& forall|k: ResultKey| #[trigger]
        post.dom().contains(k) && k != key ==> pre.dom().contains(k) && post[k] == pre[k]
    &&& (pre.dom().contains(key) ==> post.dom() == pre.dom())
    &&& (!pre.dom().contains(key) && pre.dom().len() < MAX_RESULTS ==> post.dom()
        == pre.dom().insert(key))
    &&& (!pre.dom().contains(key) && pre.dom().len() >= MAX_RESULTS ==> exists|victim: ResultKey|
        {
            &&& pre.dom().contains(victim)
            &&& victim != key
            &&& (forall|k: ResultKey|
                pre.dom().contains(k) ==> (#[trigger] pre[k]).last_accessed
                    >= pre[victim].last_accessed)
            &&& post.dom() == pre.dom().remove(victim).insert(key)
        })
}

/// How a cache hit reshapes the cache mapping: the hit entry keeps its
/// aggregates and creation time, its last-access time becomes `now` and
/// its access count grows by one (saturating); every other entry is
/// untouched.
pub open spec fn hit_bump_shape(
    pre: Map<ResultKey, ResultEntry>,
    post: Map<ResultKey, ResultEntry>,
    key: ResultKey,
    now: u64,
) -> bool {
    &&& post.dom() == pre.dom()
    &&& post[key].agg1 == pre[key].agg1
    &&& post[key].agg2 == pre[key].agg2
    &&& post[key].computed_at == pre[key].computed_at
    &&& post[key].last_accessed == now
    &&& post[key].access_count == if pre[key].access_count == u64::MAX {
        u64::MAX
    } else {
        (pre[key].access_count + 1) as u64
    }
    &&& forall|k: ResultKey|
        pre.dom().contains(k) && k != key ==> #[trigger] post[k] == pre[k]
}

/// How a TTL expiry reshapes the cache mapping: exactly the entries
/// whose idle time reached the bound are removed, every other entry is
/// untouched, and `removed` counts what left.
pub open spec fn expire_shape(
    pre: Map<ResultKey, ResultEntry>,
    post: Map<ResultKey, ResultEntry>,
    ttl_seconds: u64,
    now: u64,
    removed: int,
) -> bool {
    &&& forall|k: ResultKey| #[trigger]
        post.dom().contains(k) ==> pre.dom().contains(k) && post[k] == pre[k]
    &&& forall|k: ResultKey| #[trigger]
        pre.dom().contains(k) ==> (post.dom().contains(k) <==> idle_of(pre[k], now)
            < ttl_seconds)
    &&& removed == pre.dom().len() - post.dom().len()
}

/// The bounded memoized-result store: LRU eviction on overflow and
/// TTL-based expiry.
pub struct ResultCache {
    pub entries: Vec<(ResultKey, ResultEntry)>,
}

impl ResultCache {
    /// Well-formedness: unique keys, within capacity, well-formed group
    /// mappings.
    pub open spec fn wf(self) -> bool {
        &&& keys_unique(self.entries@)
        &&& self.entries@.len() <= MAX_RESULTS
        &&& forall|i: int|
            0 <= i < self.entries@.len() ==> (#[trigger] self.entries@[i]).1.agg1.wf()
                && self.entries@[i].1.agg2.wf()
    }

    /// The mapping this cache denotes.
    pub open spec fn cached(self) -> Map<ResultKey, ResultEntry> {
        map_of(self.entries@)
    }

    pub fn new() -> (c: ResultCache)
        ensures
            c.wf(),
            c.cached() == Map::<ResultKey, ResultEntry>::empty(),
    {
        ResultCache { entries: Vec::new() }
    }

    fn find(&self, key: ResultKey) -> (r: Option<usize>)
        ensures
            match r {
                Some(j) => j < self.entries@.len() && self.entries@[j as int].0 == key,
                None => forall|i: int| 0 <= i < self.entries@.len() ==> self.entries@[i].0 != key,
            },
    {
        let n = self.entries.len();
        let mut i: usize = 0;
        while i < n
            invariant
                i <= n,
                n == self.entries@.len(),
                forall|j: int| 0 <= j < i ==> self.entries@[j].0 != key,
            decreases n - i,
        {
            if self.entries[i].0 == key {
                return Some(i);
            }
            i = i + 1;
        }
        None
    }

    /// Whether a comparison is memoized.
    pub fn contains(&self, key: ResultKey) -> (r: bool)
        requires
            self.wf(),
        ensures
            r == self.cached().dom().contains(key),
    {
        proof {
            lemma_map_of_props(self.entries@);
        }
        self.find(key).is_some()
    }

    /// Number of memoized comparisons.
    pub fn len(&self) -> (r: usize)
        requires
            self.wf(),
        ensures
            r == self.cached().dom().len(),
            r <= MAX_RESULTS,
    {
        proof {
            lemma_entries_dom_len(self.entries@);
        }
        self.entries.len()
    }

    /// Remove one memoized comparison outright.  Returns whether it was
    /// present.
    pub fn evict(&mut self, key: ResultKey) -> (r: bool)
        requires
            old(self).wf(),
        ensures
            final(self).wf(),
            r == old(self).cached().dom().contains(key),
            final(self).cached() == old(self).cached().remove(key),
    {
        proof {
            lemma_map_of_props(self.entries@);
        }
        match self.find(key) {
            Some(i) => {
                proof {
                    lemma_map_of_remove(old(self).entries@, i as int);
                }
                self.entries.remove(i);
                true
            },
            None => {
                proof {
                    assert(old(self).cached().remove(key) =~= old(self).cached());
                }
                false
            },
        }
    }

    /// Probe for a memoized comparison.  On a hit, bump the entry's
    /// last-access time and access count and hand back copies of the
    /// two cached group mappings, bit for bit, without recomputing
    /// anything.
    pub fn hit(&mut self, key: ResultKey, now: u64) -> (r: Option<(GroupMap, GroupMap)>)
        requires
            old(self).wf(),
        ensures
            final(self).wf(),
            r is Some <==> old(self).cached().dom().contains(key),
            r is None ==> *final(self) == *old(self),
            r matches Some((g1, g2)) ==> {
                &&& g1.entries@ == old(self).cached()[key].agg1.entries@
                &&& g2.entries@ == old(self).cached()[key].agg2.entries@
                &&& g1.wf() && g2.wf()
                &&& hit_bump_shape(old(self).cached(), final(self).cached(), key, now)
            },
    {
        proof {
            lemma_map_of_props(self.entries@);
        }
        match self.find(key) {
            Some(i) => {
                proof {
                    lemma_map_of_remove(old(self).entries@, i as int);
                    lemma_map_of_props(old(self).entries@);
                }
                let mut e = self.entries.remove(i);
                e.1.last_accessed = now;
                e.1.access_count = e.1.access_count.saturating_add(1);
                let g1 = e.1.agg1.duplicate();
                let g2 = e.1.agg2.duplicate();
                let ghost mid = self.entries@;
                proof {
                    lemma_map_of_props(mid);
                    lemma_map_of_push(mid, key, e.1);
                    assert forall|p: int, q: int|
                        0 <= p < q < mid.push((key, e.1)).len() implies mid.push(
                        (key, e.1),
                    )[p].0 != mid.push((key, e.1))[q].0 by {
                        if q < mid.len() {
                            assert(mid[p].0 != mid[q].0);
                        } else {
                            assert(!map_of(mid).dom().contains(key));
                            assert(map_of(mid).dom().contains(mid[p].0));
                        }
                    }
                }
                self.entries.push(e);
                proof {
                    assert(final(self).cached() =~= old(self).cached().insert(key, e.1));
                    assert(final(self).cached().dom() =~= old(self).cached().dom());
                }
                Some((g1, g2))
            },
            None => None,
        }
    }

    /// Index of the entry with the globally smallest last-access time.
    fn lru_victim(&self) -> (r: Option<usize>)
        ensures
            match r {
                Some(b) => b < self.entries@.len() && forall|j: int|
                    0 <= j < self.entries@.len() ==> self.entries@[j].1.last_accessed
                        >= self.entries@[b as int].1.last_accessed,
                None => self.entries@.len() == 0,
            },
    {
        let n = self.entries.len();
        if n == 0 {
            return None;
        }
        let mut best: usize = 0;
        let mut i: usize = 1;
        while i < n
            invariant
                best < i <= n,
                n == self.entries@.len(),
                forall|j: int| 0 <= j < i ==> self.entries@[j].1.last_accessed
                    >= self.entries@[best as int].1.last_accessed,
            decreases n - i,
        {
            if self.entries[i].1.last_accessed < self.entries[best].1.last_accessed {
                best = i;
            }
            i = i + 1;
        }
        Some(best)
    }

    /// Memoize a freshly computed comparison with an access count of
    /// one.  If the cache is at capacity and the key is new, the entry
    /// with the globally smallest last-access time is evicted first.
    pub fn insert_lru(&mut self, key: ResultKey, agg1: GroupMap, agg2: GroupMap, now: u64)
        requires
            old(self).wf(),
            agg1.wf(),
            agg2.wf(),
        ensures
            final(self).wf(),
            lru_insert_shape(old(self).cached(), final(self).cached(), key),
            final(self).cached()[key].agg1 == agg1,
            final(self).cached()[key].agg2 == agg2,
            final(self).cached()[key].computed_at == now,
            final(self).cached()[key].last_accessed == now,
            final(self).cached()[key].access_count == 1,
    {
        proof {
            lemma_map_of_props(self.entries@);
            lemma_entries_dom_len(self.entries@);
        }
        let entry = ResultEntry {
            agg1,
            agg2,
            computed_at: now,
            last_accessed: now,
            access_count: 1,
        };
        match self.find(key) {
            Some(i) => {
                proof {
                    lemma_map_of_remove(old(self).entries@, i as int);
                    lemma_map_of_props(old(self).entries@);
                }
                self.entries.remove(i);
                let ghost mid = self.entries@;
                proof {
                    lemma_map_of_props(mid);
                    lemma_map_of_push(mid, key, entry);
                    assert forall|p: int, q: int|
                        0 <= p < q < mid.push((key, entry)).len() implies mid.push(
                        (key, entry),
                    )[p].0 != mid.push((key, entry))[q].0 by {
                        if q < mid.len() {
                            assert(mid[p].0 != mid[q].0);
                        } else {
                            assert(!map_of(mid).dom().contains(key));
                            assert(map_of(mid).dom().contains(mid[p].0));
                        }
                    }
                }
                self.entries.push((key, entry));
                proof {
                    assert(final(self).cached() =~= old(self).cached().insert(key, entry));
                    assert(final(self).cached().dom() =~= old(self).cached().dom());
                }
            },
            None => {
                if self.entries.len() >= MAX_RESULTS {
                    let vi = match self.lru_victim() {
                        Some(vi) => vi,
                        None => {
                            proof {
                                assert(false);
                            }
                            0
                        },
                    };
                    let ghost victim = self.entries@[vi as int].0;
                    proof {
                        lemma_map_of_remove(old(self).entries@, vi as int);
                        lemma_map_of_props(old(self).entries@);
                    }
                    self.entries.remove(vi);
                    let ghost mid = self.entries@;
                    proof {
                        lemma_map_of_props(mid);
                        lemma_map_of_push(mid, key, entry);
                        assert(forall|j: int| 0 <= j < mid.len() ==> mid[j].0 != key);
                        assert(keys_unique(mid.push((key, entry))));
                    }
                    self.entries.push((key, entry));
                    proof {
                        assert(final(self).cached().dom() =~= old(self).cached().dom().remove(
                            victim,
                        ).insert(key));
                        assert(old(self).cached().dom().contains(victim));
                        assert(victim != key);
                        assert(forall|k: ResultKey|
                            old(self).cached().dom().contains(k) ==> (#[trigger] old(
                                self,
                            ).cached()[k]).last_accessed >= old(
                                self,
                            ).cached()[victim].last_accessed) by {
                            lemma_map_of_props(old(self).entries@);
                        }
                    }
                } else {
                    proof {
                        lemma_map_of_push(old(self).entries@, key, entry);
                        assert(keys_unique(old(self).entries@.push((key, entry)))) by {
                            assert(forall|j: int|
                                0 <= j < old(self).entries@.len() ==> old(self).entries@[j].0
                                    != key);
                        }
                    }
                    self.entries.push((key, entry));
                    proof {
                        assert(final(self).cached().dom() =~= old(self).cached().dom().insert(
                            key,
                        ));
                    }
                }
            },
        }
    }

    /// Remove exactly the entries whose idle time is at least
    /// `ttl_seconds`, leaving every other entry untouched.  Returns how
    /// many entries were removed.
    pub fn expire_older_than(&mut self, ttl_seconds: u64, now: u64) -> (r: usize)
        requires
            old(self).wf(),
        ensures
            final(self).wf(),
            expire_shape(old(self).cached(), final(self).cached(), ttl_seconds, now, r as int),
    {
        let ghost m0 = self.cached();
        proof {
            lemma_entries_dom_len(self.entries@);
        }
        let mut removed: usize = 0;
        let mut i: usize = 0;
        while i < self.entries.len()
            invariant
                self.wf(),
                i <= self.entries@.len(),
                forall|j: int| 0 <= j < i ==> idle_of(
                    (#[trigger] self.entries@[j]).1,
                    now,
                ) < ttl_seconds,
                forall|k: ResultKey| #[trigger]
                    self.cached().dom().contains(k) ==> m0.dom().contains(k) && self.cached()[k]
                        == m0[k],
                forall|k: ResultKey| #[trigger]
                    m0.dom().contains(k) && idle_of(m0[k], now) < ttl_seconds
                        ==> self.cached().dom().contains(k),
                removed == m0.dom().len() - self.cached().dom().len(),
                removed <= MAX_RESULTS,
                m0.dom().len() <= MAX_RESULTS,
                m0.dom().finite(),
            decreases self.entries@.len() - i,
        {
            proof {
                lemma_map_of_props(self.entries@);
                lemma_entries_dom_len(self.entries@);
            }
            let idle = now.saturating_sub(self.entries[i].1.last_accessed);
            if idle >= ttl_seconds {
                let ghost pre = self.entries@;
                proof {
                    lemma_map_of_remove(pre, i as int);
                    lemma_entries_dom_len(pre.remove(i as int));
                }
                self.entries.remove(i);
                removed = removed + 1;
            } else {
                i = i + 1;
            }
        }
        proof {
            lemma_map_of_props(self.entries@);
            assert forall|k: ResultKey| #[trigger]
                m0.dom().contains(k) && self.cached().dom().contains(k) implies idle_of(
                m0[k],
                now,
            ) < ttl_seconds by {
                let j = choose|j: int|
                    0 <= j < self.entries@.len() && self.entries@[j].0 == k;
                assert(idle_of(self.entries@[j].1, now) < ttl_seconds);
                assert(self.cached()[k] == self.entries@[j].1);
            }
        }
        removed
    }
}

} // verus!

verus! {

/// Total access count across all entries, back to front.
pub open spec fn hits_sum(s: Seq<(ResultKey, ResultEntry)>) -> int
    decreases s.len(),
{
    if s.len() == 0 {
        0
    } else {
        hits_sum(s.drop_last()) + s.last().1.access_count
    }
}

/// The introspection rows of a cache's entries, unordered.
pub open spec fn infos_of(s: Seq<(ResultKey, ResultEntry)>, now: u64) -> Seq<CacheEntryInfo> {
    s.map_values(|p: (ResultKey, ResultEntry)| info_of(p.0, p.1, now))
}

/// Index of a row with the largest access count.
fn max_access_idx(infos: &Vec<CacheEntryInfo>) -> (r: usize)
    requires
        infos@.len() > 0,
    ensures
        r < infos@.len(),
        forall|j: int| 0 <= j < infos@.len() ==> infos@[j].access_count
            <= infos@[r as int].access_count,
{
    let n = infos.len();
    let mut best: usize = 0;
    let mut i: usize = 1;
    while i < n
        invariant
            best < i <= n,
            n == infos@.len(),
            forall|j: int| 0 <= j < i ==> infos@[j].access_count
                <= infos@[best as int].access_count,
        decreases n - i,
    {
        if infos[i].access_count > infos[best].access_count {
            best = i;
        }
        i = i + 1;
    }
    best
}

impl ResultCache {
    /// Cumulative hits: total access count across all entries,
    /// saturating.
    pub fn cumulative_hits(&self) -> (r: u64)
        requires
            self.wf(),
        ensures
            r == crate::period_store::cap_u64(hits_sum(self.entries@)),
    {
        let n = self.entries.len();
        let mut acc: u64 = 0;
        let mut i: usize = 0;
        while i < n
            invariant
                i <= n,
                n == self.entries@.len(),
                acc == crate::period_store::cap_u64(hits_sum(self.entries@.take(i as int))),
                hits_sum(self.entries@.take(i as int)) >= 0,
            decreases n - i,
        {
            proof {
                assert(self.entries@.take(i + 1).drop_last() =~= self.entries@.take(i as int));
                assert(self.entries@.take(i + 1).last() == self.entries@[i as int]);
            }
            acc = acc.saturating_add(self.entries[i].1.access_count);
            i = i + 1;
        }
        proof {
            assert(self.entries@.take(n as int) =~= self.entries@);
        }
        acc
    }

    /// The introspection listing: one row per entry, sorted by access
    /// count, most accessed first.
    pub fn infos_sorted(&self, now: u64) -> (r: Vec<CacheEntryInfo>)
        requires
            self.wf(),
        ensures
            r@.to_multiset() == infos_of(self.entries@, now).to_multiset(),
            sorted_by_access_desc(r@),
    {
        broadcast use vstd::seq_lib::group_to_multiset_ensures;

        let n = self.entries.len();
        let mut infos: Vec<CacheEntryInfo> = Vec::new();
        let mut i: usize = 0;
        while i < n
            invariant
                i <= n,
                n == self.entries@.len(),
                infos@ == infos_of(self.entries@.take(i as int), now),
            decreases n - i,
        {
            let e = &self.entries[i];
            let info = CacheEntryInfo {
                key1: e.0.key1,
                key2: e.0.key2,
                filter: e.0.filter,
                access_count: e.1.access_count,
                age_seconds: now.saturating_sub(e.1.computed_at),
                idle_seconds: now.saturating_sub(e.1.last_accessed),
            };
            assert(info == info_of(e.0, e.1, now));
            infos.push(info);
            proof {
                assert(infos_of(self.entries@.take(i + 1), now) =~= infos_of(
                    self.entries@.take(i as int),
                    now,
                ).push(info_of(self.entries@[i as int].0, self.entries@[i as int].1, now)));
            }
            i = i + 1;
        }
        proof {
            assert(self.entries@.take(n as int) =~= self.entries@);
        }
        let ghost total = infos@.to_multiset();
        let mut out: Vec<CacheEntryInfo> = Vec::new();
        while infos.len() > 0
            invariant
                out@.to_multiset().add(infos@.to_multiset()) == total,
                sorted_by_access_desc(out@),
                forall|p: int, x: CacheEntryInfo|
                    0 <= p < out@.len() && #[trigger] infos@.contains(x)
                        ==> (#[trigger] out@[p]).access_count >= x.access_count,
            decreases infos@.len(),
        {
            let mi = max_access_idx(&infos);
            let ghost pre = infos@;
            let e = infos.remove(mi);
            proof {
                assert(infos@ == pre.remove(mi as int));
                assert(pre.contains(e)) by {
                    assert(pre[mi as int] == e);
                }
                vstd::seq_lib::to_multiset_build(out@, e);
                vstd::seq_lib::to_multiset_remove(pre, mi as int);
                vstd::seq_lib::to_multiset_contains(pre, e);
                assert(out@.push(e).to_multiset() =~= out@.to_multiset().insert(e));
                assert(infos@.to_multiset() =~= pre.to_multiset().remove(e));
                assert(pre.to_multiset().count(e) > 0);
                assert forall|x: CacheEntryInfo|
                    out@.push(e).to_multiset().add(infos@.to_multiset()).count(x)
                        == total.count(x) by {
                    assert(out@.to_multiset().insert(e).count(x) == out@.to_multiset().count(x)
                        + if x == e {
                        1int
                    } else {
                        0int
                    });
                    assert(pre.to_multiset().remove(e).count(x) == pre.to_multiset().count(x)
                        - if x == e {
                        1int
                    } else {
                        0int
                    });
                    assert(out@.to_multiset().add(pre.to_multiset()).count(x) == total.count(x));
                }
                assert(out@.push(e).to_multiset().add(infos@.to_multiset()) =~= total);
                assert forall|x: CacheEntryInfo| infos@.contains(x) implies x.access_count
                    <= e.access_count by {
                    let j = choose|j: int| 0 <= j < infos@.len() && infos@[j] == x;
                    let pj: int = if j < mi {
                        j
                    } else {
                        j + 1
                    };
                    assert(pre[pj] == x);
                    assert(pre[pj].access_count <= pre[mi as int].access_count);
                }
            }
            out.push(e);
            proof {
                assert(sorted_by_access_desc(out@)) by {
                    assert forall|p: int, q: int|
                        0 <= p < q < out@.len() implies out@[p].access_count
                        >= out@[q].access_count by {
                        if q == out@.len() - 1 {
                            assert(pre.contains(e));
                        }
                    }
                }
            }
        }
        proof {
            assert(infos@.to_multiset() =~= Multiset::<CacheEntryInfo>::empty()) by {
                assert(infos@ =~= Seq::<CacheEntryInfo>::empty());
            }
            assert(out@.to_multiset() =~= total);
        }
        out
    }
}

} // verus!
