use vstd::prelude::*;

verus! {

/// The mapping that a key-value sequence denotes: later entries shadow
/// earlier ones (irrelevant once keys are unique).
pub open spec fn map_of<K, V>(s: Seq<(K, V)>) -> Map<K, V>
    decreases s.len(),
{
    if s.len() == 0 {
        Map::empty()
    } else {
        map_of(s.drop_last()).insert(s.last().0, s.last().1)
    }
}

/// No two entries share a key.
pub open spec fn keys_unique<K, V>(s: Seq<(K, V)>) -> bool {
    forall|i: int, j: int| 0 <= i < j < s.len() ==> s[i].0 != s[j].0
}

/// The denoted map contains exactly the keys of the sequence, and under
/// unique keys each entry's value.
pub proof fn lemma_map_of_props<K, V>(s: Seq<(K, V)>)
    ensures
        forall|k: K| #[trigger]
            map_of(s).dom().contains(k) <==> exists|i: int| 0 <= i < s.len() && s[i].0 == k,
        keys_unique(s) ==> forall|i: int|
            0 <= i < s.len() ==> #[trigger] map_of(s)[s[i].0] == s[i].1,
        map_of(s).dom().finite(),
    decreases s.len(),
{
    if s.len() == 0 {
    } else {
        lemma_map_of_props(s.drop_last());
        assert forall|k: K| #[trigger] map_of(s).dom().contains(k) implies exists|i: int|
            0 <= i < s.len() && s[i].0 == k by {
            if k == s.last().0 {
                assert(s[s.len() - 1].0 == k);
            } else {
                let i = choose|i: int| 0 <= i < s.drop_last().len() && s.drop_last()[i].0 == k;
                assert(s[i].0 == k);
            }
        }
        assert forall|k: K| (exists|i: int| 0 <= i < s.len() && s[i].0 == k) implies #[trigger]
            map_of(s).dom().contains(k) by {
            let i = choose|i: int| 0 <= i < s.len() && s[i].0 == k;
            if i < s.len() - 1 {
                assert(s.drop_last()[i].0 == k);
            }
        }
        if keys_unique(s) {
            assert(keys_unique(s.drop_last()));
            assert forall|i: int| 0 <= i < s.len() implies #[trigger] map_of(s)[s[i].0]
                == s[i].1 by {
                if i < s.len() - 1 {
                    assert(s[i].0 != s.last().0);
                    assert(s.drop_last()[i] == s[i]);
                }
            }
        }
    }
}

/// Under unique keys the denoted map has exactly one key per entry.
pub proof fn lemma_entries_dom_len<K, V>(s: Seq<(K, V)>)
    requires
        keys_unique(s),
    ensures
        map_of(s).dom().finite(),
        map_of(s).dom().len() == s.len(),
    decreases s.len(),
{
    if s.len() == 0 {
    } else {
        assert(keys_unique(s.drop_last()));
        lemma_entries_dom_len(s.drop_last());
        lemma_map_of_props(s.drop_last());
        assert(!map_of(s.drop_last()).dom().contains(s.last().0)) by {
            if map_of(s.drop_last()).dom().contains(s.last().0) {
                let i = choose|i: int|
                    0 <= i < s.drop_last().len() && s.drop_last()[i].0 == s.last().0;
                assert(s[i].0 == s[s.len() - 1].0);
            }
        }
        assert(map_of(s).dom() =~= map_of(s.drop_last()).dom().insert(s.last().0));
    }
}

/// Appending an entry with a fresh key inserts it into the denoted map.
pub proof fn lemma_map_of_push<K, V>(s: Seq<(K, V)>, k: K, v: V)
    ensures
        map_of(s.push((k, v))) == map_of(s).insert(k, v),
{
    assert(s.push((k, v)).drop_last() =~= s);
}

/// Overwriting the entry that holds key `k` updates the denoted map at `k`.
pub proof fn lemma_map_of_update<K, V>(s: Seq<(K, V)>, i: int, k: K, v: V)
    requires
        keys_unique(s),
        0 <= i < s.len(),
        s[i].0 == k,
    ensures
        map_of(s.update(i, (k, v))) =~= map_of(s).insert(k, v),
        keys_unique(s.update(i, (k, v))),
    decreases s.len(),
{
    lemma_map_of_props(s);
    let t = s.update(i, (k, v));
    assert forall|p: int, q: int| 0 <= p < q < t.len() implies t[p].0 != t[q].0 by {
        assert(s[p].0 != s[q].0);
    }
    if i == s.len() - 1 {
        assert(t.drop_last() =~= s.drop_last());
        assert(t.last() == (k, v));
    } else {
        assert(t.drop_last() =~= s.drop_last().update(i, (k, v)));
        assert(keys_unique(s.drop_last()));
        assert(s.drop_last()[i] == s[i]);
        lemma_map_of_update(s.drop_last(), i, k, v);
        assert(s.last().0 != k);
        assert(map_of(t) == map_of(s.drop_last()).insert(k, v).insert(s.last().0, s.last().1));
        assert(map_of(s).insert(k, v) == map_of(s.drop_last()).insert(
            s.last().0,
            s.last().1,
        ).insert(k, v));
        assert(map_of(s.drop_last()).insert(k, v).insert(s.last().0, s.last().1)
            =~= map_of(s.drop_last()).insert(s.last().0, s.last().1).insert(k, v));
    }
}

/// Removing the entry that holds key `k` removes `k` from the denoted map.
pub proof fn lemma_map_of_remove<K, V>(s: Seq<(K, V)>, i: int)
    requires
        keys_unique(s),
        0 <= i < s.len(),
    ensures
        map_of(s.remove(i)) =~= map_of(s).remove(s[i].0),
        keys_unique(s.remove(i)),
    decreases s.len(),
{
    lemma_map_of_props(s);
    lemma_map_of_props(s.remove(i));
    let t = s.remove(i);
    assert forall|p: int, q: int| 0 <= p < q < t.len() implies t[p].0 != t[q].0 by {
        let sp: int = if p < i {
            p
        } else {
            p + 1
        };
        let sq: int = if q < i {
            q
        } else {
            q + 1
        };
        assert(t[p] == s[sp] && t[q] == s[sq]);
        assert(s[sp].0 != s[sq].0);
    }
    lemma_map_of_props(t);
    assert forall|k: K| #[trigger] map_of(t).dom().contains(k) implies map_of(s).remove(
        s[i].0,
    ).dom().contains(k) by {
        let j = choose|j: int| 0 <= j < t.len() && t[j].0 == k;
        let sj: int = if j < i {
            j
        } else {
            j + 1
        };
        assert(t[j] == s[sj]);
        assert(s[sj].0 != s[i].0);
    }
    assert forall|k: K| #[trigger] map_of(s).remove(s[i].0).dom().contains(k) implies map_of(
        t,
    ).dom().contains(k) && map_of(t)[k] == map_of(s).remove(s[i].0)[k] by {
        let j = choose|j: int| 0 <= j < s.len() && s[j].0 == k;
        assert(j != i);
        let tj: int = if j < i {
            j
        } else {
            j - 1
        };
        assert(t[tj] == s[j]);
        assert(map_of(t)[k] == t[tj].1);
        assert(map_of(s)[k] == s[j].1);
    }
}

} // verus!
