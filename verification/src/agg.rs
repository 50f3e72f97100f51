use vstd::prelude::*;

use crate::assoc::{keys_unique, lemma_map_of_props, lemma_map_of_push, lemma_map_of_update,
    map_of};
use crate::dataset::{PeriodDataset, MISSING_INT};
use vstd::pervasive::VecAdditionalExecFns;

verus! {

/// The seven per-group accumulator fields, in the fixed order: row count,
/// incidents sum, attentions sum, and four cumulative-count sums.
#[derive(Clone, Copy, PartialEq, Eq, Structural, Debug)]
pub struct Accum {
    pub plazas: i64,
    pub inc_total: i64,
    pub aten_total: i64,
    pub cn_total: i64,
    pub cn_ini: i64,
    pub cn_prim: i64,
    pub cn_sec: i64,
}

/// The accumulator's mathematical model: the same seven fields as
/// unbounded integers, so that sums carry no overflow concerns.
pub ghost struct AccumModel {
    pub plazas: int,
    pub inc_total: int,
    pub aten_total: int,
    pub cn_total: int,
    pub cn_ini: int,
    pub cn_prim: int,
    pub cn_sec: int,
}

pub open spec fn zero_model() -> AccumModel {
    AccumModel {
        plazas: 0,
        inc_total: 0,
        aten_total: 0,
        cn_total: 0,
        cn_ini: 0,
        cn_prim: 0,
        cn_sec: 0,
    }
}

pub open spec fn zero_accum() -> Accum {
    Accum {
        plazas: 0,
        inc_total: 0,
        aten_total: 0,
        cn_total: 0,
        cn_ini: 0,
        cn_prim: 0,
        cn_sec: 0,
    }
}

/// A value's contribution to a sum: zero unless it is strictly positive.
/// The integer sentinel is negative, so missing values contribute zero.
pub open spec fn clip0(v: int) -> int {
    if v > 0 {
        v
    } else {
        0
    }
}

pub open spec fn model_add(a: AccumModel, b: AccumModel) -> AccumModel {
    AccumModel {
        plazas: a.plazas + b.plazas,
        inc_total: a.inc_total + b.inc_total,
        aten_total: a.aten_total + b.aten_total,
        cn_total: a.cn_total + b.cn_total,
        cn_ini: a.cn_ini + b.cn_ini,
        cn_prim: a.cn_prim + b.cn_prim,
        cn_sec: a.cn_sec + b.cn_sec,
    }
}

pub open spec fn model_nonneg(a: AccumModel) -> bool {
    a.plazas >= 0 && a.inc_total >= 0 && a.aten_total >= 0 && a.cn_total >= 0 && a.cn_ini >= 0
        && a.cn_prim >= 0 && a.cn_sec >= 0
}

/// Whether row `i` of a dataset passes the status filter and carries a
/// group id.  A negative filter means "no filter applied"; a sentinel
/// status never matches a non-negative filter; a sentinel group id
/// excludes the row.
pub open spec fn row_included(ds: PeriodDataset, filter: i64, i: int) -> bool {
    &&& (filter >= 0 ==> ds.situaciones@[i] != MISSING_INT && ds.situaciones@[i] == filter)
    &&& ds.estado_ids@[i] != MISSING_INT
}

/// The contribution of row `i`: one for the row count, and each measure
/// clamped to its non-negative part.
pub open spec fn row_model(ds: PeriodDataset, i: int) -> AccumModel {
    AccumModel {
        plazas: 1,
        inc_total: clip0(ds.inc_totales@[i] as int),
        aten_total: clip0(ds.aten_totales@[i] as int),
        cn_total: clip0(ds.cn_totales@[i] as int),
        cn_ini: clip0(ds.cn_ini@[i] as int),
        cn_prim: clip0(ds.cn_prim@[i] as int),
        cn_sec: clip0(ds.cn_sec@[i] as int),
    }
}

pub open spec fn model_get(m: Map<i64, AccumModel>, k: i64) -> AccumModel {
    if m.dom().contains(k) {
        m[k]
    } else {
        zero_model()
    }
}

/// Fold row `i`'s contribution into a group mapping.
pub open spec fn model_upd(m: Map<i64, AccumModel>, k: i64, r: AccumModel) -> Map<
    i64,
    AccumModel,
> {
    m.insert(k, model_add(model_get(m, k), r))
}

/// The aggregation of rows `lo..hi` of a dataset under a status filter:
/// the mapping from group id to the sum of the included rows'
/// contributions.
pub open spec fn agg_model(ds: PeriodDataset, filter: i64, lo: int, hi: int) -> Map<
    i64,
    AccumModel,
>
    decreases hi - lo,
{
    if lo >= hi {
        Map::empty()
    } else {
        let m = agg_model(ds, filter, lo, hi - 1);
        if row_included(ds, filter, hi - 1) {
            model_upd(m, ds.estado_ids@[hi - 1], row_model(ds, hi - 1))
        } else {
            m
        }
    }
}

/// Field-wise sum of two group mappings on the shared key space.
pub open spec fn model_merge(a: Map<i64, AccumModel>, b: Map<i64, AccumModel>) -> Map<
    i64,
    AccumModel,
> {
    Map::new(
        |k: i64| a.dom().contains(k) || b.dom().contains(k),
        |k: i64| model_add(model_get(a, k), model_get(b, k)),
    )
}

pub open spec fn map_nonneg(m: Map<i64, AccumModel>) -> bool {
    forall|k: i64| m.dom().contains(k) ==> model_nonneg(#[trigger] m[k])
}

// ---------------------------------------------------------------------
// Laws of the model
// ---------------------------------------------------------------------

/// Clamp law: a row's contribution counts the row exactly once, and a
/// sentinel or non-positive measure contributes exactly zero, a positive
/// one exactly itself.
pub proof fn lemma_clamp_contribution(ds: PeriodDataset, i: int)
    ensures
        row_model(ds, i).plazas == 1,
        ds.inc_totales@[i] <= 0 ==> row_model(ds, i).inc_total == 0,
        ds.inc_totales@[i] > 0 ==> row_model(ds, i).inc_total == ds.inc_totales@[i],
        ds.aten_totales@[i] <= 0 ==> row_model(ds, i).aten_total == 0,
        ds.aten_totales@[i] > 0 ==> row_model(ds, i).aten_total == ds.aten_totales@[i],
        ds.cn_totales@[i] <= 0 ==> row_model(ds, i).cn_total == 0,
        ds.cn_totales@[i] > 0 ==> row_model(ds, i).cn_total == ds.cn_totales@[i],
        ds.cn_ini@[i] <= 0 ==> row_model(ds, i).cn_ini == 0,
        ds.cn_ini@[i] > 0 ==> row_model(ds, i).cn_ini == ds.cn_ini@[i],
        ds.cn_prim@[i] <= 0 ==> row_model(ds, i).cn_prim == 0,
        ds.cn_prim@[i] > 0 ==> row_model(ds, i).cn_prim == ds.cn_prim@[i],
        ds.cn_sec@[i] <= 0 ==> row_model(ds, i).cn_sec == 0,
        ds.cn_sec@[i] > 0 ==> row_model(ds, i).cn_sec == ds.cn_sec@[i],
        model_nonneg(row_model(ds, i)),
{
}

/// Merging with the empty mapping changes nothing.
pub proof fn lemma_merge_empty(a: Map<i64, AccumModel>)
    ensures
        model_merge(a, Map::empty()) == a,
        model_merge(Map::empty(), a) == a,
{
    assert(model_merge(a, Map::empty()) =~= a);
    assert(model_merge(Map::empty(), a) =~= a);
}

/// Merging group mappings is commutative.
pub proof fn lemma_merge_commutative(a: Map<i64, AccumModel>, b: Map<i64, AccumModel>)
    ensures
        model_merge(a, b) == model_merge(b, a),
{
    assert(model_merge(a, b) =~= model_merge(b, a));
}

/// Merging group mappings is associative.
pub proof fn lemma_merge_associative(
    a: Map<i64, AccumModel>,
    b: Map<i64, AccumModel>,
    c: Map<i64, AccumModel>,
)
    ensures
        model_merge(a, model_merge(b, c)) == model_merge(model_merge(a, b), c),
{
    assert(model_merge(a, model_merge(b, c)) =~= model_merge(model_merge(a, b), c));
}

/// Folding one row into a mapping commutes with merging another mapping
/// on the left.
proof fn lemma_merge_upd(
    a: Map<i64, AccumModel>,
    b: Map<i64, AccumModel>,
    k: i64,
    r: AccumModel,
)
    ensures
        model_merge(a, model_upd(b, k, r)) == model_upd(model_merge(a, b), k, r),
{
    assert(model_merge(a, model_upd(b, k, r)) =~= model_upd(model_merge(a, b), k, r));
}

/// Partition invariance at the model: aggregating a row range equals
/// aggregating any two-way split of it and merging the partial results.
/// Together with commutativity and associativity of the merge this
/// extends to any partition of the range into chunks, in any merge
/// order.
pub proof fn lemma_agg_partition(ds: PeriodDataset, filter: i64, lo: int, mid: int, hi: int)
    requires
        lo <= mid <= hi,
    ensures
        agg_model(ds, filter, lo, hi) == model_merge(
            agg_model(ds, filter, lo, mid),
            agg_model(ds, filter, mid, hi),
        ),
    decreases hi - mid,
{
    if hi == mid {
        lemma_merge_empty(agg_model(ds, filter, lo, mid));
    } else {
        lemma_agg_partition(ds, filter, lo, mid, hi - 1);
        if row_included(ds, filter, hi - 1) {
            lemma_merge_upd(
                agg_model(ds, filter, lo, mid),
                agg_model(ds, filter, mid, hi - 1),
                ds.estado_ids@[hi - 1],
                row_model(ds, hi - 1),
            );
        }
    }
}

/// Every accumulator an aggregation produces has non-negative fields.
pub proof fn lemma_agg_nonneg(ds: PeriodDataset, filter: i64, lo: int, hi: int)
    ensures
        map_nonneg(agg_model(ds, filter, lo, hi)),
    decreases hi - lo,
{
    if lo < hi {
        lemma_agg_nonneg(ds, filter, lo, hi - 1);
    }
}

} // verus!

verus! {

// ---------------------------------------------------------------------
// Saturating 64-bit execution of the model
// ---------------------------------------------------------------------

/// Cap an unbounded integer into the signed 64-bit range.
pub open spec fn cap64(v: int) -> i64 {
    if v > i64::MAX {
        i64::MAX
    } else if v < i64::MIN {
        i64::MIN
    } else {
        v as i64
    }
}

/// The model value that an executable accumulator denotes.
pub open spec fn model_of(a: Accum) -> AccumModel {
    AccumModel {
        plazas: a.plazas as int,
        inc_total: a.inc_total as int,
        aten_total: a.aten_total as int,
        cn_total: a.cn_total as int,
        cn_ini: a.cn_ini as int,
        cn_prim: a.cn_prim as int,
        cn_sec: a.cn_sec as int,
    }
}

/// The executable accumulator that a model accumulator caps to.
pub open spec fn acc_cap(m: AccumModel) -> Accum {
    Accum {
        plazas: cap64(m.plazas),
        inc_total: cap64(m.inc_total),
        aten_total: cap64(m.aten_total),
        cn_total: cap64(m.cn_total),
        cn_ini: cap64(m.cn_ini),
        cn_prim: cap64(m.cn_prim),
        cn_sec: cap64(m.cn_sec),
    }
}

/// Cap a whole group mapping.
pub open spec fn cap_map(m: Map<i64, AccumModel>) -> Map<i64, Accum> {
    Map::new(|k: i64| m.dom().contains(k), |k: i64| acc_cap(m[k]))
}

/// Saturating field-wise sum of two executable accumulators.
pub open spec fn accum_sat_add(a: Accum, b: Accum) -> Accum {
    acc_cap(model_add(model_of(a), model_of(b)))
}

pub open spec fn accum_nonneg(a: Accum) -> bool {
    model_nonneg(model_of(a))
}

pub open spec fn get_accum(m: Map<i64, Accum>, k: i64) -> Accum {
    if m.dom().contains(k) {
        m[k]
    } else {
        zero_accum()
    }
}

/// Fold one contribution into an executable group mapping, saturating.
pub open spec fn upsert_sat(m: Map<i64, Accum>, k: i64, c: Accum) -> Map<i64, Accum> {
    m.insert(k, accum_sat_add(get_accum(m, k), c))
}

/// Field-wise saturating sum of two executable group mappings on the
/// shared key space.
pub open spec fn merge_sat(a: Map<i64, Accum>, b: Map<i64, Accum>) -> Map<i64, Accum> {
    Map::new(
        |k: i64| a.dom().contains(k) || b.dom().contains(k),
        |k: i64| accum_sat_add(get_accum(a, k), get_accum(b, k)),
    )
}

pub open spec fn groups_nonneg(m: Map<i64, Accum>) -> bool {
    forall|k: i64| m.dom().contains(k) ==> accum_nonneg(#[trigger] m[k])
}

/// Capping commutes with addition of non-negative values: adding capped
/// values and capping again equals capping the exact sum.
proof fn lemma_cap64_absorb(x: int, y: int)
    requires
        x >= 0,
        y >= 0,
    ensures
        cap64(cap64(x) as int + cap64(y) as int) == cap64(x + y),
{
}

/// Capping a non-negative model mapping and summing with saturation
/// equals capping the exact merge.
pub proof fn lemma_cap_merge(a: Map<i64, AccumModel>, b: Map<i64, AccumModel>)
    requires
        map_nonneg(a),
        map_nonneg(b),
    ensures
        cap_map(model_merge(a, b)) == merge_sat(cap_map(a), cap_map(b)),
{
    assert forall|k: i64| #[trigger] model_merge(a, b).dom().contains(k) implies acc_cap(
        model_merge(a, b)[k],
    ) == accum_sat_add(get_accum(cap_map(a), k), get_accum(cap_map(b), k)) by {
        let ma = model_get(a, k);
        let mb = model_get(b, k);
        lemma_cap64_absorb(ma.plazas, mb.plazas);
        lemma_cap64_absorb(ma.inc_total, mb.inc_total);
        lemma_cap64_absorb(ma.aten_total, mb.aten_total);
        lemma_cap64_absorb(ma.cn_total, mb.cn_total);
        lemma_cap64_absorb(ma.cn_ini, mb.cn_ini);
        lemma_cap64_absorb(ma.cn_prim, mb.cn_prim);
        lemma_cap64_absorb(ma.cn_sec, mb.cn_sec);
    }
    assert(cap_map(model_merge(a, b)) =~= merge_sat(cap_map(a), cap_map(b)));
}

/// Folding one row into the capped mapping with saturation equals
/// capping the exact fold.
proof fn lemma_cap_upd(m: Map<i64, AccumModel>, k: i64, r: AccumModel)
    requires
        map_nonneg(m),
        model_nonneg(r),
        r.plazas <= i64::MAX,
        r.inc_total <= i64::MAX,
        r.aten_total <= i64::MAX,
        r.cn_total <= i64::MAX,
        r.cn_ini <= i64::MAX,
        r.cn_prim <= i64::MAX,
        r.cn_sec <= i64::MAX,
    ensures
        cap_map(model_upd(m, k, r)) == upsert_sat(cap_map(m), k, acc_cap(r)),
{
    let mg = model_get(m, k);
    lemma_cap64_absorb(mg.plazas, r.plazas);
    lemma_cap64_absorb(mg.inc_total, r.inc_total);
    lemma_cap64_absorb(mg.aten_total, r.aten_total);
    lemma_cap64_absorb(mg.cn_total, r.cn_total);
    lemma_cap64_absorb(mg.cn_ini, r.cn_ini);
    lemma_cap64_absorb(mg.cn_prim, r.cn_prim);
    lemma_cap64_absorb(mg.cn_sec, r.cn_sec);
    assert(cap_map(model_upd(m, k, r)) =~= upsert_sat(cap_map(m), k, acc_cap(r)));
}

/// Partition invariance, as the executable contracts state it: the
/// saturating merge of the capped partial aggregations of any two-way
/// split of a row range equals the capped aggregation of the whole
/// range.
pub proof fn lemma_partition_invariance(
    ds: PeriodDataset,
    filter: i64,
    lo: int,
    mid: int,
    hi: int,
)
    requires
        lo <= mid <= hi,
    ensures
        cap_map(agg_model(ds, filter, lo, hi)) == merge_sat(
            cap_map(agg_model(ds, filter, lo, mid)),
            cap_map(agg_model(ds, filter, mid, hi)),
        ),
{
    lemma_agg_partition(ds, filter, lo, mid, hi);
    lemma_agg_nonneg(ds, filter, lo, mid);
    lemma_agg_nonneg(ds, filter, mid, hi);
    lemma_cap_merge(agg_model(ds, filter, lo, mid), agg_model(ds, filter, mid, hi));
}

// ---------------------------------------------------------------------
// Executable aggregation
// ---------------------------------------------------------------------

/// Saturating addition of two non-negative signed 64-bit values.
pub fn sat_add_nn(a: i64, b: i64) -> (r: i64)
    requires
        a >= 0,
        b >= 0,
    ensures
        r == cap64(a + b),
{
    if a > i64::MAX - b {
        i64::MAX
    } else {
        a + b
    }
}

/// Clamp a measure value to its non-negative contribution: sentinel or
/// negative values contribute exactly zero.
pub fn clamp_contrib(v: i64) -> (r: i64)
    ensures
        r == clip0(v as int),
{
    if v > 0 {
        v
    } else {
        0
    }
}

/// The contribution of row `i` of a dataset.
fn row_accum(ds: &PeriodDataset, i: usize) -> (r: Accum)
    requires
        ds.wf(),
        i < ds.n,
    ensures
        r == acc_cap(row_model(*ds, i as int)),
        model_of(r) == row_model(*ds, i as int),
{
    let r = Accum {
        plazas: 1,
        inc_total: clamp_contrib(ds.inc_totales[i]),
        aten_total: clamp_contrib(ds.aten_totales[i]),
        cn_total: clamp_contrib(ds.cn_totales[i]),
        cn_ini: clamp_contrib(ds.cn_ini[i]),
        cn_prim: clamp_contrib(ds.cn_prim[i]),
        cn_sec: clamp_contrib(ds.cn_sec[i]),
    };
    r
}

/// Saturating field-wise sum of two non-negative accumulators.
pub fn accum_add(a: Accum, b: Accum) -> (r: Accum)
    requires
        accum_nonneg(a),
        accum_nonneg(b),
    ensures
        r == accum_sat_add(a, b),
{
    Accum {
        plazas: sat_add_nn(a.plazas, b.plazas),
        inc_total: sat_add_nn(a.inc_total, b.inc_total),
        aten_total: sat_add_nn(a.aten_total, b.aten_total),
        cn_total: sat_add_nn(a.cn_total, b.cn_total),
        cn_ini: sat_add_nn(a.cn_ini, b.cn_ini),
        cn_prim: sat_add_nn(a.cn_prim, b.cn_prim),
        cn_sec: sat_add_nn(a.cn_sec, b.cn_sec),
    }
}

/// A group-id to accumulator mapping, stored as an entry list with
/// unique keys, in first-contribution order.
pub struct GroupMap {
    pub entries: Vec<(i64, Accum)>,
}

impl GroupMap {
    /// Well-formedness: no two entries share a group id.
    pub open spec fn wf(self) -> bool {
        keys_unique(self.entries@)
    }

    /// The mapping this value denotes.
    pub open spec fn groups(self) -> Map<i64, Accum> {
        map_of(self.entries@)
    }

    pub fn new() -> (g: GroupMap)
        ensures
            g.wf(),
            g.groups() == Map::<i64, Accum>::empty(),
            groups_nonneg(g.groups()),
    {
        GroupMap { entries: Vec::new() }
    }

    fn find(&self, key: i64) -> (r: Option<usize>)
        ensures
            match r {
                Some(j) => j < self.entries@.len() && self.entries@[j as int].0 == key,
                None => forall|i: int| 0 <= i < self.entries@.len() ==> self.entries@[i].0 != key,
            },
    {
        let n = self.entries.len();
        let mut i: usize = 0;
        while i < n
            invariant
                i <= n,
                n == self.entries@.len(),
                forall|j: int| 0 <= j < i ==> self.entries@[j].0 != key,
            decreases n - i,
        {
            if self.entries[i].0 == key {
                return Some(i);
            }
            i = i + 1;
        }
        None
    }

    /// The accumulator of a group, if the group is present.
    pub fn get(&self, key: i64) -> (r: Option<Accum>)
        requires
            self.wf(),
        ensures
            r == if self.groups().dom().contains(key) {
                Some(self.groups()[key])
            } else {
                Option::<Accum>::None
            },
    {
        proof {
            lemma_map_of_props(self.entries@);
        }
        match self.find(key) {
            Some(j) => Some(self.entries[j].1),
            None => None,
        }
    }

    /// Number of groups present.
    pub fn group_count(&self) -> (r: usize)
        requires
            self.wf(),
        ensures
            r == self.entries@.len(),
            r == self.groups().dom().len(),
    {
        proof {
            lemma_map_of_props(self.entries@);
            crate::assoc::lemma_entries_dom_len(self.entries@);
        }
        self.entries.len()
    }

    /// The entry at a list position, for callers that walk the groups.
    pub fn entry_at(&self, i: usize) -> (r: (i64, Accum))
        requires
            i < self.entries@.len(),
        ensures
            r == self.entries@[i as int],
    {
        self.entries[i]
    }

    /// An identical copy.
    pub fn duplicate(&self) -> (r: GroupMap)
        ensures
            r.entries@ == self.entries@,
    {
        let n = self.entries.len();
        let mut out: Vec<(i64, Accum)> = Vec::new();
        let mut i: usize = 0;
        while i < n
            invariant
                i <= n,
                n == self.entries@.len(),
                out@ == self.entries@.take(i as int),
            decreases n - i,
        {
            out.push(self.entries[i]);
            proof {
                assert(self.entries@.take(i + 1) =~= self.entries@.take(i as int).push(
                    self.entries@[i as int],
                ));
            }
            i = i + 1;
        }
        proof {
            assert(self.entries@.take(n as int) =~= self.entries@);
        }
        GroupMap { entries: out }
    }

    /// Fold one non-negative contribution into the mapping, saturating.
    pub fn add_contrib(&mut self, key: i64, c: Accum)
        requires
            old(self).wf(),
            groups_nonneg(old(self).groups()),
            accum_nonneg(c),
        ensures
            final(self).wf(),
            final(self).groups() == upsert_sat(old(self).groups(), key, c),
            groups_nonneg(final(self).groups()),
    {
        proof {
            lemma_map_of_props(self.entries@);
        }
        let ghost m0 = self.groups();
        match self.find(key) {
            Some(j) => {
                let cur = self.entries[j].1;
                assert(m0.dom().contains(key) && m0[key] == cur);
                let nv = accum_add(cur, c);
                self.entries.set(j, (key, nv));
                proof {
                    lemma_map_of_update(old(self).entries@, j as int, key, nv);
                }
            },
            None => {
                proof {
                    lemma_map_of_props(self.entries@);
                    assert(!m0.dom().contains(key));
                }
                let nv = accum_add(zero_accum_exec(), c);
                self.entries.push((key, nv));
                proof {
                    lemma_map_of_push(old(self).entries@, key, nv);
                    assert forall|p: int, q: int|
                        0 <= p < q < self.entries@.len() implies self.entries@[p].0
                        != self.entries@[q].0 by {
                        if q < self.entries@.len() - 1 {
                            assert(old(self).entries@[p].0 != old(self).entries@[q].0);
                        } else {
                            assert(old(self).entries@[p].0 != key);
                        }
                    }
                }
            },
        }
    }
}

/// The all-zero accumulator.
pub fn zero_accum_exec() -> (r: Accum)
    ensures
        r == zero_accum(),
        accum_nonneg(r),
{
    Accum { plazas: 0, inc_total: 0, aten_total: 0, cn_total: 0, cn_ini: 0, cn_prim: 0, cn_sec: 0 }
}

} // verus!

verus! {

/// The full capped aggregation of a dataset under a status filter.
pub open spec fn aggregate_spec(ds: PeriodDataset, filter: i64) -> Map<i64, Accum> {
    cap_map(agg_model(ds, filter, 0, ds.n as int))
}

/// Merging the empty mapping into a non-negative one changes nothing.
proof fn lemma_merge_sat_empty(a: Map<i64, Accum>)
    requires
        groups_nonneg(a),
    ensures
        merge_sat(a, Map::empty()) == a,
{
    assert(merge_sat(a, Map::<i64, Accum>::empty()) =~= a);
}

/// Folding a fresh-keyed contribution into the right operand of a
/// saturating merge folds it into the merge.
proof fn lemma_merge_sat_step(a: Map<i64, Accum>, m: Map<i64, Accum>, k: i64, c: Accum)
    requires
        groups_nonneg(a),
        !m.dom().contains(k),
    ensures
        merge_sat(a, m.insert(k, c)) == upsert_sat(merge_sat(a, m), k, c),
{
    if a.dom().contains(k) {
        assert(accum_sat_add(a[k], zero_accum()) == a[k]);
    }
    assert(merge_sat(a, m.insert(k, c)) =~= upsert_sat(merge_sat(a, m), k, c));
}

/// Aggregate rows `lo..hi` of a dataset under a status filter, in one
/// pass.  The result denotes the capped model aggregation of the range.
pub fn aggregate_range(ds: &PeriodDataset, filter: i64, lo: usize, hi: usize) -> (g: GroupMap)
    requires
        ds.wf(),
        lo <= hi <= ds.n,
    ensures
        g.wf(),
        g.groups() == cap_map(agg_model(*ds, filter, lo as int, hi as int)),
        groups_nonneg(g.groups()),
{
    let mut g = GroupMap::new();
    proof {
        assert(cap_map(Map::<i64, AccumModel>::empty()) =~= Map::<i64, Accum>::empty());
    }
    let mut i: usize = lo;
    while i < hi
        invariant
            ds.wf(),
            lo <= i <= hi <= ds.n,
            g.wf(),
            g.groups() == cap_map(agg_model(*ds, filter, lo as int, i as int)),
            groups_nonneg(g.groups()),
        decreases hi - i,
    {
        let included = {
            let by_filter = if filter >= 0 {
                let sit = ds.situaciones[i];
                sit != MISSING_INT && sit == filter
            } else {
                true
            };
            by_filter && ds.estado_ids[i] != MISSING_INT
        };
        assert(included == row_included(*ds, filter, i as int));
        if included {
            let key = ds.estado_ids[i];
            let c = row_accum(ds, i);
            proof {
                lemma_agg_nonneg(*ds, filter, lo as int, i as int);
                lemma_cap_upd(
                    agg_model(*ds, filter, lo as int, i as int),
                    key,
                    row_model(*ds, i as int),
                );
            }
            g.add_contrib(key, c);
        }
        i = i + 1;
    }
    g
}

/// Aggregate a whole dataset under a status filter.
pub fn aggregate(ds: &PeriodDataset, filter: i64) -> (g: GroupMap)
    requires
        ds.wf(),
    ensures
        g.wf(),
        g.groups() == aggregate_spec(*ds, filter),
        groups_nonneg(g.groups()),
{
    aggregate_range(ds, filter, 0, ds.n)
}

/// Merge two partial group mappings by per-group saturating field-wise
/// summation.
pub fn merge_groups(a: &GroupMap, b: &GroupMap) -> (r: GroupMap)
    requires
        a.wf(),
        b.wf(),
        groups_nonneg(a.groups()),
        groups_nonneg(b.groups()),
    ensures
        r.wf(),
        r.groups() == merge_sat(a.groups(), b.groups()),
        groups_nonneg(r.groups()),
{
    let mut out = GroupMap::new();
    let na = a.entries.len();
    let mut i: usize = 0;
    proof {
        lemma_map_of_props(a.entries@);
        lemma_map_of_props(b.entries@);
    }
    while i < na
        invariant
            a.wf(),
            na == a.entries@.len(),
            i <= na,
            out.wf(),
            groups_nonneg(a.groups()),
            out.groups() == map_of(a.entries@.take(i as int)),
            groups_nonneg(out.groups()),
        decreases na - i,
    {
        let (key, val) = a.entries[i];
        proof {
            lemma_map_of_props(a.entries@);
            assert(a.groups().dom().contains(key) && a.groups()[key] == val);
            lemma_map_of_props(a.entries@.take(i as int));
            assert(!map_of(a.entries@.take(i as int)).dom().contains(key)) by {
                if map_of(a.entries@.take(i as int)).dom().contains(key) {
                    let j = choose|j: int|
                        0 <= j < i && a.entries@.take(i as int)[j].0 == key;
                    assert(a.entries@[j].0 == a.entries@[i as int].0);
                }
            }
            assert(accum_sat_add(zero_accum(), val) == val);
            assert(a.entries@.take(i + 1) =~= a.entries@.take(i as int).push(
                a.entries@[i as int],
            ));
            lemma_map_of_push(a.entries@.take(i as int), key, val);
        }
        out.add_contrib(key, val);
        i = i + 1;
    }
    proof {
        assert(a.entries@.take(na as int) =~= a.entries@);
        lemma_merge_sat_empty(a.groups());
        assert(map_of(b.entries@.take(0)) =~= Map::<i64, Accum>::empty());
    }
    let nb = b.entries.len();
    let mut j: usize = 0;
    while j < nb
        invariant
            b.wf(),
            nb == b.entries@.len(),
            j <= nb,
            out.wf(),
            groups_nonneg(a.groups()),
            groups_nonneg(b.groups()),
            out.groups() == merge_sat(a.groups(), map_of(b.entries@.take(j as int))),
            groups_nonneg(out.groups()),
        decreases nb - j,
    {
        let (key, val) = b.entries[j];
        proof {
            lemma_map_of_props(b.entries@);
            assert(b.groups().dom().contains(key) && b.groups()[key] == val);
            lemma_map_of_props(b.entries@.take(j as int));
            assert(!map_of(b.entries@.take(j as int)).dom().contains(key)) by {
                if map_of(b.entries@.take(j as int)).dom().contains(key) {
                    let i2 = choose|i2: int|
                        0 <= i2 < j && b.entries@.take(j as int)[i2].0 == key;
                    assert(b.entries@[i2].0 == b.entries@[j as int].0);
                }
            }
            lemma_merge_sat_step(a.groups(), map_of(b.entries@.take(j as int)), key, val);
            assert(b.entries@.take(j + 1) =~= b.entries@.take(j as int).push(
                b.entries@[j as int],
            ));
            lemma_map_of_push(b.entries@.take(j as int), key, val);
        }
        out.add_contrib(key, val);
        j = j + 1;
    }
    proof {
        assert(b.entries@.take(nb as int) =~= b.entries@);
    }
    out
}

} // verus!

verus! {

/// Aggregation depends only on the dataset's columns and row count:
/// two datasets with equal column contents aggregate identically, for
/// every filter.  With alias equivalence of the ingested bundles this
/// makes a legacy-named source and a canonical-named one produce the
/// same aggregation output.
pub proof fn lemma_aggregate_depends_on_views(
    ds1: PeriodDataset,
    ds2: PeriodDataset,
    filter: i64,
)
    requires
        ds1.n == ds2.n,
        ds1.estado_ids@ == ds2.estado_ids@,
        ds1.situaciones@ == ds2.situaciones@,
        ds1.inc_totales@ == ds2.inc_totales@,
        ds1.aten_totales@ == ds2.aten_totales@,
        ds1.cn_totales@ == ds2.cn_totales@,
        ds1.cn_ini@ == ds2.cn_ini@,
        ds1.cn_prim@ == ds2.cn_prim@,
        ds1.cn_sec@ == ds2.cn_sec@,
    ensures
        aggregate_spec(ds1, filter) == aggregate_spec(ds2, filter),
{
    lemma_agg_range_views(ds1, ds2, filter, 0, ds1.n as int);
}

proof fn lemma_agg_range_views(ds1: PeriodDataset, ds2: PeriodDataset, filter: i64, lo: int, hi: int)
    requires
        ds1.estado_ids@ == ds2.estado_ids@,
        ds1.situaciones@ == ds2.situaciones@,
        ds1.inc_totales@ == ds2.inc_totales@,
        ds1.aten_totales@ == ds2.aten_totales@,
        ds1.cn_totales@ == ds2.cn_totales@,
        ds1.cn_ini@ == ds2.cn_ini@,
        ds1.cn_prim@ == ds2.cn_prim@,
        ds1.cn_sec@ == ds2.cn_sec@,
    ensures
        agg_model(ds1, filter, lo, hi) == agg_model(ds2, filter, lo, hi),
    decreases hi - lo,
{
    if lo < hi {
        lemma_agg_range_views(ds1, ds2, filter, lo, hi - 1);
    }
}

} // verus!

verus! {

/// The left fold of per-chunk aggregations over consecutive cut
/// points, from chunk `i` on.
pub open spec fn agg_chunks(ds: PeriodDataset, filter: i64, cuts: Seq<int>, i: int) -> Map<
    i64,
    AccumModel,
>
    decreases cuts.len() - i,
{
    if i < 0 || i + 1 >= cuts.len() {
        Map::empty()
    } else {
        model_merge(
            agg_model(ds, filter, cuts[i], cuts[i + 1]),
            agg_chunks(ds, filter, cuts, i + 1),
        )
    }
}

pub open spec fn cuts_sorted(cuts: Seq<int>) -> bool {
    forall|i: int| 0 <= i < cuts.len() - 1 ==> #[trigger] cuts[i] <= cuts[i + 1]
}

proof fn lemma_cuts_le(cuts: Seq<int>, i: int, j: int)
    requires
        cuts_sorted(cuts),
        0 <= i <= j < cuts.len(),
    ensures
        cuts[i] <= cuts[j],
    decreases j - i,
{
    if i < j {
        lemma_cuts_le(cuts, i + 1, j);
    }
}

proof fn lemma_agg_chunks_from(ds: PeriodDataset, filter: i64, cuts: Seq<int>, i: int)
    requires
        cuts_sorted(cuts),
        0 <= i < cuts.len(),
    ensures
        agg_chunks(ds, filter, cuts, i) == agg_model(
            ds,
            filter,
            cuts[i],
            cuts[cuts.len() - 1],
        ),
    decreases cuts.len() - i,
{
    if i + 1 >= cuts.len() {
    } else {
        lemma_agg_chunks_from(ds, filter, cuts, i + 1);
        lemma_cuts_le(cuts, i + 1, cuts.len() - 1);
        lemma_agg_partition(ds, filter, cuts[i], cuts[i + 1], cuts[cuts.len() - 1]);
    }
}

/// Partition invariance for any chunking: cutting a row range at any
/// ascending sequence of points, aggregating each chunk and merging the
/// partial mappings equals aggregating the whole range in one pass.
/// With commutativity and associativity of the merge the same holds in
/// any merge order.
pub proof fn lemma_agg_partition_any(ds: PeriodDataset, filter: i64, cuts: Seq<int>)
    requires
        cuts_sorted(cuts),
        cuts.len() >= 1,
    ensures
        agg_chunks(ds, filter, cuts, 0) == agg_model(ds, filter, cuts[0], cuts[cuts.len() - 1]),
{
    lemma_agg_chunks_from(ds, filter, cuts, 0);
}

} // verus!
