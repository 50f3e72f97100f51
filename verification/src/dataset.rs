use vstd::prelude::*;

verus! {

/// Sentinel for a missing integer value: the reserved minimum.
pub const MISSING_INT: i64 = i64::MIN;

/// A columnar row-set for one period: parallel arrays of length `n`.
///
/// Missing integer values are represented by `MISSING_INT`, never by
/// absence.  The float-typed source columns (latitude, longitude) only
/// determine the row count `n`; the aggregation never reads them.
pub struct PeriodDataset {
    pub n: usize,
    pub estado_ids: Vec<i64>,
    pub situaciones: Vec<i64>,
    pub inc_totales: Vec<i64>,
    pub aten_totales: Vec<i64>,
    pub cn_totales: Vec<i64>,
    pub cn_ini: Vec<i64>,
    pub cn_prim: Vec<i64>,
    pub cn_sec: Vec<i64>,
}

impl PeriodDataset {
    /// Well-formedness: every column has length exactly `n`.
    pub open spec fn wf(self) -> bool {
        &&& self.estado_ids@.len() == self.n
        &&& self.situaciones@.len() == self.n
        &&& self.inc_totales@.len() == self.n
        &&& self.aten_totales@.len() == self.n
        &&& self.cn_totales@.len() == self.n
        &&& self.cn_ini@.len() == self.n
        &&& self.cn_prim@.len() == self.n
        &&& self.cn_sec@.len() == self.n
    }

    /// Number of rows.
    pub fn row_count(&self) -> (r: usize)
        ensures
            r == self.n,
    {
        self.n
    }
}

/// Indices `i` in `0..estado_ids.len()` whose row matches the requested
/// group and status, in ascending order.  A negative request means "no
/// filter" for that field; a sentinel field value never matches a
/// non-negative request.
pub open spec fn spec_filter_indices(
    estado_ids: Seq<i64>,
    situaciones: Seq<i64>,
    estado_id: i64,
    situacion: i64,
    hi: int,
) -> Seq<usize>
    decreases hi,
{
    if hi <= 0 {
        Seq::empty()
    } else {
        let rest = spec_filter_indices(estado_ids, situaciones, estado_id, situacion, hi - 1);
        if index_matches(estado_ids, situaciones, estado_id, situacion, hi - 1) {
            rest.push((hi - 1) as usize)
        } else {
            rest
        }
    }
}

/// Whether row `i` matches a group/status request.
pub open spec fn index_matches(
    estado_ids: Seq<i64>,
    situaciones: Seq<i64>,
    estado_id: i64,
    situacion: i64,
    i: int,
) -> bool {
    &&& (estado_id >= 0 ==> estado_ids[i] != MISSING_INT && estado_ids[i] == estado_id)
    &&& (situacion >= 0 ==> situaciones[i] != MISSING_INT && situaciones[i] == situacion)
}

/// Row indices matching a group id and a status, ascending.
pub fn filter_indices(
    estado_ids: &Vec<i64>,
    situaciones: &Vec<i64>,
    estado_id: i64,
    situacion: i64,
) -> (r: Vec<usize>)
    requires
        estado_ids@.len() == situaciones@.len(),
    ensures
        r@ == spec_filter_indices(
            estado_ids@,
            situaciones@,
            estado_id,
            situacion,
            estado_ids@.len() as int,
        ),
{
    let n = estado_ids.len();
    let mut out: Vec<usize> = Vec::new();
    let mut i: usize = 0;
    while i < n
        invariant
            i <= n,
            n == estado_ids@.len() == situaciones@.len(),
            out@ == spec_filter_indices(estado_ids@, situaciones@, estado_id, situacion, i as int),
        decreases n - i,
    {
        let ok_e = if estado_id < 0 {
            true
        } else {
            estado_ids[i] != MISSING_INT && estado_ids[i] == estado_id
        };
        let ok_s = if situacion < 0 {
            true
        } else {
            situaciones[i] != MISSING_INT && situaciones[i] == situacion
        };
        if ok_e && ok_s {
            out.push(i);
        }
        i = i + 1;
    }
    out
}

} // verus!

verus! {

/// Build a dataset for the legacy bulk-load path: the anchor column's
/// length `n` fixes the row count, the six supplied integer columns
/// must all cover exactly `n` rows (else the load is rejected as a
/// validation error), and the three cumulative-count columns that this
/// path does not carry are filled with sentinels.
pub fn legacy_dataset(
    n: usize,
    estado_ids: Vec<i64>,
    situaciones: Vec<i64>,
    inc_totales: Vec<i64>,
    aten_totales: Vec<i64>,
    cn_totales: Vec<i64>,
) -> (r: Result<PeriodDataset, crate::engine::EngineError>)
    ensures
        r is Ok <==> estado_ids@.len() == n && situaciones@.len() == n && inc_totales@.len()
            == n && aten_totales@.len() == n && cn_totales@.len() == n,
        r is Err ==> r == Err::<PeriodDataset, crate::engine::EngineError>(
            crate::engine::EngineError::Validation,
        ),
        r matches Ok(ds) ==> {
            &&& ds.wf()
            &&& ds.n == n
            &&& ds.estado_ids@ == estado_ids@
            &&& ds.situaciones@ == situaciones@
            &&& ds.inc_totales@ == inc_totales@
            &&& ds.aten_totales@ == aten_totales@
            &&& ds.cn_totales@ == cn_totales@
            &&& ds.cn_ini@ == Seq::new(n as nat, |i: int| MISSING_INT)
            &&& ds.cn_prim@ == Seq::new(n as nat, |i: int| MISSING_INT)
            &&& ds.cn_sec@ == Seq::new(n as nat, |i: int| MISSING_INT)
        },
{
    if estado_ids.len() != n || situaciones.len() != n || inc_totales.len() != n
        || aten_totales.len() != n || cn_totales.len() != n {
        return Err(crate::engine::EngineError::Validation);
    }
    let cn_ini: Vec<i64> = vec![MISSING_INT; n];
    let cn_prim: Vec<i64> = vec![MISSING_INT; n];
    let cn_sec: Vec<i64> = vec![MISSING_INT; n];
    proof {
        assert(cn_ini@ =~= Seq::new(n as nat, |i: int| MISSING_INT));
        assert(cn_prim@ =~= Seq::new(n as nat, |i: int| MISSING_INT));
        assert(cn_sec@ =~= Seq::new(n as nat, |i: int| MISSING_INT));
    }
    Ok(
        PeriodDataset {
            n,
            estado_ids,
            situaciones,
            inc_totales,
            aten_totales,
            cn_totales,
            cn_ini,
            cn_prim,
            cn_sec,
        },
    )
}

} // verus!
