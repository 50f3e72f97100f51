use plaza_rust::agg::{aggregate, aggregate_range, merge_groups, Accum};
use plaza_rust::dataset::{filter_indices, PeriodDataset};

fn sample_dataset() -> PeriodDataset {
    PeriodDataset {
        n: 6,
        estado_ids: vec![1, 2, 1, 3, 2, 1],
        situaciones: vec![1, 1, 2, 1, 1, 1],
        inc_totales: vec![5, 7, 11, -4, i64::MIN, 2],
        aten_totales: vec![1, 0, 3, 2, 9, -1],
        cn_totales: vec![2, 2, 2, 2, 2, 2],
        cn_ini: vec![1, 0, 1, 0, 1, 0],
        cn_prim: vec![0, 1, 0, 1, 0, 1],
        cn_sec: vec![3, 0, 0, 0, 5, 1],
    }
}

#[test]
fn partition_invariance_chunked_equals_whole() {
    let ds = sample_dataset();
    for filter in [-1i64, 1, 2] {
        let whole = aggregate(&ds, filter);
        // two-way split
        for mid in 0..=6usize {
            let a = aggregate_range(&ds, filter, 0, mid);
            let b = aggregate_range(&ds, filter, mid, 6);
            let merged = merge_groups(&a, &b);
            for g in [1i64, 2, 3] {
                assert_eq!(merged.get(g), whole.get(g));
            }
        }
        // three chunks, merged in a different association order
        let a = aggregate_range(&ds, filter, 0, 2);
        let b = aggregate_range(&ds, filter, 2, 4);
        let c = aggregate_range(&ds, filter, 4, 6);
        let merged = merge_groups(&a, &merge_groups(&b, &c));
        for g in [1i64, 2, 3] {
            assert_eq!(merged.get(g), whole.get(g));
        }
    }
}

#[test]
fn merge_is_commutative_on_values() {
    let ds = sample_dataset();
    let a = aggregate_range(&ds, -1, 0, 3);
    let b = aggregate_range(&ds, -1, 3, 6);
    let ab = merge_groups(&a, &b);
    let ba = merge_groups(&b, &a);
    for g in [1i64, 2, 3] {
        assert_eq!(ab.get(g), ba.get(g));
    }
}

#[test]
fn clamp_law_sentinels_and_negatives_contribute_zero() {
    let ds = PeriodDataset {
        n: 3,
        estado_ids: vec![4, 4, 4],
        situaciones: vec![1, 1, 1],
        inc_totales: vec![i64::MIN, -17, 6],
        aten_totales: vec![-1, i64::MIN, 0],
        cn_totales: vec![0, -5, i64::MIN],
        cn_ini: vec![-2, -2, -2],
        cn_prim: vec![i64::MIN, i64::MIN, i64::MIN],
        cn_sec: vec![1, 2, 3],
    };
    let g = aggregate(&ds, 1);
    // every included row increments the count by one, sentinel or
    // negative measures contribute exactly zero
    assert_eq!(
        g.get(4),
        Some(Accum {
            plazas: 3,
            inc_total: 6,
            aten_total: 0,
            cn_total: 0,
            cn_ini: 0,
            cn_prim: 0,
            cn_sec: 6,
        })
    );
}

#[test]
fn aggregate_saturates_instead_of_overflowing() {
    let ds = PeriodDataset {
        n: 2,
        estado_ids: vec![1, 1],
        situaciones: vec![1, 1],
        inc_totales: vec![i64::MAX, i64::MAX],
        aten_totales: vec![i64::MAX, 1],
        cn_totales: vec![0, 0],
        cn_ini: vec![0, 0],
        cn_prim: vec![0, 0],
        cn_sec: vec![0, 0],
    };
    let g = aggregate(&ds, -1);
    let a = g.get(1).unwrap();
    assert_eq!(a.plazas, 2);
    assert_eq!(a.inc_total, i64::MAX);
    assert_eq!(a.aten_total, i64::MAX);
}

#[test]
fn empty_dataset_aggregates_to_nothing() {
    let ds = PeriodDataset {
        n: 0,
        estado_ids: vec![],
        situaciones: vec![],
        inc_totales: vec![],
        aten_totales: vec![],
        cn_totales: vec![],
        cn_ini: vec![],
        cn_prim: vec![],
        cn_sec: vec![],
    };
    let g = aggregate(&ds, -1);
    assert_eq!(g.group_count(), 0);
    assert_eq!(g.get(1), None);
}

#[test]
fn filter_indices_matches_rows_in_order() {
    let estados = vec![1, 2, 1, i64::MIN, 1];
    let situaciones = vec![1, 1, 2, 1, 1];
    assert_eq!(filter_indices(&estados, &situaciones, 1, 1), vec![0, 4]);
    assert_eq!(filter_indices(&estados, &situaciones, 1, -1), vec![0, 2, 4]);
    assert_eq!(filter_indices(&estados, &situaciones, -1, 1), vec![0, 1, 3, 4]);
    assert_eq!(filter_indices(&estados, &situaciones, -1, -1), vec![0, 1, 2, 3, 4]);
    // any negative request means "no filter" for that field
    assert_eq!(filter_indices(&estados, &situaciones, i64::MIN, 1), vec![0, 1, 3, 4]);
    // a sentinel group id never matches a non-negative request
    assert_eq!(filter_indices(&estados, &situaciones, 7, -1), vec![]);
}
