use plaza_rust::agg::Accum;
use plaza_rust::dataset::PeriodDataset;
use plaza_rust::engine::{Engine, EngineError};

fn one_row_dataset(
    group: i64,
    status: i64,
    inc: i64,
    aten: i64,
    cn_tot: i64,
    cn_ini: i64,
    cn_prim: i64,
    cn_sec: i64,
) -> PeriodDataset {
    PeriodDataset {
        n: 1,
        estado_ids: vec![group],
        situaciones: vec![status],
        inc_totales: vec![inc],
        aten_totales: vec![aten],
        cn_totales: vec![cn_tot],
        cn_ini: vec![cn_ini],
        cn_prim: vec![cn_prim],
        cn_sec: vec![cn_sec],
    }
}

#[test]
fn compare_scenario_two_periods() {
    let mut e = Engine::new();
    e.load_dataset(202401, one_row_dataset(9, 1, 5, 3, 2, 1, 1, 0), 10);
    e.load_dataset(202402, one_row_dataset(9, 1, 10, 0, 0, 0, 0, 0), 11);
    let pair = e.compare(202401, 202402, 1, 12).unwrap();
    assert_eq!(
        pair.period1.get(9),
        Some(Accum {
            plazas: 1,
            inc_total: 5,
            aten_total: 3,
            cn_total: 2,
            cn_ini: 1,
            cn_prim: 1,
            cn_sec: 0,
        })
    );
    assert_eq!(
        pair.period2.get(9),
        Some(Accum {
            plazas: 1,
            inc_total: 10,
            aten_total: 0,
            cn_total: 0,
            cn_ini: 0,
            cn_prim: 0,
            cn_sec: 0,
        })
    );
    assert!(e.is_result_cached(202401, 202402, 1));
    // a repeated call returns the identical structure
    let again = e.compare(202401, 202402, 1, 13).unwrap();
    assert_eq!(again.period1.get(9), pair.period1.get(9));
    assert_eq!(again.period2.get(9), pair.period2.get(9));
}

#[test]
fn memoized_compare_survives_dataset_removal() {
    let mut e = Engine::new();
    e.load_dataset(202401, one_row_dataset(9, 1, 5, 3, 2, 1, 1, 0), 10);
    e.load_dataset(202402, one_row_dataset(9, 1, 10, 0, 0, 0, 0, 0), 11);
    let first = e.compare(202401, 202402, 1, 12).unwrap();
    // corrupt the underlying state between calls: drop both datasets
    assert!(e.evict_period(202401));
    assert!(e.evict_period(202402));
    assert!(!e.is_period_cached(202401));
    // the memoized result is unaffected
    assert!(e.is_result_cached(202401, 202402, 1));
    let second = e.compare(202401, 202402, 1, 13).unwrap();
    assert_eq!(second.period1.get(9), first.period1.get(9));
    assert_eq!(second.period2.get(9), first.period2.get(9));
}

#[test]
fn compare_not_loaded_errors() {
    let mut e = Engine::new();
    e.load_dataset(202401, one_row_dataset(9, 1, 5, 3, 2, 1, 1, 0), 10);
    assert!(matches!(
        e.compare(202401, 209912, 1, 11),
        Err(EngineError::NotLoaded(209912))
    ));
    assert!(matches!(
        e.compare(209911, 202401, 1, 11),
        Err(EngineError::NotLoaded(209911))
    ));
    assert!(!e.is_result_cached(202401, 209912, 1));
}

#[test]
fn period_capacity_evicts_least_recently_accessed() {
    let mut e = Engine::new();
    // MAX_PERIODS is 24: load 25 distinct keys
    for i in 0..24u32 {
        let key = 202001 + i;
        e.load_dataset(key, one_row_dataset(1, 1, 1, 0, 0, 0, 0, 0), 100 + u64::from(i));
    }
    for i in 0..24u32 {
        assert!(e.is_period_cached(202001 + i));
    }
    e.load_dataset(209901, one_row_dataset(1, 1, 1, 0, 0, 0, 0, 0), 500);
    let stats = e.resource_stats();
    assert_eq!(stats.periods_loaded, 24);
    // the least recently accessed key left, all others stayed
    assert!(!e.is_period_cached(202001));
    for i in 1..24u32 {
        assert!(e.is_period_cached(202001 + i));
    }
    assert!(e.is_period_cached(209901));
}

#[test]
fn ttl_expiry_removes_exactly_idle_entries() {
    let mut e = Engine::new();
    e.load_dataset(202401, one_row_dataset(9, 1, 5, 3, 2, 1, 1, 0), 10);
    e.load_dataset(202402, one_row_dataset(9, 1, 10, 0, 0, 0, 0, 0), 11);
    e.compare(202401, 202402, 1, 100).unwrap();
    e.compare(202401, 202402, -1, 150).unwrap();
    e.compare(202402, 202401, 1, 190).unwrap();
    // at now == 200 the idle times are 100, 50 and 10 seconds
    let removed = e.expire_results(50, 200);
    assert_eq!(removed, 2);
    assert!(!e.is_result_cached(202401, 202402, 1));
    assert!(!e.is_result_cached(202401, 202402, -1));
    assert!(e.is_result_cached(202402, 202401, 1));
    // the surviving entry keeps its state: still answered from cache
    let pair = e.compare(202402, 202401, 1, 201).unwrap();
    assert_eq!(pair.period1.get(9).unwrap().inc_total, 10);
}

#[test]
fn sweep_keeps_current_year_and_recent_historic() {
    let mut e = Engine::new();
    e.load_dataset(202301, one_row_dataset(1, 1, 1, 0, 0, 0, 0, 0), 10);
    e.load_dataset(202302, one_row_dataset(1, 1, 1, 0, 0, 0, 0, 0), 20);
    e.load_dataset(202303, one_row_dataset(1, 1, 1, 0, 0, 0, 0, 0), 30);
    e.load_dataset(202401, one_row_dataset(1, 1, 1, 0, 0, 0, 0, 0), 5);
    let removed = e.sweep_periods(1, 2024);
    assert_eq!(removed, 2);
    // the current-year period is untouched even though it is oldest
    assert!(e.is_period_cached(202401));
    // only the most recently accessed historic period stays
    assert!(!e.is_period_cached(202301));
    assert!(!e.is_period_cached(202302));
    assert!(e.is_period_cached(202303));
}

#[test]
fn evict_result_removes_one_entry() {
    let mut e = Engine::new();
    e.load_dataset(202401, one_row_dataset(9, 1, 5, 3, 2, 1, 1, 0), 10);
    e.load_dataset(202402, one_row_dataset(9, 1, 10, 0, 0, 0, 0, 0), 11);
    e.compare(202401, 202402, 1, 12).unwrap();
    assert!(e.evict_result(202401, 202402, 1));
    assert!(!e.is_result_cached(202401, 202402, 1));
    assert!(!e.evict_result(202401, 202402, 1));
}

#[test]
fn resource_stats_counts() {
    let mut e = Engine::new();
    let stats = e.resource_stats();
    assert_eq!(stats.periods_loaded, 0);
    assert_eq!(stats.results_cached, 0);
    assert_eq!(stats.max_periods, 24);
    assert_eq!(stats.max_results, 200);
    e.load_dataset(202401, one_row_dataset(9, 1, 5, 3, 2, 1, 1, 0), 10);
    e.load_dataset(202402, one_row_dataset(9, 1, 10, 0, 0, 0, 0, 0), 11);
    e.compare(202401, 202402, 1, 12).unwrap();
    e.compare(202401, 202402, 1, 13).unwrap();
    let stats = e.resource_stats();
    assert_eq!(stats.periods_loaded, 2);
    assert_eq!(stats.total_rows, 2);
    assert_eq!(stats.approx_ram_kb, 2 * 96 / 1024);
    assert_eq!(stats.results_cached, 1);
    // one miss that stored with count one, one hit that bumped it
    assert_eq!(stats.cumulative_hits, 2);
}

#[test]
fn cache_info_sorted_by_access_count() {
    let mut e = Engine::new();
    e.load_dataset(202401, one_row_dataset(9, 1, 5, 3, 2, 1, 1, 0), 10);
    e.load_dataset(202402, one_row_dataset(9, 1, 10, 0, 0, 0, 0, 0), 11);
    e.compare(202401, 202402, 1, 100).unwrap();
    e.compare(202401, 202402, -1, 110).unwrap();
    e.compare(202401, 202402, -1, 120).unwrap();
    e.compare(202401, 202402, -1, 130).unwrap();
    e.compare(202402, 202401, 1, 140).unwrap();
    e.compare(202402, 202401, 1, 150).unwrap();
    let infos = e.cache_info(200);
    assert_eq!(infos.len(), 3);
    assert_eq!(infos[0].access_count, 3);
    assert_eq!(infos[0].filter, -1);
    assert_eq!(infos[1].access_count, 2);
    assert_eq!((infos[1].key1, infos[1].key2), (202402, 202401));
    assert_eq!(infos[2].access_count, 1);
    assert_eq!(infos[0].idle_seconds, 200 - 130);
    assert_eq!(infos[0].age_seconds, 200 - 110);
}

#[test]
fn filter_skips_sentinel_and_mismatched_rows() {
    let mut e = Engine::new();
    let ds = PeriodDataset {
        n: 4,
        estado_ids: vec![9, 9, i64::MIN, 7],
        situaciones: vec![1, i64::MIN, 1, 2],
        inc_totales: vec![5, 5, 5, 5],
        aten_totales: vec![0, 0, 0, 0],
        cn_totales: vec![0, 0, 0, 0],
        cn_ini: vec![0, 0, 0, 0],
        cn_prim: vec![0, 0, 0, 0],
        cn_sec: vec![0, 0, 0, 0],
    };
    e.load_dataset(202401, ds, 10);
    e.load_dataset(202402, one_row_dataset(9, 1, 1, 0, 0, 0, 0, 0), 11);
    // filter 1: row 0 only (row 1 sentinel status, row 2 sentinel group,
    // row 3 status 2)
    let pair = e.compare(202401, 202402, 1, 12).unwrap();
    assert_eq!(pair.period1.get(9).unwrap().plazas, 1);
    assert_eq!(pair.period1.get(9).unwrap().inc_total, 5);
    assert_eq!(pair.period1.get(7), None);
    // negative filter: no status filter, rows 0, 1 and 3 count
    let pair = e.compare(202401, 202402, -1, 13).unwrap();
    assert_eq!(pair.period1.get(9).unwrap().plazas, 2);
    assert_eq!(pair.period1.get(7).unwrap().plazas, 1);
}

#[test]
fn result_capacity_evicts_least_recently_accessed() {
    let mut e = Engine::new();
    e.load_dataset(202401, one_row_dataset(9, 1, 5, 3, 2, 1, 1, 0), 10);
    e.load_dataset(202402, one_row_dataset(9, 1, 10, 0, 0, 0, 0, 0), 11);
    // MAX_RESULTS is 200: memoize 200 distinct comparisons
    for f in 0..200i64 {
        e.compare(202401, 202402, f, 100 + f as u64).unwrap();
    }
    let stats = e.resource_stats();
    assert_eq!(stats.results_cached, 200);
    assert!(e.is_result_cached(202401, 202402, 0));
    // a new key at capacity evicts the least recently accessed entry
    e.compare(202401, 202402, 999, 1000).unwrap();
    let stats = e.resource_stats();
    assert_eq!(stats.results_cached, 200);
    assert!(!e.is_result_cached(202401, 202402, 0));
    assert!(e.is_result_cached(202401, 202402, 1));
    assert!(e.is_result_cached(202401, 202402, 999));
}
