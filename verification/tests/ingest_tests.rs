use std::sync::Arc;

use arrow_array::{ArrayRef, Float64Array, Int64Array, RecordBatch, StringArray};
use arrow_schema::{Field, Schema};
use parquet::arrow::ArrowWriter;

use plaza_rust::agg::aggregate;
use plaza_rust::engine::{Engine, EngineError};
use plaza_rust::ingest::{
    build_dataset, bundle_from_columns, decompress, parse_dataset, ColData, SourceColumn,
};

fn parquet_bytes(cols: Vec<(&str, ArrayRef)>) -> Vec<u8> {
    let fields: Vec<Field> = cols
        .iter()
        .map(|(n, a)| Field::new(*n, a.data_type().clone(), true))
        .collect();
    let schema = Arc::new(Schema::new(fields));
    let batch =
        RecordBatch::try_new(schema.clone(), cols.into_iter().map(|(_, a)| a).collect()).unwrap();
    let mut buf: Vec<u8> = Vec::new();
    let mut w = ArrowWriter::try_new(&mut buf, schema, None).unwrap();
    w.write(&batch).unwrap();
    w.close().unwrap();
    buf
}

fn f64_col(vals: Vec<f64>) -> ArrayRef {
    Arc::new(Float64Array::from(vals))
}

fn i64_col(vals: Vec<i64>) -> ArrayRef {
    Arc::new(Int64Array::from(vals))
}

fn canonical_file() -> Vec<u8> {
    parquet_bytes(vec![
        ("lat", f64_col(vec![19.4])),
        ("lng", f64_col(vec![-99.1])),
        ("estado_id", i64_col(vec![9])),
        ("situacion", i64_col(vec![1])),
        ("inc_total", i64_col(vec![5])),
        ("aten_total", i64_col(vec![3])),
        ("cn_total", i64_col(vec![2])),
        ("cn_inicial", i64_col(vec![1])),
        ("cn_prim", i64_col(vec![1])),
        ("cn_sec", i64_col(vec![0])),
    ])
}

fn legacy_file() -> Vec<u8> {
    parquet_bytes(vec![
        ("Latitud", f64_col(vec![19.4])),
        ("Longitud", f64_col(vec![-99.1])),
        ("Clave_Edo", i64_col(vec![9])),
        ("Situacion", i64_col(vec![1])),
        ("Inc_Total", i64_col(vec![5])),
        ("Aten_Total", i64_col(vec![3])),
        ("CN_Tot_Acum", i64_col(vec![2])),
        ("CN_Inicial_Acum", i64_col(vec![1])),
        ("CN_Prim_Acum", i64_col(vec![1])),
        ("CN_Sec_Acum", i64_col(vec![0])),
    ])
}

#[test]
fn gzip_roundtrip_through_decompress() {
    let payload = b"columnar period snapshot".to_vec();
    let mut enc =
        flate2::write::GzEncoder::new(Vec::new(), flate2::Compression::default());
    std::io::Write::write_all(&mut enc, &payload).unwrap();
    let compressed = enc.finish().unwrap();
    assert_ne!(compressed, payload);
    assert_eq!(decompress(&compressed).unwrap(), payload);
}

#[test]
fn zstd_signature_triggers_the_zstd_decoder() {
    // the recognized signature is FD 2F B5 28; a payload under it that
    // the zstd decoder rejects is a decode error, not a passthrough
    let bogus = vec![0xfd, 0x2f, 0xb5, 0x28, 0x00, 0x01, 0x02];
    assert_eq!(decompress(&bogus), Err(EngineError::Decode));
    // a genuine zstd stream leads with 28 B5 2F FD, which is not the
    // recognized signature, so it passes through unchanged
    let payload = b"columnar period snapshot".to_vec();
    let stream = zstd::encode_all(payload.as_slice(), 3).unwrap();
    assert_eq!(stream[..4], [0x28, 0xb5, 0x2f, 0xfd]);
    assert_eq!(decompress(&stream).unwrap(), stream);
}

#[test]
fn unrecognized_bytes_pass_through() {
    let payload = b"PAR1 not compressed".to_vec();
    assert_eq!(decompress(&payload).unwrap(), payload);
}

#[test]
fn corrupt_gzip_payload_is_a_decode_error() {
    let bogus = vec![0x1f, 0x8b, 0xff, 0xff, 0x00, 0x01, 0x02];
    assert_eq!(decompress(&bogus), Err(EngineError::Decode));
    let mut e = Engine::new();
    assert_eq!(e.load_bytes(202401, &bogus, 1), Err(EngineError::Decode));
    assert!(!e.is_period_cached(202401));
}

#[test]
fn parse_canonical_parquet() {
    let ds = parse_dataset(&canonical_file()).unwrap();
    assert_eq!(ds.n, 1);
    assert_eq!(ds.estado_ids, vec![9]);
    assert_eq!(ds.situaciones, vec![1]);
    assert_eq!(ds.inc_totales, vec![5]);
    assert_eq!(ds.aten_totales, vec![3]);
    assert_eq!(ds.cn_totales, vec![2]);
    assert_eq!(ds.cn_ini, vec![1]);
    assert_eq!(ds.cn_prim, vec![1]);
    assert_eq!(ds.cn_sec, vec![0]);
}

#[test]
fn alias_equivalence_canonical_and_legacy_files() {
    let ds_c = parse_dataset(&canonical_file()).unwrap();
    let ds_l = parse_dataset(&legacy_file()).unwrap();
    assert_eq!(ds_c.n, ds_l.n);
    assert_eq!(ds_c.estado_ids, ds_l.estado_ids);
    assert_eq!(ds_c.situaciones, ds_l.situaciones);
    assert_eq!(ds_c.inc_totales, ds_l.inc_totales);
    let g_c = aggregate(&ds_c, 1);
    let g_l = aggregate(&ds_l, 1);
    assert_eq!(g_c.get(9), g_l.get(9));
    assert_eq!(g_c.get(9).unwrap().inc_total, 5);
}

#[test]
fn missing_anchor_column_is_a_schema_error() {
    let bytes = parquet_bytes(vec![
        ("estado_id", i64_col(vec![9])),
        ("inc_total", i64_col(vec![5])),
    ]);
    assert!(matches!(parse_dataset(&bytes), Err(EngineError::Schema)));
    let mut e = Engine::new();
    assert_eq!(e.load_bytes(202401, &bytes, 1), Err(EngineError::Schema));
}

#[test]
fn absent_columns_fill_with_sentinels() {
    // only the anchor and the group column are present
    let bytes = parquet_bytes(vec![
        ("lat", f64_col(vec![19.4, 20.0])),
        ("estado_id", i64_col(vec![9, 9])),
    ]);
    let ds = parse_dataset(&bytes).unwrap();
    assert_eq!(ds.n, 2);
    assert_eq!(ds.situaciones, vec![i64::MIN, i64::MIN]);
    assert_eq!(ds.inc_totales, vec![i64::MIN, i64::MIN]);
    // sentinel measures contribute zero, rows still count
    let g = aggregate(&ds, -1);
    let a = g.get(9).unwrap();
    assert_eq!(a.plazas, 2);
    assert_eq!(a.inc_total, 0);
}

#[test]
fn nulls_become_sentinels() {
    let bytes = parquet_bytes(vec![
        ("lat", f64_col(vec![19.4, 20.0])),
        ("estado_id", i64_col(vec![9, 9])),
        (
            "inc_total",
            Arc::new(Int64Array::from(vec![Some(5), None])) as ArrayRef,
        ),
    ]);
    let ds = parse_dataset(&bytes).unwrap();
    assert_eq!(ds.inc_totales, vec![5, i64::MIN]);
}

#[test]
fn first_alias_present_wins() {
    let cols = vec![
        SourceColumn {
            name: "Inc_Total".to_owned(),
            data: ColData::Ints(vec![7]),
        },
        SourceColumn {
            name: "inc_total".to_owned(),
            data: ColData::Ints(vec![5]),
        },
        SourceColumn {
            name: "lat".to_owned(),
            data: ColData::FloatLen(1),
        },
    ];
    let b = bundle_from_columns(&cols);
    // the canonical alias is tried first, wherever it sits in the schema
    assert_eq!(b.inc_total, Some(vec![5]));
    assert_eq!(b.lat_len, Some(1));
    assert_eq!(b.estado, None);
    let ds = build_dataset(b).unwrap();
    assert_eq!(ds.n, 1);
    assert_eq!(ds.inc_totales, vec![5]);
    assert_eq!(ds.estado_ids, vec![i64::MIN]);
}

#[test]
fn wrong_kind_column_does_not_resolve_an_alias() {
    // a float column under an integer alias is skipped; the legacy
    // alias resolves instead
    let cols = vec![
        SourceColumn {
            name: "inc_total".to_owned(),
            data: ColData::FloatLen(1),
        },
        SourceColumn {
            name: "Inc_Total".to_owned(),
            data: ColData::Ints(vec![7]),
        },
        SourceColumn {
            name: "lat".to_owned(),
            data: ColData::FloatLen(1),
        },
    ];
    let b = bundle_from_columns(&cols);
    assert_eq!(b.inc_total, Some(vec![7]));
}

#[test]
fn length_mismatch_fills_with_sentinels() {
    let cols = vec![
        SourceColumn {
            name: "lat".to_owned(),
            data: ColData::FloatLen(3),
        },
        SourceColumn {
            name: "estado_id".to_owned(),
            data: ColData::Ints(vec![9]),
        },
    ];
    let ds = build_dataset(bundle_from_columns(&cols)).unwrap();
    assert_eq!(ds.n, 3);
    assert_eq!(ds.estado_ids, vec![i64::MIN, i64::MIN, i64::MIN]);
}

#[test]
fn string_columns_are_ignored() {
    let bytes = parquet_bytes(vec![
        ("lat", f64_col(vec![19.4])),
        ("estado_id", i64_col(vec![9])),
        (
            "situacion",
            Arc::new(StringArray::from(vec!["activa"])) as ArrayRef,
        ),
    ]);
    let ds = parse_dataset(&bytes).unwrap();
    // the text column resolves no alias; the field degrades to sentinels
    assert_eq!(ds.situaciones, vec![i64::MIN]);
}

#[test]
fn gzip_compressed_parquet_loads_end_to_end() {
    let raw = canonical_file();
    let mut enc =
        flate2::write::GzEncoder::new(Vec::new(), flate2::Compression::default());
    std::io::Write::write_all(&mut enc, &raw).unwrap();
    let compressed = enc.finish().unwrap();
    let mut e = Engine::new();
    assert_eq!(e.load_bytes(202401, &compressed, 1), Ok(1));
    assert!(e.is_period_cached(202401));
    assert_eq!(e.load_bytes(202402, &canonical_file(), 2), Ok(1));
    let pair = e.compare(202401, 202402, 1, 3).unwrap();
    assert_eq!(pair.period1.get(9).unwrap().inc_total, 5);
    assert_eq!(pair.period2.get(9).unwrap().aten_total, 3);
}

#[test]
fn parsing_the_same_bytes_twice_gives_the_same_dataset() {
    let bytes = canonical_file();
    let d1 = parse_dataset(&bytes).unwrap();
    let d2 = parse_dataset(&bytes).unwrap();
    assert_eq!(d1.n, d2.n);
    assert_eq!(d1.estado_ids, d2.estado_ids);
    assert_eq!(d1.situaciones, d2.situaciones);
    assert_eq!(d1.inc_totales, d2.inc_totales);
    assert_eq!(d1.aten_totales, d2.aten_totales);
    assert_eq!(d1.cn_totales, d2.cn_totales);
    assert_eq!(d1.cn_ini, d2.cn_ini);
    assert_eq!(d1.cn_prim, d2.cn_prim);
    assert_eq!(d1.cn_sec, d2.cn_sec);
}

#[test]
fn legacy_dataset_checks_column_lengths() {
    let ds = plaza_rust::dataset::legacy_dataset(
        2,
        vec![9, 7],
        vec![1, 1],
        vec![5, 6],
        vec![0, 1],
        vec![2, 2],
    )
    .unwrap();
    assert_eq!(ds.n, 2);
    assert_eq!(ds.estado_ids, vec![9, 7]);
    // the columns this path does not carry are sentinel-filled
    assert_eq!(ds.cn_ini, vec![i64::MIN, i64::MIN]);
    assert_eq!(ds.cn_sec, vec![i64::MIN, i64::MIN]);
    // a short column is a validation error
    assert!(matches!(
        plaza_rust::dataset::legacy_dataset(
            2,
            vec![9, 7],
            vec![1],
            vec![5, 6],
            vec![0, 1],
            vec![2, 2],
        ),
        Err(EngineError::Validation)
    ));
}
