use vstd::prelude::*;

use crate::dataset::{PeriodDataset, MISSING_INT};
use crate::engine::EngineError;
use arrow_array::Array;
use std::io::Read;

verus! {

// ---------------------------------------------------------------------
// Decompression
// ---------------------------------------------------------------------

/// What gzip decompression yields on a byte sequence, when it succeeds.
pub uninterp spec fn gunzip_of(data: Seq<u8>) -> Option<Seq<u8>>;

/// What zstd decompression yields on a byte sequence, when it succeeds.
pub uninterp spec fn zstd_decode_of(data: Seq<u8>) -> Option<Seq<u8>>;

/// Relies on flate2::read::GzDecoder and std::io::Read::read_to_end:
/// gzip-decompress a byte buffer; the outcome is a function of the
/// bytes alone.
#[verifier::external_body]
fn gunzip(data: &[u8]) -> (r: Option<Vec<u8>>)
    ensures
        r is Some <==> gunzip_of(data@) is Some,
        r matches Some(v) ==> gunzip_of(data@) == Some(v@),
{
    let mut dec = flate2::read::GzDecoder::new(data);
    let mut out: Vec<u8> = Vec::new();
    match dec.read_to_end(&mut out) {
        Ok(_) => Some(out),
        Err(_) => None,
    }
}

/// Relies on zstd::decode_all: zstd-decompress a byte buffer; the
/// outcome is a function of the bytes alone.
#[verifier::external_body]
fn unzstd(data: &[u8]) -> (r: Option<Vec<u8>>)
    ensures
        r is Some <==> zstd_decode_of(data@) is Some,
        r matches Some(v) ==> zstd_decode_of(data@) == Some(v@),
{
    match zstd::decode_all(data) {
        Ok(v) => Some(v),
        Err(_) => None,
    }
}

/// Whether a byte sequence starts with the gzip magic bytes.
pub open spec fn is_gzip(data: Seq<u8>) -> bool {
    data.len() >= 2 && data[0] == 0x1fu8 && data[1] == 0x8bu8
}

/// Whether a byte sequence starts with the zstd magic bytes.
pub open spec fn is_zstd(data: Seq<u8>) -> bool {
    data.len() >= 4 && data[0] == 0xfdu8 && data[1] == 0x2fu8 && data[2] == 0xb5u8 && data[3]
        == 0x28u8
}

/// What sniffing the magic bytes makes of a buffer: the gzip or zstd
/// decompression when one of the two signatures leads, the bytes
/// themselves otherwise.
pub open spec fn decompress_spec(data: Seq<u8>) -> Option<Seq<u8>> {
    if is_gzip(data) {
        gunzip_of(data)
    } else if is_zstd(data) {
        zstd_decode_of(data)
    } else {
        Some(data)
    }
}

/// Sniff the leading magic bytes and decompress accordingly: a
/// recognized signature triggers the matching decompression and fails
/// on a malformed payload; an unrecognized one passes the bytes
/// through unchanged.
pub fn decompress(data: &[u8]) -> (r: Result<Vec<u8>, EngineError>)
    ensures
        r is Ok <==> decompress_spec(data@) is Some,
        r matches Ok(v) ==> decompress_spec(data@) == Some(v@),
        r is Err ==> r == Err::<Vec<u8>, EngineError>(EngineError::Decode),
{
    let n = data.len();
    if n >= 2 && data[0] == 0x1f && data[1] == 0x8b {
        match gunzip(data) {
            Some(v) => Ok(v),
            None => Err(EngineError::Decode),
        }
    } else if n >= 4 && data[0] == 0xfd && data[1] == 0x2f && data[2] == 0xb5 && data[3]
        == 0x28 {
        match unzstd(data) {
            Some(v) => Ok(v),
            None => Err(EngineError::Decode),
        }
    } else {
        let mut out: Vec<u8> = Vec::new();
        let mut i: usize = 0;
        while i < n
            invariant
                i <= n,
                n == data@.len(),
                out@ == data@.take(i as int),
            decreases n - i,
        {
            out.push(data[i]);
            proof {
                assert(data@.take(i + 1) =~= data@.take(i as int).push(data@[i as int]));
            }
            i = i + 1;
        }
        proof {
            assert(data@.take(n as int) =~= data@);
        }
        Ok(out)
    }
}

// ---------------------------------------------------------------------
// Column extraction (trusted boundary around the parquet reader)
// ---------------------------------------------------------------------

/// The decoded record batches of one parquet buffer.  The batches are
/// opaque to verification; the wrappers below read them out as plain
/// values, each pinned to a named function of the source bytes, so
/// that parsing the same bytes always yields the same dataset.
#[verifier::external_body]
pub struct BatchSet {
    batches: Vec<arrow_array::RecordBatch>,
}

/// Whether a byte buffer decodes as a parquet file.  Parquet decoding
/// is a function of the bytes alone.
pub uninterp spec fn pq_decodes(data: Seq<u8>) -> bool;

/// The bytes a batch set was decoded from.
pub uninterp spec fn pq_source_of(b: BatchSet) -> Seq<u8>;

/// How many record batches the buffer decodes to.
pub uninterp spec fn pq_count_of(data: Seq<u8>) -> usize;

/// The decoded schema's column names, in schema order.
pub uninterp spec fn pq_names_of(data: Seq<u8>) -> Seq<Seq<char>>;

/// The named column of one batch when it is an integer column: its
/// values widened to 64 bits, null cells as the reserved minimum.
pub uninterp spec fn pq_ints_of(data: Seq<u8>, bi: int, name: Seq<char>) -> Option<Seq<i64>>;

/// The named column's row count in one batch when it is a
/// floating-point column.
pub uninterp spec fn pq_float_len_of(data: Seq<u8>, bi: int, name: Seq<char>) -> Option<usize>;

/// Relies on parquet's ParquetRecordBatchReaderBuilder (try_new, build)
/// and the reader's batch iterator, over a bytes::Bytes copy of the
/// buffer: decode every record batch of a parquet byte buffer, or fail
/// on a malformed one.
#[verifier::external_body]
fn read_batches(data: &[u8]) -> (r: Option<BatchSet>)
    ensures
        r is Some <==> pq_decodes(data@),
        r matches Some(b) ==> pq_source_of(b) == data@,
{
    let buf = bytes::Bytes::copy_from_slice(data);
    let builder = match parquet::arrow::arrow_reader::ParquetRecordBatchReaderBuilder::try_new(
        buf,
    ) {
        Ok(b) => b,
        Err(_) => return None,
    };
    let reader = match builder.build() {
        Ok(r) => r,
        Err(_) => return None,
    };
    let batches = reader.collect::<Result<Vec<arrow_array::RecordBatch>, _>>().ok()?;
    Some(BatchSet { batches })
}

/// Relies on Vec::len: how many record batches were decoded.
#[verifier::external_body]
fn batch_count(b: &BatchSet) -> (r: usize)
    ensures
        r == pq_count_of(pq_source_of(*b)),
{
    b.batches.len()
}

/// Relies on RecordBatch::schema, Schema::fields and Field::name: the
/// column names of the first batch, in schema order; every batch of
/// one file shares its schema.  An empty file has no names.
#[verifier::external_body]
fn batch_names(b: &BatchSet) -> (r: Vec<String>)
    ensures
        r@.map_values(|s: String| s@) == pq_names_of(pq_source_of(*b)),
{
    match b.batches.first() {
        Some(batch) => batch.schema().fields().iter().map(|f| f.name().clone()).collect(),
        None => Vec::new(),
    }
}

/// Relies on RecordBatch::column_by_name, DataType::is_integer and
/// arrow_cast::cast: the named column of one batch, widened to 64-bit
/// integers when it is an integer column, with null cells as the
/// reserved minimum and valid cells carried over exactly; nothing for
/// an absent, out-of-range or non-integer column.
#[verifier::external_body]
fn batch_col_ints(b: &BatchSet, bi: usize, name: &str) -> (r: Option<Vec<i64>>)
    ensures
        view_opt(r) == pq_ints_of(pq_source_of(*b), bi as int, name@),
        pq_count_of(pq_source_of(*b)) <= bi ==> r is None,
{
    let col = b.batches.get(bi)?.column_by_name(name)?;
    if !col.data_type().is_integer() {
        return None;
    }
    let cast = arrow_cast::cast(col.as_ref(), &arrow_schema::DataType::Int64).ok()?;
    let a = cast.as_any().downcast_ref::<arrow_array::Int64Array>()?;
    Some(
        (0..a.len()).map(|j| if a.is_valid(j) { a.value(j) } else { i64::MIN }).collect(),
    )
}

/// Relies on RecordBatch::column_by_name, DataType::is_floating and
/// Array::len: the named column's row count in one batch when it is a
/// floating-point column; nothing for an absent, out-of-range or
/// non-float column.
#[verifier::external_body]
fn batch_col_float_len(b: &BatchSet, bi: usize, name: &str) -> (r: Option<usize>)
    ensures
        r == pq_float_len_of(pq_source_of(*b), bi as int, name@),
        pq_count_of(pq_source_of(*b)) <= bi ==> r is None,
{
    let col = b.batches.get(bi)?.column_by_name(name)?;
    if col.data_type().is_floating() {
        Some(col.len())
    } else {
        None
    }
}

// ---------------------------------------------------------------------
// Named source columns
// ---------------------------------------------------------------------

/// The data a source column carries, as far as ingestion reads it:
/// integer values (with the sentinel for nulls), or, for a
/// floating-point column, only its row count — the aggregation never
/// reads float values.
pub enum ColData {
    Ints(Vec<i64>),
    FloatLen(usize),
}

/// One named column extracted from the source schema.
pub struct SourceColumn {
    pub name: String,
    pub data: ColData,
}

/// Cap an unbounded non-negative integer into the usize range.
pub open spec fn cap_usize(v: int) -> usize {
    if v > usize::MAX {
        usize::MAX
    } else if v < 0 {
        0
    } else {
        v as usize
    }
}

/// The named integer column over the first `hi` batches, concatenated
/// in batch order; a batch that lacks the column contributes nothing.
pub open spec fn pq_ints_concat(data: Seq<u8>, name: Seq<char>, hi: int) -> Seq<i64>
    decreases hi,
{
    if hi <= 0 {
        Seq::empty()
    } else {
        pq_ints_concat(data, name, hi - 1) + (match pq_ints_of(data, hi - 1, name) {
            Some(v) => v,
            None => Seq::empty(),
        })
    }
}

/// The named integer column of the whole file.
pub open spec fn pq_all_ints(data: Seq<u8>, name: Seq<char>) -> Seq<i64> {
    pq_ints_concat(data, name, pq_count_of(data) as int)
}

/// The named float column's row count over the first `hi` batches.
pub open spec fn pq_float_sum(data: Seq<u8>, name: Seq<char>, hi: int) -> int
    decreases hi,
{
    if hi <= 0 {
        0
    } else {
        pq_float_sum(data, name, hi - 1) + (match pq_float_len_of(data, hi - 1, name) {
            Some(l) => l as int,
            None => 0,
        })
    }
}

/// The named float column's total row count, saturating.
pub open spec fn pq_total_float_len(data: Seq<u8>, name: Seq<char>) -> usize {
    cap_usize(pq_float_sum(data, name, pq_count_of(data) as int))
}

/// What column collection owes: one entry per schema name whose first
/// batch carries an integer or float column of that name, in schema
/// order, holding the whole file's values (integers concatenated,
/// float lengths summed); names without such a column contribute
/// nothing.
pub open spec fn cols_match(data: Seq<u8>, names: Seq<Seq<char>>, r: Seq<SourceColumn>) -> bool
    decreases names.len(),
{
    if names.len() == 0 {
        r.len() == 0
    } else {
        let name = names[0];
        if pq_ints_of(data, 0, name) is Some {
            &&& r.len() >= 1
            &&& r[0].name@ == name
            &&& col_ints_view(r[0].data) == Some(pq_all_ints(data, name))
            &&& cols_match(data, names.drop_first(), r.drop_first())
        } else if pq_float_len_of(data, 0, name) is Some {
            &&& r.len() >= 1
            &&& r[0].name@ == name
            &&& col_float_view(r[0].data) == Some(pq_total_float_len(data, name))
            &&& cols_match(data, names.drop_first(), r.drop_first())
        } else {
            cols_match(data, names.drop_first(), r)
        }
    }
}

/// An integer-columned name appended to both lists extends the match.
proof fn lemma_cols_match_snoc_int(
    data: Seq<u8>,
    names: Seq<Seq<char>>,
    r: Seq<SourceColumn>,
    name: Seq<char>,
    c: SourceColumn,
)
    requires
        cols_match(data, names, r),
        pq_ints_of(data, 0, name) is Some,
        c.name@ == name,
        col_ints_view(c.data) == Some(pq_all_ints(data, name)),
    ensures
        cols_match(data, names.push(name), r.push(c)),
    decreases names.len(),
{
    if names.len() == 0 {
        assert(names.push(name).drop_first() =~= Seq::<Seq<char>>::empty());
        assert(r =~= Seq::<SourceColumn>::empty());
        assert(r.push(c).drop_first() =~= Seq::<SourceColumn>::empty());
        assert(r.push(c)[0] == c);
        assert(names.push(name)[0] == name);
        assert(cols_match(
            data,
            Seq::<Seq<char>>::empty(),
            Seq::<SourceColumn>::empty(),
        ));
    } else {
        let h = names[0];
        assert(names.push(name).drop_first() =~= names.drop_first().push(name));
        if pq_ints_of(data, 0, h) is Some || pq_float_len_of(data, 0, h) is Some {
            assert(r.push(c)[0] == r[0]);
            assert(r.push(c).drop_first() =~= r.drop_first().push(c));
            lemma_cols_match_snoc_int(data, names.drop_first(), r.drop_first(), name, c);
        } else {
            lemma_cols_match_snoc_int(data, names.drop_first(), r, name, c);
        }
    }
}

/// A float-columned name appended to both lists extends the match.
proof fn lemma_cols_match_snoc_float(
    data: Seq<u8>,
    names: Seq<Seq<char>>,
    r: Seq<SourceColumn>,
    name: Seq<char>,
    c: SourceColumn,
)
    requires
        cols_match(data, names, r),
        pq_ints_of(data, 0, name) is None,
        pq_float_len_of(data, 0, name) is Some,
        c.name@ == name,
        col_float_view(c.data) == Some(pq_total_float_len(data, name)),
    ensures
        cols_match(data, names.push(name), r.push(c)),
    decreases names.len(),
{
    if names.len() == 0 {
        assert(names.push(name).drop_first() =~= Seq::<Seq<char>>::empty());
        assert(r =~= Seq::<SourceColumn>::empty());
        assert(r.push(c).drop_first() =~= Seq::<SourceColumn>::empty());
        assert(r.push(c)[0] == c);
        assert(names.push(name)[0] == name);
        assert(cols_match(
            data,
            Seq::<Seq<char>>::empty(),
            Seq::<SourceColumn>::empty(),
        ));
    } else {
        let h = names[0];
        assert(names.push(name).drop_first() =~= names.drop_first().push(name));
        if pq_ints_of(data, 0, h) is Some || pq_float_len_of(data, 0, h) is Some {
            assert(r.push(c)[0] == r[0]);
            assert(r.push(c).drop_first() =~= r.drop_first().push(c));
            lemma_cols_match_snoc_float(data, names.drop_first(), r.drop_first(), name, c);
        } else {
            lemma_cols_match_snoc_float(data, names.drop_first(), r, name, c);
        }
    }
}

/// A name without a column in the first batch extends the match with
/// nothing.
proof fn lemma_cols_match_snoc_skip(
    data: Seq<u8>,
    names: Seq<Seq<char>>,
    r: Seq<SourceColumn>,
    name: Seq<char>,
)
    requires
        cols_match(data, names, r),
        pq_ints_of(data, 0, name) is None,
        pq_float_len_of(data, 0, name) is None,
    ensures
        cols_match(data, names.push(name), r),
    decreases names.len(),
{
    if names.len() == 0 {
        assert(names.push(name).drop_first() =~= Seq::<Seq<char>>::empty());
        assert(r =~= Seq::<SourceColumn>::empty());
        assert(names.push(name)[0] == name);
        assert(cols_match(data, Seq::<Seq<char>>::empty(), r));
    } else {
        let h = names[0];
        assert(names.push(name).drop_first() =~= names.drop_first().push(name));
        if pq_ints_of(data, 0, h) is Some || pq_float_len_of(data, 0, h) is Some {
            lemma_cols_match_snoc_skip(data, names.drop_first(), r.drop_first(), name);
        } else {
            lemma_cols_match_snoc_skip(data, names.drop_first(), r, name);
        }
    }
}

/// Pull every column of every batch into named plain-value columns,
/// concatenating batches in order.
fn collect_columns(batches: &BatchSet) -> (r: Vec<SourceColumn>)
    ensures
        cols_match(
            pq_source_of(*batches),
            pq_names_of(pq_source_of(*batches)),
            r@,
        ),
{
    let ghost data = pq_source_of(*batches);
    let mut out: Vec<SourceColumn> = Vec::new();
    let nb = batch_count(batches);
    let names = batch_names(batches);
    let ghost names_v = names@.map_values(|s: String| s@);
    let mut ni: usize = 0;
    while ni < names.len()
        invariant
            ni <= names@.len(),
            names_v == names@.map_values(|s: String| s@),
            names_v == pq_names_of(data),
            data == pq_source_of(*batches),
            nb == pq_count_of(data),
            cols_match(data, names_v.take(ni as int), out@),
        decreases names@.len() - ni,
    {
        let name = &names[ni];
        let ghost name_v = names_v[ni as int];
        proof {
            assert(names_v[ni as int] == names@[ni as int]@);
            assert(name_v == name@);
            assert(names_v.take(ni + 1) =~= names_v.take(ni as int).push(name_v));
        }
        match batch_col_ints(batches, 0, name.as_str()) {
            Some(first) => {
                assert(nb >= 1);
                let mut acc = first;
                proof {
                    assert(pq_ints_concat(data, name_v, 0) =~= Seq::<i64>::empty());
                    assert(pq_ints_concat(data, name_v, 1) =~= acc@);
                }
                let mut bi: usize = 1;
                while bi < nb
                    invariant
                        1 <= bi <= nb,
                        data == pq_source_of(*batches),
                        nb == pq_count_of(data),
                        acc@ == pq_ints_concat(data, name_v, bi as int),
                        name_v == name@,
                    decreases nb - bi,
                {
                    match batch_col_ints(batches, bi, name.as_str()) {
                        Some(mut more) => {
                            acc.append(&mut more);
                        },
                        None => {
                            proof {
                                assert(acc@ =~= pq_ints_concat(data, name_v, bi + 1));
                            }
                        },
                    }
                    bi = bi + 1;
                }
                let col = SourceColumn { name: name.clone(), data: ColData::Ints(acc) };
                proof {
                    lemma_cols_match_snoc_int(
                        data,
                        names_v.take(ni as int),
                        out@,
                        name_v,
                        col,
                    );
                }
                out.push(col);
            },
            None => {
                match batch_col_float_len(batches, 0, name.as_str()) {
                    Some(first_len) => {
                        assert(nb >= 1);
                        let mut total = first_len;
                        proof {
                            assert(pq_float_sum(data, name_v, 0) == 0);
                            assert(pq_float_sum(data, name_v, 1) == first_len as int);
                        }
                        let mut bi: usize = 1;
                        while bi < nb
                            invariant
                                1 <= bi <= nb,
                                data == pq_source_of(*batches),
                                nb == pq_count_of(data),
                                total == cap_usize(pq_float_sum(data, name_v, bi as int)),
                                pq_float_sum(data, name_v, bi as int) >= 0,
                                name_v == name@,
                            decreases nb - bi,
                        {
                            match batch_col_float_len(batches, bi, name.as_str()) {
                                Some(l) => {
                                    total = total.saturating_add(l);
                                },
                                None => {},
                            }
                            bi = bi + 1;
                        }
                        let col = SourceColumn {
                            name: name.clone(),
                            data: ColData::FloatLen(total),
                        };
                        proof {
                            lemma_cols_match_snoc_float(
                                data,
                                names_v.take(ni as int),
                                out@,
                                name_v,
                                col,
                            );
                        }
                        out.push(col);
                    },
                    None => {
                        proof {
                            lemma_cols_match_snoc_skip(
                                data,
                                names_v.take(ni as int),
                                out@,
                                name_v,
                            );
                        }
                    },
                }
            },
        }
        ni = ni + 1;
    }
    proof {
        assert(names_v.take(names@.len() as int) =~= names_v);
    }
    out
}

} // verus!

verus! {

/// The integer values a column carries, if it is an integer column.
pub open spec fn col_ints_view(d: ColData) -> Option<Seq<i64>> {
    match d {
        ColData::Ints(v) => Some(v@),
        ColData::FloatLen(_) => None,
    }
}

/// The row count a column carries, if it is a floating-point column.
pub open spec fn col_float_view(d: ColData) -> Option<usize> {
    match d {
        ColData::Ints(_) => None,
        ColData::FloatLen(l) => Some(l),
    }
}

/// The first integer column named `name`, scanning from position `i`.
pub open spec fn find_int_from(cols: Seq<SourceColumn>, name: Seq<char>, i: int) -> Option<
    Seq<i64>,
>
    decreases cols.len() - i,
{
    if i < 0 || i >= cols.len() {
        None
    } else if cols[i].name@ == name && col_ints_view(cols[i].data) is Some {
        col_ints_view(cols[i].data)
    } else {
        find_int_from(cols, name, i + 1)
    }
}

/// The first integer column with the given name.
pub open spec fn find_int(cols: Seq<SourceColumn>, name: Seq<char>) -> Option<Seq<i64>> {
    find_int_from(cols, name, 0)
}

/// The first float column named `name`, scanning from position `i`.
pub open spec fn find_float_from(cols: Seq<SourceColumn>, name: Seq<char>, i: int) -> Option<
    usize,
>
    decreases cols.len() - i,
{
    if i < 0 || i >= cols.len() {
        None
    } else if cols[i].name@ == name && col_float_view(cols[i].data) is Some {
        col_float_view(cols[i].data)
    } else {
        find_float_from(cols, name, i + 1)
    }
}

/// The first float column with the given name.
pub open spec fn find_float(cols: Seq<SourceColumn>, name: Seq<char>) -> Option<usize> {
    find_float_from(cols, name, 0)
}

/// The first alias, in order, that resolves to an integer column.
pub open spec fn find_int_aliases_from(
    cols: Seq<SourceColumn>,
    aliases: Seq<Seq<char>>,
    j: int,
) -> Option<Seq<i64>>
    decreases aliases.len() - j,
{
    if j < 0 || j >= aliases.len() {
        None
    } else {
        match find_int(cols, aliases[j]) {
            Some(v) => Some(v),
            None => find_int_aliases_from(cols, aliases, j + 1),
        }
    }
}

pub open spec fn find_int_aliases(cols: Seq<SourceColumn>, aliases: Seq<Seq<char>>) -> Option<
    Seq<i64>,
> {
    find_int_aliases_from(cols, aliases, 0)
}

/// The first alias, in order, that resolves to a float column.
pub open spec fn find_float_aliases_from(
    cols: Seq<SourceColumn>,
    aliases: Seq<Seq<char>>,
    j: int,
) -> Option<usize>
    decreases aliases.len() - j,
{
    if j < 0 || j >= aliases.len() {
        None
    } else {
        match find_float(cols, aliases[j]) {
            Some(l) => Some(l),
            None => find_float_aliases_from(cols, aliases, j + 1),
        }
    }
}

pub open spec fn find_float_aliases(cols: Seq<SourceColumn>, aliases: Seq<Seq<char>>) -> Option<
    usize,
> {
    find_float_aliases_from(cols, aliases, 0)
}

/// The values of an optional integer column.
pub open spec fn view_opt(o: Option<Vec<i64>>) -> Option<Seq<i64>> {
    match o {
        Some(v) => Some(v@),
        None => None,
    }
}

fn find_int_exec(cols: &Vec<SourceColumn>, name: &String) -> (r: Option<Vec<i64>>)
    ensures
        view_opt(r) == find_int(cols@, name@),
{
    let n = cols.len();
    let mut i: usize = 0;
    while i < n
        invariant
            i <= n,
            n == cols@.len(),
            find_int(cols@, name@) == find_int_from(cols@, name@, i as int),
        decreases n - i,
    {
        if cols[i].name == *name {
            match &cols[i].data {
                ColData::Ints(v) => {
                    let r = v.clone();
                    proof {
                        assert(r@ =~= v@);
                    }
                    return Some(r);
                },
                ColData::FloatLen(_) => {},
            }
        }
        i = i + 1;
    }
    None
}

fn find_float_exec(cols: &Vec<SourceColumn>, name: &String) -> (r: Option<usize>)
    ensures
        r == find_float(cols@, name@),
{
    let n = cols.len();
    let mut i: usize = 0;
    while i < n
        invariant
            i <= n,
            n == cols@.len(),
            find_float(cols@, name@) == find_float_from(cols@, name@, i as int),
        decreases n - i,
    {
        if cols[i].name == *name {
            match &cols[i].data {
                ColData::FloatLen(l) => {
                    return Some(*l);
                },
                ColData::Ints(_) => {},
            }
        }
        i = i + 1;
    }
    None
}

fn find_int_aliases_exec(cols: &Vec<SourceColumn>, aliases: &Vec<String>) -> (r: Option<
    Vec<i64>,
>)
    ensures
        view_opt(r) == find_int_aliases(cols@, aliases@.map_values(|a: String| a@)),
{
    let ghost names = aliases@.map_values(|a: String| a@);
    let m = aliases.len();
    let mut j: usize = 0;
    while j < m
        invariant
            j <= m,
            m == aliases@.len(),
            names == aliases@.map_values(|a: String| a@),
            find_int_aliases(cols@, names) == find_int_aliases_from(cols@, names, j as int),
        decreases m - j,
    {
        match find_int_exec(cols, &aliases[j]) {
            Some(v) => {
                return Some(v);
            },
            None => {},
        }
        j = j + 1;
    }
    None
}

fn find_float_aliases_exec(cols: &Vec<SourceColumn>, aliases: &Vec<String>) -> (r: Option<usize>)
    ensures
        r == find_float_aliases(cols@, aliases@.map_values(|a: String| a@)),
{
    let ghost names = aliases@.map_values(|a: String| a@);
    let m = aliases.len();
    let mut j: usize = 0;
    while j < m
        invariant
            j <= m,
            m == aliases@.len(),
            names == aliases@.map_values(|a: String| a@),
            find_float_aliases(cols@, names) == find_float_aliases_from(cols@, names, j as int),
        decreases m - j,
    {
        match find_float_exec(cols, &aliases[j]) {
            Some(l) => {
                return Some(l);
            },
            None => {},
        }
        j = j + 1;
    }
    None
}

} // verus!

verus! {

// ---------------------------------------------------------------------
// The fixed allow-list of column names, two naming conventions
// ---------------------------------------------------------------------

pub open spec fn lat_aliases() -> Seq<Seq<char>> {
    seq!["lat"@, "Latitud"@]
}

pub open spec fn lng_aliases() -> Seq<Seq<char>> {
    seq!["lng"@, "Longitud"@]
}

pub open spec fn estado_aliases() -> Seq<Seq<char>> {
    seq!["estado_id"@, "Clave_Edo"@]
}

pub open spec fn situacion_aliases() -> Seq<Seq<char>> {
    seq!["situacion"@, "Situación"@, "Situacion"@]
}

pub open spec fn inc_total_aliases() -> Seq<Seq<char>> {
    seq!["inc_total"@, "Inc_Total"@]
}

pub open spec fn aten_total_aliases() -> Seq<Seq<char>> {
    seq!["aten_total"@, "Aten_Total"@]
}

pub open spec fn cn_total_aliases() -> Seq<Seq<char>> {
    seq!["cn_total"@, "CN_Tot_Acum"@]
}

pub open spec fn cn_ini_aliases() -> Seq<Seq<char>> {
    seq!["cn_inicial"@, "CN_Inicial_Acum"@]
}

pub open spec fn cn_prim_aliases() -> Seq<Seq<char>> {
    seq!["cn_prim"@, "CN_Prim_Acum"@]
}

pub open spec fn cn_sec_aliases() -> Seq<Seq<char>> {
    seq!["cn_sec"@, "CN_Sec_Acum"@]
}

fn aliases2(a: &str, b: &str) -> (r: Vec<String>)
    ensures
        r@.map_values(|s: String| s@) =~= seq![a@, b@],
{
    let v: Vec<String> = vec![a.to_owned(), b.to_owned()];
    proof {
        assert(v@.map_values(|s: String| s@) =~= seq![a@, b@]);
    }
    v
}

fn aliases3(a: &str, b: &str, c: &str) -> (r: Vec<String>)
    ensures
        r@.map_values(|s: String| s@) =~= seq![a@, b@, c@],
{
    let v: Vec<String> = vec![a.to_owned(), b.to_owned(), c.to_owned()];
    proof {
        assert(v@.map_values(|s: String| s@) =~= seq![a@, b@, c@]);
    }
    v
}

// ---------------------------------------------------------------------
// Bundle: one resolved column per logical field
// ---------------------------------------------------------------------

/// The resolved columns of one dataset: for each logical field the
/// first alias present in the source schema, or nothing.  Float fields
/// keep only their row count.
pub struct ColumnBundle {
    pub lat_len: Option<usize>,
    pub lng_len: Option<usize>,
    pub estado: Option<Vec<i64>>,
    pub situacion: Option<Vec<i64>>,
    pub inc_total: Option<Vec<i64>>,
    pub aten_total: Option<Vec<i64>>,
    pub cn_total: Option<Vec<i64>>,
    pub cn_ini: Option<Vec<i64>>,
    pub cn_prim: Option<Vec<i64>>,
    pub cn_sec: Option<Vec<i64>>,
}

/// The mathematical content of a bundle.
pub ghost struct BundleModel {
    pub lat_len: Option<usize>,
    pub lng_len: Option<usize>,
    pub estado: Option<Seq<i64>>,
    pub situacion: Option<Seq<i64>>,
    pub inc_total: Option<Seq<i64>>,
    pub aten_total: Option<Seq<i64>>,
    pub cn_total: Option<Seq<i64>>,
    pub cn_ini: Option<Seq<i64>>,
    pub cn_prim: Option<Seq<i64>>,
    pub cn_sec: Option<Seq<i64>>,
}

pub open spec fn bundle_model_of(b: ColumnBundle) -> BundleModel {
    BundleModel {
        lat_len: b.lat_len,
        lng_len: b.lng_len,
        estado: view_opt(b.estado),
        situacion: view_opt(b.situacion),
        inc_total: view_opt(b.inc_total),
        aten_total: view_opt(b.aten_total),
        cn_total: view_opt(b.cn_total),
        cn_ini: view_opt(b.cn_ini),
        cn_prim: view_opt(b.cn_prim),
        cn_sec: view_opt(b.cn_sec),
    }
}

/// What alias resolution makes of a column list: for each logical
/// field, the first alias present with the right kind.
pub open spec fn bundle_spec(cols: Seq<SourceColumn>) -> BundleModel {
    BundleModel {
        lat_len: find_float_aliases(cols, lat_aliases()),
        lng_len: find_float_aliases(cols, lng_aliases()),
        estado: find_int_aliases(cols, estado_aliases()),
        situacion: find_int_aliases(cols, situacion_aliases()),
        inc_total: find_int_aliases(cols, inc_total_aliases()),
        aten_total: find_int_aliases(cols, aten_total_aliases()),
        cn_total: find_int_aliases(cols, cn_total_aliases()),
        cn_ini: find_int_aliases(cols, cn_ini_aliases()),
        cn_prim: find_int_aliases(cols, cn_prim_aliases()),
        cn_sec: find_int_aliases(cols, cn_sec_aliases()),
    }
}

/// Resolve each logical field against the column list, first alias
/// wins.
pub fn bundle_from_columns(cols: &Vec<SourceColumn>) -> (r: ColumnBundle)
    ensures
        bundle_model_of(r) == bundle_spec(cols@),
{
    let lat_len = find_float_aliases_exec(cols, &aliases2("lat", "Latitud"));
    let lng_len = find_float_aliases_exec(cols, &aliases2("lng", "Longitud"));
    let estado = find_int_aliases_exec(cols, &aliases2("estado_id", "Clave_Edo"));
    let situacion = find_int_aliases_exec(
        cols,
        &aliases3("situacion", "Situación", "Situacion"),
    );
    let inc_total = find_int_aliases_exec(cols, &aliases2("inc_total", "Inc_Total"));
    let aten_total = find_int_aliases_exec(cols, &aliases2("aten_total", "Aten_Total"));
    let cn_total = find_int_aliases_exec(cols, &aliases2("cn_total", "CN_Tot_Acum"));
    let cn_ini = find_int_aliases_exec(cols, &aliases2("cn_inicial", "CN_Inicial_Acum"));
    let cn_prim = find_int_aliases_exec(cols, &aliases2("cn_prim", "CN_Prim_Acum"));
    let cn_sec = find_int_aliases_exec(cols, &aliases2("cn_sec", "CN_Sec_Acum"));
    ColumnBundle {
        lat_len,
        lng_len,
        estado,
        situacion,
        inc_total,
        aten_total,
        cn_total,
        cn_ini,
        cn_prim,
        cn_sec,
    }
}

// ---------------------------------------------------------------------
// Dataset construction
// ---------------------------------------------------------------------

/// What a resolved field contributes to the dataset: its values when
/// they cover every row, else one sentinel per row — absent optional
/// columns degrade gracefully.
pub open spec fn field_seq(o: Option<Seq<i64>>, n: int) -> Seq<i64> {
    match o {
        Some(v) => if v.len() == n {
            v
        } else {
            Seq::new(n as nat, |i: int| MISSING_INT)
        },
        None => Seq::new(n as nat, |i: int| MISSING_INT),
    }
}

fn sentinel_vec(n: usize) -> (r: Vec<i64>)
    ensures
        r@ == Seq::new(n as nat, |i: int| MISSING_INT),
{
    let v: Vec<i64> = vec![i64::MIN; n];
    proof {
        assert(v@ =~= Seq::new(n as nat, |i: int| MISSING_INT));
    }
    v
}

fn fill_field(o: Option<Vec<i64>>, n: usize) -> (r: Vec<i64>)
    ensures
        r@ == field_seq(view_opt(o), n as int),
{
    match o {
        Some(v) => {
            if v.len() == n {
                v
            } else {
                sentinel_vec(n)
            }
        },
        None => sentinel_vec(n),
    }
}

/// Build a well-formed dataset from a resolved bundle.  The anchor
/// column (latitude) fixes the row count; if no alias of it was
/// present, ingestion fails with a schema error.  Every other field
/// contributes its values when they cover every row, else sentinels.
pub fn build_dataset(b: ColumnBundle) -> (r: Result<PeriodDataset, EngineError>)
    ensures
        r is Ok <==> b.lat_len is Some,
        r is Err ==> r == Err::<PeriodDataset, EngineError>(EngineError::Schema),
        r matches Ok(ds) ==> {
            &&& ds.wf()
            &&& ds.n == b.lat_len.unwrap()
            &&& ds.estado_ids@ == field_seq(bundle_model_of(b).estado, ds.n as int)
            &&& ds.situaciones@ == field_seq(bundle_model_of(b).situacion, ds.n as int)
            &&& ds.inc_totales@ == field_seq(bundle_model_of(b).inc_total, ds.n as int)
            &&& ds.aten_totales@ == field_seq(bundle_model_of(b).aten_total, ds.n as int)
            &&& ds.cn_totales@ == field_seq(bundle_model_of(b).cn_total, ds.n as int)
            &&& ds.cn_ini@ == field_seq(bundle_model_of(b).cn_ini, ds.n as int)
            &&& ds.cn_prim@ == field_seq(bundle_model_of(b).cn_prim, ds.n as int)
            &&& ds.cn_sec@ == field_seq(bundle_model_of(b).cn_sec, ds.n as int)
        },
{
    let n = match b.lat_len {
        Some(n) => n,
        None => {
            return Err(EngineError::Schema);
        },
    };
    Ok(
        PeriodDataset {
            n,
            estado_ids: fill_field(b.estado, n),
            situaciones: fill_field(b.situacion, n),
            inc_totales: fill_field(b.inc_total, n),
            aten_totales: fill_field(b.aten_total, n),
            cn_totales: fill_field(b.cn_total, n),
            cn_ini: fill_field(b.cn_ini, n),
            cn_prim: fill_field(b.cn_prim, n),
            cn_sec: fill_field(b.cn_sec, n),
        },
    )
}

/// The dataset a byte buffer parses to is a function of the bytes
/// alone: parsing succeeds exactly when the buffer decompresses, the
/// payload decodes as parquet, and some alias of the anchor column is
/// present — and then every column of the result is the one the
/// decoded schema resolves it to, sentinel-filled where absent.
pub open spec fn parse_ok(data: Seq<u8>) -> bool {
    &&& decompress_spec(data) is Some
    &&& pq_decodes(decompress_spec(data).unwrap())
    &&& pq_bundle(decompress_spec(data).unwrap()).lat_len is Some
}

/// Decompress a byte buffer and extract one period's dataset from its
/// columns: magic-byte sniffing, tolerant alias resolution, sentinel
/// fill for absent fields, and a schema error when no alias of the
/// anchor column is present.
pub fn parse_dataset(data: &[u8]) -> (r: Result<PeriodDataset, EngineError>)
    ensures
        r is Ok <==> parse_ok(data@),
        r matches Ok(ds) ==> {
            let b = pq_bundle(decompress_spec(data@).unwrap());
            &&& ds.wf()
            &&& ds.n == b.lat_len.unwrap()
            &&& ds.estado_ids@ == field_seq(b.estado, ds.n as int)
            &&& ds.situaciones@ == field_seq(b.situacion, ds.n as int)
            &&& ds.inc_totales@ == field_seq(b.inc_total, ds.n as int)
            &&& ds.aten_totales@ == field_seq(b.aten_total, ds.n as int)
            &&& ds.cn_totales@ == field_seq(b.cn_total, ds.n as int)
            &&& ds.cn_ini@ == field_seq(b.cn_ini, ds.n as int)
            &&& ds.cn_prim@ == field_seq(b.cn_prim, ds.n as int)
            &&& ds.cn_sec@ == field_seq(b.cn_sec, ds.n as int)
        },
        decompress_spec(data@) is None ==> r == Err::<PeriodDataset, EngineError>(
            EngineError::Decode,
        ),
        decompress_spec(data@) is Some && !pq_decodes(decompress_spec(data@).unwrap()) ==> r
            == Err::<PeriodDataset, EngineError>(EngineError::Decode),
        decompress_spec(data@) is Some && pq_decodes(decompress_spec(data@).unwrap())
            && pq_bundle(decompress_spec(data@).unwrap()).lat_len is None ==> r == Err::<
            PeriodDataset,
            EngineError,
        >(EngineError::Schema),
{
    let bytes = match decompress(data) {
        Ok(b) => b,
        Err(e) => {
            return Err(e);
        },
    };
    let batches = match read_batches(bytes.as_slice()) {
        Some(b) => b,
        None => {
            return Err(EngineError::Decode);
        },
    };
    let cols = collect_columns(&batches);
    proof {
        lemma_bundle_of_cols(bytes@, cols@);
    }
    let bundle = bundle_from_columns(&cols);
    build_dataset(bundle)
}

} // verus!

verus! {

impl crate::engine::Engine {
    /// Decompress and parse one period's bytes, then insert the dataset
    /// under its key, evicting the least recently accessed period if a
    /// new key arrives at capacity.  Returns the row count.  The call
    /// succeeds exactly when parsing does; the stored dataset is the
    /// one the bytes parse to; a failure leaves both stores untouched.
    pub fn load_bytes(&mut self, key: u32, data: &[u8], now: u64) -> (r: Result<
        usize,
        EngineError,
    >)
        requires
            old(self).wf(),
        ensures
            final(self).wf(),
            r is Ok <==> parse_ok(data@),
            decompress_spec(data@) is None ==> r == Err::<usize, EngineError>(
                EngineError::Decode,
            ),
            decompress_spec(data@) is Some && !pq_decodes(decompress_spec(data@).unwrap())
                ==> r == Err::<usize, EngineError>(EngineError::Decode),
            decompress_spec(data@) is Some && pq_decodes(decompress_spec(data@).unwrap())
                && pq_bundle(decompress_spec(data@).unwrap()).lat_len is None ==> r == Err::<
                usize,
                EngineError,
            >(EngineError::Schema),
            r is Err ==> *final(self) == *old(self),
            r matches Ok(n) ==> {
                let b = pq_bundle(decompress_spec(data@).unwrap());
                let stored = final(self).periods.periods()[key].ds;
                &&& final(self).periods.periods().dom().contains(key)
                &&& stored.wf()
                &&& n == stored.n == b.lat_len.unwrap()
                &&& stored.estado_ids@ == field_seq(b.estado, stored.n as int)
                &&& stored.situaciones@ == field_seq(b.situacion, stored.n as int)
                &&& stored.inc_totales@ == field_seq(b.inc_total, stored.n as int)
                &&& stored.aten_totales@ == field_seq(b.aten_total, stored.n as int)
                &&& stored.cn_totales@ == field_seq(b.cn_total, stored.n as int)
                &&& stored.cn_ini@ == field_seq(b.cn_ini, stored.n as int)
                &&& stored.cn_prim@ == field_seq(b.cn_prim, stored.n as int)
                &&& stored.cn_sec@ == field_seq(b.cn_sec, stored.n as int)
                &&& crate::period_store::load_shape(
                    old(self).periods.periods(),
                    final(self).periods.periods(),
                    key,
                    stored,
                    now,
                )
                &&& final(self).results == old(self).results
            },
    {
        match parse_dataset(data) {
            Ok(ds) => {
                let ghost dsg = ds;
                let n = self.periods.load(key, ds, now);
                proof {
                    assert(crate::period_store::load_shape(
                        old(self).periods.periods(),
                        final(self).periods.periods(),
                        key,
                        dsg,
                        now,
                    ));
                }
                Ok(n)
            },
            Err(e) => Err(e),
        }
    }
}

} // verus!

verus! {

// ---------------------------------------------------------------------
// Alias equivalence
// ---------------------------------------------------------------------

/// The canonical lowercase column names.
pub open spec fn canonical_names() -> Seq<Seq<char>> {
    seq![
        "lat"@,
        "lng"@,
        "estado_id"@,
        "situacion"@,
        "inc_total"@,
        "aten_total"@,
        "cn_total"@,
        "cn_inicial"@,
        "cn_prim"@,
        "cn_sec"@,
    ]
}

pub open spec fn is_canonical(name: Seq<char>) -> bool {
    canonical_names().contains(name)
}

/// The legacy mixed-case name of each canonical column name.
pub open spec fn legacy_of(name: Seq<char>) -> Seq<char> {
    if name == "lat"@ {
        "Latitud"@
    } else if name == "lng"@ {
        "Longitud"@
    } else if name == "estado_id"@ {
        "Clave_Edo"@
    } else if name == "situacion"@ {
        "Situacion"@
    } else if name == "inc_total"@ {
        "Inc_Total"@
    } else if name == "aten_total"@ {
        "Aten_Total"@
    } else if name == "cn_total"@ {
        "CN_Tot_Acum"@
    } else if name == "cn_inicial"@ {
        "CN_Inicial_Acum"@
    } else if name == "cn_prim"@ {
        "CN_Prim_Acum"@
    } else if name == "cn_sec"@ {
        "CN_Sec_Acum"@
    } else {
        name
    }
}

/// Two column lists carry the same data, one under canonical names,
/// the other under the matching legacy names.
pub open spec fn renamed_cols(cols_c: Seq<SourceColumn>, cols_l: Seq<SourceColumn>) -> bool {
    &&& cols_l.len() == cols_c.len()
    &&& forall|i: int| 0 <= i < cols_c.len() ==> is_canonical((#[trigger] cols_c[i]).name@)
    &&& forall|i: int|
        0 <= i < cols_c.len() ==> (#[trigger] cols_l[i]).name@ == legacy_of(cols_c[i].name@)
            && cols_l[i].data == cols_c[i].data
}

proof fn lemma_canonical_is_one_of(x: Seq<char>)
    requires
        is_canonical(x),
    ensures
        x == "lat"@ || x == "lng"@ || x == "estado_id"@ || x == "situacion"@ || x
            == "inc_total"@ || x == "aten_total"@ || x == "cn_total"@ || x == "cn_inicial"@ || x
            == "cn_prim"@ || x == "cn_sec"@,
{
    let k = choose|k: int| 0 <= k < canonical_names().len() && canonical_names()[k] == x;
    if k == 0 {
    } else if k == 1 {
    } else if k == 2 {
    } else if k == 3 {
    } else if k == 4 {
    } else if k == 5 {
    } else if k == 6 {
    } else if k == 7 {
    } else if k == 8 {
    } else {
        assert(k == 9);
    }
}

/// Concrete lengths and distinguishing characters of the column
/// name literals.
proof fn lemma_literal_facts()
    ensures
        "lat"@.len() == 3 && "lat"@[0] == 'l' && "lat"@[1] == 'a',
        "lng"@.len() == 3 && "lng"@[0] == 'l' && "lng"@[1] == 'n',
        "estado_id"@.len() == 9 && "estado_id"@[0] == 'e',
        "situacion"@.len() == 9 && "situacion"@[0] == 's',
        "inc_total"@.len() == 9 && "inc_total"@[0] == 'i',
        "aten_total"@.len() == 10 && "aten_total"@[0] == 'a',
        "cn_total"@.len() == 8 && "cn_total"@[0] == 'c',
        "cn_inicial"@.len() == 10 && "cn_inicial"@[0] == 'c',
        "cn_prim"@.len() == 7 && "cn_prim"@[0] == 'c',
        "cn_sec"@.len() == 6 && "cn_sec"@[0] == 'c',
        "Latitud"@.len() == 7 && "Latitud"@[0] == 'L',
        "Longitud"@.len() == 8 && "Longitud"@[0] == 'L',
        "Clave_Edo"@.len() == 9 && "Clave_Edo"@[0] == 'C',
        "Situacion"@.len() == 9 && "Situacion"@[0] == 'S' && "Situacion"@[3] == 'u' && "Situacion"@[7] == 'o',
        "Situación"@.len() == 9 && "Situación"@[0] == 'S' && "Situación"@[3] == 'u' && "Situación"@[7] == 'ó',
        "Inc_Total"@.len() == 9 && "Inc_Total"@[0] == 'I',
        "Aten_Total"@.len() == 10 && "Aten_Total"@[0] == 'A',
        "CN_Tot_Acum"@.len() == 11 && "CN_Tot_Acum"@[0] == 'C' && "CN_Tot_Acum"@[3] == 'T',
        "CN_Inicial_Acum"@.len() == 15 && "CN_Inicial_Acum"@[0] == 'C',
        "CN_Prim_Acum"@.len() == 12 && "CN_Prim_Acum"@[0] == 'C',
        "CN_Sec_Acum"@.len() == 11 && "CN_Sec_Acum"@[0] == 'C' && "CN_Sec_Acum"@[3] == 'S',
{
    reveal_strlit("lat");
    reveal_strlit("lng");
    reveal_strlit("estado_id");
    reveal_strlit("situacion");
    reveal_strlit("inc_total");
    reveal_strlit("aten_total");
    reveal_strlit("cn_total");
    reveal_strlit("cn_inicial");
    reveal_strlit("cn_prim");
    reveal_strlit("cn_sec");
    reveal_strlit("Latitud");
    reveal_strlit("Longitud");
    reveal_strlit("Clave_Edo");
    reveal_strlit("Situacion");
    reveal_strlit("Situación");
    reveal_strlit("Inc_Total");
    reveal_strlit("Aten_Total");
    reveal_strlit("CN_Tot_Acum");
    reveal_strlit("CN_Inicial_Acum");
    reveal_strlit("CN_Prim_Acum");
    reveal_strlit("CN_Sec_Acum");
}

/// The naming conventions do not collide: renaming is injective on the
/// canonical names, no legacy name is canonical, and the accented
/// status spelling is neither canonical nor a legacy image.
#[verifier::rlimit(60)]
proof fn lemma_naming_facts()
    ensures
        forall|x: Seq<char>, y: Seq<char>|
            is_canonical(x) && is_canonical(y) ==> ((legacy_of(x) == legacy_of(y)) <==> x == y),
        forall|x: Seq<char>, y: Seq<char>|
            is_canonical(x) && is_canonical(y) ==> legacy_of(x) != y,
        forall|x: Seq<char>| is_canonical(x) ==> x != "Situación"@ && legacy_of(x)
            != "Situación"@,
{
    lemma_literal_facts();
    assert forall|x: Seq<char>, y: Seq<char>|
        is_canonical(x) && is_canonical(y) implies ((legacy_of(x) == legacy_of(y)) <==> x
        == y) by {
        lemma_canonical_is_one_of(x);
        lemma_canonical_is_one_of(y);
    }
    assert forall|x: Seq<char>, y: Seq<char>|
        is_canonical(x) && is_canonical(y) implies legacy_of(x) != y by {
        lemma_canonical_is_one_of(x);
        lemma_canonical_is_one_of(y);
    }
    assert forall|x: Seq<char>| is_canonical(x) implies x != "Situación"@ && legacy_of(x)
        != "Situación"@ by {
        lemma_canonical_is_one_of(x);
    }
}

/// No column carries the name, so the scan comes up empty.
proof fn lemma_find_int_absent(cols: Seq<SourceColumn>, name: Seq<char>, i: int)
    requires
        forall|j: int| 0 <= j < cols.len() ==> (#[trigger] cols[j]).name@ != name,
    ensures
        find_int_from(cols, name, i) is None,
    decreases cols.len() - i,
{
    if 0 <= i < cols.len() {
        lemma_find_int_absent(cols, name, i + 1);
    }
}

proof fn lemma_find_float_absent(cols: Seq<SourceColumn>, name: Seq<char>, i: int)
    requires
        forall|j: int| 0 <= j < cols.len() ==> (#[trigger] cols[j]).name@ != name,
    ensures
        find_float_from(cols, name, i) is None,
    decreases cols.len() - i,
{
    if 0 <= i < cols.len() {
        lemma_find_float_absent(cols, name, i + 1);
    }
}

/// Scanning the renamed list for the legacy name finds what scanning
/// the canonical list for the canonical name finds.
proof fn lemma_find_int_pair(
    cols_c: Seq<SourceColumn>,
    cols_l: Seq<SourceColumn>,
    canon: Seq<char>,
    i: int,
)
    requires
        renamed_cols(cols_c, cols_l),
        is_canonical(canon),
        forall|x: Seq<char>|
            is_canonical(x) ==> ((legacy_of(x) == legacy_of(canon)) <==> x == canon),
    ensures
        find_int_from(cols_l, legacy_of(canon), i) == find_int_from(cols_c, canon, i),
    decreases cols_c.len() - i,
{
    if 0 <= i < cols_c.len() {
        assert(cols_l[i].name@ == legacy_of(cols_c[i].name@));
        assert((cols_l[i].name@ == legacy_of(canon)) <==> (cols_c[i].name@ == canon));
        lemma_find_int_pair(cols_c, cols_l, canon, i + 1);
    }
}

proof fn lemma_find_float_pair(
    cols_c: Seq<SourceColumn>,
    cols_l: Seq<SourceColumn>,
    canon: Seq<char>,
    i: int,
)
    requires
        renamed_cols(cols_c, cols_l),
        is_canonical(canon),
        forall|x: Seq<char>|
            is_canonical(x) ==> ((legacy_of(x) == legacy_of(canon)) <==> x == canon),
    ensures
        find_float_from(cols_l, legacy_of(canon), i) == find_float_from(cols_c, canon, i),
    decreases cols_c.len() - i,
{
    if 0 <= i < cols_c.len() {
        assert(cols_l[i].name@ == legacy_of(cols_c[i].name@));
        assert((cols_l[i].name@ == legacy_of(canon)) <==> (cols_c[i].name@ == canon));
        lemma_find_float_pair(cols_c, cols_l, canon, i + 1);
    }
}

/// A two-alias integer field resolves alike in both lists.
proof fn lemma_int_field2(
    cols_c: Seq<SourceColumn>,
    cols_l: Seq<SourceColumn>,
    canon: Seq<char>,
)
    requires
        renamed_cols(cols_c, cols_l),
        is_canonical(canon),
        forall|x: Seq<char>|
            is_canonical(x) ==> ((legacy_of(x) == legacy_of(canon)) <==> x == canon),
        forall|x: Seq<char>, y: Seq<char>|
            is_canonical(x) && is_canonical(y) ==> legacy_of(x) != y,
    ensures
        find_int_aliases(cols_l, seq![canon, legacy_of(canon)]) == find_int_aliases(
            cols_c,
            seq![canon, legacy_of(canon)],
        ),
{
    // the canonical list has no column under the legacy name
    assert forall|j: int| 0 <= j < cols_c.len() implies (#[trigger] cols_c[j]).name@
        != legacy_of(canon) by {
        assert(legacy_of(canon) != cols_c[j].name@);
    }
    lemma_find_int_absent(cols_c, legacy_of(canon), 0);
    // the legacy list has no column under the canonical name
    assert forall|j: int| 0 <= j < cols_l.len() implies (#[trigger] cols_l[j]).name@
        != canon by {
        assert(cols_l[j].name@ == legacy_of(cols_c[j].name@));
    }
    lemma_find_int_absent(cols_l, canon, 0);
    lemma_find_int_pair(cols_c, cols_l, canon, 0);
    let al = seq![canon, legacy_of(canon)];
    assert(al.len() == 2 && al[0] == canon && al[1] == legacy_of(canon));
    assert(find_int_aliases_from(cols_c, al, 2) is None);
    assert(find_int_aliases_from(cols_l, al, 2) is None);
    assert(find_int_aliases_from(cols_c, al, 1) is None);
    assert(find_int_aliases_from(cols_l, al, 1) == find_int(cols_l, legacy_of(canon)));
    assert(find_int_aliases_from(cols_c, al, 0) == find_int_aliases_from(cols_l, al, 0));
}

/// A two-alias float field resolves alike in both lists.
proof fn lemma_float_field2(
    cols_c: Seq<SourceColumn>,
    cols_l: Seq<SourceColumn>,
    canon: Seq<char>,
)
    requires
        renamed_cols(cols_c, cols_l),
        is_canonical(canon),
        forall|x: Seq<char>|
            is_canonical(x) ==> ((legacy_of(x) == legacy_of(canon)) <==> x == canon),
        forall|x: Seq<char>, y: Seq<char>|
            is_canonical(x) && is_canonical(y) ==> legacy_of(x) != y,
    ensures
        find_float_aliases(cols_l, seq![canon, legacy_of(canon)]) == find_float_aliases(
            cols_c,
            seq![canon, legacy_of(canon)],
        ),
{
    assert forall|j: int| 0 <= j < cols_c.len() implies (#[trigger] cols_c[j]).name@
        != legacy_of(canon) by {
        assert(legacy_of(canon) != cols_c[j].name@);
    }
    lemma_find_float_absent(cols_c, legacy_of(canon), 0);
    assert forall|j: int| 0 <= j < cols_l.len() implies (#[trigger] cols_l[j]).name@
        != canon by {
        assert(cols_l[j].name@ == legacy_of(cols_c[j].name@));
    }
    lemma_find_float_absent(cols_l, canon, 0);
    lemma_find_float_pair(cols_c, cols_l, canon, 0);
    let al = seq![canon, legacy_of(canon)];
    assert(al.len() == 2 && al[0] == canon && al[1] == legacy_of(canon));
    assert(find_float_aliases_from(cols_c, al, 2) is None);
    assert(find_float_aliases_from(cols_l, al, 2) is None);
    assert(find_float_aliases_from(cols_c, al, 1) is None);
    assert(find_float_aliases_from(cols_l, al, 1) == find_float(cols_l, legacy_of(canon)));
    assert(find_float_aliases_from(cols_c, al, 0) == find_float_aliases_from(cols_l, al, 0));
}

/// Alias equivalence: a column list under legacy names and an
/// equivalent one under canonical names resolve to the same bundle, so
/// they build the same dataset and aggregate identically.
pub proof fn lemma_alias_equivalence(cols_c: Seq<SourceColumn>, cols_l: Seq<SourceColumn>)
    requires
        renamed_cols(cols_c, cols_l),
    ensures
        bundle_spec(cols_l) == bundle_spec(cols_c),
{
    lemma_naming_facts();
    lemma_literal_facts();
    assert(is_canonical("lat"@) && is_canonical("lng"@) && is_canonical("estado_id"@)
        && is_canonical("situacion"@) && is_canonical("inc_total"@) && is_canonical(
        "aten_total"@,
    ) && is_canonical("cn_total"@) && is_canonical("cn_inicial"@) && is_canonical("cn_prim"@)
        && is_canonical("cn_sec"@)) by {
        assert(canonical_names()[0] == "lat"@ && canonical_names()[1] == "lng"@
            && canonical_names()[2] == "estado_id"@ && canonical_names()[3] == "situacion"@
            && canonical_names()[4] == "inc_total"@ && canonical_names()[5] == "aten_total"@
            && canonical_names()[6] == "cn_total"@ && canonical_names()[7] == "cn_inicial"@
            && canonical_names()[8] == "cn_prim"@ && canonical_names()[9] == "cn_sec"@);
    }
    lemma_float_field2(cols_c, cols_l, "lat"@);
    assert(lat_aliases() =~= seq!["lat"@, legacy_of("lat"@)]);
    lemma_float_field2(cols_c, cols_l, "lng"@);
    assert(lng_aliases() =~= seq!["lng"@, legacy_of("lng"@)]);
    lemma_int_field2(cols_c, cols_l, "estado_id"@);
    assert(estado_aliases() =~= seq!["estado_id"@, legacy_of("estado_id"@)]);
    lemma_int_field2(cols_c, cols_l, "inc_total"@);
    assert(inc_total_aliases() =~= seq!["inc_total"@, legacy_of("inc_total"@)]);
    lemma_int_field2(cols_c, cols_l, "aten_total"@);
    assert(aten_total_aliases() =~= seq!["aten_total"@, legacy_of("aten_total"@)]);
    lemma_int_field2(cols_c, cols_l, "cn_total"@);
    assert(cn_total_aliases() =~= seq!["cn_total"@, legacy_of("cn_total"@)]);
    lemma_int_field2(cols_c, cols_l, "cn_inicial"@);
    assert(cn_ini_aliases() =~= seq!["cn_inicial"@, legacy_of("cn_inicial"@)]);
    lemma_int_field2(cols_c, cols_l, "cn_prim"@);
    assert(cn_prim_aliases() =~= seq!["cn_prim"@, legacy_of("cn_prim"@)]);
    lemma_int_field2(cols_c, cols_l, "cn_sec"@);
    assert(cn_sec_aliases() =~= seq!["cn_sec"@, legacy_of("cn_sec"@)]);
    // the status field carries a third, accented alias that matches in
    // neither list
    assert forall|j: int| 0 <= j < cols_c.len() implies (#[trigger] cols_c[j]).name@
        != "Situación"@ by {}
    lemma_find_int_absent(cols_c, "Situación"@, 0);
    assert forall|j: int| 0 <= j < cols_l.len() implies (#[trigger] cols_l[j]).name@
        != "Situación"@ by {
        assert(cols_l[j].name@ == legacy_of(cols_c[j].name@));
    }
    lemma_find_int_absent(cols_l, "Situación"@, 0);
    assert forall|j: int| 0 <= j < cols_c.len() implies (#[trigger] cols_c[j]).name@
        != legacy_of("situacion"@) by {
        assert(legacy_of("situacion"@) != cols_c[j].name@);
    }
    lemma_find_int_absent(cols_c, legacy_of("situacion"@), 0);
    assert forall|j: int| 0 <= j < cols_l.len() implies (#[trigger] cols_l[j]).name@
        != "situacion"@ by {
        assert(cols_l[j].name@ == legacy_of(cols_c[j].name@));
    }
    lemma_find_int_absent(cols_l, "situacion"@, 0);
    lemma_find_int_pair(cols_c, cols_l, "situacion"@, 0);
    assert(situacion_aliases() =~= seq!["situacion"@, "Situación"@, legacy_of("situacion"@)]);
    let sal = situacion_aliases();
    assert(sal.len() == 3 && sal[0] == "situacion"@ && sal[1] == "Situación"@ && sal[2]
        == legacy_of("situacion"@));
    assert(find_int_aliases_from(cols_c, sal, 3) is None);
    assert(find_int_aliases_from(cols_l, sal, 3) is None);
    assert(find_int_aliases_from(cols_c, sal, 2) is None);
    assert(find_int_aliases_from(cols_l, sal, 2) == find_int(cols_l, legacy_of("situacion"@)));
    assert(find_int_aliases_from(cols_c, sal, 1) is None);
    assert(find_int_aliases_from(cols_l, sal, 1) == find_int(cols_l, legacy_of("situacion"@)));
    assert(find_int_aliases_from(cols_c, sal, 0) == find_int_aliases_from(cols_l, sal, 0));
}

} // verus!

verus! {

// ---------------------------------------------------------------------
// The dataset a parquet buffer parses to, as a function of the bytes
// ---------------------------------------------------------------------

/// The first schema name equal to `name` whose first-batch column is an
/// integer column, resolved to the whole file's values.
pub open spec fn pq_select_int(data: Seq<u8>, names: Seq<Seq<char>>, name: Seq<char>) -> Option<
    Seq<i64>,
>
    decreases names.len(),
{
    if names.len() == 0 {
        None
    } else if names[0] == name && pq_ints_of(data, 0, name) is Some {
        Some(pq_all_ints(data, name))
    } else {
        pq_select_int(data, names.drop_first(), name)
    }
}

/// The first schema name equal to `name` whose first-batch column is a
/// float column, resolved to the whole file's row count.  A column
/// reads as integer or as float, never both; collection gives the
/// integer reading precedence, so selection mirrors it.
pub open spec fn pq_select_float(data: Seq<u8>, names: Seq<Seq<char>>, name: Seq<char>) -> Option<
    usize,
>
    decreases names.len(),
{
    if names.len() == 0 {
        None
    } else if names[0] == name && pq_ints_of(data, 0, name) is None && pq_float_len_of(
        data,
        0,
        name,
    ) is Some {
        Some(pq_total_float_len(data, name))
    } else {
        pq_select_float(data, names.drop_first(), name)
    }
}

pub open spec fn pq_select_int_aliases_from(
    data: Seq<u8>,
    names: Seq<Seq<char>>,
    aliases: Seq<Seq<char>>,
    j: int,
) -> Option<Seq<i64>>
    decreases aliases.len() - j,
{
    if j < 0 || j >= aliases.len() {
        None
    } else {
        match pq_select_int(data, names, aliases[j]) {
            Some(v) => Some(v),
            None => pq_select_int_aliases_from(data, names, aliases, j + 1),
        }
    }
}

pub open spec fn pq_select_float_aliases_from(
    data: Seq<u8>,
    names: Seq<Seq<char>>,
    aliases: Seq<Seq<char>>,
    j: int,
) -> Option<usize>
    decreases aliases.len() - j,
{
    if j < 0 || j >= aliases.len() {
        None
    } else {
        match pq_select_float(data, names, aliases[j]) {
            Some(l) => Some(l),
            None => pq_select_float_aliases_from(data, names, aliases, j + 1),
        }
    }
}

/// The bundle a parquet buffer resolves to: for each logical field the
/// first alias present in the decoded schema with the right kind, as a
/// function of the bytes alone.
pub open spec fn pq_bundle(data: Seq<u8>) -> BundleModel {
    let names = pq_names_of(data);
    BundleModel {
        lat_len: pq_select_float_aliases_from(data, names, lat_aliases(), 0),
        lng_len: pq_select_float_aliases_from(data, names, lng_aliases(), 0),
        estado: pq_select_int_aliases_from(data, names, estado_aliases(), 0),
        situacion: pq_select_int_aliases_from(data, names, situacion_aliases(), 0),
        inc_total: pq_select_int_aliases_from(data, names, inc_total_aliases(), 0),
        aten_total: pq_select_int_aliases_from(data, names, aten_total_aliases(), 0),
        cn_total: pq_select_int_aliases_from(data, names, cn_total_aliases(), 0),
        cn_ini: pq_select_int_aliases_from(data, names, cn_ini_aliases(), 0),
        cn_prim: pq_select_int_aliases_from(data, names, cn_prim_aliases(), 0),
        cn_sec: pq_select_int_aliases_from(data, names, cn_sec_aliases(), 0),
    }
}

proof fn lemma_find_int_drop(r: Seq<SourceColumn>, name: Seq<char>, i: int)
    requires
        0 <= i,
        r.len() >= 1,
    ensures
        find_int_from(r, name, i + 1) == find_int_from(r.drop_first(), name, i),
    decreases r.len() - i,
{
    if i + 1 < r.len() {
        assert(r.drop_first()[i] == r[i + 1]);
        lemma_find_int_drop(r, name, i + 1);
    }
}

proof fn lemma_find_float_drop(r: Seq<SourceColumn>, name: Seq<char>, i: int)
    requires
        0 <= i,
        r.len() >= 1,
    ensures
        find_float_from(r, name, i + 1) == find_float_from(r.drop_first(), name, i),
    decreases r.len() - i,
{
    if i + 1 < r.len() {
        assert(r.drop_first()[i] == r[i + 1]);
        lemma_find_float_drop(r, name, i + 1);
    }
}

/// Under a matched collection, scanning the collected columns for a
/// name finds exactly what the bytes' schema resolves it to.
proof fn lemma_select_int(
    data: Seq<u8>,
    names: Seq<Seq<char>>,
    r: Seq<SourceColumn>,
    name: Seq<char>,
)
    requires
        cols_match(data, names, r),
    ensures
        find_int(r, name) == pq_select_int(data, names, name),
    decreases names.len(),
{
    if names.len() == 0 {
        assert(r.len() == 0);
    } else {
        let h = names[0];
        if pq_ints_of(data, 0, h) is Some {
            lemma_select_int(data, names.drop_first(), r.drop_first(), name);
            lemma_find_int_drop(r, name, 0);
        } else if pq_float_len_of(data, 0, h) is Some {
            lemma_select_int(data, names.drop_first(), r.drop_first(), name);
            lemma_find_int_drop(r, name, 0);
        } else {
            lemma_select_int(data, names.drop_first(), r, name);
        }
    }
}

proof fn lemma_select_float(
    data: Seq<u8>,
    names: Seq<Seq<char>>,
    r: Seq<SourceColumn>,
    name: Seq<char>,
)
    requires
        cols_match(data, names, r),
    ensures
        find_float(r, name) == pq_select_float(data, names, name),
    decreases names.len(),
{
    if names.len() == 0 {
        assert(r.len() == 0);
    } else {
        let h = names[0];
        if pq_ints_of(data, 0, h) is Some {
            lemma_select_float(data, names.drop_first(), r.drop_first(), name);
            lemma_find_float_drop(r, name, 0);
        } else if pq_float_len_of(data, 0, h) is Some {
            lemma_select_float(data, names.drop_first(), r.drop_first(), name);
            lemma_find_float_drop(r, name, 0);
        } else {
            lemma_select_float(data, names.drop_first(), r, name);
        }
    }
}

proof fn lemma_select_int_aliases(
    data: Seq<u8>,
    names: Seq<Seq<char>>,
    r: Seq<SourceColumn>,
    aliases: Seq<Seq<char>>,
    j: int,
)
    requires
        cols_match(data, names, r),
        0 <= j,
    ensures
        find_int_aliases_from(r, aliases, j) == pq_select_int_aliases_from(
            data,
            names,
            aliases,
            j,
        ),
    decreases aliases.len() - j,
{
    if j < aliases.len() {
        lemma_select_int(data, names, r, aliases[j]);
        lemma_select_int_aliases(data, names, r, aliases, j + 1);
    }
}

proof fn lemma_select_float_aliases(
    data: Seq<u8>,
    names: Seq<Seq<char>>,
    r: Seq<SourceColumn>,
    aliases: Seq<Seq<char>>,
    j: int,
)
    requires
        cols_match(data, names, r),
        0 <= j,
    ensures
        find_float_aliases_from(r, aliases, j) == pq_select_float_aliases_from(
            data,
            names,
            aliases,
            j,
        ),
    decreases aliases.len() - j,
{
    if j < aliases.len() {
        lemma_select_float(data, names, r, aliases[j]);
        lemma_select_float_aliases(data, names, r, aliases, j + 1);
    }
}

/// A matched collection resolves to exactly the bundle the bytes
/// determine.
proof fn lemma_bundle_of_cols(data: Seq<u8>, r: Seq<SourceColumn>)
    requires
        cols_match(data, pq_names_of(data), r),
    ensures
        bundle_spec(r) == pq_bundle(data),
{
    let names = pq_names_of(data);
    lemma_select_float_aliases(data, names, r, lat_aliases(), 0);
    lemma_select_float_aliases(data, names, r, lng_aliases(), 0);
    lemma_select_int_aliases(data, names, r, estado_aliases(), 0);
    lemma_select_int_aliases(data, names, r, situacion_aliases(), 0);
    lemma_select_int_aliases(data, names, r, inc_total_aliases(), 0);
    lemma_select_int_aliases(data, names, r, aten_total_aliases(), 0);
    lemma_select_int_aliases(data, names, r, cn_total_aliases(), 0);
    lemma_select_int_aliases(data, names, r, cn_ini_aliases(), 0);
    lemma_select_int_aliases(data, names, r, cn_prim_aliases(), 0);
    lemma_select_int_aliases(data, names, r, cn_sec_aliases(), 0);
}

} // verus!
