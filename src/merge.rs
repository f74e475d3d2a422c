//! The merge of all algorithms' (size, median) series into one table aligned by size.
use crate::errors::{GraphError, GraphErrorRepr};
use crate::preprocess::{key_order, parsed_lines, sorted_positions, SortKey};
use crate::text::{
    chars_of, decimal, grouped, join_with, parse_i64_chars, push_grouped_decimal,
    push_str_chars, split_chars, split_on, string_from_chars,
};
use vstd::prelude::*;

verus! {

/// A series row: a size and the median duration measured at it.
pub type SeriesRow = (i64, i64);

/// The name `csv_records` gives to what the csv reader makes of a text.
pub uninterp spec fn csv_records_of(text: Seq<char>) -> Option<Seq<Seq<char>>>;

/// Relies on the `csv` crate's reader, with no header row, over the text's bytes: each
/// record's fields as one string (`StringRecord::as_slice`), or `None` when the reader
/// reports an error. The result depends on the text alone.
#[verifier::external_body]
fn csv_records(text: &str) -> (r: Option<Vec<String>>)
    ensures
        r is None <==> csv_records_of(text@) is None,
        r matches Some(v) ==> csv_records_of(text@) == Some(v@.map_values(|s: String| s@)),
{
    let mut reader = csv::ReaderBuilder::new().has_headers(false).from_reader(text.as_bytes());
    reader.records().map(|rec| rec.map(|r| r.as_slice().to_string())).collect::<Result<
        Vec<String>,
        csv::Error,
    >>().ok()
}

/// A record `size median`: exactly two numbers separated by one space.
pub open spec fn series_row(record: Seq<char>) -> Option<SeriesRow> {
    let fields = split_on(record, ' ');
    if fields.len() == 2 {
        match parsed_lines(fields) {
            Some(v) => Some((v[0], v[1])),
            None => None,
        }
    } else {
        None
    }
}

/// The rows of all records, when every record is a row.
pub open spec fn series_rows(records: Seq<Seq<char>>) -> Option<Seq<SeriesRow>>
    decreases records.len(),
{
    if records.len() == 0 {
        Some(seq![])
    } else {
        match (series_rows(records.drop_last()), series_row(records.last())) {
            (Some(p), Some(r)) => Some(p.push(r)),
            _ => None,
        }
    }
}

/// A series that can be merged: at least one row, and no negative size or median.
pub open spec fn valid_series(rows: Seq<SeriesRow>) -> bool {
    rows.len() >= 1 && forall|i: int| 0 <= i < rows.len() ==> (#[trigger] rows[i]).0 >= 0
        && rows[i].1 >= 0
}

pub open spec fn row_less(a: SeriesRow, b: SeriesRow) -> bool {
    a.0 < b.0 || (a.0 == b.0 && a.1 < b.1)
}

/// The largest row: greatest size, then greatest median.
pub open spec fn peak(rows: Seq<SeriesRow>) -> SeriesRow
    decreases rows.len(),
{
    if rows.len() <= 1 {
        rows[0]
    } else if row_less(peak(rows.drop_last()), rows.last()) {
        rows.last()
    } else {
        peak(rows.drop_last())
    }
}

/// Sort keys that put the series with the larger peak size first, then the one with the
/// larger peak median, then the earlier one.
pub open spec fn peak_keys(series: Seq<Seq<SeriesRow>>) -> Seq<SortKey> {
    Seq::new(
        series.len(),
        |j: int| ((-peak(series[j]).0) as i128, (-peak(series[j]).1) as i128, j as u64),
    )
}

/// The columns of the merged table: positions of the series, in presentation order.
pub open spec fn column_order(series: Seq<Seq<SeriesRow>>) -> Seq<int> {
    key_order(peak_keys(series))
}

/// The median of the first row of `rows` at `size`, if there is one.
pub open spec fn median_at(rows: Seq<SeriesRow>, size: int) -> Option<i64>
    decreases rows.len(),
{
    if rows.len() == 0 {
        None
    } else if rows[0].0 == size {
        Some(rows[0].1)
    } else {
        median_at(rows.drop_first(), size)
    }
}

/// One cell: the grouped median, or `>` and the grouped threshold where the series did not
/// reach the size.
pub open spec fn cell(rows: Seq<SeriesRow>, size: int, threshold: nat) -> Seq<char> {
    match median_at(rows, size) {
        Some(m) => grouped(decimal(m as nat)),
        None => seq!['>'] + grouped(decimal(threshold)),
    }
}

/// The cells of one size, each after a comma.
pub open spec fn row_cells(columns: Seq<Seq<SeriesRow>>, size: int, threshold: nat) -> Seq<char>
    decreases columns.len(),
{
    if columns.len() == 0 {
        seq![]
    } else {
        row_cells(columns.drop_last(), size, threshold) + seq![','] + cell(
            columns.last(),
            size,
            threshold,
        )
    }
}

/// The header: `size`, then each name after a comma.
pub open spec fn header(names: Seq<Seq<char>>) -> Seq<char>
    decreases names.len(),
{
    if names.len() == 0 {
        seq!['s', 'i', 'z', 'e']
    } else {
        header(names.drop_last()) + seq![','] + names.last()
    }
}

/// One line per size: the grouped size, then its cells.
pub open spec fn table_lines(columns: Seq<Seq<SeriesRow>>, sizes: Seq<u64>, threshold: nat) -> Seq<
    Seq<char>,
> {
    sizes.map_values(|s: u64| grouped(decimal(s as nat)) + row_cells(columns, s as int, threshold))
}

/// The table with its columns in the given order.
pub open spec fn table_text(
    names: Seq<Seq<char>>,
    columns: Seq<Seq<SeriesRow>>,
    sizes: Seq<u64>,
    threshold: nat,
) -> Seq<char> {
    join_with(seq![header(names)] + table_lines(columns, sizes, threshold), '\n')
}

/// The merged table of the series, columns in presentation order.
pub open spec fn merged_table(
    names: Seq<Seq<char>>,
    series: Seq<Seq<SeriesRow>>,
    sizes: Seq<u64>,
    threshold: nat,
) -> Seq<char> {
    let o = column_order(series);
    table_text(
        o.map_values(|j: int| names[j]),
        o.map_values(|j: int| series[j]),
        sizes,
        threshold,
    )
}

/// Reads one record `size median`.
fn parse_series_row(record: &str) -> (r: Option<SeriesRow>)
    ensures
        r == series_row(record@),
{
    let chars = chars_of(record);
    let fields = split_chars(&chars, ' ');
    let ghost fs = fields@.map_values(|v: Vec<char>| v@);
    if fields.len() != 2 {
        return None;
    }
    let a = parse_i64_chars(&fields[0]);
    let b = parse_i64_chars(&fields[1]);
    proof {
        assert(fs.drop_last().drop_last() =~= Seq::<Seq<char>>::empty());
        assert(fs.drop_last().last() == fs[0]);
        assert(fs.last() == fs[1]);
        assert(fs[0] == fields@[0]@);
        assert(fs[1] == fields@[1]@);
        assert(parsed_lines(Seq::<Seq<char>>::empty()) == Some(Seq::<i64>::empty()));
    }
    match (a, b) {
        (Some(x), Some(y)) => {
            assert(parsed_lines(fs) == Some(seq![x, y])) by {
                assert(parsed_lines(fs.drop_last()) == Some(seq![x])) by {
                    assert(seq![x] =~= Seq::<i64>::empty().push(x));
                }
                assert(seq![x, y] =~= seq![x].push(y));
            }
            Some((x, y))
        },
        _ => None,
    }
}

/// Reads the records of a (size, median) series; `None` when one is not two numbers.
pub fn parse_series_records(records: &Vec<String>) -> (r: Option<Vec<SeriesRow>>)
    ensures
        r matches Some(v) ==> series_rows(records@.map_values(|s: String| s@)) == Some(v@),
        r is None <==> series_rows(records@.map_values(|s: String| s@)) is None,
{
    let ghost rs = records@.map_values(|s: String| s@);
    let mut out: Vec<SeriesRow> = Vec::new();
    let mut i: usize = 0;
    while i < records.len()
        invariant
            0 <= i <= records.len(),
            rs == records@.map_values(|s: String| s@),
            series_rows(rs.subrange(0, i as int)) == Some(out@),
        decreases records.len() - i,
    {
        let ghost cur = rs.subrange(0, i + 1);
        assert(cur.drop_last() =~= rs.subrange(0, i as int));
        assert(cur.last() == records@[i as int]@);
        match parse_series_row(records[i].as_str()) {
            Some(row) => {
                out.push(row);
            },
            None => {
                proof {
                    assert(series_rows(cur) is None);
                    lemma_series_rows_prefix(rs, i + 1);
                }
                return None;
            },
        }
        i = i + 1;
    }
    assert(rs.subrange(0, records.len() as int) =~= rs);
    Some(out)
}

proof fn lemma_series_rows_prefix(rs: Seq<Seq<char>>, i: int)
    requires
        0 <= i <= rs.len(),
        series_rows(rs.subrange(0, i)) is None,
    ensures
        series_rows(rs) is None,
    decreases rs.len() - i,
{
    if i < rs.len() {
        let cur = rs.subrange(0, i + 1);
        assert(cur.drop_last() =~= rs.subrange(0, i));
        lemma_series_rows_prefix(rs, i + 1);
    } else {
        assert(rs.subrange(0, i) =~= rs);
    }
}

/// Reads a (size, median) series file through the csv reader.
pub fn read_series(text: &str) -> (r: Result<Vec<SeriesRow>, GraphError>)
    ensures
        r matches Ok(v) ==> csv_records_of(text@) matches Some(recs) && series_rows(recs) == Some(
            v@,
        ),
        r matches Err(e) ==> e.repr == GraphErrorRepr::ParseError && (csv_records_of(text@) matches Some(
            recs,
        ) ==> series_rows(recs) is None),
{
    match csv_records(text) {
        Some(records) => match parse_series_records(&records) {
            Some(rows) => Ok(rows),
            None => Err(GraphError::new(GraphErrorRepr::ParseError)),
        },
        None => Err(GraphError::new(GraphErrorRepr::ParseError)),
    }
}

/// Whether a series can be merged: not empty, no negative size or median.
pub fn is_valid_series(rows: &Vec<SeriesRow>) -> (r: bool)
    ensures
        r == valid_series(rows@),
{
    if rows.len() == 0 {
        return false;
    }
    let mut i: usize = 0;
    while i < rows.len()
        invariant
            0 <= i <= rows.len(),
            forall|k: int| 0 <= k < i ==> (#[trigger] rows@[k]).0 >= 0 && rows@[k].1 >= 0,
        decreases rows.len() - i,
    {
        if rows[i].0 < 0 || rows[i].1 < 0 {
            return false;
        }
        i = i + 1;
    }
    true
}

/// The largest row of a non-empty series.
pub fn find_peak(rows: &Vec<SeriesRow>) -> (r: SeriesRow)
    requires
        rows@.len() >= 1,
    ensures
        r == peak(rows@),
{
    let mut best = rows[0];
    let mut i: usize = 1;
    assert(rows@.subrange(0, 1).len() == 1);
    while i < rows.len()
        invariant
            1 <= i <= rows.len(),
            best == peak(rows@.subrange(0, i as int)),
        decreases rows.len() - i,
    {
        let ghost cur = rows@.subrange(0, i + 1);
        assert(cur.drop_last() =~= rows@.subrange(0, i as int));
        let r = rows[i];
        if best.0 < r.0 || (best.0 == r.0 && best.1 < r.1) {
            best = r;
        }
        i = i + 1;
    }
    assert(rows@.subrange(0, rows.len() as int) =~= rows@);
    best
}

/// The median of the first row at `size`, if any.
fn median_lookup(rows: &Vec<SeriesRow>, size: u64) -> (r: Option<i64>)
    ensures
        r == median_at(rows@, size as int),
{
    let mut i: usize = 0;
    assert(rows@.subrange(0, rows@.len() as int) =~= rows@);
    while i < rows.len()
        invariant
            0 <= i <= rows.len(),
            median_at(rows@, size as int) == median_at(
                rows@.subrange(i as int, rows@.len() as int),
                size as int,
            ),
        decreases rows.len() - i,
    {
        let ghost rest = rows@.subrange(i as int, rows@.len() as int);
        assert(rest[0] == rows@[i as int]);
        assert(rest.drop_first() =~= rows@.subrange(i + 1, rows@.len() as int));
        if rows[i].0 as i128 == size as i128 {
            return Some(rows[i].1);
        }
        i = i + 1;
    }
    None
}

/// Writes one cell at the end of `out`.
fn push_cell(out: &mut Vec<char>, rows: &Vec<SeriesRow>, size: u64, threshold: u128)
    requires
        valid_series(rows@),
    ensures
        final(out)@ == old(out)@ + cell(rows@, size as int, threshold as nat),
{
    match median_lookup(rows, size) {
        Some(m) => {
            proof {
                lemma_median_at_in(rows@, size as int);
            }
            push_grouped_decimal(out, m as u128);
        },
        None => {
            out.push('>');
            push_grouped_decimal(out, threshold);
            assert(final(out)@ =~= old(out)@ + (seq!['>'] + grouped(decimal(threshold as nat))));
        },
    }
}

proof fn lemma_median_at_in(rows: Seq<SeriesRow>, size: int)
    requires
        valid_series(rows) || forall|i: int| 0 <= i < rows.len() ==> (#[trigger] rows[i]).1 >= 0,
    ensures
        median_at(rows, size) matches Some(m) ==> m >= 0,
    decreases rows.len(),
{
    if rows.len() > 0 && rows[0].0 != size {
        let t = rows.drop_first();
        assert forall|i: int| 0 <= i < t.len() implies (#[trigger] t[i]).1 >= 0 by {
            assert(t[i] == rows[i + 1]);
        }
        lemma_median_at_in(t, size);
    }
}

/// Writes the cells of one size at the end of `out`.
fn push_row_cells(
    out: &mut Vec<char>,
    columns: &Vec<Vec<SeriesRow>>,
    size: u64,
    threshold: u128,
)
    requires
        forall|j: int| 0 <= j < columns@.len() ==> valid_series(#[trigger] columns@[j]@),
    ensures
        final(out)@ == old(out)@ + row_cells(
            columns@.map_values(|c: Vec<SeriesRow>| c@),
            size as int,
            threshold as nat,
        ),
{
    let ghost cs = columns@.map_values(|c: Vec<SeriesRow>| c@);
    let mut j: usize = 0;
    assert(cs.subrange(0, 0) =~= Seq::<Seq<SeriesRow>>::empty());
    assert(out@ =~= old(out)@ + row_cells(cs.subrange(0, 0), size as int, threshold as nat));
    while j < columns.len()
        invariant
            0 <= j <= columns.len(),
            cs == columns@.map_values(|c: Vec<SeriesRow>| c@),
            forall|k: int| 0 <= k < columns@.len() ==> valid_series(#[trigger] columns@[k]@),
            out@ == old(out)@ + row_cells(cs.subrange(0, j as int), size as int, threshold as nat),
        decreases columns.len() - j,
    {
        let ghost cur = cs.subrange(0, j + 1);
        assert(cur.drop_last() =~= cs.subrange(0, j as int));
        assert(cur.last() == columns@[j as int]@);
        let ghost before = out@;
        out.push(',');
        push_cell(out, &columns[j], size, threshold);
        assert(out@ =~= old(out)@ + row_cells(cur, size as int, threshold as nat));
        j = j + 1;
    }
    assert(cs.subrange(0, columns.len() as int) =~= cs);
}

/// Writes the header at the end of `out`.
fn push_header(out: &mut Vec<char>, names: &Vec<String>)
    ensures
        final(out)@ == old(out)@ + header(names@.map_values(|n: String| n@)),
{
    let ghost ns = names@.map_values(|n: String| n@);
    out.push('s');
    out.push('i');
    out.push('z');
    out.push('e');
    assert(ns.subrange(0, 0) =~= Seq::<Seq<char>>::empty());
    assert(out@ =~= old(out)@ + header(ns.subrange(0, 0)));
    let mut j: usize = 0;
    while j < names.len()
        invariant
            0 <= j <= names.len(),
            ns == names@.map_values(|n: String| n@),
            out@ == old(out)@ + header(ns.subrange(0, j as int)),
        decreases names.len() - j,
    {
        let ghost cur = ns.subrange(0, j + 1);
        assert(cur.drop_last() =~= ns.subrange(0, j as int));
        assert(cur.last() == names@[j as int]@);
        out.push(',');
        push_str_chars(out, names[j].as_str());
        assert(out@ =~= old(out)@ + header(cur));
        j = j + 1;
    }
    assert(ns.subrange(0, names.len() as int) =~= ns);
}

/// The table whose columns are the given series, in the given order.
pub fn write_table(
    names: &Vec<String>,
    columns: &Vec<Vec<SeriesRow>>,
    sizes: &Vec<u64>,
    threshold: u128,
) -> (r: String)
    requires
        forall|j: int| 0 <= j < columns@.len() ==> valid_series(#[trigger] columns@[j]@),
    ensures
        r@ == table_text(
            names@.map_values(|n: String| n@),
            columns@.map_values(|c: Vec<SeriesRow>| c@),
            sizes@,
            threshold as nat,
        ),
{
    let ghost cs = columns@.map_values(|c: Vec<SeriesRow>| c@);
    let ghost ls = seq![header(names@.map_values(|n: String| n@))] + table_lines(
        cs,
        sizes@,
        threshold as nat,
    );
    let mut out: Vec<char> = Vec::new();
    push_header(&mut out, names);
    assert(ls.subrange(0, 1) =~= seq![ls[0]]);
    assert(out@ =~= join_with(ls.subrange(0, 1), '\n'));
    let mut i: usize = 0;
    while i < sizes.len()
        invariant
            0 <= i <= sizes.len(),
            cs == columns@.map_values(|c: Vec<SeriesRow>| c@),
            ls == seq![header(names@.map_values(|n: String| n@))] + table_lines(
                cs,
                sizes@,
                threshold as nat,
            ),
            forall|j: int| 0 <= j < columns@.len() ==> valid_series(#[trigger] columns@[j]@),
            out@ == join_with(ls.subrange(0, i + 1), '\n'),
        decreases sizes.len() - i,
    {
        let ghost before = out@;
        out.push('\n');
        push_grouped_decimal(&mut out, sizes[i] as u128);
        push_row_cells(&mut out, columns, sizes[i], threshold);
        let ghost p = ls.subrange(0, i + 1);
        let ghost x = ls[i + 1];
        assert(x == grouped(decimal(sizes@[i as int] as nat)) + row_cells(
            cs,
            sizes@[i as int] as int,
            threshold as nat,
        ));
        proof {
            crate::text::lemma_join_push(p, x, '\n');
            assert(ls.subrange(0, i + 2) =~= p.push(x));
        }
        assert(out@ =~= join_with(ls.subrange(0, i + 2), '\n'));
        i = i + 1;
    }
    assert(ls.subrange(0, sizes.len() + 1) =~= ls);
    string_from_chars(&out)
}

/// The names of (name, contents) pairs.
pub open spec fn file_names(files: Seq<(String, String)>) -> Seq<Seq<char>> {
    files.map_values(|f: (String, String)| f.0@)
}

fn copy_rows(rows: &Vec<SeriesRow>) -> (r: Vec<SeriesRow>)
    ensures
        r@ == rows@,
{
    let mut out: Vec<SeriesRow> = Vec::new();
    let mut i: usize = 0;
    while i < rows.len()
        invariant
            0 <= i <= rows.len(),
            out@ == rows@.subrange(0, i as int),
        decreases rows.len() - i,
    {
        out.push(rows[i]);
        assert(out@ =~= rows@.subrange(0, i + 1));
        i = i + 1;
    }
    assert(rows@.subrange(0, rows.len() as int) =~= rows@);
    out
}

/// Merges the algorithms' (size, median) series, each given as (name, rows), into one
/// table aligned by size: a column per algorithm, ordered by descending peak size, then
/// descending peak median; where an algorithm has no row at a size, its cell is `>`
/// followed by the threshold in nanoseconds. A series that is empty or holds a negative
/// number is an error.
pub fn merge_series(
    series: &Vec<(String, Vec<SeriesRow>)>,
    sizes: &Vec<u64>,
    threshold_nanos: u128,
) -> (r: Result<String, GraphError>)
    ensures
        r is Err <==> exists|j: int|
            0 <= j < series@.len() && !valid_series(#[trigger] series@[j].1@),
        r matches Err(e) ==> e.repr == GraphErrorRepr::ParseError,
        r matches Ok(t) ==> t@ == merged_table(
            series@.map_values(|e: (String, Vec<SeriesRow>)| e.0@),
            series@.map_values(|e: (String, Vec<SeriesRow>)| e.1@),
            sizes@,
            threshold_nanos as nat,
        ),
{
    let ghost ns = series@.map_values(|e: (String, Vec<SeriesRow>)| e.0@);
    let ghost cs = series@.map_values(|e: (String, Vec<SeriesRow>)| e.1@);
    let mut keys: Vec<SortKey> = Vec::new();
    let mut j: usize = 0;
    while j < series.len()
        invariant
            0 <= j <= series.len(),
            cs == series@.map_values(|e: (String, Vec<SeriesRow>)| e.1@),
            forall|k: int| 0 <= k < j ==> valid_series(#[trigger] series@[k].1@),
            keys@ == peak_keys(cs).subrange(0, j as int),
        decreases series.len() - j,
    {
        if !is_valid_series(&series[j].1) {
            return Err(GraphError::new(GraphErrorRepr::ParseError));
        }
        let p = find_peak(&series[j].1);
        assert(cs[j as int] == series@[j as int].1@);
        keys.push((-(p.0 as i128), -(p.1 as i128), j as u64));
        assert(keys@ =~= peak_keys(cs).subrange(0, j + 1));
        j = j + 1;
    }
    assert(keys@ =~= peak_keys(cs));
    let order = sorted_positions(keys);
    let mut names: Vec<String> = Vec::new();
    let mut columns: Vec<Vec<SeriesRow>> = Vec::new();
    let ghost o = column_order(cs);
    let mut k: usize = 0;
    while k < order.len()
        invariant
            0 <= k <= order.len(),
            order@.len() == series@.len(),
            forall|m: int| 0 <= m < order@.len() ==> (#[trigger] order@[m]) < series@.len(),
            order@.map_values(|i: usize| i as int) == o,
            o == column_order(cs),
            ns == series@.map_values(|e: (String, Vec<SeriesRow>)| e.0@),
            cs == series@.map_values(|e: (String, Vec<SeriesRow>)| e.1@),
            forall|m: int| 0 <= m < series@.len() ==> valid_series(#[trigger] series@[m].1@),
            names@.map_values(|n: String| n@) == o.subrange(0, k as int).map_values(|j: int| ns[j]),
            columns@.map_values(|c: Vec<SeriesRow>| c@) == o.subrange(0, k as int).map_values(
                |j: int| cs[j],
            ),
            forall|m: int| 0 <= m < columns@.len() ==> valid_series(#[trigger] columns@[m]@),
        decreases order.len() - k,
    {
        let idx = order[k];
        assert(o[k as int] == idx as int);
        let name = series[idx].0.clone();
        let rows = copy_rows(&series[idx].1);
        let ghost pn = names@.map_values(|n: String| n@);
        let ghost pc = columns@.map_values(|c: Vec<SeriesRow>| c@);
        names.push(name);
        columns.push(rows);
        assert(o.subrange(0, k + 1) =~= o.subrange(0, k as int).push(idx as int));
        assert(names@.map_values(|n: String| n@) =~= pn.push(ns[idx as int]));
        assert(columns@.map_values(|c: Vec<SeriesRow>| c@) =~= pc.push(cs[idx as int]));
        assert(names@.map_values(|n: String| n@) =~= o.subrange(0, k + 1).map_values(|j: int| ns[j]));
        assert(columns@.map_values(|c: Vec<SeriesRow>| c@) =~= o.subrange(0, k + 1).map_values(
            |j: int| cs[j],
        ));
        k = k + 1;
    }
    assert(o.subrange(0, order.len() as int) =~= o);
    Ok(write_table(&names, &columns, sizes, threshold_nanos))
}

/// The series of every file, when the csv reader and the rows accept each one.
pub open spec fn read_all(texts: Seq<Seq<char>>) -> Option<Seq<Seq<SeriesRow>>>
    decreases texts.len(),
{
    if texts.len() == 0 {
        Some(seq![])
    } else {
        match read_all(texts.drop_last()) {
            None => None,
            Some(p) => match csv_records_of(texts.last()) {
                None => None,
                Some(recs) => match series_rows(recs) {
                    None => None,
                    Some(rows) => Some(p.push(rows)),
                },
            },
        }
    }
}

/// Some series cannot be merged.
pub open spec fn any_invalid(series: Seq<Seq<SeriesRow>>) -> bool {
    exists|j: int| 0 <= j < series.len() && !valid_series(#[trigger] series[j])
}

/// The contents of (name, contents) pairs.
pub open spec fn file_texts(files: Seq<(String, String)>) -> Seq<Seq<char>> {
    files.map_values(|f: (String, String)| f.1@)
}

proof fn lemma_read_all_prefix(ts: Seq<Seq<char>>, i: int)
    requires
        0 <= i <= ts.len(),
        read_all(ts.subrange(0, i)) is None,
    ensures
        read_all(ts) is None,
    decreases ts.len() - i,
{
    if i < ts.len() {
        let cur = ts.subrange(0, i + 1);
        assert(cur.drop_last() =~= ts.subrange(0, i));
        lemma_read_all_prefix(ts, i + 1);
    } else {
        assert(ts.subrange(0, i) =~= ts);
    }
}

/// Reads each algorithm's (size, median) series file, given as (name, contents), and
/// merges them as `merge_series` does. A file the csv reader rejects, or whose records are
/// not two numbers, is an error, as is a series `merge_series` rejects.
pub fn create_time_total_csv(
    files: &Vec<(String, String)>,
    sizes: &Vec<u64>,
    threshold_nanos: u128,
) -> (r: Result<String, GraphError>)
    ensures
        r matches Err(e) ==> e.repr == GraphErrorRepr::ParseError,
        read_all(file_texts(files@)) is None ==> r is Err,
        read_all(file_texts(files@)) matches Some(series) ==> (r is Err <==> any_invalid(series)),
        read_all(file_texts(files@)) matches Some(series) ==> (r matches Ok(t) ==> t@ == merged_table(
            file_names(files@),
            series,
            sizes@,
            threshold_nanos as nat,
        )),
{
    let ghost ts = file_texts(files@);
    let mut series: Vec<(String, Vec<SeriesRow>)> = Vec::new();
    let mut j: usize = 0;
    while j < files.len()
        invariant
            0 <= j <= files.len(),
            ts == file_texts(files@),
            series@.len() == j,
            forall|k: int| 0 <= k < j ==> (#[trigger] series@[k]).0@ == files@[k].0@,
            read_all(ts.subrange(0, j as int)) == Some(
                series@.map_values(|e: (String, Vec<SeriesRow>)| e.1@),
            ),
        decreases files.len() - j,
    {
        let ghost cur = ts.subrange(0, j + 1);
        assert(cur.drop_last() =~= ts.subrange(0, j as int));
        assert(cur.last() == files@[j as int].1@);
        let rows = match read_series(files[j].1.as_str()) {
            Ok(rows) => rows,
            Err(e) => {
                proof {
                    assert(read_all(cur) is None);
                    lemma_read_all_prefix(ts, j + 1);
                }
                return Err(e);
            },
        };
        let ghost prev = series@.map_values(|e: (String, Vec<SeriesRow>)| e.1@);
        series.push((files[j].0.clone(), rows));
        assert(series@.map_values(|e: (String, Vec<SeriesRow>)| e.1@) =~= prev.push(rows@));
        j = j + 1;
    }
    assert(ts.subrange(0, files.len() as int) =~= ts);
    assert(series@.map_values(|e: (String, Vec<SeriesRow>)| e.0@) =~= file_names(files@));
    let r = merge_series(&series, sizes, threshold_nanos);
    proof {
        let cs = series@.map_values(|e: (String, Vec<SeriesRow>)| e.1@);
        if exists|j: int| 0 <= j < cs.len() && !valid_series(#[trigger] cs[j]) {
            let j = choose|j: int| 0 <= j < cs.len() && !valid_series(#[trigger] cs[j]);
            assert(!valid_series(series@[j].1@));
        }
        if exists|j: int| 0 <= j < series@.len() && !valid_series(#[trigger] series@[j].1@) {
            let j = choose|j: int| 0 <= j < series@.len() && !valid_series(#[trigger] series@[j].1@);
            assert(!valid_series(cs[j]));
        }
        assert(read_all(file_texts(files@)) == Some(cs));
        assert(r is Err <==> any_invalid(cs));
    }
    r
}

} // verus!
