//! The aggregation pipeline: raw samples of each size reduced to five-number summaries,
//! and the per-algorithm median series merged into one table.
use crate::errors::{GraphError, GraphErrorRepr};
use crate::quartiles::{sorted_sample, summary_quarters, truncate_quarters, Quartiles};
use crate::text::{
    chars_of, free_of, is_digit, join_with, lemma_signed_decimal_parses, lemma_split_join,
    lines_of, parse_i64_chars, parsed_i64, push_signed_decimal, signed_decimal, split_chars,
    split_on, string_from_chars, strip_cr, text_lines,
};
use vstd::prelude::*;
use vstd::relations::{sorted_by, total_ordering};
use vstd::seq_lib::{lemma_sorted_unique, to_multiset_contains, to_multiset_len};

verus! {

/// A sort key: two integers and the position of the item it stands for.
pub type SortKey = (i128, i128, u64);

/// The lexicographic order on sort keys.
pub open spec fn key_leq() -> spec_fn(SortKey, SortKey) -> bool {
    |a: SortKey, b: SortKey|
        a.0 < b.0 || (a.0 == b.0 && (a.1 < b.1 || (a.1 == b.1 && a.2 <= b.2)))
}

/// Relies on `slice::sort_unstable` over tuples, which std orders lexicographically:
/// ascending order, the same elements as before.
#[verifier::external_body]
fn sort_keys(v: &mut Vec<SortKey>)
    ensures
        final(v)@.to_multiset() == old(v)@.to_multiset(),
        sorted_by(final(v)@, key_leq()),
{
    v.sort_unstable()
}

proof fn lemma_key_leq_total()
    ensures
        total_ordering(key_leq()),
{
}

/// The positions of the keys, in the keys' ascending order.
pub open spec fn key_order(keys: Seq<SortKey>) -> Seq<int> {
    keys.sort_by(key_leq()).map_values(|k: SortKey| k.2 as int)
}

/// Sorts `keys` (whose third parts are their own positions) and returns the positions
/// in the sorted order.
pub(crate) fn sorted_positions(keys: Vec<SortKey>) -> (r: Vec<usize>)
    requires
        forall|i: int| 0 <= i < keys@.len() ==> (#[trigger] keys@[i]).2 == i,
    ensures
        r@.map_values(|i: usize| i as int) == key_order(keys@),
        forall|i: int| 0 <= i < r@.len() ==> (#[trigger] r@[i]) < keys@.len(),
        r@.len() == keys@.len(),
{
    let ghost k0 = keys@;
    let mut v = keys;
    sort_keys(&mut v);
    proof {
        lemma_key_leq_total();
        k0.lemma_sort_by_ensures(key_leq());
        lemma_sorted_unique(v@, k0.sort_by(key_leq()), key_leq());
        to_multiset_len(v@);
        to_multiset_len(k0);
    }
    let mut r: Vec<usize> = Vec::new();
    let mut i: usize = 0;
    while i < v.len()
        invariant
            0 <= i <= v.len(),
            v@ == k0.sort_by(key_leq()),
            v@.to_multiset() == k0.to_multiset(),
            v@.len() == k0.len(),
            forall|j: int| 0 <= j < k0.len() ==> (#[trigger] k0[j]).2 == j,
            r@.len() == i,
            forall|j: int| 0 <= j < i ==> (#[trigger] r@[j]) as int == v@[j].2 as int,
            forall|j: int| 0 <= j < i ==> (#[trigger] r@[j]) < k0.len(),
        decreases v.len() - i,
    {
        let k = v[i];
        proof {
            assert(v@.contains(k));
            to_multiset_contains(v@, k);
            to_multiset_contains(k0, k);
            let j = choose|j: int| 0 <= j < k0.len() && k0[j] == k;
            assert(k0[j].2 == j);
        }
        r.push(k.2 as usize);
        i = i + 1;
    }
    assert(r@.map_values(|i: usize| i as int) =~= key_order(k0));
    r
}

/// The numbers of the lines, when every line is one.
pub open spec fn parsed_lines(lines: Seq<Seq<char>>) -> Option<Seq<i64>>
    decreases lines.len(),
{
    if lines.len() == 0 {
        Some(seq![])
    } else {
        match (parsed_lines(lines.drop_last()), parsed_i64(lines.last())) {
            (Some(p), Some(v)) => Some(p.push(v)),
            _ => None,
        }
    }
}

/// The size a raw sample file stands for: the number before the first `.` of its name.
pub open spec fn file_size(name: Seq<char>) -> Option<i64> {
    parsed_i64(split_on(name, '.')[0])
}

/// The five-number summary of a sample, each value rounded toward zero.
pub open spec fn summary_values(s: Seq<i64>) -> Seq<i64> {
    summary_quarters(sorted_sample(s)).map_values(|v: int| truncate_quarters(v) as i64)
}

/// The full-statistics row of one raw sample file: its size, then the summary of its
/// samples (one per line).
pub open spec fn stat_row(name: Seq<char>, text: Seq<char>) -> Result<Seq<i64>, GraphErrorRepr> {
    match (file_size(name), parsed_lines(text_lines(text))) {
        (Some(size), Some(samples)) => if samples.len() == 0 {
            Err(GraphErrorRepr::DataPreprocessingError)
        } else {
            Ok(seq![size] + summary_values(samples))
        },
        _ => Err(GraphErrorRepr::ParseError),
    }
}

/// The rows of all files of one algorithm, in the files' order; the first failing file
/// gives the error.
pub open spec fn stat_rows(files: Seq<(Seq<char>, Seq<char>)>) -> Result<
    Seq<Seq<i64>>,
    GraphErrorRepr,
>
    decreases files.len(),
{
    if files.len() == 0 {
        Ok(seq![])
    } else {
        match stat_rows(files.drop_last()) {
            Err(e) => Err(e),
            Ok(rows) => match stat_row(files.last().0, files.last().1) {
                Err(e) => Err(e),
                Ok(row) => Ok(rows.push(row)),
            },
        }
    }
}

/// Sort keys of rows by their first value, ties kept in the rows' order.
pub open spec fn size_keys(rows: Seq<Seq<i64>>) -> Seq<SortKey> {
    Seq::new(rows.len(), |i: int| (rows[i][0] as i128, 0i128, i as u64))
}

/// The rows in ascending order of size; rows of equal size keep their order.
pub open spec fn rows_by_size(rows: Seq<Seq<i64>>) -> Seq<Seq<i64>> {
    key_order(size_keys(rows)).map_values(|i: int| rows[i])
}

/// A row as text: its numbers in decimal, separated by single spaces.
pub open spec fn row_text(row: Seq<i64>) -> Seq<char> {
    join_with(row.map_values(|v: i64| signed_decimal(v as int)), ' ')
}

/// The full-statistics series: one row per line.
pub open spec fn full_stats_text(rows: Seq<Seq<i64>>) -> Seq<char> {
    join_with(rows.map_values(|r: Seq<i64>| row_text(r)), '\n')
}

/// The simplified series: size and median of each row, one row per line.
pub open spec fn median_text(rows: Seq<Seq<i64>>) -> Seq<char> {
    join_with(rows.map_values(|r: Seq<i64>| row_text(seq![r[0], r[3]])), '\n')
}

/// Reads the sample of a raw file: one integer per line.
pub fn parse_samples(text: &str) -> (r: Option<Vec<i64>>)
    ensures
        r matches Some(v) ==> parsed_lines(text_lines(text@)) == Some(v@),
        r is None <==> parsed_lines(text_lines(text@)) is None,
{
    let lines = lines_of(text);
    let ghost ls = lines@.map_values(|v: Vec<char>| v@);
    let mut out: Vec<i64> = Vec::new();
    let mut i: usize = 0;
    while i < lines.len()
        invariant
            0 <= i <= lines.len(),
            ls == lines@.map_values(|v: Vec<char>| v@),
            parsed_lines(ls.subrange(0, i as int)) == Some(out@),
            ls == text_lines(text@),
        decreases lines.len() - i,
    {
        let ghost pre = ls.subrange(0, i as int);
        let ghost cur = ls.subrange(0, i + 1);
        assert(cur.drop_last() =~= pre);
        assert(cur.last() == lines@[i as int]@);
        match parse_i64_chars(&lines[i]) {
            Some(v) => {
                out.push(v);
            },
            None => {
                proof {
                    assert(parsed_lines(cur) is None);
                    lemma_parsed_lines_prefix(ls, i + 1);
                }
                return None;
            },
        }
        i = i + 1;
    }
    assert(ls.subrange(0, lines.len() as int) =~= ls);
    Some(out)
}

/// A line that fails to parse makes every longer run of lines fail.
proof fn lemma_parsed_lines_prefix(ls: Seq<Seq<char>>, i: int)
    requires
        0 <= i <= ls.len(),
        parsed_lines(ls.subrange(0, i)) is None,
    ensures
        parsed_lines(ls) is None,
    decreases ls.len() - i,
{
    if i < ls.len() {
        let cur = ls.subrange(0, i + 1);
        assert(cur.drop_last() =~= ls.subrange(0, i));
        lemma_parsed_lines_prefix(ls, i + 1);
    } else {
        assert(ls.subrange(0, i) =~= ls);
    }
}

/// The full-statistics row of one raw sample file named `name` holding `text`.
pub fn summarize_file(name: &str, text: &str) -> (r: Result<Vec<i64>, GraphError>)
    ensures
        r matches Ok(row) ==> stat_row(name@, text@) == Ok::<Seq<i64>, GraphErrorRepr>(row@),
        r matches Err(e) ==> stat_row(name@, text@) == Err::<Seq<i64>, GraphErrorRepr>(e.repr),
{
    let name_chars = chars_of(name);
    let parts = split_chars(&name_chars, '.');
    proof {
        crate::text::lemma_split_len(name_chars@, '.');
        assert(parts@[0]@ == split_on(name@, '.')[0]);
    }
    let size = match parse_i64_chars(&parts[0]) {
        Some(s) => s,
        None => {
            return Err(GraphError::new(GraphErrorRepr::ParseError));
        },
    };
    let samples = match parse_samples(text) {
        Some(v) => v,
        None => {
            return Err(GraphError::new(GraphErrorRepr::ParseError));
        },
    };
    if samples.len() == 0 {
        return Err(GraphError::new(GraphErrorRepr::DataPreprocessingError));
    }
    let q = Quartiles::new(samples.as_slice());
    let values = q.values();
    let mut row: Vec<i64> = Vec::new();
    row.push(size);
    let mut k: usize = 0;
    while k < 5
        invariant
            0 <= k <= 5,
            row@.len() == k + 1,
            row@[0] == size,
            forall|j: int| 0 <= j < 5 ==> values@[j] == truncate_quarters(#[trigger] q@[j]),
            q@ == summary_quarters(sorted_sample(samples@)),
            forall|j: int| 1 <= j <= k ==> #[trigger] row@[j] == values@[j - 1],
        decreases 5 - k,
    {
        row.push(values[k]);
        k = k + 1;
    }
    proof {
        let sv = summary_values(samples@);
        assert(sv.len() == 5);
        assert forall|j: int| 0 <= j < 5 implies sv[j] == values@[j] by {
            assert(sv[j] == truncate_quarters(q@[j]) as i64);
        }
        assert(row@ =~= seq![size] + sv);
    }
    Ok(row)
}

/// Writes `row_text(row)` at the end of `out`.
fn push_row(out: &mut Vec<char>, row: &Vec<i64>)
    requires
        row@.len() >= 1,
    ensures
        final(out)@ == old(out)@ + row_text(row@),
{
    let ghost texts = row@.map_values(|v: i64| signed_decimal(v as int));
    push_signed_decimal(out, row[0]);
    assert(texts.subrange(0, 1) =~= seq![texts[0]]);
    let mut i: usize = 1;
    while i < row.len()
        invariant
            1 <= i <= row.len(),
            texts == row@.map_values(|v: i64| signed_decimal(v as int)),
            out@ == old(out)@ + join_with(texts.subrange(0, i as int), ' '),
        decreases row.len() - i,
    {
        let ghost before = out@;
        let ghost q = texts.subrange(0, i as int);
        let ghost x = texts[i as int];
        out.push(' ');
        push_signed_decimal(out, row[i]);
        assert(x == signed_decimal(row@[i as int] as int));
        assert(out@ =~= before.push(' ') + x);
        proof {
            crate::text::lemma_join_push(q, x, ' ');
            assert(texts.subrange(0, i + 1) =~= q.push(x));
        }
        assert(out@ =~= old(out)@ + (join_with(q, ' ').push(' ') + x));
        i = i + 1;
    }
    assert(texts.subrange(0, row.len() as int) =~= texts);
}

/// Rows as text, one per line.
fn rows_text(rows: &Vec<Vec<i64>>) -> (r: String)
    requires
        forall|i: int| 0 <= i < rows@.len() ==> (#[trigger] rows@[i])@.len() >= 1,
    ensures
        r@ == join_with(rows@.map_values(|v: Vec<i64>| row_text(v@)), '\n'),
{
    let ghost texts = rows@.map_values(|v: Vec<i64>| row_text(v@));
    let mut out: Vec<char> = Vec::new();
    let mut i: usize = 0;
    while i < rows.len()
        invariant
            0 <= i <= rows.len(),
            texts == rows@.map_values(|v: Vec<i64>| row_text(v@)),
            forall|j: int| 0 <= j < rows@.len() ==> (#[trigger] rows@[j])@.len() >= 1,
            out@ == join_with(texts.subrange(0, i as int), '\n'),
        decreases rows.len() - i,
    {
        let ghost p = texts.subrange(0, i + 1);
        assert(p.drop_last() =~= texts.subrange(0, i as int));
        if i > 0 {
            out.push('\n');
        }
        push_row(&mut out, &rows[i]);
        assert(out@ =~= join_with(p, '\n'));
        i = i + 1;
    }
    assert(texts.subrange(0, rows.len() as int) =~= texts);
    string_from_chars(&out)
}

/// Reduces the raw sample files of one algorithm, given as (file name, contents) pairs, to
/// its full-statistics series and its (size, median) series, rows ascending by size.
pub fn summarize_algorithm(files: &Vec<(String, String)>) -> (r: Result<(String, String), GraphError>)
    ensures
        r matches Ok(texts) ==> stat_rows(files@.map_values(|f: (String, String)| (f.0@, f.1@)))
            matches Ok(rows) && texts.0@ == full_stats_text(rows_by_size(rows)) && texts.1@
            == median_text(rows_by_size(rows)),
        r matches Err(e) ==> stat_rows(files@.map_values(|f: (String, String)| (f.0@, f.1@)))
            == Err::<Seq<Seq<i64>>, GraphErrorRepr>(e.repr),
{
    let ghost fs = files@.map_values(|f: (String, String)| (f.0@, f.1@));
    let mut rows: Vec<Vec<i64>> = Vec::new();
    let mut i: usize = 0;
    assert(fs.subrange(0, 0) =~= Seq::<(Seq<char>, Seq<char>)>::empty());
    assert(rows@.map_values(|v: Vec<i64>| v@) =~= Seq::<Seq<i64>>::empty());
    while i < files.len()
        invariant
            0 <= i <= files.len(),
            fs == files@.map_values(|f: (String, String)| (f.0@, f.1@)),
            stat_rows(fs.subrange(0, i as int)) == Ok::<Seq<Seq<i64>>, GraphErrorRepr>(
                rows@.map_values(|v: Vec<i64>| v@),
            ),
            forall|j: int| 0 <= j < rows@.len() ==> (#[trigger] rows@[j])@.len() == 6,
        decreases files.len() - i,
    {
        let ghost cur = fs.subrange(0, i + 1);
        assert(cur.drop_last() =~= fs.subrange(0, i as int));
        assert(cur.last() == fs[i as int]);
        match summarize_file(files[i].0.as_str(), files[i].1.as_str()) {
            Ok(row) => {
                let ghost prev = rows@.map_values(|v: Vec<i64>| v@);
                rows.push(row);
                assert(rows@.map_values(|v: Vec<i64>| v@) =~= prev.push(row@));
            },
            Err(e) => {
                proof {
                    lemma_stat_rows_prefix_err(fs, i + 1);
                }
                return Err(e);
            },
        }
        i = i + 1;
    }
    assert(fs.subrange(0, files.len() as int) =~= fs);
    let ghost rs = rows@.map_values(|v: Vec<i64>| v@);
    let mut keys: Vec<SortKey> = Vec::new();
    let mut j: usize = 0;
    while j < rows.len()
        invariant
            0 <= j <= rows.len(),
            rs == rows@.map_values(|v: Vec<i64>| v@),
            forall|k: int| 0 <= k < rows@.len() ==> (#[trigger] rows@[k])@.len() == 6,
            keys@ == size_keys(rs).subrange(0, j as int),
        decreases rows.len() - j,
    {
        keys.push((rows[j][0] as i128, 0i128, j as u64));
        assert(keys@ =~= size_keys(rs).subrange(0, j + 1));
        j = j + 1;
    }
    assert(keys@ =~= size_keys(rs));
    let order = sorted_positions(keys);
    let mut full: Vec<Vec<i64>> = Vec::new();
    let mut medians: Vec<Vec<i64>> = Vec::new();
    let mut k: usize = 0;
    while k < order.len()
        invariant
            0 <= k <= order.len(),
            order@.len() == rows@.len(),
            rs == rows@.map_values(|v: Vec<i64>| v@),
            forall|m: int| 0 <= m < rows@.len() ==> (#[trigger] rows@[m])@.len() == 6,
            forall|m: int| 0 <= m < order@.len() ==> (#[trigger] order@[m]) < rows@.len(),
            order@.map_values(|i: usize| i as int) == key_order(size_keys(rs)),
            full@.map_values(|v: Vec<i64>| v@) == rows_by_size(rs).subrange(0, k as int),
            medians@.len() == k,
            forall|m: int| 0 <= m < k ==> (#[trigger] medians@[m])@ == seq![
                rows_by_size(rs)[m][0],
                rows_by_size(rs)[m][3],
            ],
            forall|m: int| 0 <= m < k ==> (#[trigger] full@[m])@.len() == 6,
        decreases order.len() - k,
    {
        let idx = order[k];
        assert(order@.map_values(|i: usize| i as int)[k as int] == idx as int);
        assert(rows_by_size(rs)[k as int] == rs[idx as int]);
        let row = rows[idx].clone();
        assert(row@ == rows@[idx as int]@);
        let mut pair: Vec<i64> = Vec::new();
        pair.push(row[0]);
        pair.push(row[3]);
        let ghost prev = full@.map_values(|v: Vec<i64>| v@);
        full.push(row);
        medians.push(pair);
        assert(rs[idx as int] == rows@[idx as int]@);
        assert(full@.map_values(|v: Vec<i64>| v@) =~= prev.push(rows_by_size(rs)[k as int]));
        assert(rows_by_size(rs).subrange(0, k + 1) =~= rows_by_size(rs).subrange(0, k as int).push(
            rows_by_size(rs)[k as int],
        ));
        assert(full@.map_values(|v: Vec<i64>| v@) =~= rows_by_size(rs).subrange(0, k + 1));
        assert(medians@[k as int]@ =~= seq![rows_by_size(rs)[k as int][0], rows_by_size(rs)[k as int][3]]);
        k = k + 1;
    }
    assert(full@.map_values(|v: Vec<i64>| v@) =~= rows_by_size(rs));
    let full_text = rows_text(&full);
    let median_t = rows_text(&medians);
    assert(full@.map_values(|v: Vec<i64>| row_text(v@)) =~= rows_by_size(rs).map_values(
        |r: Seq<i64>| row_text(r),
    ));
    assert(medians@.map_values(|v: Vec<i64>| row_text(v@)) =~= rows_by_size(rs).map_values(
        |r: Seq<i64>| row_text(seq![r[0], r[3]]),
    ));
    Ok((full_text, median_t))
}

/// The rows of a text of space-separated numbers, one row per line.
pub open spec fn parsed_rows(lines: Seq<Seq<char>>) -> Option<Seq<Seq<i64>>>
    decreases lines.len(),
{
    if lines.len() == 0 {
        Some(seq![])
    } else {
        match (parsed_rows(lines.drop_last()), parsed_lines(split_on(lines.last(), ' '))) {
            (Some(p), Some(r)) => Some(p.push(r)),
            _ => None,
        }
    }
}

/// What a full-statistics file reads back as.
pub open spec fn parsed_full_stats(text: Seq<char>) -> Option<Seq<Seq<i64>>> {
    parsed_rows(text_lines(text))
}

/// Reads the numbers of `pieces`, each piece one number.
fn parse_numbers(pieces: &Vec<Vec<char>>) -> (r: Option<Vec<i64>>)
    ensures
        r matches Some(v) ==> parsed_lines(pieces@.map_values(|p: Vec<char>| p@)) == Some(v@),
        r is None <==> parsed_lines(pieces@.map_values(|p: Vec<char>| p@)) is None,
{
    let ghost ls = pieces@.map_values(|p: Vec<char>| p@);
    let mut out: Vec<i64> = Vec::new();
    let mut i: usize = 0;
    while i < pieces.len()
        invariant
            0 <= i <= pieces.len(),
            ls == pieces@.map_values(|p: Vec<char>| p@),
            parsed_lines(ls.subrange(0, i as int)) == Some(out@),
        decreases pieces.len() - i,
    {
        let ghost cur = ls.subrange(0, i + 1);
        assert(cur.drop_last() =~= ls.subrange(0, i as int));
        assert(cur.last() == pieces@[i as int]@);
        match parse_i64_chars(&pieces[i]) {
            Some(v) => {
                out.push(v);
            },
            None => {
                proof {
                    assert(parsed_lines(cur) is None);
                    lemma_parsed_lines_prefix(ls, i + 1);
                }
                return None;
            },
        }
        i = i + 1;
    }
    assert(ls.subrange(0, pieces.len() as int) =~= ls);
    Some(out)
}

/// Reads a full-statistics series back: one row of space-separated numbers per line.
pub fn parse_full_stats(text: &str) -> (r: Option<Vec<Vec<i64>>>)
    ensures
        r matches Some(rows) ==> parsed_full_stats(text@) == Some(
            rows@.map_values(|v: Vec<i64>| v@),
        ),
        r is None <==> parsed_full_stats(text@) is None,
{
    let lines = lines_of(text);
    let ghost ls = lines@.map_values(|v: Vec<char>| v@);
    let mut out: Vec<Vec<i64>> = Vec::new();
    let mut i: usize = 0;
    while i < lines.len()
        invariant
            0 <= i <= lines.len(),
            ls == lines@.map_values(|v: Vec<char>| v@),
            ls == text_lines(text@),
            parsed_rows(ls.subrange(0, i as int)) == Some(out@.map_values(|v: Vec<i64>| v@)),
        decreases lines.len() - i,
    {
        let ghost cur = ls.subrange(0, i + 1);
        assert(cur.drop_last() =~= ls.subrange(0, i as int));
        assert(cur.last() == lines@[i as int]@);
        let fields = split_chars(&lines[i], ' ');
        match parse_numbers(&fields) {
            Some(v) => {
                let ghost prev = out@.map_values(|v: Vec<i64>| v@);
                out.push(v);
                assert(out@.map_values(|v: Vec<i64>| v@) =~= prev.push(v@));
            },
            None => {
                proof {
                    assert(parsed_rows(cur) is None);
                    lemma_parsed_rows_prefix(ls, i + 1);
                }
                return None;
            },
        }
        i = i + 1;
    }
    assert(ls.subrange(0, lines.len() as int) =~= ls);
    Some(out)
}

proof fn lemma_parsed_rows_prefix(ls: Seq<Seq<char>>, i: int)
    requires
        0 <= i <= ls.len(),
        parsed_rows(ls.subrange(0, i)) is None,
    ensures
        parsed_rows(ls) is None,
    decreases ls.len() - i,
{
    if i < ls.len() {
        let cur = ls.subrange(0, i + 1);
        assert(cur.drop_last() =~= ls.subrange(0, i));
        lemma_parsed_rows_prefix(ls, i + 1);
    } else {
        assert(ls.subrange(0, i) =~= ls);
    }
}

proof fn lemma_numbers_round_trip(row: Seq<i64>)
    ensures
        parsed_lines(row.map_values(|v: i64| signed_decimal(v as int))) == Some(row),
    decreases row.len(),
{
    if row.len() > 0 {
        let t = row.map_values(|v: i64| signed_decimal(v as int));
        lemma_numbers_round_trip(row.drop_last());
        assert(t.drop_last() =~= row.drop_last().map_values(|v: i64| signed_decimal(v as int)));
        lemma_signed_decimal_parses(row.last());
        assert(row.drop_last().push(row.last()) =~= row);
    }
}

/// A row's text: no newline, no carriage return at its end, and it reads back as the row.
proof fn lemma_row_text(row: Seq<i64>)
    requires
        row.len() >= 1,
    ensures
        free_of(row_text(row), '\n'),
        row_text(row).len() >= 1,
        row_text(row).last() != '\r',
        parsed_lines(split_on(row_text(row), ' ')) == Some(row),
{
    let t = row.map_values(|v: i64| signed_decimal(v as int));
    assert forall|i: int| 0 <= i < t.len() implies free_of(#[trigger] t[i], '\n') && free_of(t[i], ' ') by {
        lemma_signed_decimal_parses(row[i]);
        assert forall|k: int| 0 <= k < t[i].len() implies t[i][k] != '\n' && t[i][k] != ' ' by {
            assert(t[i][k] == '-' || is_digit(t[i][k]));
        }
    }
    crate::text::lemma_join_free_of(t, ' ', '\n');
    lemma_split_join(t, ' ');
    lemma_numbers_round_trip(row);
    lemma_signed_decimal_parses(row.last());
    assert(t.last() == signed_decimal(row.last() as int));
    crate::text::lemma_join_last(t, ' ');
}

proof fn lemma_rows_round_trip(rows: Seq<Seq<i64>>)
    requires
        forall|i: int| 0 <= i < rows.len() ==> (#[trigger] rows[i]).len() >= 1,
    ensures
        parsed_rows(rows.map_values(|r: Seq<i64>| row_text(r))) == Some(rows),
    decreases rows.len(),
{
    if rows.len() > 0 {
        let t = rows.map_values(|r: Seq<i64>| row_text(r));
        lemma_rows_round_trip(rows.drop_last());
        assert(t.drop_last() =~= rows.drop_last().map_values(|r: Seq<i64>| row_text(r)));
        lemma_row_text(rows.last());
        assert(rows.drop_last().push(rows.last()) =~= rows);
    }
}

/// Law: writing rows as a full-statistics series and reading it back gives the same
/// rows, in the same order.
pub proof fn lemma_full_stats_round_trip(rows: Seq<Seq<i64>>)
    requires
        forall|i: int| 0 <= i < rows.len() ==> (#[trigger] rows[i]).len() >= 1,
    ensures
        parsed_full_stats(full_stats_text(rows)) == Some(rows),
{
    let t = rows.map_values(|r: Seq<i64>| row_text(r));
    lemma_rows_round_trip(rows);
    if rows.len() == 0 {
        assert(t =~= Seq::<Seq<char>>::empty());
        assert(text_lines(full_stats_text(rows)) =~= Seq::<Seq<char>>::empty());
    } else {
        assert forall|i: int| 0 <= i < t.len() implies free_of(#[trigger] t[i], '\n') && t[i].len() >= 1
            && t[i].last() != '\r' by {
            lemma_row_text(rows[i]);
        }
        lemma_split_join(t, '\n');
        assert(t.last() == t[t.len() - 1]);
        assert(t.map_values(|l: Seq<char>| strip_cr(l)) =~= t);
        assert(text_lines(full_stats_text(rows)) =~= t);
    }
}

proof fn lemma_stat_rows_prefix_err(fs: Seq<(Seq<char>, Seq<char>)>, i: int)
    requires
        0 <= i <= fs.len(),
        stat_rows(fs.subrange(0, i)) is Err,
    ensures
        stat_rows(fs) == stat_rows(fs.subrange(0, i)),
    decreases fs.len() - i,
{
    if i < fs.len() {
        let cur = fs.subrange(0, i + 1);
        assert(cur.drop_last() =~= fs.subrange(0, i));
        lemma_stat_rows_prefix_err(fs, i + 1);
    } else {
        assert(fs.subrange(0, i) =~= fs);
    }
}

} // verus!
