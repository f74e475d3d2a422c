use algobench::errors::GraphErrorRepr;
use algobench::merge::{create_time_total_csv, merge_series, read_series};
use algobench::preprocess::{parse_full_stats, parse_samples, summarize_algorithm, summarize_file};
use algobench::report::{mean_nanos, raw_samples, table_cell};

fn files(list: &[(&str, &str)]) -> Vec<(String, String)> {
    list.iter().map(|(a, b)| (a.to_string(), b.to_string())).collect()
}

#[test]
fn samples_are_read_one_per_line() {
    assert_eq!(parse_samples("5\n1\n3\n"), Some(vec![5, 1, 3]));
    assert_eq!(parse_samples("5\r\n1"), Some(vec![5, 1]));
    assert_eq!(parse_samples(""), Some(vec![]));
    assert_eq!(parse_samples("5\n\n1\n"), None);
    assert_eq!(parse_samples("5\nx\n"), None);
}

#[test]
fn a_sample_file_becomes_a_full_statistics_row() {
    assert_eq!(summarize_file("20.txt", "5\n1\n3\n").unwrap(), vec![20, 1, 2, 3, 4, 5]);
    assert_eq!(summarize_file("10", "2\n4\n").unwrap(), vec![10, 2, 2, 3, 3, 4]);
}

#[test]
fn sample_file_errors() {
    assert_eq!(summarize_file("x.txt", "1\n").unwrap_err().repr, GraphErrorRepr::ParseError);
    assert_eq!(summarize_file("10.txt", "1\nabc\n").unwrap_err().repr, GraphErrorRepr::ParseError);
    assert_eq!(
        summarize_file("10.txt", "").unwrap_err().repr,
        GraphErrorRepr::DataPreprocessingError
    );
}

#[test]
fn an_algorithm_is_reduced_to_series_ascending_by_size() {
    let (full, medians) =
        summarize_algorithm(&files(&[("20.txt", "5\n1\n3\n"), ("10.txt", "2\n4\n")])).unwrap();
    assert_eq!(full, "10 2 2 3 3 4\n20 1 2 3 4 5");
    assert_eq!(medians, "10 3\n20 3");
}

#[test]
fn an_algorithm_with_a_bad_file_is_an_error() {
    let r = summarize_algorithm(&files(&[("20.txt", "5\n"), ("10.txt", "2\n-\n")]));
    assert_eq!(r.unwrap_err().repr, GraphErrorRepr::ParseError);
}

#[test]
fn full_statistics_read_back_as_written() {
    let (full, _) = summarize_algorithm(&files(&[
        ("300.txt", "1000\n1200\n900\n"),
        ("100.txt", "10\n"),
        ("200.txt", "7\n8\n9\n10\n"),
    ]))
    .unwrap();
    assert_eq!(
        parse_full_stats(&full),
        Some(vec![
            vec![100, 10, 10, 10, 10, 10],
            vec![200, 7, 7, 8, 9, 10],
            vec![300, 900, 950, 1000, 1100, 1200],
        ])
    );
    assert_eq!(parse_full_stats(""), Some(vec![]));
    assert_eq!(parse_full_stats("1 2\n3 x"), None);
}

#[test]
fn merge_orders_by_peak_and_marks_unreached_sizes() {
    let table = create_time_total_csv(
        &files(&[("A", "10 5\n"), ("B", "10 5\n20 15\n30 40\n")]),
        &vec![10, 20, 30],
        1_000_000_000,
    )
    .unwrap();
    assert_eq!(
        table,
        "size,B,A\n10,5,5\n20,15,>1 000 000 000\n30,40,>1 000 000 000"
    );
}

#[test]
fn merge_breaks_peak_size_ties_by_larger_median() {
    let series = vec![
        ("fast".to_string(), vec![(1000, 10), (2000, 20)]),
        ("slow".to_string(), vec![(1000, 1500), (2000, 2500)]),
    ];
    let table = merge_series(&series, &vec![1000, 2000, 3000], 5000).unwrap();
    assert_eq!(
        table,
        "size,slow,fast\n1 000,1 500,10\n2 000,2 500,20\n3 000,>5 000,>5 000"
    );
}

#[test]
fn merge_rejects_negative_or_empty_series() {
    let negative = vec![("a".to_string(), vec![(10, -1)])];
    assert_eq!(
        merge_series(&negative, &vec![10], 1).unwrap_err().repr,
        GraphErrorRepr::ParseError
    );
    let empty = vec![("a".to_string(), vec![(10, 1)]), ("b".to_string(), vec![])];
    assert_eq!(merge_series(&empty, &vec![10], 1).unwrap_err().repr, GraphErrorRepr::ParseError);
    let no_series: Vec<(String, Vec<(i64, i64)>)> = vec![];
    assert_eq!(merge_series(&no_series, &vec![10, 20], 1).unwrap(), "size\n10\n20");
}

#[test]
fn series_files_are_read_through_the_csv_reader() {
    assert_eq!(read_series("10 5\n20 15\n").unwrap(), vec![(10, 5), (20, 15)]);
    assert_eq!(read_series("10 5\r\n").unwrap(), vec![(10, 5)]);
    assert_eq!(read_series("10\n").unwrap_err().repr, GraphErrorRepr::ParseError);
    assert_eq!(read_series("10 x\n").unwrap_err().repr, GraphErrorRepr::ParseError);
    let bad = create_time_total_csv(&files(&[("A", "1 2 3\n")]), &vec![1], 1);
    assert_eq!(bad.unwrap_err().repr, GraphErrorRepr::ParseError);
}

#[test]
fn raw_sample_files_hold_whole_microseconds() {
    assert_eq!(raw_samples(&vec![1500, 2000, 999]), "1\n2\n0\n");
    assert_eq!(raw_samples(&vec![]), "");
}

#[test]
fn table_cells_show_means_or_the_threshold() {
    assert_eq!(mean_nanos(&vec![10, 20, 31]), Some(20));
    assert_eq!(mean_nanos(&vec![]), None);
    assert_eq!(mean_nanos(&vec![u128::MAX, 1]), None);
    assert_eq!(table_cell(true, &vec![10, 20], 7), Some("15".to_string()));
    assert_eq!(table_cell(false, &vec![10, 20], 7), Some(">7".to_string()));
    assert_eq!(table_cell(true, &vec![], 7), None);
}
