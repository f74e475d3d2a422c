use algobench::quartiles::{quantile, Quartiles};

#[test]
fn quartiles_of_evenly_spaced_sample_are_its_elements() {
    let q = Quartiles::new(&[1, 2, 3, 4, 5]);
    assert_eq!(q.median_quarters(), 12);
    assert_eq!(q.median_quarters() as f64 / 4.0, 3.0);
    assert_eq!(q.values(), [1, 2, 3, 4, 5]);
    let exact: Vec<f64> = q.quarters().iter().map(|v| *v as f64 / 4.0).collect();
    assert_eq!(exact, vec![1.0, 2.0, 3.0, 4.0, 5.0]);
}

#[test]
fn quartiles_of_single_value_repeat_it() {
    let q = Quartiles::new(&[7]);
    assert_eq!(q.values(), [7, 7, 7, 7, 7]);
    assert_eq!(q.quarters(), [28, 28, 28, 28, 28]);
    let q = Quartiles::new(&[-4]);
    assert_eq!(q.values(), [-4, -4, -4, -4, -4]);
}

#[test]
fn quartiles_interpolate_between_neighbours() {
    let q = Quartiles::new(&[1, 2, 3, 4]);
    let exact: Vec<f64> = q.quarters().iter().map(|v| *v as f64 / 4.0).collect();
    assert_eq!(exact, vec![1.0, 1.75, 2.5, 3.25, 4.0]);
    assert_eq!(q.values(), [1, 1, 2, 3, 4]);
}

#[test]
fn quartiles_sort_a_copy_of_the_sample() {
    let sample = [5, 1, 4, 2, 3];
    let q = Quartiles::new(&sample);
    assert_eq!(q.values(), [1, 2, 3, 4, 5]);
    assert_eq!(sample, [5, 1, 4, 2, 3]);
}

#[test]
fn quartiles_are_ordered() {
    let samples: Vec<Vec<i64>> = vec![
        vec![10, -3, 7, 7, 2, 100, 55],
        vec![0, 0, 1],
        vec![9, 8],
        vec![i64::MAX, i64::MIN, 0],
    ];
    for s in samples.iter() {
        let q = Quartiles::new(s).quarters();
        for i in 0..4 {
            assert!(q[i] <= q[i + 1]);
        }
        assert_eq!(q[0], 4 * (*s.iter().min().unwrap() as i128));
        assert_eq!(q[4], 4 * (*s.iter().max().unwrap() as i128));
    }
}

#[test]
fn quartiles_truncate_negative_values_toward_zero() {
    let q = Quartiles::new(&[-3, -1]);
    assert_eq!(q.quarters(), [-12, -10, -8, -6, -4]);
    assert_eq!(q.values(), [-3, -2, -2, -1, -1]);
}

#[test]
fn any_percentile_interpolates_in_hundredths() {
    let t = vec![10, 20, 30, 40];
    assert_eq!(quantile(&t, 0), 1000);
    assert_eq!(quantile(&t, 100), 4000);
    assert_eq!(quantile(&t, 50), 2500);
    assert_eq!(quantile(&t, 10), 1300);
    assert_eq!(quantile(&t, 90), 3700);
    assert_eq!(quantile(&vec![5], 37), 500);
}
