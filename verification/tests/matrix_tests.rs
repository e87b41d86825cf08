use eclair_routing::matrix::{compute_matrix, compute_non_square_matrix, LENGTH_MISMATCH};

fn manhattan(lat1: f64, lon1: f64, lat2: f64, lon2: f64) -> Result<(f64, f64), String> {
    let d = (lat2 - lat1).abs() + (lon2 - lon1).abs();
    Ok((d, 2.0 * d))
}

#[test]
fn square_matrix_is_symmetric_with_zero_diagonal() {
    let lats = [0.0, 1.0, 3.0];
    let lons = [0.0, 2.0, 5.0];
    let (dist, time) = compute_matrix(&lats, &lons, 0.0, manhattan).unwrap();
    assert_eq!(dist.len(), 9);
    assert_eq!(time.len(), 9);
    assert_eq!(dist, vec![0.0, 3.0, 8.0, 3.0, 0.0, 5.0, 8.0, 5.0, 0.0]);
    assert_eq!(time, vec![0.0, 6.0, 16.0, 6.0, 0.0, 10.0, 16.0, 10.0, 0.0]);
}

#[test]
fn square_matrix_estimates_each_pair_once_from_the_lower_index() {
    // An estimator that is not symmetric: the stored value is the one for
    // (i, j) with i < j, mirrored.
    let directed = |a: f64, _b: f64, c: f64, _d: f64| -> Result<(f64, f64), String> { Ok((c - a, a)) };
    let lats = [1.0, 4.0];
    let lons = [0.0, 0.0];
    let (dist, time) = compute_matrix(&lats, &lons, -1.0, directed).unwrap();
    assert_eq!(dist, vec![-1.0, 3.0, 3.0, -1.0]);
    assert_eq!(time, vec![-1.0, 1.0, 1.0, -1.0]);
}

#[test]
fn square_matrix_of_no_points_is_empty() {
    let (dist, time) = compute_matrix::<f64, f64, _>(&[], &[], 0.0, manhattan).unwrap();
    assert!(dist.is_empty());
    assert!(time.is_empty());
}

#[test]
fn square_matrix_length_mismatch() {
    let err = compute_matrix(&[0.0, 1.0], &[0.0], 0.0, manhattan).unwrap_err();
    assert_eq!(err, LENGTH_MISMATCH);
    assert_eq!(err, "lats and lons must have the same length");
}

#[test]
fn square_matrix_passes_the_first_error_on() {
    let failing = |a: f64, _b: f64, c: f64, _d: f64| -> Result<(f64, f64), String> {
        if c >= 2.0 {
            Err(format!("no route {a}->{c}"))
        } else {
            Ok((1.0, 1.0))
        }
    };
    let err = compute_matrix(&[0.0, 1.0, 2.0, 3.0], &[0.0; 4], 0.0, failing).unwrap_err();
    assert_eq!(err, "no route 0->2");
}

#[test]
fn non_square_matrix_is_row_major() {
    let (dist, time) =
        compute_non_square_matrix(&[0.0, 10.0], &[0.0, 0.0], &[1.0, 2.0, 4.0], &[0.0, 0.0, 0.0], manhattan)
            .unwrap();
    assert_eq!(dist, vec![1.0, 2.0, 4.0, 9.0, 8.0, 6.0]);
    assert_eq!(time, vec![2.0, 4.0, 8.0, 18.0, 16.0, 12.0]);
}

#[test]
fn non_square_matrix_length_mismatch() {
    let err = compute_non_square_matrix(&[0.0], &[0.0], &[1.0, 2.0], &[0.0], manhattan).unwrap_err();
    assert_eq!(err, LENGTH_MISMATCH);
    let err = compute_non_square_matrix(&[0.0], &[0.0, 1.0], &[1.0], &[0.0], manhattan).unwrap_err();
    assert_eq!(err, LENGTH_MISMATCH);
}

#[test]
fn non_square_matrix_with_no_destinations() {
    let (dist, time) = compute_non_square_matrix(&[0.0, 1.0], &[0.0, 1.0], &[], &[], manhattan).unwrap();
    assert!(dist.is_empty());
    assert!(time.is_empty());
}

#[test]
fn non_square_matrix_passes_the_error_on() {
    let failing = |_a: f64, _b: f64, _c: f64, _d: f64| -> Result<(f64, f64), String> { Err("boom".to_string()) };
    let err = compute_non_square_matrix(&[0.0], &[0.0], &[1.0], &[0.0], failing).unwrap_err();
    assert_eq!(err, "boom");
}

#[test]
fn non_square_matrix_passes_the_first_error_on() {
    let failing = |a: f64, _b: f64, c: f64, _d: f64| -> Result<(f64, f64), String> {
        if a + c >= 3.0 {
            Err(format!("no route {a}->{c}"))
        } else {
            Ok((1.0, 1.0))
        }
    };
    let err = compute_non_square_matrix(&[0.0, 1.0, 2.0], &[0.0; 3], &[1.0, 2.0, 3.0], &[0.0; 3], failing)
        .unwrap_err();
    assert_eq!(err, "no route 0->3");
}

#[test]
fn square_matrix_equals_od_matrix_over_the_same_points() {
    let lats = [0.0, 1.0, 3.0, 7.5];
    let lons = [2.0, -1.0, 0.5, 4.0];
    let square = compute_matrix(&lats, &lons, 0.0, manhattan).unwrap();
    let od = compute_non_square_matrix(&lats, &lons, &lats, &lons, manhattan).unwrap();
    assert_eq!(square, od);
}
