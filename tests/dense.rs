use linalg_core::dense::{onenorm_matrix_power_nonm, SquareMatrix};
use linalg_core::mat1::Mat1;
use linalg_core::pade::{factorial, pade_error_coefficient};
use linalg_core::transform::transform;
use linalg_core::transform2d::{scale2d, translate2d};

fn matrix(n: usize, data: Vec<i64>) -> SquareMatrix {
    SquareMatrix::from_row_slice(n, &data).unwrap()
}

fn entries(m: &SquareMatrix) -> Vec<i64> {
    let mut out = Vec::new();
    for i in 0..m.dim() {
        for j in 0..m.dim() {
            out.push(m.get(i, j));
        }
    }
    out
}

#[test]
fn one_norm() {
    let m = matrix(3, vec![-3, 5, 7, 2, 6, 4, 0, 2, 8]);
    assert_eq!(linalg_core::dense::one_norm(&m), 19);
}

#[test]
fn one_norm_single_entry() {
    assert_eq!(linalg_core::dense::one_norm(&matrix(1, vec![-4])), 4);
}

#[test]
fn one_norm_of_zero_matrix_is_zero() {
    assert_eq!(linalg_core::dense::one_norm(&matrix(2, vec![0, 0, 0, 0])), 0);
}

#[test]
fn from_row_slice_rejects_wrong_length() {
    assert!(SquareMatrix::from_row_slice(2, &vec![1, 2, 3]).is_none());
    assert!(SquareMatrix::from_row_slice(0, &vec![]).is_some());
}

#[test]
fn abs_takes_absolute_values() {
    let m = matrix(2, vec![-1, 2, -3, 4]);
    assert_eq!(entries(&m.abs()), vec![1, 2, 3, 4]);
}

#[test]
fn power_norm_of_square() {
    // [[1, 2], [3, 4]]^2 = [[7, 10], [15, 22]]: column sums 22 and 32.
    let m = matrix(2, vec![1, 2, 3, 4]);
    assert_eq!(onenorm_matrix_power_nonm(&m, 2), 32);
}

#[test]
fn power_norm_of_first_power_is_one_norm() {
    let m = matrix(3, vec![3, 5, 7, 2, 6, 4, 0, 2, 8]);
    assert_eq!(onenorm_matrix_power_nonm(&m, 1), 19);
}

#[test]
fn power_norm_of_zeroth_power_is_one() {
    let m = matrix(2, vec![5, 0, 0, 5]);
    assert_eq!(onenorm_matrix_power_nonm(&m, 0), 1);
}

#[test]
fn power_norm_of_zero_matrix_is_zero() {
    let m = matrix(3, vec![0; 9]);
    assert_eq!(onenorm_matrix_power_nonm(&m, 7), 0);
}

#[test]
fn factorial_values() {
    assert_eq!(factorial(1), 1);
    assert_eq!(factorial(5), 120);
    assert_eq!(factorial(27), 10888869450418352160768000000);
    assert_eq!(factorial(34), 295232799039604140847618609643520000000);
}

#[test]
fn pade_error_coefficients() {
    // C(6, 3) * 7! = 20 * 5040
    assert_eq!(pade_error_coefficient(3), 100800);
    // C(10, 5) * 11! = 252 * 39916800
    assert_eq!(pade_error_coefficient(5), 10059033600);
    // C(26, 13) * 27!
    assert_eq!(pade_error_coefficient(13), 10400600 * 10888869450418352160768000000u128);
}

#[test]
fn scale2d_scales_first_two_columns() {
    let m = matrix(3, vec![1, 2, 3, 4, 5, 6, 7, 8, 9]);
    let r = scale2d(&m, &[2, -3]);
    assert_eq!(entries(&r), vec![2, -6, 3, 8, -15, 6, 14, -24, 9]);
}

#[test]
fn translate2d_moves_last_column() {
    let m = matrix(3, vec![1, 2, 3, 4, 5, 6, 7, 8, 9]);
    let r = translate2d(&m, &[10, 20]);
    assert_eq!(entries(&r), vec![1, 2, 53, 4, 5, 146, 7, 8, 239]);
}

#[test]
fn translate2d_of_identity_is_translation() {
    let m = matrix(3, vec![1, 0, 0, 0, 1, 0, 0, 0, 1]);
    let r = translate2d(&m, &[4, -5]);
    assert_eq!(entries(&r), vec![1, 0, 4, 0, 1, -5, 0, 0, 1]);
}

#[test]
fn mat1_holds_its_entry() {
    let m = Mat1::new(7i64);
    assert_eq!(m.m11(), 7);
    assert_eq!(m.transposed(), m);
    assert_eq!(Mat1::<i64>::dim(), 1);
}

#[test]
fn transform_keeps_its_parts() {
    let t = transform(&3i64, &(1i64, 2i64));
    assert_eq!(t.delta_transform(), 3);
    assert_eq!(t.translation(), (1, 2));
}
