use linalg_core::csc::{spadd_csc_prealloc, spmm_csc_prealloc, CscMatrix};
use linalg_core::csr::{spadd_csr_prealloc, spmm_csr_prealloc, CsrMatrix};
use linalg_core::ops::{Op, OperationErrorKind};
use linalg_core::pattern::{SparsityPattern, SparsityPatternFormatError};

fn pattern(major: usize, minor: usize, offsets: Vec<usize>, indices: Vec<usize>) -> SparsityPattern {
    SparsityPattern::try_from(major, minor, offsets, indices).unwrap()
}

fn csr(rows: usize, cols: usize, offsets: Vec<usize>, indices: Vec<usize>, values: Vec<i64>) -> CsrMatrix {
    CsrMatrix::try_from_pattern_and_values(pattern(rows, cols, offsets, indices), values).unwrap()
}

fn csc(rows: usize, cols: usize, offsets: Vec<usize>, indices: Vec<usize>, values: Vec<i64>) -> CscMatrix {
    CscMatrix::try_from_pattern_and_values(pattern(cols, rows, offsets, indices), values).unwrap()
}

fn pattern_error(major: usize, minor: usize, offsets: Vec<usize>, indices: Vec<usize>) -> SparsityPatternFormatError {
    match SparsityPattern::try_from(major, minor, offsets, indices) {
        Ok(_) => panic!("the pattern was accepted"),
        Err(e) => e,
    }
}

#[test]
fn pattern_rejects_nonzero_first_offset() {
    assert_eq!(pattern_error(2, 3, vec![1, 1, 2], vec![0, 1]), SparsityPatternFormatError::InvalidOffsetFirstLast);
}

#[test]
fn pattern_rejects_duplicate_minor_index() {
    assert_eq!(pattern_error(1, 3, vec![0, 2], vec![1, 1]), SparsityPatternFormatError::DuplicateEntry);
}

#[test]
fn pattern_rejects_index_equal_to_minor_dim() {
    assert_eq!(pattern_error(1, 3, vec![0, 1], vec![3]), SparsityPatternFormatError::MinorIndexOutOfBounds);
}

#[test]
fn pattern_rejects_wrong_offset_count() {
    assert_eq!(pattern_error(2, 3, vec![0, 1], vec![0]), SparsityPatternFormatError::InvalidOffsetArrayLength);
    assert_eq!(pattern_error(0, 3, vec![], vec![]), SparsityPatternFormatError::InvalidOffsetArrayLength);
}

#[test]
fn pattern_rejects_last_offset_other_than_nnz() {
    assert_eq!(pattern_error(1, 3, vec![0, 1], vec![0, 1]), SparsityPatternFormatError::InvalidOffsetFirstLast);
}

#[test]
fn pattern_rejects_decreasing_offsets() {
    assert_eq!(pattern_error(2, 3, vec![0, 2, 1], vec![0]), SparsityPatternFormatError::NonmonotonicOffsets);
}

#[test]
fn pattern_rejects_unsorted_lane() {
    assert_eq!(pattern_error(1, 3, vec![0, 2], vec![2, 1]), SparsityPatternFormatError::NonmonotonicMinorIndices);
}

#[test]
fn pattern_reports_first_bad_slot() {
    assert_eq!(pattern_error(1, 3, vec![0, 3], vec![3, 1, 1]), SparsityPatternFormatError::MinorIndexOutOfBounds);
    assert_eq!(pattern_error(1, 6, vec![0, 3], vec![2, 1, 9]), SparsityPatternFormatError::NonmonotonicMinorIndices);
    assert_eq!(pattern_error(1, 6, vec![0, 3], vec![1, 1, 9]), SparsityPatternFormatError::DuplicateEntry);
}

#[test]
fn pattern_allows_equal_indices_in_different_lanes() {
    let p = pattern(2, 3, vec![0, 1, 2], vec![2, 2]);
    assert_eq!(p.nnz(), 2);
}

#[test]
fn pattern_accessors_and_lookup() {
    let p = pattern(3, 4, vec![0, 2, 2, 5], vec![0, 3, 1, 2, 3]);
    assert_eq!(p.major_dim(), 3);
    assert_eq!(p.minor_dim(), 4);
    assert_eq!(p.nnz(), 5);
    assert_eq!(p.major_offsets(), &vec![0, 2, 2, 5]);
    assert_eq!(p.minor_indices(), &vec![0, 3, 1, 2, 3]);
    assert_eq!(p.lane(0), &[0, 3]);
    assert!(p.lane(1).is_empty());
    assert_eq!(p.lane(2), &[1, 2, 3]);
    assert_eq!(p.lane_bounds(2), (2, 5));
    assert_eq!(p.get_entry_offset(0, 3), Some(1));
    assert_eq!(p.get_entry_offset(2, 1), Some(2));
    assert_eq!(p.get_entry_offset(2, 3), Some(4));
    assert_eq!(p.get_entry_offset(0, 1), None);
    assert_eq!(p.get_entry_offset(1, 0), None);
    assert_eq!(p.get_entry_offset(3, 0), None);
}

#[test]
fn matrix_needs_one_value_per_entry() {
    assert!(CsrMatrix::try_from_pattern_and_values(pattern(1, 2, vec![0, 1], vec![0]), vec![1, 2]).is_none());
}

#[test]
fn csr_accessors() {
    let a = csr(2, 3, vec![0, 2, 3], vec![0, 2, 1], vec![5, 6, 7]);
    assert_eq!(a.nrows(), 2);
    assert_eq!(a.ncols(), 3);
    assert_eq!(a.nnz(), 3);
    assert_eq!(a.values(), &vec![5, 6, 7]);
    assert_eq!(a.get_entry(0, 2), Some(6));
    assert_eq!(a.get_entry(1, 1), Some(7));
    assert_eq!(a.get_entry(1, 0), None);
    assert_eq!(a.pattern().nnz(), 3);
}

#[test]
fn spadd_into_identical_pattern_copies() {
    let a = csr(2, 3, vec![0, 2, 3], vec![0, 2, 1], vec![5, -6, 7]);
    let mut c = csr(2, 3, vec![0, 2, 3], vec![0, 2, 1], vec![100, 200, 300]);
    assert!(spadd_csr_prealloc(0, &mut c, 1, Op::NoOp(&a)).is_ok());
    assert_eq!(c.values(), a.values());
}

#[test]
fn spadd_fails_on_missing_position() {
    let a = csr(2, 3, vec![0, 2, 3], vec![0, 2, 1], vec![5, 6, 7]);
    let mut c = csr(2, 3, vec![0, 1, 2], vec![0, 1], vec![1, 2]);
    let e = spadd_csr_prealloc(1, &mut c, 1, Op::NoOp(&a)).unwrap_err();
    assert_eq!(e.kind(), &OperationErrorKind::InvalidPattern);
    assert!(!e.message().is_empty());
    assert_eq!(c.values(), &vec![1, 2]);
}

#[test]
fn spadd_scales_and_adds() {
    // c has an extra entry (1, 2) that a lacks: it is only scaled.
    let a = csr(2, 3, vec![0, 1, 2], vec![0, 1], vec![5, 7]);
    let mut c = csr(2, 3, vec![0, 1, 3], vec![0, 1, 2], vec![1, 2, 3]);
    assert!(spadd_csr_prealloc(2, &mut c, 3, Op::NoOp(&a)).is_ok());
    assert_eq!(c.values(), &vec![17, 25, 6]);
}

#[test]
fn spadd_transposed_operand() {
    // a is 2 x 3 with a(0, 2) = 4 and a(1, 0) = 9; its transpose is 3 x 2.
    let a = csr(2, 3, vec![0, 1, 2], vec![2, 0], vec![4, 9]);
    let mut c = csr(3, 2, vec![0, 1, 1, 2], vec![1, 0], vec![1, 1]);
    assert!(spadd_csr_prealloc(1, &mut c, 1, Op::Transpose(&a)).is_ok());
    assert_eq!(c.values(), &vec![10, 5]);
}

#[test]
fn spadd_transposed_operand_missing_position() {
    let a = csr(2, 3, vec![0, 1, 2], vec![2, 0], vec![4, 9]);
    let mut c = csr(3, 2, vec![0, 1, 1, 1], vec![1], vec![1]);
    assert!(spadd_csr_prealloc(1, &mut c, 1, Op::Transpose(&a)).is_err());
    assert_eq!(c.values(), &vec![1]);
}

// a = [[1, 2], [0, 3]], b = [[4, 0], [5, 6]], a * b = [[14, 12], [15, 18]].
fn a_csr() -> CsrMatrix {
    csr(2, 2, vec![0, 2, 3], vec![0, 1, 1], vec![1, 2, 3])
}

fn b_csr() -> CsrMatrix {
    csr(2, 2, vec![0, 1, 3], vec![0, 0, 1], vec![4, 5, 6])
}

#[test]
fn spmm_product_into_full_pattern() {
    let mut c = csr(2, 2, vec![0, 2, 4], vec![0, 1, 0, 1], vec![1, 1, 1, 1]);
    assert!(spmm_csr_prealloc(1, &mut c, 1, Op::NoOp(&a_csr()), Op::NoOp(&b_csr())).is_ok());
    assert_eq!(c.values(), &vec![15, 13, 16, 19]);
}

#[test]
fn spmm_scales_by_alpha_and_beta() {
    let mut c = csr(2, 2, vec![0, 2, 4], vec![0, 1, 0, 1], vec![1, 2, 3, 4]);
    assert!(spmm_csr_prealloc(-1, &mut c, 2, Op::NoOp(&a_csr()), Op::NoOp(&b_csr())).is_ok());
    assert_eq!(c.values(), &vec![27, 22, 27, 32]);
}

#[test]
fn spmm_fails_on_missing_position() {
    // The product is nonzero at (1, 0), which c lacks.
    let mut c = csr(2, 2, vec![0, 2, 3], vec![0, 1, 1], vec![1, 1, 1]);
    let e = spmm_csr_prealloc(1, &mut c, 1, Op::NoOp(&a_csr()), Op::NoOp(&b_csr())).unwrap_err();
    assert_eq!(e.kind(), &OperationErrorKind::InvalidPattern);
    assert_eq!(c.values(), &vec![1, 1, 1]);
}

#[test]
fn spmm_transposed_left_operand() {
    // a^T * b = [[1, 0], [2, 3]] * [[4, 0], [5, 6]] = [[4, 0], [23, 18]]
    let mut c = csr(2, 2, vec![0, 2, 4], vec![0, 1, 0, 1], vec![9, 9, 9, 9]);
    assert!(spmm_csr_prealloc(0, &mut c, 1, Op::Transpose(&a_csr()), Op::NoOp(&b_csr())).is_ok());
    assert_eq!(c.values(), &vec![4, 0, 23, 18]);
}

#[test]
fn spmm_both_transposed() {
    // a^T * b^T = [[1, 0], [2, 3]] * [[4, 5], [0, 6]] = [[4, 5], [8, 28]]
    let mut c = csr(2, 2, vec![0, 2, 4], vec![0, 1, 0, 1], vec![0, 0, 0, 0]);
    assert!(spmm_csr_prealloc(1, &mut c, 1, Op::Transpose(&a_csr()), Op::Transpose(&b_csr())).is_ok());
    assert_eq!(c.values(), &vec![4, 5, 8, 28]);
}

#[test]
fn spmm_rectangular() {
    // a is 1 x 3 = [1, 2, 3]; b is 3 x 1 = [4, 5, 6]^T; a * b = [32].
    let a = csr(1, 3, vec![0, 3], vec![0, 1, 2], vec![1, 2, 3]);
    let b = csr(3, 1, vec![0, 1, 2, 3], vec![0, 0, 0], vec![4, 5, 6]);
    let mut c = csr(1, 1, vec![0, 1], vec![0], vec![0]);
    assert!(spmm_csr_prealloc(0, &mut c, 1, Op::NoOp(&a), Op::NoOp(&b)).is_ok());
    assert_eq!(c.values(), &vec![32]);
}

#[test]
fn csc_accessors() {
    let a = csc(2, 2, vec![0, 1, 3], vec![0, 0, 1], vec![1, 2, 3]);
    assert_eq!(a.nrows(), 2);
    assert_eq!(a.ncols(), 2);
    assert_eq!(a.get_entry(0, 1), Some(2));
    assert_eq!(a.get_entry(1, 0), None);
    assert_eq!(a.get_entry(1, 1), Some(3));
}

#[test]
fn spmm_csc_product() {
    // The same a and b as above, stored by column.
    let a = csc(2, 2, vec![0, 1, 3], vec![0, 0, 1], vec![1, 2, 3]);
    let b = csc(2, 2, vec![0, 2, 3], vec![0, 1, 1], vec![4, 5, 6]);
    let mut c = csc(2, 2, vec![0, 2, 4], vec![0, 1, 0, 1], vec![1, 1, 1, 1]);
    assert!(spmm_csc_prealloc(1, &mut c, 1, Op::NoOp(&a), Op::NoOp(&b)).is_ok());
    // column 0: 14 + 1, 15 + 1; column 1: 12 + 1, 18 + 1
    assert_eq!(c.values(), &vec![15, 16, 13, 19]);
}

#[test]
fn spmm_csc_transposed_left_operand() {
    let a = csc(2, 2, vec![0, 1, 3], vec![0, 0, 1], vec![1, 2, 3]);
    let b = csc(2, 2, vec![0, 2, 3], vec![0, 1, 1], vec![4, 5, 6]);
    let mut c = csc(2, 2, vec![0, 2, 4], vec![0, 1, 0, 1], vec![0, 0, 0, 0]);
    assert!(spmm_csc_prealloc(0, &mut c, 1, Op::Transpose(&a), Op::NoOp(&b)).is_ok());
    // a^T * b = [[4, 0], [23, 18]], by column
    assert_eq!(c.values(), &vec![4, 23, 0, 18]);
}

#[test]
fn spmm_csc_fails_on_missing_position() {
    let a = csc(2, 2, vec![0, 1, 3], vec![0, 0, 1], vec![1, 2, 3]);
    let b = csc(2, 2, vec![0, 2, 3], vec![0, 1, 1], vec![4, 5, 6]);
    let mut c = csc(2, 2, vec![0, 1, 3], vec![0, 0, 1], vec![1, 1, 1]);
    assert!(spmm_csc_prealloc(1, &mut c, 1, Op::NoOp(&a), Op::NoOp(&b)).is_err());
    assert_eq!(c.values(), &vec![1, 1, 1]);
}

#[test]
fn spadd_csc_transposed() {
    // a = [[1, 2], [0, 3]] by column; c := a + a^T = [[2, 2], [2, 6]]
    let a = csc(2, 2, vec![0, 1, 3], vec![0, 0, 1], vec![1, 2, 3]);
    let mut c = csc(2, 2, vec![0, 2, 4], vec![0, 1, 0, 1], vec![1, 0, 2, 3]);
    assert!(spadd_csc_prealloc(1, &mut c, 1, Op::Transpose(&a)).is_ok());
    assert_eq!(c.values(), &vec![2, 2, 2, 6]);
}

#[test]
fn spadd_csc_fails_on_missing_position() {
    let a = csc(2, 2, vec![0, 1, 3], vec![0, 0, 1], vec![1, 2, 3]);
    let mut c = csc(2, 2, vec![0, 1, 2], vec![0, 1], vec![1, 1]);
    assert!(spadd_csc_prealloc(1, &mut c, 1, Op::NoOp(&a)).is_err());
    assert_eq!(c.values(), &vec![1, 1]);
}
