use linalg_core::glm::{comp_add, comp_max, comp_min, comp_mul, max, max2, max3, max4, min, min2, min3, min4};

#[test]
fn max_with_scalar() {
    assert_eq!(max(&vec![1, 5, -3], 2), vec![2, 5, 2]);
}

#[test]
fn max_of_vectors() {
    let a = vec![1, 8, -3];
    let b = vec![4, 2, -7];
    let c = vec![0, 9, -5];
    let d = vec![6, 1, -1];
    assert_eq!(max2(&a, &b), vec![4, 8, -3]);
    assert_eq!(max3(&a, &b, &c), vec![4, 9, -3]);
    assert_eq!(max4(&a, &b, &c, &d), vec![6, 9, -1]);
}

#[test]
fn min_with_scalar() {
    assert_eq!(min(&vec![1, 5, -3], 2), vec![1, 2, -3]);
}

#[test]
fn min_of_vectors() {
    let a = vec![1, 8, -3];
    let b = vec![4, 2, -7];
    let c = vec![0, 9, -5];
    let d = vec![6, 1, -1];
    assert_eq!(min2(&a, &b), vec![1, 2, -7]);
    assert_eq!(min3(&a, &b, &c), vec![0, 2, -7]);
    assert_eq!(min4(&a, &b, &c, &d), vec![0, 1, -7]);
}

#[test]
fn component_folds() {
    let m = vec![2, -3, 4, 1];
    assert_eq!(comp_add(&m), 4);
    assert_eq!(comp_mul(&m), -24);
    assert_eq!(comp_max(&m), 4);
    assert_eq!(comp_min(&m), -3);
}

#[test]
fn component_folds_of_empty() {
    let m: Vec<i64> = vec![];
    assert_eq!(comp_add(&m), 0);
    assert_eq!(comp_mul(&m), 1);
    assert_eq!(comp_max(&m), i64::MIN);
    assert_eq!(comp_min(&m), i64::MAX);
}
