use poc_kokkos_rs::view::parameters::{compute_stride, MemoryLayout};
use poc_kokkos_rs::view::ViewError;

#[test]
fn stride_right() {
    // dim = [n0, n1, n2, n3]
    let dim: Vec<usize> = vec![3, 4, 5, 6];

    let cmp_stride = compute_stride(&dim, &MemoryLayout::Right).unwrap();
    // n3 * n2 * n1, n3 * n2, n3, 1
    let ref_stride: Vec<usize> = vec![6 * 5 * 4, 6 * 5, 6, 1];

    assert_eq!(cmp_stride, ref_stride);
}

#[test]
fn stride_left() {
    // dim = [n0, n1, n2, n3]
    let dim: Vec<usize> = vec![3, 4, 5, 6];

    let cmp_stride = compute_stride(&dim, &MemoryLayout::Left).unwrap();
    // 1, n0, n0 * n1, n0 * n1 * n2
    let ref_stride: Vec<usize> = vec![1, 3, 3 * 4, 3 * 4 * 5];

    assert_eq!(cmp_stride, ref_stride);
}

#[test]
fn one_d_stride() {
    // 1d view (vector) of length 8
    let dim: Vec<usize> = vec![8];
    let ref_stride: Vec<usize> = vec![1];
    let mut cmp_stride = compute_stride(&dim, &MemoryLayout::Right).unwrap();
    assert_eq!(ref_stride, cmp_stride);
    cmp_stride = compute_stride(&dim, &MemoryLayout::Left).unwrap();
    assert_eq!(ref_stride, cmp_stride);
}

#[test]
fn one_d_stride_any_length() {
    // the 1-D degeneracy does not depend on the extent
    for d in [0usize, 1, 2, 97, usize::MAX] {
        let dim: Vec<usize> = vec![d];
        assert_eq!(compute_stride(&dim, &MemoryLayout::Right).unwrap(), vec![1]);
        assert_eq!(compute_stride(&dim, &MemoryLayout::Left).unwrap(), vec![1]);
    }
}

#[test]
fn custom_stride_returned_unchanged() {
    let dim: Vec<usize> = vec![3, 4];
    let layout = MemoryLayout::Stride { s: vec![1, 3] };
    assert_eq!(compute_stride(&dim, &layout).unwrap(), vec![1, 3]);
}

#[test]
fn custom_stride_length_mismatch() {
    let dim: Vec<usize> = vec![3, 4];
    let layout = MemoryLayout::Stride { s: vec![1, 3, 12] };
    let e = compute_stride(&dim, &layout).unwrap_err();
    assert!(matches!(e, ViewError::ValueError(_)));
}

#[test]
fn stride_depth_out_of_range() {
    let empty: Vec<usize> = vec![];
    let e = compute_stride(&empty, &MemoryLayout::Right).unwrap_err();
    assert!(matches!(e, ViewError::ValueError(_)));

    let deep: Vec<usize> = vec![1; 9];
    let e = compute_stride(&deep, &MemoryLayout::Right).unwrap_err();
    assert!(matches!(e, ViewError::ValueError(_)));
}

#[test]
fn stride_overflow_reported() {
    // the running product of the trailing extents overflows a machine word
    let dim: Vec<usize> = vec![2, usize::MAX, usize::MAX];
    let e = compute_stride(&dim, &MemoryLayout::Right).unwrap_err();
    assert!(matches!(e, ViewError::Allocation(_)));
    let e = compute_stride(&dim, &MemoryLayout::Left).unwrap_err();
    assert!(matches!(e, ViewError::Allocation(_)));
}
