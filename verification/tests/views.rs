use poc_kokkos_rs::view::parameters::{Layout, MemoryLayout};
use poc_kokkos_rs::view::{DataType, ViewBase, ViewError, ViewOwned};

const SIZE: usize = 10;
const OOB: usize = 12;
const IB: usize = 7;

#[test]
fn out_of_bounds() {
    let dat: ViewBase<f64> = ViewBase::new(Layout::Right, vec![SIZE]).unwrap();
    let e = dat.get(&vec![OOB]).unwrap_err();
    assert!(matches!(e, ViewError::ValueError(_)));
}

#[test]
fn set_and_get() {
    let mut dat: ViewBase<f64> = ViewBase::new(Layout::Right, vec![SIZE]).unwrap();
    dat.set(&vec![IB], 10382.2891).unwrap();
    assert_eq!(dat.get(&vec![IB]).unwrap(), 10382.2891);
}

#[test]
fn default_value() {
    let dat: ViewBase<f64> = ViewBase::new(Layout::Right, vec![SIZE]).unwrap();
    for idx in 0..SIZE {
        assert_eq!(f64::default(), dat.get(&vec![idx]).unwrap());
    }
}

#[test]
fn fill() {
    let mut dat: ViewBase<f64> = ViewBase::new(Layout::Right, vec![SIZE]).unwrap();
    for idx in 0..SIZE {
        assert_eq!(f64::default(), dat.get(&vec![idx]).unwrap());
    }
    dat.fill(9534.284).unwrap();
    for idx in 0..SIZE {
        assert_eq!(9534.284, dat.get(&vec![idx]).unwrap());
    }
}

#[test]
fn fill_refused_on_readonly_mirror() {
    let owner: ViewBase<f64> = ViewBase::new(Layout::Right, vec![SIZE]).unwrap();
    let mut ro = owner.create_mirror().unwrap();
    let e = ro.fill(1.0).unwrap_err();
    assert!(matches!(e, ViewError::ValueError(_)));
}

#[test]
fn new_from_data_keeps_values() {
    let v: ViewOwned<f64> =
        ViewBase::new_from_data(vec![1.0, 2.0, 3.0, 4.0, 5.0, 6.0], Layout::Right, vec![2, 3])
            .unwrap();
    assert_eq!(v.get(&vec![0, 0]).unwrap(), 1.0);
    assert_eq!(v.get(&vec![0, 2]).unwrap(), 3.0);
    assert_eq!(v.get(&vec![1, 0]).unwrap(), 4.0);
    assert_eq!(v.get(&vec![1, 2]).unwrap(), 6.0);
}

#[test]
fn left_layout_indexing() {
    // column-major: the first index is contiguous
    let v: ViewOwned<i64> =
        ViewBase::new_from_data(vec![1, 2, 3, 4, 5, 6], Layout::Left, vec![2, 3]).unwrap();
    assert_eq!(v.get(&vec![0, 0]).unwrap(), 1);
    assert_eq!(v.get(&vec![1, 0]).unwrap(), 2);
    assert_eq!(v.get(&vec![0, 1]).unwrap(), 3);
    assert_eq!(v.get(&vec![1, 2]).unwrap(), 6);
}

#[test]
fn new_from_data_length_mismatch() {
    let e = ViewBase::<f64>::new_from_data(vec![0.0; 5], Layout::Right, vec![2, 3]).unwrap_err();
    assert!(matches!(e, ViewError::ValueError(_)));
}

#[test]
fn new_depth_out_of_range() {
    let e = ViewBase::<f64>::new(Layout::Right, vec![]).unwrap_err();
    assert!(matches!(e, ViewError::ValueError(_)));
    let e = ViewBase::<f64>::new(Layout::Right, vec![1; 9]).unwrap_err();
    assert!(matches!(e, ViewError::ValueError(_)));
}

#[test]
fn new_capacity_overflow_reported() {
    let e = ViewBase::<f64>::new(MemoryLayout::Stride { s: vec![1, 1] }, vec![usize::MAX, 2])
        .unwrap_err();
    assert!(matches!(e, ViewError::Allocation(_)));
}

#[test]
fn index_dimensionality_mismatch() {
    let v: ViewBase<f64> = ViewBase::new(Layout::Right, vec![2, 3]).unwrap();
    let e = v.get(&vec![1]).unwrap_err();
    assert!(matches!(e, ViewError::ValueError(_)));
}

#[test]
fn flat_idx_matches_layout() {
    let v: ViewBase<f64> = ViewBase::new(Layout::Right, vec![3, 4, 5, 6]).unwrap();
    // stride is [120, 30, 6, 1]
    assert_eq!(v.flat_idx(&vec![0, 0, 0, 0]), 0);
    assert_eq!(v.flat_idx(&vec![1, 2, 3, 4]), 120 + 60 + 18 + 4);
    assert_eq!(v.flat_idx(&vec![2, 3, 4, 5]), 3 * 4 * 5 * 6 - 1);
}

#[test]
fn flat_idx_bijection_sample() {
    // every valid tuple of a [3, 4] box lands on a distinct offset below 12
    let v: ViewBase<f64> = ViewBase::new(Layout::Right, vec![3, 4]).unwrap();
    let mut seen = vec![false; 12];
    for i in 0..3 {
        for j in 0..4 {
            let f = v.flat_idx(&vec![i, j]);
            assert!(f < 12);
            assert!(!seen[f]);
            seen[f] = true;
        }
    }
    assert!(seen.iter().all(|b| *b));
}

#[test]
fn custom_stride_view_access() {
    // a caller-supplied stride is used as given; incompatible strides make
    // some valid tuples project outside the buffer, which is reported
    let mut v: ViewBase<i64> = ViewBase::new(
        MemoryLayout::Stride { s: vec![1, 3] },
        vec![2, 2],
    )
    .unwrap();
    v.set(&vec![1, 0], 7).unwrap(); // flat offset 1
    assert_eq!(v.get(&vec![1, 0]).unwrap(), 7);
    // (1, 1) projects to 1 + 3 = 4 >= capacity 4
    let e = v.get(&vec![1, 1]).unwrap_err();
    assert!(matches!(e, ViewError::ValueError(_)));
}

#[test]
fn mirror_contents_at_creation() {
    let mut owner: ViewOwned<f64> = ViewBase::new(Layout::Right, vec![2, 2]).unwrap();
    owner.set(&vec![1, 1], 4.5).unwrap();
    let mirror = owner.create_mirror().unwrap();
    assert!(matches!(mirror.data, DataType::Borrowed(_)));
    assert_eq!(mirror.get(&vec![1, 1]).unwrap(), 4.5);
    assert_eq!(mirror.dim, owner.dim);
    assert_eq!(mirror.stride, owner.stride);
}

#[test]
fn mutable_mirror_from_owner() {
    // a freshly constructed owning view produces a mutable mirror
    let mut owner: ViewOwned<f64> = ViewBase::new(Layout::Right, vec![4]).unwrap();
    let mut rw = owner.create_mutable_mirror().unwrap();
    assert!(matches!(rw.data, DataType::MutBorrowed(_)));
    rw.set(&vec![2], 7.0).unwrap();
    assert_eq!(rw.get(&vec![2]).unwrap(), 7.0);
}

#[test]
fn mutable_mirror_exactly_once() {
    // the runtime borrow guard: the owner hands out exactly one read-write
    // mirror; a second request is reported as double mirroring
    let mut owner: ViewOwned<f64> = ViewBase::new(Layout::Right, vec![4]).unwrap();
    assert!(owner.create_mutable_mirror().is_ok());
    let e = owner.create_mutable_mirror().unwrap_err();
    assert!(matches!(e, ViewError::DoubleMirroring(_)));
    // read-only mirrors remain available
    assert!(owner.create_mirror().is_ok());
}

#[test]
fn double_mirroring_reported() {
    // a view holding a Borrowed or MutBorrowed handle cannot be mirrored again
    let mut owner: ViewOwned<f64> = ViewBase::new(Layout::Right, vec![4]).unwrap();
    let mut ro = owner.create_mirror().unwrap();
    let e = ro.create_mutable_mirror().unwrap_err();
    assert!(matches!(e, ViewError::DoubleMirroring(_)));
    let e = ro.create_mirror().unwrap_err();
    assert!(matches!(e, ViewError::DoubleMirroring(_)));

    let mut rw = owner.create_mutable_mirror().unwrap();
    let e = rw.create_mutable_mirror().unwrap_err();
    assert!(matches!(e, ViewError::DoubleMirroring(_)));
}

#[test]
fn readonly_mirror_refuses_writes() {
    let owner: ViewOwned<f64> = ViewBase::new(Layout::Right, vec![4]).unwrap();
    let mut ro = owner.create_mirror().unwrap();
    let e = ro.set(&vec![0], 1.0).unwrap_err();
    assert!(matches!(e, ViewError::ValueError(_)));
}

#[test]
fn raw_val_non_owning_reported() {
    let owner: ViewOwned<f64> = ViewBase::new(Layout::Right, vec![4]).unwrap();
    let ro = owner.create_mirror().unwrap();
    let e = ro.raw_val().unwrap_err();
    assert!(matches!(e, ViewError::ValueError(_)));
    assert_eq!(owner.raw_val().unwrap(), vec![0.0; 4]);
}
