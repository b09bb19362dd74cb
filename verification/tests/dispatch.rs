use std::cell::RefCell;
use std::sync::Mutex;

use poc_kokkos_rs::functor::KernelArgs;
use poc_kokkos_rs::routines::dispatch::{chunk_bounds, cpu, gpu, serial, DispatchError};
use poc_kokkos_rs::routines::parallel_for;
use poc_kokkos_rs::routines::parameters::{ExecutionPolicy, ExecutionSpace, RangePolicy, Schedule};
use poc_kokkos_rs::routines::StatementError;
use poc_kokkos_rs::view::parameters::Layout;
use poc_kokkos_rs::view::ViewOwned;

#[test]
fn simple_range() {
    let mat = RefCell::new(
        ViewOwned::<f64>::new_from_data(vec![0.0; 15], Layout::Right, vec![15]).unwrap(),
    );
    let ref_mat = ViewOwned::<f64>::new_from_data(vec![1.0; 15], Layout::Right, vec![15]).unwrap();
    let rangep = RangePolicy::<1>::RangePolicy(0..15);
    let execp = ExecutionPolicy {
        space: ExecutionSpace::DeviceCPU,
        range: rangep,
        schedule: Schedule::default(),
    };

    let kernel = |arg: KernelArgs<1>| match arg {
        KernelArgs::Index1D(i) => {
            mat.borrow_mut().set(&vec![i], 1.0).unwrap();
        }
        KernelArgs::IndexND(_) => unreachable!(),
        KernelArgs::Handle(_) => unreachable!(),
    };

    serial(execp, kernel).unwrap();

    assert_eq!(
        mat.into_inner().raw_val().unwrap(),
        ref_mat.raw_val().unwrap()
    );
}

#[test]
fn simple_mdrange() {
    let mat = RefCell::new(
        ViewOwned::<f64>::new_from_data(vec![0.0; 150], Layout::Right, vec![10, 15]).unwrap(),
    );
    let ref_mat =
        ViewOwned::<f64>::new_from_data(vec![1.0; 150], Layout::Right, vec![10, 15]).unwrap();
    let rangep = RangePolicy::<2>::MDRangePolicy(vec![0..10, 0..15]);
    let execp = ExecutionPolicy {
        space: ExecutionSpace::DeviceCPU,
        range: rangep,
        schedule: Schedule::default(),
    };

    let kernel = |arg: KernelArgs<2>| match arg {
        KernelArgs::Index1D(_) => unreachable!(),
        KernelArgs::IndexND(idx) => {
            mat.borrow_mut().set(&idx, 1.0).unwrap();
        }
        KernelArgs::Handle(_) => unreachable!(),
    };

    serial(execp, kernel).unwrap();

    assert_eq!(
        mat.into_inner().raw_val().unwrap(),
        ref_mat.raw_val().unwrap()
    );
}

#[test]
fn dim1_mdrange() {
    let mat = RefCell::new(
        ViewOwned::<f64>::new_from_data(vec![0.0; 15], Layout::Right, vec![15]).unwrap(),
    );
    let ref_mat = ViewOwned::<f64>::new_from_data(vec![1.0; 15], Layout::Right, vec![15]).unwrap();
    let rangep = RangePolicy::<1>::MDRangePolicy(vec![0..15]);
    let execp = ExecutionPolicy {
        space: ExecutionSpace::DeviceCPU,
        range: rangep,
        schedule: Schedule::default(),
    };

    let kernel = |arg: KernelArgs<1>| match arg {
        KernelArgs::Index1D(_) => unreachable!(),
        KernelArgs::IndexND(idx) => {
            mat.borrow_mut().set(&idx, 1.0).unwrap();
        }
        KernelArgs::Handle(_) => unreachable!(),
    };

    serial(execp, kernel).unwrap();
    assert_eq!(
        mat.into_inner().raw_val().unwrap(),
        ref_mat.raw_val().unwrap()
    );
}

#[test]
fn mdrange_row_major_order() {
    // the serial N-D dispatch enumerates exactly as nested for loops do
    let visited = RefCell::new(Vec::new());
    let rangep = RangePolicy::<2>::MDRangePolicy(vec![1..3, 0..2]);
    let execp = ExecutionPolicy {
        space: ExecutionSpace::Serial,
        range: rangep,
        schedule: Schedule::Static,
    };
    let kernel = |arg: KernelArgs<2>| match arg {
        KernelArgs::IndexND(idx) => visited.borrow_mut().push((idx[0], idx[1])),
        _ => unreachable!(),
    };
    serial(execp, kernel).unwrap();

    let mut expected = Vec::new();
    for i in 1..3 {
        for j in 0..2 {
            expected.push((i, j));
        }
    }
    assert_eq!(visited.into_inner(), expected);
}

#[test]
fn empty_extent_runs_nothing() {
    let count = RefCell::new(0usize);
    let rangep = RangePolicy::<2>::MDRangePolicy(vec![0..4, 3..3]);
    let execp = ExecutionPolicy {
        space: ExecutionSpace::Serial,
        range: rangep,
        schedule: Schedule::Static,
    };
    let kernel = |_arg: KernelArgs<2>| {
        *count.borrow_mut() += 1;
    };
    serial(execp, kernel).unwrap();
    assert_eq!(count.into_inner(), 0);
}

#[test]
fn dimensionality_mismatch_reported() {
    // a 1-D RangePolicy dispatched through a code path instantiated with N=2
    // is a reported error, not a panic
    let rangep = RangePolicy::<2>::RangePolicy(0..15);
    let execp = ExecutionPolicy {
        space: ExecutionSpace::Serial,
        range: rangep,
        schedule: Schedule::Static,
    };
    let kernel = |_arg: KernelArgs<2>| {};
    let e = serial(execp, kernel).unwrap_err();
    assert!(matches!(e, DispatchError::Serial(_)));
}

#[test]
fn md_dimensionality_mismatch_reported() {
    let rangep = RangePolicy::<2>::MDRangePolicy(vec![0..4]);
    let execp = ExecutionPolicy {
        space: ExecutionSpace::Serial,
        range: rangep,
        schedule: Schedule::Static,
    };
    let kernel = |_arg: KernelArgs<2>| {};
    let e = serial(execp, kernel).unwrap_err();
    assert!(matches!(e, DispatchError::Serial(_)));
}

#[test]
fn team_policies_not_supported() {
    let rangep = RangePolicy::<1>::TeamPolicy {
        league_size: 4,
        team_size: 2,
        vector_size: 1,
    };
    let execp = ExecutionPolicy {
        space: ExecutionSpace::Serial,
        range: rangep,
        schedule: Schedule::Static,
    };
    let kernel = |_arg: KernelArgs<1>| {};
    let e = serial(execp, kernel).unwrap_err();
    assert!(matches!(e, DispatchError::Serial(_)));
}

#[test]
fn gpu_not_implemented() {
    let rangep = RangePolicy::<1>::RangePolicy(0..4);
    let execp = ExecutionPolicy {
        space: ExecutionSpace::DeviceGPU,
        range: rangep,
        schedule: Schedule::Static,
    };
    let kernel = |_arg: KernelArgs<1>| {};
    let e = gpu(execp, kernel).unwrap_err();
    assert!(matches!(e, DispatchError::GPU(_)));
}

#[test]
fn md_on_cpu_not_implemented() {
    let rangep = RangePolicy::<2>::MDRangePolicy(vec![0..4, 0..4]);
    let execp = ExecutionPolicy {
        space: ExecutionSpace::DeviceCPU,
        range: rangep,
        schedule: Schedule::Static,
    };
    let kernel = |_arg: KernelArgs<2>| {};
    let e = cpu(execp, kernel).unwrap_err();
    assert!(matches!(e, DispatchError::CPU(_)));
}

#[test]
fn cpu_static_full_coverage() {
    let mat = Mutex::new(
        ViewOwned::<f64>::new_from_data(vec![0.0; 100], Layout::Right, vec![100]).unwrap(),
    );
    let rangep = RangePolicy::<1>::RangePolicy(0..100);
    let execp = ExecutionPolicy {
        space: ExecutionSpace::DeviceCPU,
        range: rangep,
        schedule: Schedule::Static,
    };
    let kernel = |arg: KernelArgs<1>| match arg {
        KernelArgs::Index1D(i) => {
            let mut m = mat.lock().unwrap();
            let old = m.get(&vec![i]).unwrap();
            m.set(&vec![i], old + 1.0).unwrap();
        }
        _ => unreachable!(),
    };
    cpu(execp, kernel).unwrap();
    // every index visited exactly once, collectively, before the call returns
    assert_eq!(
        mat.into_inner().unwrap().raw_val().unwrap(),
        vec![1.0; 100]
    );
}

#[test]
fn cpu_dynamic_full_coverage() {
    let mat = Mutex::new(
        ViewOwned::<f64>::new_from_data(vec![0.0; 100], Layout::Right, vec![100]).unwrap(),
    );
    let rangep = RangePolicy::<1>::RangePolicy(0..100);
    let execp = ExecutionPolicy {
        space: ExecutionSpace::DeviceCPU,
        range: rangep,
        schedule: Schedule::Dynamic,
    };
    let kernel = |arg: KernelArgs<1>| match arg {
        KernelArgs::Index1D(i) => {
            let mut m = mat.lock().unwrap();
            let old = m.get(&vec![i]).unwrap();
            m.set(&vec![i], old + 1.0).unwrap();
        }
        _ => unreachable!(),
    };
    cpu(execp, kernel).unwrap();
    assert_eq!(
        mat.into_inner().unwrap().raw_val().unwrap(),
        vec![1.0; 100]
    );
}

#[test]
fn parallel_for_serial_space() {
    let mat = Mutex::new(
        ViewOwned::<f64>::new_from_data(vec![0.0; 8], Layout::Right, vec![8]).unwrap(),
    );
    let rangep = RangePolicy::<1>::RangePolicy(0..8);
    let execp = ExecutionPolicy {
        space: ExecutionSpace::Serial,
        range: rangep,
        schedule: Schedule::Static,
    };
    let kernel = |arg: KernelArgs<1>| match arg {
        KernelArgs::Index1D(i) => {
            mat.lock().unwrap().set(&vec![i], 2.0).unwrap();
        }
        _ => unreachable!(),
    };
    parallel_for(execp, kernel).unwrap();
    assert_eq!(mat.into_inner().unwrap().raw_val().unwrap(), vec![2.0; 8]);
}

#[test]
fn parallel_for_depth_mismatch() {
    // nested-only policies cannot be dispatched at top level
    let execp = ExecutionPolicy {
        space: ExecutionSpace::Serial,
        range: RangePolicy::<1>::PerTeam,
        schedule: Schedule::Static,
    };
    let kernel = |_arg: KernelArgs<1>| {};
    let e = parallel_for(execp, kernel).unwrap_err();
    assert_eq!(e, StatementError::InconsistentDepth);

    let execp = ExecutionPolicy {
        space: ExecutionSpace::Serial,
        range: RangePolicy::<1>::ThreadVectorRange,
        schedule: Schedule::Static,
    };
    let kernel = |_arg: KernelArgs<1>| {};
    let e = parallel_for(execp, kernel).unwrap_err();
    assert_eq!(e, StatementError::InconsistentDepth);
}

#[test]
fn parallel_for_wraps_dispatch_errors() {
    let execp = ExecutionPolicy {
        space: ExecutionSpace::DeviceGPU,
        range: RangePolicy::<1>::RangePolicy(0..4),
        schedule: Schedule::Static,
    };
    let kernel = |_arg: KernelArgs<1>| {};
    let e = parallel_for(execp, kernel).unwrap_err();
    assert!(matches!(e, StatementError::Dispatch(DispatchError::GPU(_))));
}

#[test]
fn error_messages() {
    assert_eq!(
        DispatchError::GPU("GPU dispatch is not implemented").message(),
        "error during gpu dispatch: GPU dispatch is not implemented"
    );
    assert_eq!(
        DispatchError::Serial("x").message(),
        "error during serial dispatch: x"
    );
    assert_eq!(
        DispatchError::CPU("y").message(),
        "error during cpu dispatch: y"
    );
    assert_eq!(
        StatementError::InconsistentDepth.message(),
        "inconsistent depth & range policy association"
    );
    assert_eq!(
        StatementError::Dispatch(DispatchError::Serial("x")).message(),
        "error during serial dispatch: x"
    );
}

fn assert_chunks_partition(n: usize, t: usize) {
    let mut counts = vec![0usize; n];
    for tid in 0..t {
        let (lo, hi) = chunk_bounds(n, t, tid);
        assert!(lo <= hi && hi <= n);
        for j in lo..hi {
            counts[j] += 1;
        }
    }
    // no gaps and no overlaps
    assert!(counts.iter().all(|c| *c == 1));
}

#[test]
fn chunks_cover_n_smaller_than_t() {
    assert_chunks_partition(3, 8);
}

#[test]
fn chunks_cover_n_equal_t() {
    assert_chunks_partition(8, 8);
}

#[test]
fn chunks_cover_uneven_split() {
    assert_chunks_partition(10, 4);
    assert_chunks_partition(100, 7);
}

#[test]
fn chunk_bounds_extreme_values() {
    // one thread over the largest range: the single chunk is the whole range
    assert_eq!(chunk_bounds(usize::MAX, 1, 0), (0, usize::MAX));
    // empty range: every chunk is empty
    for tid in 0..4 {
        assert_eq!(chunk_bounds(0, 4, tid), (0, 0));
    }
}

#[test]
fn chunk_size_matches_formula() {
    // chunk_size = n / t + 1
    let (lo, hi) = chunk_bounds(10, 4, 0);
    assert_eq!((lo, hi), (0, 3));
    let (lo, hi) = chunk_bounds(10, 4, 3);
    assert_eq!((lo, hi), (9, 10));
}
