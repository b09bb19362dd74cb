//! A performance-portability runtime in the spirit of Kokkos: multi-dimensional
//! `View`s over a flat buffer with a configurable memory layout, and a
//! `parallel_for` statement that runs a kernel over an iteration space on one of
//! several interchangeable backends (sequential, or CPU-parallel work stealing).

pub mod functor;
pub mod routines;
pub mod view;
