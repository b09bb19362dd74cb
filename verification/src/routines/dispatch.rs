//! Kernel dispatch code.
//!
//! This module contains the per-backend routines that enumerate or partition
//! an iteration space and invoke a kernel on every point of it. The routines
//! here are building blocks for the parallel statements; they are not meant to
//! be used directly.

use rayon::iter::{IntoParallelIterator, ParallelIterator};
use vstd::prelude::*;
use vstd::string::StringExecFns;
use vstd::arithmetic::div_mod::{
    lemma_div_pos_is_pos, lemma_fundamental_div_mod, lemma_mod_division_less_than_divisor,
    lemma_multiply_divide_lt,
};
use vstd::arithmetic::mul::{
    lemma_mul_basics, lemma_mul_inequality, lemma_mul_is_commutative,
    lemma_mul_is_distributive_add, lemma_mul_nonnegative,
};
use core::ops::Range;
use crate::functor::KernelArgs;
use crate::routines::parameters::{ExecutionPolicy, RangePolicy, Schedule};
use crate::view::parameters::{
    flat_sum, is_right_stride, lemma_flat_index_bounded_right, lemma_flat_index_injective_right,
    lemma_flat_sum_snoc, lemma_seq_prod_pos, lemma_seq_prod_skip_le, seq_prod, stride_right_at,
    valid_index,
};

verus! {

/// Enum used to classify possible dispatch errors.
///
/// In all variants, the internal value is a description of the error.
#[derive(Clone, Copy, Debug, PartialEq)]
pub enum DispatchError {
    /// Error occurred during serial dispatch.
    Serial(&'static str),
    /// Error occurred during parallel CPU dispatch.
    CPU(&'static str),
    /// Error occurred during GPU dispatch.
    GPU(&'static str),
}

impl DispatchError {
    /// The human-readable form of the error.
    pub open spec fn spec_message(self) -> Seq<char> {
        match self {
            DispatchError::Serial(desc) => "error during serial dispatch: "@ + desc@,
            DispatchError::CPU(desc) => "error during cpu dispatch: "@ + desc@,
            DispatchError::GPU(desc) => "error during gpu dispatch: "@ + desc@,
        }
    }

    /// The human-readable form of the error, for error reporting.
    pub fn message(&self) -> (r: String)
        ensures
            r@ == self.spec_message(),
    {
        match self {
            DispatchError::Serial(desc) => "error during serial dispatch: ".to_owned().concat(
                desc,
            ),
            DispatchError::CPU(desc) => "error during cpu dispatch: ".to_owned().concat(desc),
            DispatchError::GPU(desc) => "error during gpu dispatch: ".to_owned().concat(desc),
        }
    }
}

/// Number of iteration points of one range: its length, or zero for a
/// reversed (empty) range.
pub open spec fn range_ext(r: Range<usize>) -> usize {
    if r.start <= r.end {
        (r.end - r.start) as usize
    } else {
        0
    }
}

/// The per-dimension extents of an N-dimensional range.
pub open spec fn extents(rs: Seq<Range<usize>>) -> Seq<usize> {
    Seq::new(rs.len(), |i: int| range_ext(rs[i]))
}

/// The per-dimension extents of an N-dimensional range.
fn md_extents(ranges: &Vec<Range<usize>>) -> (r: Vec<usize>)
    ensures
        r@ == extents(ranges@),
{
    let n: usize = ranges.len();
    let mut r: Vec<usize> = Vec::new();
    let mut i: usize = 0;
    while i < n
        invariant
            n == ranges@.len(),
            i <= n,
            r@.len() == i,
            forall|j: int| 0 <= j < i ==> #[trigger] r@[j] == range_ext(ranges@[j]),
        decreases n - i,
    {
        let lo = ranges[i].start;
        let hi = ranges[i].end;
        let e: usize = if lo <= hi {
            hi - lo
        } else {
            0
        };
        r.push(e);
        i += 1;
    }
    proof {
        assert(r@ =~= extents(ranges@));
    }
    r
}

/// `idx` is one iteration point of the N-dimensional range `rs`.
pub open spec fn in_md_space(idx: Seq<usize>, rs: Seq<Range<usize>>) -> bool {
    &&& idx.len() == rs.len()
    &&& forall|i: int| 0 <= i < idx.len() ==> rs[i].start <= #[trigger] idx[i] < rs[i].end
}

/// The offset of each coordinate of `idx` from its range's start.
pub open spec fn md_offsets(idx: Seq<usize>, rs: Seq<Range<usize>>) -> Seq<usize> {
    Seq::new(idx.len(), |j: int| (idx[j] - rs[j].start) as usize)
}

/// The row-major strides of an extent box, as machine words. Meaningful when
/// the box's volume fits in a machine word and no extent is zero.
pub open spec fn right_strides_spec(ext: Seq<usize>) -> Seq<usize> {
    Seq::new(ext.len(), |i: int| stride_right_at(ext, i) as usize)
}

/// The rank of iteration point `idx` in row-major nesting order: the first
/// dimension varies slowest, the last varies fastest, exactly as in nested
/// `for` loops.
pub open spec fn md_rank(idx: Seq<usize>, rs: Seq<Range<usize>>) -> int {
    flat_sum(md_offsets(idx, rs), right_strides_spec(extents(rs)))
}

/// The row-major strides of an extent box with no zero extent and a volume
/// that fits in a machine word.
fn right_strides_of(ext: &Vec<usize>) -> (r: Vec<usize>)
    requires
        forall|i: int| 0 <= i < ext@.len() ==> 1 <= #[trigger] ext@[i],
        seq_prod(ext@) <= usize::MAX as int,
    ensures
        r@.len() == ext@.len(),
        is_right_stride(ext@, r@),
        r@ == right_strides_spec(ext@),
{
    let n: usize = ext.len();
    let mut rev: Vec<usize> = Vec::new();
    let mut acc: usize = 1;
    let mut j: usize = n;
    proof {
        assert(ext@.skip(n as int) =~= Seq::<usize>::empty());
    }
    while j > 0
        invariant
            n == ext@.len(),
            forall|i: int| 0 <= i < ext@.len() ==> 1 <= #[trigger] ext@[i],
            seq_prod(ext@) <= usize::MAX as int,
            j <= n,
            1 <= j ==> acc == seq_prod(ext@.skip(j as int)),
            rev@.len() == n - j,
            forall|k: int|
                0 <= k < rev@.len() ==> #[trigger] rev@[k] == stride_right_at(ext@, n - 1 - k),
        decreases j,
    {
        rev.push(acc);
        if j > 1 {
            let d = ext[j - 1];
            proof {
                assert(ext@.skip(j - 1).drop_first() =~= ext@.skip(j as int));
                assert(seq_prod(ext@.skip(j - 1)) == d * seq_prod(ext@.skip(j as int)));
                lemma_mul_is_commutative(d as int, seq_prod(ext@.skip(j as int)));
                lemma_seq_prod_skip_le(ext@, j - 1);
            }
            match acc.checked_mul(d) {
                Some(a) => {
                    acc = a;
                },
                None => {
                    proof {
                        assert(false);
                    }
                },
            }
        }
        j -= 1;
    }
    let mut strides: Vec<usize> = Vec::new();
    let mut k: usize = n;
    while k > 0
        invariant
            n == ext@.len(),
            rev@.len() == n,
            forall|k2: int|
                0 <= k2 < n ==> #[trigger] rev@[k2] == stride_right_at(ext@, n - 1 - k2),
            k <= n,
            strides@.len() == n - k,
            forall|i: int|
                0 <= i < strides@.len() ==> #[trigger] strides@[i] == stride_right_at(ext@, i),
        decreases k,
    {
        k -= 1;
        strides.push(rev[k]);
    }
    proof {
        assert(strides@ =~= right_strides_spec(ext@));
    }
    strides
}

/// The iteration point of rank `k` in the N-dimensional range `ranges`, in
/// row-major nesting order.
fn md_index_at(
    ranges: &Vec<Range<usize>>,
    ext: &Vec<usize>,
    strides: &Vec<usize>,
    k: usize,
) -> (idx: Vec<usize>)
    requires
        ext@ == extents(ranges@),
        forall|i: int| 0 <= i < ext@.len() ==> 1 <= #[trigger] ext@[i],
        is_right_stride(ext@, strides@),
        strides@ == right_strides_spec(ext@),
        seq_prod(ext@) <= usize::MAX as int,
        k < seq_prod(ext@),
    ensures
        in_md_space(idx@, ranges@),
        md_rank(idx@, ranges@) == k,
{
    let n: usize = ranges.len();
    let mut idx: Vec<usize> = Vec::new();
    let mut rem: usize = k;
    let mut i: usize = 0;
    proof {
        assert(md_offsets(idx@, ranges@) =~= Seq::<usize>::empty());
        assert(strides@.take(0) =~= Seq::<usize>::empty());
    }
    while i < n
        invariant
            n == ranges@.len(),
            n == ext@.len(),
            n == strides@.len(),
            ext@ == extents(ranges@),
            forall|ii: int| 0 <= ii < ext@.len() ==> 1 <= #[trigger] ext@[ii],
            is_right_stride(ext@, strides@),
            seq_prod(ext@) <= usize::MAX as int,
            k < seq_prod(ext@),
            i <= n,
            idx@.len() == i,
            forall|j: int|
                0 <= j < i ==> ranges@[j].start <= #[trigger] idx@[j] < ranges@[j].end,
            k == flat_sum(md_offsets(idx@, ranges@), strides@.take(i as int)) + rem,
            rem < (if i == 0 {
                seq_prod(ext@)
            } else {
                strides@[i - 1] as int
            }),
        decreases n - i,
    {
        let s_i = strides[i];
        proof {
            // s_i is a product of positive extents, hence positive, and the
            // bound on `rem` is `ext[i] * s_i`.
            assert forall|ii: int| 0 <= ii < ext@.skip(i + 1).len() implies 1 <= #[trigger] ext@.skip(
                i + 1,
            )[ii] by {
                assert(ext@.skip(i + 1)[ii] == ext@[ii + i + 1]);
            }
            lemma_seq_prod_pos(ext@.skip(i + 1));
            assert(s_i == stride_right_at(ext@, i as int));
            assert(s_i == seq_prod(ext@.skip(i + 1)));
            assert(1 <= s_i);
            assert(ext@.skip(i as int).drop_first() =~= ext@.skip(i + 1));
            assert(seq_prod(ext@.skip(i as int)) == ext@[i as int] * seq_prod(ext@.skip(i + 1)));
            if i == 0 {
                assert(ext@.skip(0) =~= ext@);
            } else {
                assert(strides@[i - 1] == stride_right_at(ext@, i - 1));
            }
            assert(rem < ext@[i as int] * s_i);
        }
        let q = rem / s_i;
        let r2 = rem % s_i;
        proof {
            lemma_fundamental_div_mod(rem as int, s_i as int);
            lemma_mod_division_less_than_divisor(rem as int, s_i as int);
            lemma_mul_is_commutative(ext@[i as int] as int, s_i as int);
            assert(rem < s_i as int * ext@[i as int]);
            lemma_multiply_divide_lt(rem as int, s_i as int, ext@[i as int] as int);
            assert(q < ext@[i as int]);
            assert(range_ext(ranges@[i as int]) == ext@[i as int]);
        }
        let v = ranges[i].start + q;
        let ghost idx_pre = idx@;
        idx.push(v);
        proof {
            let offs_pre = md_offsets(idx_pre, ranges@);
            let offs_new = md_offsets(idx@, ranges@);
            assert(idx@ == idx_pre.push(v));
            assert(offs_new.drop_last() =~= offs_pre);
            assert(offs_new.last() == q);
            lemma_flat_sum_snoc(offs_new, strides@.take(i + 1));
            assert(strides@.take(i + 1).drop_last() =~= strides@.take(i as int));
            assert(strides@.take(i + 1).last() == s_i);
            lemma_mul_is_commutative(s_i as int, q as int);
        }
        rem = r2;
        i += 1;
    }
    proof {
        assert(seq_prod(Seq::<usize>::empty()) == 1);
        if n > 0 {
            assert(strides@[n - 1] == stride_right_at(ext@, n - 1));
            assert(ext@.skip(n as int) =~= Seq::<usize>::empty());
        } else {
            assert(ext@ =~= Seq::<usize>::empty());
        }
        assert(rem == 0);
        assert(strides@.take(n as int) =~= strides@);
    }
    idx
}

proof fn lemma_md_space_valid(idx: Seq<usize>, rs: Seq<Range<usize>>)
    requires
        in_md_space(idx, rs),
    ensures
        valid_index(md_offsets(idx, rs), extents(rs)),
        forall|i: int| 0 <= i < extents(rs).len() ==> 1 <= #[trigger] extents(rs)[i],
{
    assert forall|i: int| 0 <= i < extents(rs).len() implies 1 <= #[trigger] extents(rs)[i] by {
        assert(rs[i].start <= idx[i] < rs[i].end);
    }
    assert forall|i: int|
        0 <= i < md_offsets(idx, rs).len() implies #[trigger] md_offsets(idx, rs)[i] < extents(
        rs,
    )[i] by {
        assert(rs[i].start <= idx[i] < rs[i].end);
    }
}

proof fn lemma_md_strides_right(rs: Seq<Range<usize>>)
    requires
        seq_prod(extents(rs)) <= usize::MAX as int,
        forall|i: int| 0 <= i < extents(rs).len() ==> 1 <= #[trigger] extents(rs)[i],
    ensures
        is_right_stride(extents(rs), right_strides_spec(extents(rs))),
{
    let ext = extents(rs);
    assert forall|i: int|
        0 <= i < ext.len() implies #[trigger] right_strides_spec(ext)[i] == stride_right_at(
        ext,
        i,
    ) by {
        assert forall|ii: int| 0 <= ii < ext.skip(i + 1).len() implies 1 <= #[trigger] ext.skip(
            i + 1,
        )[ii] by {
            assert(ext.skip(i + 1)[ii] == ext[ii + i + 1]);
        }
        lemma_seq_prod_pos(ext.skip(i + 1));
        lemma_seq_prod_skip_le(ext, i + 1);
    }
}

/// Row-major ranks are a bijection between the iteration points of an
/// N-dimensional range and `0 .. volume`: every point's rank lies below the
/// volume, and distinct points have distinct ranks. The serial N-dimensional
/// dispatch visits the point of rank `k` at step `k`, so it visits every
/// point exactly once, in nested-loop order.
pub proof fn lemma_md_rank_bijective(rs: Seq<Range<usize>>)
    requires
        seq_prod(extents(rs)) <= usize::MAX as int,
    ensures
        forall|idx: Seq<usize>| #[trigger]
            in_md_space(idx, rs) ==> 0 <= md_rank(idx, rs) < seq_prod(extents(rs)),
        forall|a: Seq<usize>, b: Seq<usize>|
            #![trigger md_rank(a, rs), md_rank(b, rs)]
            in_md_space(a, rs) && in_md_space(b, rs) && md_rank(a, rs) == md_rank(b, rs) ==> a
                == b,
{
    let ext = extents(rs);
    assert forall|idx: Seq<usize>| #[trigger]
        in_md_space(idx, rs) implies 0 <= md_rank(idx, rs) < seq_prod(ext) by {
        lemma_md_space_valid(idx, rs);
        lemma_md_strides_right(rs);
        lemma_flat_index_bounded_right(md_offsets(idx, rs), ext, right_strides_spec(ext));
    }
    assert forall|a: Seq<usize>, b: Seq<usize>|
        in_md_space(a, rs) && in_md_space(b, rs) && #[trigger] md_rank(a, rs) == #[trigger] md_rank(
        b,
        rs,
    ) implies a == b by {
        lemma_md_space_valid(a, rs);
        lemma_md_space_valid(b, rs);
        lemma_md_strides_right(rs);
        lemma_flat_index_injective_right(
            md_offsets(a, rs),
            md_offsets(b, rs),
            ext,
            right_strides_spec(ext),
        );
        assert forall|i: int| 0 <= i < a.len() implies a[i] == b[i] by {
            assert(md_offsets(a, rs)[i] == md_offsets(b, rs)[i]);
            assert(rs[i].start <= a[i]);
            assert(rs[i].start <= b[i]);
        }
        assert(a =~= b);
    }
}

/// The chunk size used by the CPU backend's static schedule: `n / t + 1`
/// indices per thread.
pub open spec fn chunk_size_spec(n: int, t: int) -> int {
    n / t + 1
}

/// First index of thread `tid`'s chunk under static scheduling, clamped to
/// `n`.
pub open spec fn chunk_start_spec(n: int, t: int, tid: int) -> int {
    if tid * chunk_size_spec(n, t) > n {
        n
    } else {
        tid * chunk_size_spec(n, t)
    }
}

/// One-past-last index of thread `tid`'s chunk: where the next thread's chunk
/// starts.
pub open spec fn chunk_end_spec(n: int, t: int, tid: int) -> int {
    chunk_start_spec(n, t, tid + 1)
}

/// Index `j` falls to thread `tid` under static scheduling.
pub open spec fn chunk_contains(n: int, t: int, tid: int, j: int) -> bool {
    chunk_start_spec(n, t, tid) <= j < chunk_end_spec(n, t, tid)
}

/// The thread whose chunk holds index `j` under static scheduling.
pub open spec fn chunk_of(n: int, t: int, j: int) -> int {
    j / chunk_size_spec(n, t)
}

/// Partition completeness for the CPU backend's static schedule: the `t`
/// contiguous chunks are consecutive, they cover `0 .. n` entirely, and no
/// index falls to two threads.
pub proof fn lemma_static_chunks_partition(n: int, t: int)
    requires
        0 <= n,
        1 <= t,
    ensures
        chunk_start_spec(n, t, 0) == 0,
        chunk_start_spec(n, t, t) == n,
        forall|tid: int|
            0 <= tid < t ==> #[trigger] chunk_start_spec(n, t, tid) <= chunk_end_spec(n, t, tid),
        forall|j: int|
            0 <= j < n ==> 0 <= #[trigger] chunk_of(n, t, j) < t && chunk_contains(
                n,
                t,
                chunk_of(n, t, j),
                j,
            ),
        forall|tid1: int, tid2: int, j: int|
            #![trigger chunk_contains(n, t, tid1, j), chunk_contains(n, t, tid2, j)]
            0 <= tid1 < t && 0 <= tid2 < t && tid1 != tid2 && chunk_contains(n, t, tid1, j)
                ==> !chunk_contains(n, t, tid2, j),
{
    let cs = chunk_size_spec(n, t);
    lemma_div_pos_is_pos(n, t);
    lemma_mul_basics(cs);
    lemma_fundamental_div_mod(n, t);
    lemma_mod_division_less_than_divisor(n, t);
    lemma_mul_is_distributive_add(t, n / t, 1);
    lemma_mul_is_commutative(t, n / t);
    assert(t * cs == t * (n / t) + t) by {
        lemma_mul_is_distributive_add(t, n / t, 1);
        lemma_mul_basics(t);
    }
    assert(t * cs > n);
    assert forall|tid: int|
        0 <= tid < t implies #[trigger] chunk_start_spec(n, t, tid) <= chunk_end_spec(
        n,
        t,
        tid,
    ) by {
        lemma_mul_inequality(tid, tid + 1, cs);
    }
    assert forall|j: int| 0 <= j < n implies 0 <= #[trigger] chunk_of(n, t, j) < t
        && chunk_contains(n, t, chunk_of(n, t, j), j) by {
        let tid = j / cs;
        lemma_div_pos_is_pos(j, cs);
        lemma_fundamental_div_mod(j, cs);
        lemma_mod_division_less_than_divisor(j, cs);
        assert(cs * tid <= j < cs * tid + cs);
        assert(cs * (tid + 1) == cs * tid + cs) by {
            lemma_mul_is_distributive_add(cs, tid, 1);
            lemma_mul_basics(cs);
        }
        lemma_mul_is_commutative(cs, tid);
        lemma_mul_is_commutative(cs, tid + 1);
        assert(j < cs * t) by {
            lemma_mul_is_commutative(cs, t);
        }
        lemma_multiply_divide_lt(j, cs, t);
        assert(0 <= tid < t);
        assert(chunk_contains(n, t, tid, j));
    }
    assert forall|tid1: int, tid2: int, j: int|
        #![trigger chunk_contains(n, t, tid1, j), chunk_contains(n, t, tid2, j)]
        0 <= tid1 < t && 0 <= tid2 < t && tid1 != tid2 && chunk_contains(n, t, tid1, j) implies
        !chunk_contains(n, t, tid2, j) by {
        if tid1 < tid2 {
            lemma_mul_inequality(tid1 + 1, tid2, cs);
        } else {
            lemma_mul_inequality(tid2 + 1, tid1, cs);
        }
    }
}

/// `a` is one of the kernel arguments that dispatching `range` produces.
pub open spec fn arg_in_space<const N: usize>(a: KernelArgs<N>, range: RangePolicy<N>) -> bool {
    match (a, range) {
        (KernelArgs::Index1D(i), RangePolicy::RangePolicy(r)) => r.start <= i < r.end,
        (KernelArgs::IndexND(v), RangePolicy::MDRangePolicy(rs)) => in_md_space(v@, rs@),
        _ => false,
    }
}

/// The kernel accepts every argument that dispatching `range` can produce.
pub open spec fn kernel_ready<const N: usize, F: Fn(KernelArgs<N>)>(
    f: F,
    range: RangePolicy<N>,
) -> bool {
    forall|a: KernelArgs<N>| arg_in_space(a, range) ==> #[trigger] call_requires(f, (a,))
}

/// The kernel has been run on every point of the iteration space: for each
/// point, `()` is an observed output of the kernel on that point's argument.
/// For a generic kernel such a fact can only be established by making the
/// call, so a dispatch that promises this cannot skip the kernel.
///
/// For an N-dimensional range the argument carries an index vector, so the
/// observation is quantified up to the vector's abstract contents.
pub open spec fn kernel_done<const N: usize, F: Fn(KernelArgs<N>)>(
    f: F,
    range: RangePolicy<N>,
) -> bool {
    match range {
        RangePolicy::RangePolicy(r) => forall|i: usize|
            r.start <= i < r.end ==> #[trigger] call_ensures(f, (KernelArgs::<N>::Index1D(i),), ()),
        RangePolicy::MDRangePolicy(rs) => forall|s: Seq<usize>|
            #[trigger] in_md_space(s, rs@) ==> exists|v: Vec<usize>|
                v@ == s && #[trigger] call_ensures(f, (KernelArgs::<N>::IndexND(v),), ()),
        _ => true,
    }
}

/// The range shapes the serial backend executes: a flat range dispatched at
/// dimensionality one, or an N-dimensional range with one range per
/// dimension.
pub open spec fn serial_accepts<const N: usize>(range: RangePolicy<N>) -> bool {
    match range {
        RangePolicy::RangePolicy(_) => N == 1,
        RangePolicy::MDRangePolicy(rs) => rs@.len() == N,
        _ => false,
    }
}

/// The range shapes the CPU-parallel backend executes: flat ranges only.
pub open spec fn cpu_accepts<const N: usize>(range: RangePolicy<N>) -> bool {
    match range {
        RangePolicy::RangePolicy(_) => N == 1,
        _ => false,
    }
}

/// The iteration space is small enough to be counted in a machine word.
pub open spec fn space_fits<const N: usize>(range: RangePolicy<N>) -> bool {
    match range {
        RangePolicy::MDRangePolicy(rs) => seq_prod(extents(rs@)) <= usize::MAX as int,
        _ => true,
    }
}

/// The exact error the serial backend reports for a range it refuses.
pub open spec fn serial_error<const N: usize>(range: RangePolicy<N>) -> DispatchError {
    match range {
        RangePolicy::RangePolicy(_) => DispatchError::Serial(
            "Dispatch uses N>1 for a 1D RangePolicy",
        ),
        RangePolicy::MDRangePolicy(_) => DispatchError::Serial(
            "Dispatch dimensionality differs from the MDRangePolicy's",
        ),
        _ => DispatchError::Serial("team-based policies are not yet supported"),
    }
}

/// The exact error the CPU-parallel backend reports for a range it refuses.
pub open spec fn cpu_error<const N: usize>(range: RangePolicy<N>) -> DispatchError {
    match range {
        RangePolicy::RangePolicy(_) => DispatchError::Serial(
            "Dispatch uses N>1 for a 1D RangePolicy",
        ),
        RangePolicy::MDRangePolicy(_) => DispatchError::CPU(
            "MDRangePolicy dispatch is not implemented for the CPU backend",
        ),
        _ => DispatchError::CPU("team-based policies are not yet supported"),
    }
}

/// Runs the kernel once for each index of `lo .. hi`, in ascending order, on
/// the calling thread.
fn run_flat_block<const N: usize, F: Fn(KernelArgs<N>)>(lo: usize, hi: usize, kernel: &F)
    requires
        forall|j: usize|
            lo <= j < hi ==> #[trigger] call_requires(*kernel, (KernelArgs::<N>::Index1D(j),)),
    ensures
        forall|j: usize|
            lo <= j < hi ==> #[trigger] call_ensures(*kernel, (KernelArgs::<N>::Index1D(j),), ()),
{
    if hi <= lo {
        return ;
    }
    let mut i: usize = lo;
    while i < hi
        invariant
            lo <= i <= hi,
            forall|j: usize|
                lo <= j < hi ==> #[trigger] call_requires(
                    *kernel,
                    (KernelArgs::<N>::Index1D(j),),
                ),
            forall|j: usize|
                lo <= j < i ==> #[trigger] call_ensures(
                    *kernel,
                    (KernelArgs::<N>::Index1D(j),),
                    (),
                ),
        decreases hi - i,
    {
        kernel(KernelArgs::Index1D(i));
        i += 1;
    }
}

/// `a * (q + 1)`, clamped to `n`; the building block of the static chunk
/// bounds.
fn clamped_chunk_point(n: usize, q: usize, a: usize) -> (r: usize)
    ensures
        r as int == (if a as int * (q as int + 1) > n as int {
            n as int
        } else {
            a as int * (q as int + 1)
        }),
{
    proof {
        lemma_mul_is_distributive_add(a as int, q as int, 1);
        lemma_mul_basics(a as int);
        lemma_mul_nonnegative(a as int, q as int);
    }
    match a.checked_mul(q) {
        Some(p) => match p.checked_add(a) {
            Some(s) => if s > n {
                n
            } else {
                s
            },
            None => n,
        },
        None => n,
    }
}

/// The bounds of thread `tid`'s contiguous block of `0 .. n` under static
/// scheduling: `chunk_size = n / t + 1` indices per thread, clamped to `n`.
pub fn chunk_bounds(n: usize, t: usize, tid: usize) -> (r: (usize, usize))
    requires
        1 <= t,
        tid < t,
    ensures
        r.0 == chunk_start_spec(n as int, t as int, tid as int),
        r.1 == chunk_end_spec(n as int, t as int, tid as int),
        r.0 <= r.1 <= n,
{
    let q = n / t;
    let start = clamped_chunk_point(n, q, tid);
    let end = clamped_chunk_point(n, q, tid + 1);
    proof {
        lemma_div_pos_is_pos(n as int, t as int);
        lemma_mul_inequality(tid as int, tid as int + 1, q as int + 1);
    }
    (start, end)
}

/// The kernel has been run on every index of thread `tid`'s static chunk of
/// `lo .. hi`.
pub open spec fn chunk_done<const N: usize, F: Fn(KernelArgs<N>)>(
    f: F,
    lo: usize,
    hi: usize,
    t: usize,
    tid: usize,
) -> bool {
    forall|j: usize|
        lo + chunk_start_spec(hi - lo, t as int, tid as int) <= j < lo + chunk_end_spec(
            hi - lo,
            t as int,
            tid as int,
        ) ==> #[trigger] call_ensures(f, (KernelArgs::<N>::Index1D(j),), ())
}

/// Runs the kernel on thread `tid`'s static chunk of `lo .. hi`, on the
/// calling thread.
fn run_chunk<const N: usize, F: Fn(KernelArgs<N>)>(
    lo: usize,
    hi: usize,
    t: usize,
    tid: usize,
    kernel: &F,
)
    requires
        1 <= t,
        tid < t,
        lo <= hi,
        forall|j: usize|
            lo <= j < hi ==> #[trigger] call_requires(*kernel, (KernelArgs::<N>::Index1D(j),)),
    ensures
        chunk_done(*kernel, lo, hi, t, tid),
{
    let n = hi - lo;
    let (cs, ce) = chunk_bounds(n, t, tid);
    run_flat_block(lo + cs, lo + ce, kernel);
}

/// Runs the kernel on one flat index.
fn call_kernel_flat<const N: usize, F: Fn(KernelArgs<N>)>(kernel: &F, i: usize)
    requires
        call_requires(*kernel, (KernelArgs::<N>::Index1D(i),)),
    ensures
        call_ensures(*kernel, (KernelArgs::<N>::Index1D(i),), ()),
{
    kernel(KernelArgs::Index1D(i));
}

/// Relies on `num_cpus::get`, which returns the number of logical CPUs of
/// the machine and is documented to always be at least 1.
#[verifier::external_body]
fn available_threads() -> (r: usize)
    ensures
        1 <= r,
{
    num_cpus::get()
}

/// Relies on rayon's `ParallelIterator`s `map` and `count` over the thread
/// ids `0 .. t`: `count` returns the number of mapped items — one per id —
/// and only once every closure call has completed. The closure only calls
/// the verified [`run_chunk`], so each counted id's postcondition — the
/// kernel has run on that id's chunk — holds on return.
#[verifier::external_body]
fn par_run_chunks<const N: usize, F: Fn(KernelArgs<N>) + Send + Sync>(
    lo: usize,
    hi: usize,
    t: usize,
    kernel: &F,
) -> (r: usize)
    requires
        1 <= t,
        lo <= hi,
        forall|j: usize|
            lo <= j < hi ==> #[trigger] call_requires(*kernel, (KernelArgs::<N>::Index1D(j),)),
    ensures
        r == t,
        forall|tid: usize| tid < r ==> #[trigger] chunk_done(*kernel, lo, hi, t, tid),
{
    (0..t).into_par_iter().map(|tid| run_chunk(lo, hi, t, tid, kernel)).count()
}

/// Relies on rayon's `ParallelIterator`s `map` and `count` over `lo .. hi`:
/// `count` returns the number of mapped items — one per index — and only
/// once every closure call has completed. The closure only calls the
/// verified [`call_kernel_flat`], so each counted index's postcondition —
/// the kernel has run on that index — holds on return.
#[verifier::external_body]
fn par_run_indices<const N: usize, F: Fn(KernelArgs<N>) + Send + Sync>(
    lo: usize,
    hi: usize,
    kernel: &F,
) -> (r: usize)
    requires
        lo <= hi,
        forall|j: usize|
            lo <= j < hi ==> #[trigger] call_requires(*kernel, (KernelArgs::<N>::Index1D(j),)),
    ensures
        r == hi - lo,
        forall|j: usize|
            lo <= j < lo + r ==> #[trigger] call_ensures(*kernel, (KernelArgs::<N>::Index1D(j),), ()),
{
    (lo..hi).into_par_iter().map(|i| call_kernel_flat(kernel, i)).count()
}

/// CPU dispatch routine of `for` statements: the invariant fallback that
/// executes the whole iteration space on the calling thread.
///
/// A flat range is walked in ascending order; an N-dimensional range is
/// walked in row-major nesting order (the first dimension varies slowest),
/// exactly as nested `for` loops would. Team-based policies are reported as
/// not yet supported, and a flat range dispatched at a dimensionality other
/// than one is reported as an inconsistency.
///
/// The N-dimensional walk counts its steps in a machine word, so the
/// volume of the range must fit in one ([`space_fits`], a machine limit).
/// On success the kernel has been run on every point of the range
/// ([`kernel_done`]).
pub fn serial<const N: usize, F: Fn(KernelArgs<N>)>(execp: ExecutionPolicy<N>, kernel: F) -> (r:
    Result<(), DispatchError>)
    requires
        space_fits(execp.range),
        kernel_ready(kernel, execp.range),
    ensures
        r is Ok <==> serial_accepts::<N>(execp.range),
        r is Ok ==> kernel_done(kernel, execp.range),
        r is Err ==> r == Err::<(), DispatchError>(serial_error(execp.range)),
{
    let ghost orig_range = execp.range;
    match execp.range {
        RangePolicy::RangePolicy(range) => {
            if N != 1 {
                return Err(DispatchError::Serial("Dispatch uses N>1 for a 1D RangePolicy"));
            }
            let lo = range.start;
            let hi = range.end;
            proof {
                assert forall|j: usize| lo <= j < hi implies call_requires(
                    kernel,
                    (KernelArgs::<N>::Index1D(j),),
                ) by {
                    assert(arg_in_space(KernelArgs::<N>::Index1D(j), orig_range));
                }
            }
            if hi <= lo {
                return Ok(());
            }
            let mut i: usize = lo;
            while i < hi
                invariant
                    lo <= i <= hi,
                    forall|j: usize|
                        lo <= j < hi ==> #[trigger] call_requires(
                            kernel,
                            (KernelArgs::<N>::Index1D(j),),
                        ),
                    forall|j: usize|
                        lo <= j < i ==> #[trigger] call_ensures(
                            kernel,
                            (KernelArgs::<N>::Index1D(j),),
                            (),
                        ),
                decreases hi - i,
            {
                kernel(KernelArgs::Index1D(i));
                i += 1;
            }
            proof {
                assert(kernel_done(kernel, orig_range));
            }
            Ok(())
        },
        RangePolicy::MDRangePolicy(ranges) => {
            if ranges.len() != N {
                return Err(DispatchError::Serial(
                    "Dispatch dimensionality differs from the MDRangePolicy's",
                ));
            }
            let ext = md_extents(&ranges);
            let n_dims: usize = ext.len();
            let mut d: usize = 0;
            while d < n_dims
                invariant
                    n_dims == ext@.len(),
                    d <= n_dims,
                    ranges@.len() == N,
                    ext@ == extents(ranges@),
                    orig_range == RangePolicy::<N>::MDRangePolicy(ranges),
                    execp.range == orig_range,
                    forall|j: int| 0 <= j < d ==> 1 <= #[trigger] ext@[j],
                decreases n_dims - d,
            {
                if ext[d] == 0 {
                    // one extent is empty: there is nothing to iterate
                    proof {
                        assert forall|s: Seq<usize>| !in_md_space(s, ranges@) by {
                            if in_md_space(s, ranges@) {
                                assert(ranges@[d as int].start <= s[d as int] < ranges@[
                                    d as int
                                ].end);
                                assert(ext@[d as int] == range_ext(ranges@[d as int]));
                            }
                        }
                        assert(kernel_done(kernel, orig_range));
                    }
                    return Ok(());
                }
                d += 1;
            }
            let total = match crate::view::checked_capacity(&ext) {
                Some(c) => c,
                None => {
                    proof {
                        assert forall|j: int| 1 <= j <= ext@.len() implies #[trigger] seq_prod(
                            ext@.take(j),
                        ) <= usize::MAX as int by {
                            crate::view::parameters::lemma_seq_prod_take_le(ext@, j);
                        }
                        assert(false);
                    }
                    return Err(DispatchError::Serial("iteration space size overflows"));
                },
            };
            let strides = right_strides_of(&ext);
            proof {
                // every in-space point has a non-negative rank, so the
                // coverage invariant holds vacuously at entry
                lemma_md_rank_bijective(ranges@);
            }
            let mut k: usize = 0;
            while k < total
                invariant
                    ext@ == extents(ranges@),
                    forall|j: int| 0 <= j < ext@.len() ==> 1 <= #[trigger] ext@[j],
                    is_right_stride(ext@, strides@),
                    strides@ == right_strides_spec(ext@),
                    total == seq_prod(ext@),
                    total <= usize::MAX,
                    k <= total,
                    orig_range == RangePolicy::<N>::MDRangePolicy(ranges),
                    forall|a: KernelArgs<N>|
                        arg_in_space(a, orig_range) ==> #[trigger] call_requires(kernel, (a,)),
                    forall|s: Seq<usize>|
                        #[trigger] in_md_space(s, ranges@) && md_rank(s, ranges@) < k
                            ==> exists|v: Vec<usize>|
                            v@ == s && #[trigger] call_ensures(
                                kernel,
                                (KernelArgs::<N>::IndexND(v),),
                                (),
                            ),
                decreases total - k,
            {
                let idx = md_index_at(&ranges, &ext, &strides, k);
                proof {
                    assert(arg_in_space(KernelArgs::<N>::IndexND(idx), orig_range));
                }
                let ghost gidx = idx;
                kernel(KernelArgs::IndexND(idx));
                proof {
                    lemma_md_rank_bijective(ranges@);
                    assert forall|s: Seq<usize>|
                        #[trigger] in_md_space(s, ranges@) && md_rank(s, ranges@) < k + 1 implies
                        exists|v: Vec<usize>|
                            v@ == s && #[trigger] call_ensures(
                                kernel,
                                (KernelArgs::<N>::IndexND(v),),
                                (),
                            ) by {
                        if md_rank(s, ranges@) == k {
                            assert(in_md_space(gidx@, ranges@));
                            assert(md_rank(gidx@, ranges@) == k);
                            assert(gidx@ == s);
                            assert(call_ensures(kernel, (KernelArgs::<N>::IndexND(gidx),), ()));
                        }
                    }
                }
                k += 1;
            }
            proof {
                lemma_md_rank_bijective(ranges@);
                assert forall|s: Seq<usize>| #[trigger] in_md_space(s, ranges@) implies exists|
                    v: Vec<usize>,
                |
                    v@ == s && #[trigger] call_ensures(
                        kernel,
                        (KernelArgs::<N>::IndexND(v),),
                        (),
                    ) by {
                    assert(md_rank(s, ranges@) < total);
                }
                assert(kernel_done(kernel, orig_range));
            }
            Ok(())
        },
        _ => Err(DispatchError::Serial("team-based policies are not yet supported")),
    }
}

/// CPU dispatch routine of `for` statements, backed by a work-stealing
/// thread pool.
///
/// Under static scheduling the flat range is split into one contiguous chunk
/// per available thread (`chunk_size = n / t + 1`) and each chunk is handed
/// to the pool as one task; under dynamic scheduling every index is an
/// individually stealable unit. N-dimensional ranges and team-based policies
/// are reported as not implemented rather than silently run serially.
///
/// Every index of the range is visited exactly once, collectively, before
/// the call returns; no order is guaranteed across iterations, and the
/// kernel is responsible for synchronizing any state it shares between
/// them. On success the kernel has been run on every index
/// ([`kernel_done`]).
pub fn cpu<const N: usize, F: Fn(KernelArgs<N>) + Send + Sync>(
    execp: ExecutionPolicy<N>,
    kernel: F,
) -> (r: Result<(), DispatchError>)
    requires
        kernel_ready(kernel, execp.range),
    ensures
        r is Ok <==> cpu_accepts::<N>(execp.range),
        r is Ok ==> kernel_done(kernel, execp.range),
        r is Err ==> r == Err::<(), DispatchError>(cpu_error(execp.range)),
{
    let ghost orig_range = execp.range;
    let schedule = execp.schedule;
    match execp.range {
        RangePolicy::RangePolicy(range) => {
            if N != 1 {
                return Err(DispatchError::Serial("Dispatch uses N>1 for a 1D RangePolicy"));
            }
            let lo = range.start;
            let hi = range.end;
            proof {
                assert forall|j: usize| lo <= j < hi implies call_requires(
                    kernel,
                    (KernelArgs::<N>::Index1D(j),),
                ) by {
                    assert(arg_in_space(KernelArgs::<N>::Index1D(j), orig_range));
                }
            }
            if hi <= lo {
                return Ok(());
            }
            match schedule {
                Schedule::Static => {
                    let t = available_threads();
                    let _processed = par_run_chunks(lo, hi, t, &kernel);
                    proof {
                        lemma_static_chunks_partition((hi - lo) as int, t as int);
                        assert forall|j: usize| lo <= j < hi implies #[trigger] call_ensures(
                            kernel,
                            (KernelArgs::<N>::Index1D(j),),
                            (),
                        ) by {
                            let n = (hi - lo) as int;
                            let tid = chunk_of(n, t as int, j - lo);
                            assert(0 <= tid < t);
                            assert(chunk_contains(n, t as int, tid, j - lo));
                            assert(chunk_done(kernel, lo, hi, t, tid as usize));
                            assert(lo + chunk_start_spec(n, t as int, tid) <= j < lo
                                + chunk_end_spec(n, t as int, tid));
                        }
                    }
                },
                Schedule::Dynamic => {
                    let _processed = par_run_indices(lo, hi, &kernel);
                },
            }
            proof {
                assert(kernel_done(kernel, orig_range));
            }
            Ok(())
        },
        RangePolicy::MDRangePolicy(_) => Err(DispatchError::CPU(
            "MDRangePolicy dispatch is not implemented for the CPU backend",
        )),
        _ => Err(DispatchError::CPU("team-based policies are not yet supported")),
    }
}

/// GPU dispatch routine of `for` statements: reserved for future extension.
/// It always reports "not implemented" and never silently substitutes
/// another backend.
pub fn gpu<const N: usize, F: Fn(KernelArgs<N>)>(_execp: ExecutionPolicy<N>, _kernel: F) -> (r:
    Result<(), DispatchError>)
    ensures
        r == Err::<(), DispatchError>(DispatchError::GPU("GPU dispatch is not implemented")),
{
    Err(DispatchError::GPU("GPU dispatch is not implemented"))
}

} // verus!
