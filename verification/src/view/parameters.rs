//! View parameterization code.
//!
//! This module holds the layout/stride engine: the pure mapping from a view's
//! dimensions and memory layout to the per-dimension strides, together with the
//! specification functions that the rest of the view code states its contracts
//! over.

use vstd::prelude::*;
use vstd::arithmetic::div_mod::lemma_fundamental_div_mod_converse;
use vstd::arithmetic::mul::{
    lemma_mul_inequality, lemma_mul_is_associative, lemma_mul_is_commutative,
    lemma_mul_is_distributive_sub_other_way, lemma_mul_nonnegative,
};
use crate::view::ViewError;

verus! {

/// Maximum possible depth (i.e. number of dimensions) for a view.
pub const MAX_VIEW_DEPTH: usize = 8;

/// Supertrait bundling what elements of a view must implement: a plain value
/// that can be copied into and out of the buffer, with a default to fill
/// fresh buffers.
pub trait DataTraits: Clone + Copy + Default {

}

impl<T: Clone + Copy + Default> DataTraits for T {

}

/// Enum used to represent data layout.
#[derive(Clone, Debug, Default, PartialEq)]
pub enum MemoryLayout {
    /// Row-major: the last dimension is contiguous; the first index has the
    /// highest stride.
    #[default]
    Right,
    /// Column-major: the first dimension is contiguous; the last index has the
    /// highest stride.
    Left,
    /// Custom stride for each index. Must be compatible with the dimensions;
    /// the caller is responsible for choosing strides that keep every valid
    /// index inside the buffer.
    Stride { s: Vec<usize> },
}

/// Short alias used throughout view construction sites.
pub type Layout = MemoryLayout;

/// Product of all entries of `s`, as a mathematical integer.
pub open spec fn seq_prod(s: Seq<usize>) -> int
    decreases s.len(),
{
    if s.len() == 0 {
        1
    } else {
        s[0] * seq_prod(s.drop_first())
    }
}

/// Row-major stride of dimension `i`: the product of the extents after `i`.
pub open spec fn stride_right_at(dim: Seq<usize>, i: int) -> int {
    seq_prod(dim.skip(i + 1))
}

/// Column-major stride of dimension `i`: the product of the extents before `i`.
pub open spec fn stride_left_at(dim: Seq<usize>, i: int) -> int {
    seq_prod(dim.take(i))
}

/// The stride of dimension `i` under the given layout.
pub open spec fn stride_at(dim: Seq<usize>, layout: MemoryLayout, i: int) -> int {
    match layout {
        MemoryLayout::Right => stride_right_at(dim, i),
        MemoryLayout::Left => stride_left_at(dim, i),
        MemoryLayout::Stride { s } => s@[i] as int,
    }
}

/// A view may have between one and [`MAX_VIEW_DEPTH`] dimensions.
pub open spec fn depth_ok(n: int) -> bool {
    1 <= n <= MAX_VIEW_DEPTH as int
}

/// All running products formed while computing row-major strides fit in a
/// machine word.
pub open spec fn right_stride_fits(dim: Seq<usize>) -> bool {
    forall|j: int| 1 <= j < dim.len() ==> #[trigger] seq_prod(dim.skip(j)) <= usize::MAX as int
}

/// All running products formed while computing column-major strides fit in a
/// machine word.
pub open spec fn left_stride_fits(dim: Seq<usize>) -> bool {
    forall|j: int| 1 <= j < dim.len() ==> #[trigger] seq_prod(dim.take(j)) <= usize::MAX as int
}

/// A custom stride array must have exactly one entry per dimension.
pub open spec fn stride_len_mismatch(dim: Seq<usize>, layout: MemoryLayout) -> bool {
    match layout {
        MemoryLayout::Stride { s } => s@.len() != dim.len(),
        _ => false,
    }
}

/// No running product overflows while computing strides for this layout.
pub open spec fn layout_fits(dim: Seq<usize>, layout: MemoryLayout) -> bool {
    match layout {
        MemoryLayout::Right => right_stride_fits(dim),
        MemoryLayout::Left => left_stride_fits(dim),
        MemoryLayout::Stride { s: _ } => true,
    }
}

/// Exactly when [`compute_stride`] succeeds.
pub open spec fn compute_stride_ok(dim: Seq<usize>, layout: MemoryLayout) -> bool {
    &&& depth_ok(dim.len() as int)
    &&& layout_fits(dim, layout)
    &&& !stride_len_mismatch(dim, layout)
}

/// The exact error [`compute_stride`] reports for a shape it refuses.
pub open spec fn compute_stride_error(dim: Seq<usize>, layout: MemoryLayout) -> ViewError {
    if !depth_ok(dim.len() as int) {
        ViewError::ValueError("view depth must be between 1 and MAX_VIEW_DEPTH")
    } else if stride_len_mismatch(dim, layout) {
        ViewError::ValueError("custom stride length must match the number of dimensions")
    } else {
        ViewError::Allocation("stride computation overflows a machine word")
    }
}

/// Appending one entry multiplies the product by that entry.
pub proof fn lemma_seq_prod_push(s: Seq<usize>, x: usize)
    ensures
        seq_prod(s.push(x)) == seq_prod(s) * x,
    decreases s.len(),
{
    if s.len() == 0 {
        assert(s.push(x).drop_first() =~= Seq::<usize>::empty());
        assert(seq_prod(Seq::<usize>::empty()) == 1);
        assert(s.push(x)[0] == x);
        assert(seq_prod(s.push(x)) == x as int * 1);
        lemma_mul_is_commutative(x as int, 1);
    } else {
        assert(s.push(x).drop_first() =~= s.drop_first().push(x));
        lemma_seq_prod_push(s.drop_first(), x);
        lemma_mul_is_associative(s[0] as int, seq_prod(s.drop_first()), x as int);
    }
}

/// `idx` is a logical index tuple lying inside the box described by `dim`.
pub open spec fn valid_index(idx: Seq<usize>, dim: Seq<usize>) -> bool {
    &&& idx.len() == dim.len()
    &&& forall|i: int| 0 <= i < idx.len() ==> #[trigger] idx[i] < dim[i]
}

/// The flat offset of index tuple `idx` under the given strides:
/// the sum of `idx[i] * stride[i]` over all dimensions.
pub open spec fn flat_sum(idx: Seq<usize>, stride: Seq<usize>) -> int
    decreases idx.len(),
{
    if idx.len() == 0 {
        0
    } else {
        idx[0] * stride[0] + flat_sum(idx.drop_first(), stride.drop_first())
    }
}

/// `stride` is the row-major stride array of `dim`.
pub open spec fn is_right_stride(dim: Seq<usize>, stride: Seq<usize>) -> bool {
    &&& stride.len() == dim.len()
    &&& forall|i: int| 0 <= i < dim.len() ==> #[trigger] stride[i] == stride_right_at(dim, i)
}

/// `stride` is the column-major stride array of `dim`.
pub open spec fn is_left_stride(dim: Seq<usize>, stride: Seq<usize>) -> bool {
    &&& stride.len() == dim.len()
    &&& forall|i: int| 0 <= i < dim.len() ==> #[trigger] stride[i] == stride_left_at(dim, i)
}

/// The product of a sequence of positive entries is positive.
pub proof fn lemma_seq_prod_pos(s: Seq<usize>)
    requires
        forall|i: int| 0 <= i < s.len() ==> 1 <= #[trigger] s[i],
    ensures
        1 <= seq_prod(s),
    decreases s.len(),
{
    if s.len() > 0 {
        assert forall|i: int| 0 <= i < s.drop_first().len() implies 1 <= #[trigger] s.drop_first()[i] by {
            assert(s.drop_first()[i] == s[i + 1]);
        }
        lemma_seq_prod_pos(s.drop_first());
        lemma_mul_inequality(1, s[0] as int, seq_prod(s.drop_first()));
    }
}

proof fn lemma_valid_index_drop_first(idx: Seq<usize>, dim: Seq<usize>)
    requires
        valid_index(idx, dim),
        0 < idx.len(),
    ensures
        valid_index(idx.drop_first(), dim.drop_first()),
{
    assert forall|i: int|
        0 <= i < idx.drop_first().len() implies #[trigger] idx.drop_first()[i]
        < dim.drop_first()[i] by {
        assert(idx.drop_first()[i] == idx[i + 1]);
        assert(dim.drop_first()[i] == dim[i + 1]);
    }
}

proof fn lemma_valid_index_drop_last(idx: Seq<usize>, dim: Seq<usize>)
    requires
        valid_index(idx, dim),
        0 < idx.len(),
    ensures
        valid_index(idx.drop_last(), dim.drop_last()),
{
    assert forall|i: int|
        0 <= i < idx.drop_last().len() implies #[trigger] idx.drop_last()[i]
        < dim.drop_last()[i] by {
        assert(idx.drop_last()[i] == idx[i]);
        assert(dim.drop_last()[i] == dim[i]);
    }
}

proof fn lemma_right_stride_drop_first(dim: Seq<usize>, stride: Seq<usize>)
    requires
        is_right_stride(dim, stride),
        0 < dim.len(),
    ensures
        is_right_stride(dim.drop_first(), stride.drop_first()),
{
    assert forall|i: int|
        0 <= i < dim.drop_first().len() implies #[trigger] stride.drop_first()[i]
        == stride_right_at(dim.drop_first(), i) by {
        assert(stride.drop_first()[i] == stride[i + 1]);
        assert(dim.drop_first().skip(i + 1) =~= dim.skip(i + 2));
    }
}

proof fn lemma_left_stride_drop_last(dim: Seq<usize>, stride: Seq<usize>)
    requires
        is_left_stride(dim, stride),
        0 < dim.len(),
    ensures
        is_left_stride(dim.drop_last(), stride.drop_last()),
{
    assert forall|i: int|
        0 <= i < dim.drop_last().len() implies #[trigger] stride.drop_last()[i]
        == stride_left_at(dim.drop_last(), i) by {
        assert(stride.drop_last()[i] == stride[i]);
        assert(dim.drop_last().take(i) =~= dim.take(i));
    }
}

/// Splitting a sequence splits its product.
pub proof fn lemma_seq_prod_split(s: Seq<usize>, j: int)
    requires
        0 <= j <= s.len(),
    ensures
        seq_prod(s) == seq_prod(s.take(j)) * seq_prod(s.skip(j)),
    decreases j,
{
    if j == 0 {
        assert(s.take(0) =~= Seq::<usize>::empty());
        assert(s.skip(0) =~= s);
    } else {
        lemma_seq_prod_split(s.drop_first(), j - 1);
        assert(s.take(j).drop_first() =~= s.drop_first().take(j - 1));
        assert(s.skip(j) =~= s.drop_first().skip(j - 1));
        assert(s.take(j)[0] == s[0]);
        lemma_mul_is_associative(
            s[0] as int,
            seq_prod(s.drop_first().take(j - 1)),
            seq_prod(s.drop_first().skip(j - 1)),
        );
    }
}

/// With no zero entry, a prefix's product never exceeds the whole product.
pub proof fn lemma_seq_prod_take_le(s: Seq<usize>, j: int)
    requires
        forall|i: int| 0 <= i < s.len() ==> 1 <= #[trigger] s[i],
        0 <= j <= s.len(),
    ensures
        seq_prod(s.take(j)) <= seq_prod(s),
{
    lemma_seq_prod_split(s, j);
    assert forall|i: int| 0 <= i < s.skip(j).len() implies 1 <= #[trigger] s.skip(j)[i] by {
        assert(s.skip(j)[i] == s[i + j]);
    }
    lemma_seq_prod_pos(s.skip(j));
    assert forall|i: int| 0 <= i < s.take(j).len() implies 1 <= #[trigger] s.take(j)[i] by {
        assert(s.take(j)[i] == s[i]);
    }
    lemma_seq_prod_pos(s.take(j));
    lemma_mul_inequality(1, seq_prod(s.skip(j)), seq_prod(s.take(j)));
    lemma_mul_is_commutative(seq_prod(s.skip(j)), seq_prod(s.take(j)));
}

/// With no zero entry, a suffix's product never exceeds the whole product.
pub proof fn lemma_seq_prod_skip_le(s: Seq<usize>, j: int)
    requires
        forall|i: int| 0 <= i < s.len() ==> 1 <= #[trigger] s[i],
        0 <= j <= s.len(),
    ensures
        seq_prod(s.skip(j)) <= seq_prod(s),
{
    lemma_seq_prod_split(s, j);
    assert forall|i: int| 0 <= i < s.take(j).len() implies 1 <= #[trigger] s.take(j)[i] by {
        assert(s.take(j)[i] == s[i]);
    }
    lemma_seq_prod_pos(s.take(j));
    assert forall|i: int| 0 <= i < s.skip(j).len() implies 1 <= #[trigger] s.skip(j)[i] by {
        assert(s.skip(j)[i] == s[i + j]);
    }
    lemma_seq_prod_pos(s.skip(j));
    lemma_mul_inequality(1, seq_prod(s.take(j)), seq_prod(s.skip(j)));
}

/// A flat-offset sum of machine words is never negative.
pub proof fn lemma_flat_sum_nonneg(idx: Seq<usize>, stride: Seq<usize>)
    requires
        idx.len() == stride.len(),
    ensures
        0 <= flat_sum(idx, stride),
    decreases idx.len(),
{
    if idx.len() > 0 {
        lemma_mul_nonnegative(idx[0] as int, stride[0] as int);
        lemma_flat_sum_nonneg(idx.drop_first(), stride.drop_first());
    }
}

/// Peeling the last dimension off a flat-offset sum.
pub proof fn lemma_flat_sum_snoc(idx: Seq<usize>, stride: Seq<usize>)
    requires
        idx.len() == stride.len(),
        0 < idx.len(),
    ensures
        flat_sum(idx, stride) == flat_sum(idx.drop_last(), stride.drop_last()) + idx.last()
            * stride.last(),
    decreases idx.len(),
{
    if idx.len() == 1 {
        assert(idx.drop_last() =~= Seq::<usize>::empty());
        assert(idx.drop_first() =~= Seq::<usize>::empty());
        assert(flat_sum(idx.drop_first(), stride.drop_first()) == 0);
        assert(idx.last() == idx[0]);
        assert(stride.last() == stride[0]);
    } else {
        lemma_flat_sum_snoc(idx.drop_first(), stride.drop_first());
        assert(idx.drop_first().drop_last() =~= idx.drop_last().drop_first());
        assert(stride.drop_first().drop_last() =~= stride.drop_last().drop_first());
        assert(idx.drop_first().last() == idx.last());
        assert(stride.drop_first().last() == stride.last());
        assert(idx.drop_last()[0] == idx[0]);
        assert(stride.drop_last()[0] == stride[0]);
        assert(flat_sum(idx.drop_last(), stride.drop_last()) == idx[0] * stride[0] + flat_sum(
            idx.drop_last().drop_first(),
            stride.drop_last().drop_first(),
        ));
    }
}

/// Row-major flat-index bound: a valid index tuple always lands strictly
/// inside the buffer, whose size is the product of the dimensions.
pub proof fn lemma_flat_index_bounded_right(idx: Seq<usize>, dim: Seq<usize>, stride: Seq<usize>)
    requires
        valid_index(idx, dim),
        is_right_stride(dim, stride),
    ensures
        0 <= flat_sum(idx, stride) < seq_prod(dim),
    decreases idx.len(),
{
    if idx.len() == 0 {
    } else {
        let s0 = stride[0] as int;
        assert(dim.skip(1) =~= dim.drop_first());
        assert(s0 == seq_prod(dim.drop_first()));
        lemma_right_stride_drop_first(dim, stride);
        lemma_valid_index_drop_first(idx, dim);
        lemma_flat_index_bounded_right(idx.drop_first(), dim.drop_first(), stride.drop_first());
        lemma_mul_nonnegative(idx[0] as int, s0);
        lemma_mul_inequality(idx[0] as int, dim[0] as int - 1, s0);
        lemma_mul_is_distributive_sub_other_way(s0, dim[0] as int, 1);
        assert(seq_prod(dim) == dim[0] * seq_prod(dim.drop_first()));
    }
}

/// Row-major flat-index injectivity: two distinct valid index tuples land on
/// distinct flat offsets.
pub proof fn lemma_flat_index_injective_right(
    a: Seq<usize>,
    b: Seq<usize>,
    dim: Seq<usize>,
    stride: Seq<usize>,
)
    requires
        valid_index(a, dim),
        valid_index(b, dim),
        is_right_stride(dim, stride),
        flat_sum(a, stride) == flat_sum(b, stride),
    ensures
        a == b,
    decreases dim.len(),
{
    if dim.len() == 0 {
        assert(a =~= b);
    } else {
        let s0 = stride[0] as int;
        assert(dim.skip(1) =~= dim.drop_first());
        assert(s0 == seq_prod(dim.drop_first()));
        lemma_right_stride_drop_first(dim, stride);
        lemma_valid_index_drop_first(a, dim);
        lemma_valid_index_drop_first(b, dim);
        lemma_flat_index_bounded_right(a.drop_first(), dim.drop_first(), stride.drop_first());
        lemma_flat_index_bounded_right(b.drop_first(), dim.drop_first(), stride.drop_first());
        assert forall|i: int| 0 <= i < dim.drop_first().len() implies 1 <= #[trigger] dim.drop_first()[i] by {
            assert(a.drop_first()[i] < dim.drop_first()[i]);
        }
        lemma_seq_prod_pos(dim.drop_first());
        let f = flat_sum(a, stride);
        lemma_fundamental_div_mod_converse(
            f,
            s0,
            a[0] as int,
            flat_sum(a.drop_first(), stride.drop_first()),
        );
        lemma_fundamental_div_mod_converse(
            f,
            s0,
            b[0] as int,
            flat_sum(b.drop_first(), stride.drop_first()),
        );
        lemma_flat_index_injective_right(
            a.drop_first(),
            b.drop_first(),
            dim.drop_first(),
            stride.drop_first(),
        );
        assert forall|i: int| 0 <= i < a.len() implies a[i] == b[i] by {
            if i > 0 {
                assert(a.drop_first()[i - 1] == a[i]);
                assert(b.drop_first()[i - 1] == b[i]);
            }
        }
        assert(a =~= b);
    }
}

/// Column-major flat-index bound: a valid index tuple always lands strictly
/// inside the buffer, whose size is the product of the dimensions.
pub proof fn lemma_flat_index_bounded_left(idx: Seq<usize>, dim: Seq<usize>, stride: Seq<usize>)
    requires
        valid_index(idx, dim),
        is_left_stride(dim, stride),
    ensures
        0 <= flat_sum(idx, stride) < seq_prod(dim),
    decreases idx.len(),
{
    if idx.len() == 0 {
    } else {
        let n = idx.len() as int;
        let p = stride.last() as int;
        assert(dim.take(n - 1) =~= dim.drop_last());
        assert(p == seq_prod(dim.drop_last()));
        lemma_flat_sum_snoc(idx, stride);
        lemma_left_stride_drop_last(dim, stride);
        lemma_valid_index_drop_last(idx, dim);
        lemma_flat_index_bounded_left(idx.drop_last(), dim.drop_last(), stride.drop_last());
        lemma_mul_nonnegative(idx.last() as int, p);
        lemma_mul_inequality(idx.last() as int, dim.last() as int - 1, p);
        lemma_mul_is_distributive_sub_other_way(p, dim.last() as int, 1);
        lemma_seq_prod_push(dim.drop_last(), dim.last());
        assert(dim.drop_last().push(dim.last()) =~= dim);
        lemma_mul_is_commutative(seq_prod(dim.drop_last()), dim.last() as int);
    }
}

/// Column-major flat-index injectivity: two distinct valid index tuples land
/// on distinct flat offsets.
pub proof fn lemma_flat_index_injective_left(
    a: Seq<usize>,
    b: Seq<usize>,
    dim: Seq<usize>,
    stride: Seq<usize>,
)
    requires
        valid_index(a, dim),
        valid_index(b, dim),
        is_left_stride(dim, stride),
        flat_sum(a, stride) == flat_sum(b, stride),
    ensures
        a == b,
    decreases dim.len(),
{
    if dim.len() == 0 {
        assert(a =~= b);
    } else {
        let n = dim.len() as int;
        let p = stride.last() as int;
        assert(dim.take(n - 1) =~= dim.drop_last());
        assert(p == seq_prod(dim.drop_last()));
        lemma_flat_sum_snoc(a, stride);
        lemma_flat_sum_snoc(b, stride);
        lemma_left_stride_drop_last(dim, stride);
        lemma_valid_index_drop_last(a, dim);
        lemma_valid_index_drop_last(b, dim);
        lemma_flat_index_bounded_left(a.drop_last(), dim.drop_last(), stride.drop_last());
        lemma_flat_index_bounded_left(b.drop_last(), dim.drop_last(), stride.drop_last());
        assert forall|i: int| 0 <= i < dim.drop_last().len() implies 1 <= #[trigger] dim.drop_last()[i] by {
            assert(a.drop_last()[i] < dim.drop_last()[i]);
        }
        lemma_seq_prod_pos(dim.drop_last());
        let f = flat_sum(a, stride);
        lemma_fundamental_div_mod_converse(
            f,
            p,
            a.last() as int,
            flat_sum(a.drop_last(), stride.drop_last()),
        );
        lemma_fundamental_div_mod_converse(
            f,
            p,
            b.last() as int,
            flat_sum(b.drop_last(), stride.drop_last()),
        );
        lemma_flat_index_injective_left(
            a.drop_last(),
            b.drop_last(),
            dim.drop_last(),
            stride.drop_last(),
        );
        assert forall|i: int| 0 <= i < a.len() implies a[i] == b[i] by {
            if i < a.len() - 1 {
                assert(a.drop_last()[i] == a[i]);
                assert(b.drop_last()[i] == b[i]);
            } else {
                assert(a[i] == a.last());
                assert(b[i] == b.last());
            }
        }
        assert(a =~= b);
    }
}

/// All running prefix products of the dimensions, up to and including the
/// full product (a view's buffer size), fit in a machine word.
pub open spec fn capacity_fits(dim: Seq<usize>) -> bool {
    forall|j: int| 1 <= j <= dim.len() ==> #[trigger] seq_prod(dim.take(j)) <= usize::MAX as int
}

/// Two layout values describe the same physical layout.
pub open spec fn same_layout(a: MemoryLayout, b: MemoryLayout) -> bool {
    match (a, b) {
        (MemoryLayout::Right, MemoryLayout::Right) => true,
        (MemoryLayout::Left, MemoryLayout::Left) => true,
        (MemoryLayout::Stride { s: x }, MemoryLayout::Stride { s: y }) => x@ == y@,
        _ => false,
    }
}

/// Layouts that agree observably produce the same strides.
pub proof fn lemma_same_layout_stride_at(dim: Seq<usize>, a: MemoryLayout, b: MemoryLayout)
    requires
        same_layout(a, b),
    ensures
        forall|i: int| #[trigger] stride_at(dim, a, i) == stride_at(dim, b, i),
        stride_len_mismatch(dim, a) == stride_len_mismatch(dim, b),
{
}

/// 1-D degeneracy: with a single dimension `d`, the row-major and the
/// column-major layouts agree, and the one stride is `1`.
pub proof fn lemma_one_dimension_stride(d: usize)
    ensures
        stride_right_at(seq![d], 0) == 1,
        stride_left_at(seq![d], 0) == 1,
        compute_stride_ok(seq![d], MemoryLayout::Right),
        compute_stride_ok(seq![d], MemoryLayout::Left),
{
    assert(seq![d].skip(1) =~= Seq::<usize>::empty());
    assert(seq![d].take(0) =~= Seq::<usize>::empty());
}

/// Element-wise copy of a vector of plain values.
pub(crate) fn copy_vec<T: Copy>(v: &Vec<T>) -> (r: Vec<T>)
    ensures
        r@ == v@,
{
    let mut r: Vec<T> = Vec::new();
    let mut i: usize = 0;
    while i < v.len()
        invariant
            i <= v@.len(),
            r@ =~= v@.take(i as int),
        decreases v@.len() - i,
    {
        r.push(v[i]);
        proof {
            assert(v@.take(i + 1) =~= v@.take(i as int).push(v@[i as int]));
        }
        i += 1;
    }
    proof {
        assert(v@.take(v@.len() as int) =~= v@);
    }
    r
}

impl MemoryLayout {
    /// An explicit copy; the result describes the same layout as `self`.
    pub fn duplicate(&self) -> (r: MemoryLayout)
        ensures
            same_layout(r, *self),
    {
        match self {
            MemoryLayout::Right => MemoryLayout::Right,
            MemoryLayout::Left => MemoryLayout::Left,
            MemoryLayout::Stride { s } => MemoryLayout::Stride { s: copy_vec(s) },
        }
    }
}

/// Compute the stride of each dimension from the dimensions and the layout.
///
/// Every running product is formed with a checked multiplication, so an
/// overflow is reported instead of wrapping.
pub fn compute_stride(dim: &Vec<usize>, layout: &MemoryLayout) -> (r: Result<Vec<usize>, ViewError>)
    ensures
        match r {
            Ok(stride) => {
                &&& compute_stride_ok(dim@, *layout)
                &&& stride@.len() == dim@.len()
                &&& forall|i: int|
                    0 <= i < dim@.len() ==> stride@[i] == #[trigger] stride_at(dim@, *layout, i)
            },
            Err(e) => {
                &&& !compute_stride_ok(dim@, *layout)
                &&& e == compute_stride_error(dim@, *layout)
            },
        },
{
    let n: usize = dim.len();
    if n < 1 || n > MAX_VIEW_DEPTH {
        return Err(ViewError::ValueError("view depth must be between 1 and MAX_VIEW_DEPTH"));
    }
    match layout {
        MemoryLayout::Right => {
            // Walk the dimensions from last to first, accumulating the running
            // product; the entries come out reversed.
            let mut rev: Vec<usize> = Vec::new();
            let mut acc: usize = 1;
            let mut j: usize = n;
            proof {
                assert(dim@.skip(n as int) =~= Seq::<usize>::empty());
            }
            while j > 0
                invariant
                    n == dim@.len(),
                    depth_ok(n as int),
                    *layout == MemoryLayout::Right,
                    j <= n,
                    1 <= j ==> acc == seq_prod(dim@.skip(j as int)),
                    rev@.len() == n - j,
                    forall|k: int|
                        0 <= k < rev@.len() ==> #[trigger] rev@[k] == stride_right_at(
                            dim@,
                            n - 1 - k,
                        ),
                    forall|j2: int|
                        1 <= j2 < n && j <= j2 ==> #[trigger] seq_prod(dim@.skip(j2))
                            <= usize::MAX as int,
                decreases j,
            {
                rev.push(acc);
                if j > 1 {
                    let d = dim[j - 1];
                    proof {
                        assert(dim@.skip(j - 1).drop_first() =~= dim@.skip(j as int));
                        assert(seq_prod(dim@.skip(j - 1)) == d * seq_prod(dim@.skip(j as int)));
                        lemma_mul_is_commutative(d as int, seq_prod(dim@.skip(j as int)));
                    }
                    match acc.checked_mul(d) {
                        Some(a) => {
                            acc = a;
                        },
                        None => {
                            proof {
                                assert(seq_prod(dim@.skip(j - 1)) > usize::MAX as int);
                                assert(!right_stride_fits(dim@));
                            }
                            return Err(ViewError::Allocation(
                                "stride computation overflows a machine word",
                            ));
                        },
                    }
                }
                j -= 1;
            }
            let mut stride: Vec<usize> = Vec::new();
            let mut k: usize = n;
            while k > 0
                invariant
                    n == dim@.len(),
                    depth_ok(n as int),
                    *layout == MemoryLayout::Right,
                    right_stride_fits(dim@),
                    rev@.len() == n,
                    forall|k2: int|
                        0 <= k2 < n ==> #[trigger] rev@[k2] == stride_right_at(dim@, n - 1 - k2),
                    k <= n,
                    stride@.len() == n - k,
                    forall|i: int|
                        0 <= i < stride@.len() ==> #[trigger] stride@[i] == stride_right_at(
                            dim@,
                            i,
                        ),
                decreases k,
            {
                k -= 1;
                stride.push(rev[k]);
            }
            Ok(stride)
        },
        MemoryLayout::Left => {
            // Walk the dimensions from first to last, accumulating the running
            // product.
            let mut stride: Vec<usize> = Vec::new();
            let mut acc: usize = 1;
            let mut i: usize = 0;
            proof {
                assert(dim@.take(0) =~= Seq::<usize>::empty());
            }
            while i < n
                invariant
                    n == dim@.len(),
                    depth_ok(n as int),
                    *layout == MemoryLayout::Left,
                    i <= n,
                    i < n ==> acc == seq_prod(dim@.take(i as int)),
                    stride@.len() == i,
                    forall|ii: int|
                        0 <= ii < i ==> #[trigger] stride@[ii] == stride_left_at(dim@, ii),
                    forall|j2: int|
                        1 <= j2 < n && j2 <= i ==> #[trigger] seq_prod(dim@.take(j2))
                            <= usize::MAX as int,
                decreases n - i,
            {
                stride.push(acc);
                if i + 1 < n {
                    let d = dim[i];
                    proof {
                        lemma_seq_prod_push(dim@.take(i as int), d);
                        assert(dim@.take(i + 1) =~= dim@.take(i as int).push(d));
                    }
                    match acc.checked_mul(d) {
                        Some(a) => {
                            acc = a;
                        },
                        None => {
                            proof {
                                assert(seq_prod(dim@.take(i + 1)) > usize::MAX as int);
                                assert(!left_stride_fits(dim@));
                            }
                            return Err(ViewError::Allocation(
                                "stride computation overflows a machine word",
                            ));
                        },
                    }
                }
                i += 1;
            }
            Ok(stride)
        },
        MemoryLayout::Stride { s } => {
            if s.len() != n {
                return Err(ViewError::ValueError(
                    "custom stride length must match the number of dimensions",
                ));
            }
            let mut stride: Vec<usize> = Vec::new();
            let mut i: usize = 0;
            while i < n
                invariant
                    n == dim@.len(),
                    depth_ok(n as int),
                    *layout == (MemoryLayout::Stride { s: *s }),
                    n == s@.len(),
                    i <= n,
                    stride@.len() == i,
                    forall|ii: int| 0 <= ii < i ==> #[trigger] stride@[ii] == s@[ii],
                decreases n - i,
            {
                stride.push(s[i]);
                i += 1;
            }
            Ok(stride)
        },
    }
}

} // verus!
