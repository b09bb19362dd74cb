//! Data structure related code.
//!
//! This module implements `View`s, logical multi-dimensional arrays over a flat
//! buffer whose physical layout (row-major, column-major, or caller-supplied
//! strides) is decoupled from logical indexing. Parameters of views are defined
//! in the [`parameters`] sub-module.
//!
//! A view either owns its buffer or is a *mirror* of an owning view: a
//! read-only or read-write companion created from the owner. Buffers are
//! owned values, so a mirror carries its own copy of the owner's contents,
//! made when the mirror is created; the data holder records the ownership
//! role, and the mirroring rules are enforced at runtime: only the owner can
//! produce mirrors, a read-only mirror refuses writes, and a runtime borrow
//! guard lets the owner hand out at most one read-write mirror.
//!
//! Elements are accessed by direct exclusive reference: `set` takes the view
//! by `&mut`. There is no atomically-accessed element mode; a kernel that
//! shares a view across concurrent iterations synchronizes it itself, and
//! keeping concurrent writes to distinct indices is likewise the caller's
//! obligation.

pub mod parameters;

use vstd::prelude::*;
use vstd::arithmetic::mul::lemma_mul_nonnegative;
use crate::view::parameters::{
    DataTraits, MemoryLayout, capacity_fits, compute_stride, compute_stride_error, compute_stride_ok,
    copy_vec, depth_ok, flat_sum, is_left_stride, is_right_stride, lemma_flat_index_bounded_left,
    lemma_flat_index_bounded_right, lemma_flat_index_injective_left,
    lemma_flat_index_injective_right, lemma_flat_sum_nonneg, lemma_flat_sum_snoc,
    lemma_same_layout_stride_at, same_layout, seq_prod, stride_at, stride_len_mismatch,
    valid_index,
};

verus! {

/// Enum used to classify view-related errors.
///
/// In all variants, the internal value is a description of the error.
#[derive(Clone, Copy, Debug, PartialEq)]
pub enum ViewError {
    /// An argument disagrees with the view's shape, an index falls out of
    /// bounds, or a write was attempted through a read-only mirror.
    ValueError(&'static str),
    /// A mirror was requested from a view that does not own its data.
    DoubleMirroring(&'static str),
    /// The buffer size could not be computed: a running product of the
    /// dimensions overflows the machine's word.
    Allocation(&'static str),
}

/// Data holder of a view, recording the ownership role of the buffer.
///
/// Exactly one of the three roles is active for a view: the "original" view
/// owns its buffer, and mirrors created from it carry the read-only or
/// read-write role instead.
#[derive(Debug, PartialEq)]
pub enum DataType<T> {
    /// The view owns the buffer; it may read, write, and produce mirrors.
    Owned(Vec<T>),
    /// A read-only mirror: reads are allowed, writes are refused.
    Borrowed(Vec<T>),
    /// A read-write mirror: reads and writes are allowed, further mirroring
    /// is refused.
    MutBorrowed(Vec<T>),
}

/// Common structure used as the backend of all view types: an owning view and
/// its read-only or read-write mirrors differ only in the role of the `data`
/// field.
#[derive(Debug, PartialEq)]
pub struct ViewBase<T> {
    /// Data container, together with its ownership role.
    pub data: DataType<T>,
    /// Memory layout of the view.
    pub layout: MemoryLayout,
    /// Dimensions of the data represented by the view: one extent per
    /// dimension, between 1 and [`parameters::MAX_VIEW_DEPTH`] dimensions.
    pub dim: Vec<usize>,
    /// Stride between two consecutive logical indices of each dimension.
    /// Computed from the dimensions for [`MemoryLayout::Right`] and
    /// [`MemoryLayout::Left`].
    pub stride: Vec<usize>,
    /// Runtime borrow guard: set once a read-write mirror has been handed
    /// out, so that an owner produces at most one.
    pub mirrored: bool,
}

/// View type owning the data it yields access to, i.e. an "original" view.
pub type ViewOwned<T> = ViewBase<T>;

/// View type holding a read-only borrow of another view's data, i.e. a
/// read-only mirror.
pub type ViewRO<T> = ViewBase<T>;

/// View type holding a read-write borrow of another view's data, i.e. a
/// read-write mirror.
pub type ViewRW<T> = ViewBase<T>;

/// The shape arguments describe a view whose strides and buffer size can be
/// computed without overflow.
pub open spec fn view_shape_ok(dim: Seq<usize>, layout: MemoryLayout) -> bool {
    &&& compute_stride_ok(dim, layout)
    &&& capacity_fits(dim)
}

/// The exact error view construction reports for a shape it refuses.
pub open spec fn view_alloc_error(dim: Seq<usize>, layout: MemoryLayout) -> ViewError {
    if !compute_stride_ok(dim, layout) {
        compute_stride_error(dim, layout)
    } else {
        ViewError::Allocation("buffer size overflows a machine word")
    }
}

impl<T> ViewBase<T> {
    /// The flat buffer behind the view, regardless of the ownership role.
    pub open spec fn buffer(self) -> Seq<T> {
        match self.data {
            DataType::Owned(v) => v@,
            DataType::Borrowed(v) => v@,
            DataType::MutBorrowed(v) => v@,
        }
    }

    /// The number of elements the dimensions describe.
    pub open spec fn capacity(self) -> int {
        seq_prod(self.dim@)
    }

    /// The view owns its buffer (it is not a mirror).
    pub open spec fn owns_data(self) -> bool {
        self.data is Owned
    }

    /// The view accepts writes: it is the owner or a read-write mirror.
    pub open spec fn writable(self) -> bool {
        !(self.data is Borrowed)
    }

    /// Well-formedness: the stride array matches the layout, and the buffer
    /// holds exactly one element per logical index tuple.
    pub open spec fn wf(self) -> bool {
        &&& depth_ok(self.dim@.len() as int)
        &&& self.stride@.len() == self.dim@.len()
        &&& !stride_len_mismatch(self.dim@, self.layout)
        &&& forall|i: int|
            0 <= i < self.dim@.len() ==> #[trigger] self.stride@[i] == stride_at(
                self.dim@,
                self.layout,
                i,
            )
        &&& self.buffer().len() == seq_prod(self.dim@)
    }

    /// The index tuple has one entry per dimension and projects to a flat
    /// offset inside the buffer.
    pub open spec fn index_in_bounds(self, idx: Seq<usize>) -> bool {
        &&& idx.len() == self.stride@.len()
        &&& flat_sum(idx, self.stride@) < self.buffer().len()
    }

    /// Length of the backing buffer.
    fn buffer_len(&self) -> (l: usize)
        ensures
            l == self.buffer().len(),
    {
        match &self.data {
            DataType::Owned(v) => v.len(),
            DataType::Borrowed(v) => v.len(),
            DataType::MutBorrowed(v) => v.len(),
        }
    }
}

/// Overwrite every element of a vector with one value.
fn fill_vec<T: Copy>(v: &mut Vec<T>, val: T)
    ensures
        final(v)@.len() == old(v)@.len(),
        forall|i: int| 0 <= i < final(v)@.len() ==> #[trigger] final(v)@[i] == val,
{
    let n: usize = v.len();
    let mut i: usize = 0;
    while i < n
        invariant
            n == v@.len(),
            i <= n,
            forall|j: int| 0 <= j < i ==> #[trigger] v@[j] == val,
        decreases n - i,
    {
        v[i] = val;
        i += 1;
    }
}

/// The flat offset of `idx` under `stride`, or `None` if the sum overflows a
/// machine word (in which case it cannot land inside any buffer).
fn checked_flat_sum(idx: &Vec<usize>, stride: &Vec<usize>) -> (r: Option<usize>)
    requires
        idx@.len() == stride@.len(),
    ensures
        match r {
            Some(f) => f == flat_sum(idx@, stride@),
            None => flat_sum(idx@, stride@) > usize::MAX as int,
        },
{
    let n: usize = idx.len();
    let mut acc: usize = 0;
    let mut i: usize = 0;
    proof {
        assert(idx@.take(0) =~= Seq::<usize>::empty());
        assert(stride@.take(0) =~= Seq::<usize>::empty());
        assert(idx@.skip(0) =~= idx@);
        assert(stride@.skip(0) =~= stride@);
    }
    while i < n
        invariant
            n == idx@.len(),
            n == stride@.len(),
            i <= n,
            acc == flat_sum(idx@.take(i as int), stride@.take(i as int)),
            flat_sum(idx@, stride@) == acc + flat_sum(
                idx@.skip(i as int),
                stride@.skip(i as int),
            ),
        decreases n - i,
    {
        proof {
            assert(idx@.skip(i as int).drop_first() =~= idx@.skip(i + 1));
            assert(stride@.skip(i as int).drop_first() =~= stride@.skip(i + 1));
            assert(idx@.skip(i as int)[0] == idx@[i as int]);
            assert(stride@.skip(i as int)[0] == stride@[i as int]);
            lemma_flat_sum_nonneg(idx@.skip(i + 1), stride@.skip(i + 1));
            lemma_mul_nonnegative(idx@[i as int] as int, stride@[i as int] as int);
        }
        let term = match idx[i].checked_mul(stride[i]) {
            Some(t) => t,
            None => {
                return None;
            },
        };
        let new_acc = match acc.checked_add(term) {
            Some(a) => a,
            None => {
                return None;
            },
        };
        proof {
            lemma_flat_sum_snoc(idx@.take(i + 1), stride@.take(i + 1));
            assert(idx@.take(i + 1).drop_last() =~= idx@.take(i as int));
            assert(stride@.take(i + 1).drop_last() =~= stride@.take(i as int));
            assert(idx@.take(i + 1).last() == idx@[i as int]);
            assert(stride@.take(i + 1).last() == stride@[i as int]);
        }
        acc = new_acc;
        i += 1;
    }
    proof {
        assert(idx@.take(n as int) =~= idx@);
        assert(stride@.take(n as int) =~= stride@);
    }
    Some(acc)
}

impl<T: DataTraits> ViewBase<T> {
    /// Constructor used to create owned views, filled with the element type's
    /// default value. See dedicated methods for mirrors.
    ///
    /// Fails if the number of dimensions is out of range or if a running
    /// product of the dimensions overflows a machine word.
    pub fn new(layout: MemoryLayout, dim: Vec<usize>) -> (r: Result<ViewBase<T>, ViewError>)
        ensures
            match r {
                Ok(v) => {
                    &&& view_shape_ok(dim@, layout)
                    &&& v.wf()
                    &&& v.owns_data()
                    &&& !v.mirrored
                    &&& v.layout == layout
                    &&& v.dim@ == dim@
                    &&& v.buffer().len() == seq_prod(dim@)
                    &&& forall|k: int|
                        0 <= k < v.buffer().len() ==> call_ensures(
                            T::default,
                            (),
                            #[trigger] v.buffer()[k],
                        )
                },
                Err(e) => {
                    &&& !view_shape_ok(dim@, layout)
                    &&& e == view_alloc_error(dim@, layout)
                },
            },
    {
        let stride = match compute_stride(&dim, &layout) {
            Ok(s) => s,
            Err(e) => {
                return Err(e);
            },
        };
        let capacity = match checked_capacity(&dim) {
            Some(c) => c,
            None => {
                return Err(ViewError::Allocation("buffer size overflows a machine word"));
            },
        };
        let mut data: Vec<T> = Vec::new();
        let mut i: usize = 0;
        while i < capacity
            invariant
                data@.len() == i,
                i <= capacity,
                forall|k: int|
                    0 <= k < i ==> call_ensures(T::default, (), #[trigger] data@[k]),
            decreases capacity - i,
        {
            data.push(T::default());
            i += 1;
        }
        Ok(ViewBase { data: DataType::Owned(data), layout, dim, stride, mirrored: false })
    }

    /// Constructor used to create owned views over caller-supplied data.
    ///
    /// Fails like [`Self::new`], and additionally if the data's length is not
    /// the product of the dimensions.
    pub fn new_from_data(data: Vec<T>, layout: MemoryLayout, dim: Vec<usize>) -> (r: Result<
        ViewBase<T>,
        ViewError,
    >)
        ensures
            match r {
                Ok(v) => {
                    &&& view_shape_ok(dim@, layout)
                    &&& data@.len() == seq_prod(dim@)
                    &&& v.wf()
                    &&& v.owns_data()
                    &&& !v.mirrored
                    &&& v.layout == layout
                    &&& v.dim@ == dim@
                    &&& v.buffer() == data@
                },
                Err(e) => {
                    &&& !(view_shape_ok(dim@, layout) && data@.len() == seq_prod(dim@))
                    &&& e == (if !view_shape_ok(dim@, layout) {
                        view_alloc_error(dim@, layout)
                    } else {
                        ViewError::ValueError("data length must be the product of the dimensions")
                    })
                },
            },
    {
        let stride = match compute_stride(&dim, &layout) {
            Ok(s) => s,
            Err(e) => {
                return Err(e);
            },
        };
        let capacity = match checked_capacity(&dim) {
            Some(c) => c,
            None => {
                return Err(ViewError::Allocation("buffer size overflows a machine word"));
            },
        };
        if data.len() != capacity {
            return Err(ViewError::ValueError(
                "data length must be the product of the dimensions",
            ));
        }
        Ok(ViewBase { data: DataType::Owned(data), layout, dim, stride, mirrored: false })
    }

    /// Reading interface: project the index tuple to a flat offset and read
    /// the element there.
    ///
    /// Fails with a reportable out-of-bounds condition when the index has the
    /// wrong number of entries or projects outside the buffer. On a
    /// well-formed row-major or column-major view, every index tuple lying
    /// inside the dimensions is accepted
    /// (see [`lemma_view_flat_idx_bijective`]).
    pub fn get(&self, index: &Vec<usize>) -> (r: Result<T, ViewError>)
        ensures
            match r {
                Ok(val) => self.index_in_bounds(index@) && val == self.buffer()[flat_sum(
                    index@,
                    self.stride@,
                )],
                Err(e) => {
                    &&& !self.index_in_bounds(index@)
                    &&& e == (if index@.len() != self.stride@.len() {
                        ViewError::ValueError("index dimensionality does not match the view")
                    } else {
                        ViewError::ValueError("index out of bounds")
                    })
                },
            },
    {
        if index.len() != self.stride.len() {
            return Err(ViewError::ValueError("index dimensionality does not match the view"));
        }
        let blen = self.buffer_len();
        let flat = match checked_flat_sum(index, &self.stride) {
            Some(f) => f,
            None => {
                return Err(ViewError::ValueError("index out of bounds"));
            },
        };
        if flat >= blen {
            return Err(ViewError::ValueError("index out of bounds"));
        }
        match &self.data {
            DataType::Owned(v) => Ok(v[flat]),
            DataType::Borrowed(v) => Ok(v[flat]),
            DataType::MutBorrowed(v) => Ok(v[flat]),
        }
    }

    /// Writing interface: project the index tuple to a flat offset and store
    /// `val` there.
    ///
    /// Fails with a reportable condition when the index is out of bounds or
    /// when the view is a read-only mirror; the view is then left unchanged.
    pub fn set(&mut self, index: &Vec<usize>, val: T) -> (r: Result<(), ViewError>)
        ensures
            match r {
                Ok(()) => {
                    &&& old(self).writable()
                    &&& old(self).index_in_bounds(index@)
                    &&& final(self).buffer() == old(self).buffer().update(
                        flat_sum(index@, old(self).stride@),
                        val,
                    )
                    &&& final(self).layout == old(self).layout
                    &&& final(self).dim == old(self).dim
                    &&& final(self).stride == old(self).stride
                    &&& (final(self).data is Owned <==> old(self).data is Owned)
                    &&& (final(self).data is MutBorrowed <==> old(self).data is MutBorrowed)
                    &&& final(self).mirrored == old(self).mirrored
                    &&& (old(self).wf() ==> final(self).wf())
                },
                Err(e) => {
                    &&& *final(self) == *old(self)
                    &&& !(old(self).writable() && old(self).index_in_bounds(index@))
                    &&& e == (if index@.len() != old(self).stride@.len() {
                        ViewError::ValueError("index dimensionality does not match the view")
                    } else if !old(self).writable() {
                        ViewError::ValueError("cannot write through a read-only mirror")
                    } else {
                        ViewError::ValueError("index out of bounds")
                    })
                },
            },
    {
        if index.len() != self.stride.len() {
            return Err(ViewError::ValueError("index dimensionality does not match the view"));
        }
        let writable = match &self.data {
            DataType::Borrowed(_) => false,
            _ => true,
        };
        if !writable {
            return Err(ViewError::ValueError("cannot write through a read-only mirror"));
        }
        let blen = self.buffer_len();
        let flat = match checked_flat_sum(index, &self.stride) {
            Some(f) => f,
            None => {
                return Err(ViewError::ValueError("index out of bounds"));
            },
        };
        if flat >= blen {
            return Err(ViewError::ValueError("index out of bounds"));
        }
        match &mut self.data {
            DataType::Owned(v) => {
                v[flat] = val;
            },
            DataType::MutBorrowed(v) => {
                v[flat] = val;
            },
            DataType::Borrowed(_) => {
                proof {
                    assert(false);
                }
            },
        }
        Ok(())
    }

    /// Convenience method: fill the whole buffer with the specified value.
    ///
    /// Like [`Self::set`], a read-only mirror refuses the write and is left
    /// unchanged.
    pub fn fill(&mut self, val: T) -> (r: Result<(), ViewError>)
        ensures
            match r {
                Ok(()) => {
                    &&& old(self).writable()
                    &&& final(self).buffer().len() == old(self).buffer().len()
                    &&& forall|i: int|
                        0 <= i < final(self).buffer().len() ==> #[trigger] final(self).buffer()[i]
                            == val
                    &&& final(self).layout == old(self).layout
                    &&& final(self).dim == old(self).dim
                    &&& final(self).stride == old(self).stride
                    &&& (final(self).data is Owned <==> old(self).data is Owned)
                    &&& (final(self).data is MutBorrowed <==> old(self).data is MutBorrowed)
                    &&& final(self).mirrored == old(self).mirrored
                    &&& (old(self).wf() ==> final(self).wf())
                },
                Err(e) => {
                    &&& *final(self) == *old(self)
                    &&& !old(self).writable()
                    &&& e == ViewError::ValueError("cannot write through a read-only mirror")
                },
            },
    {
        match &mut self.data {
            DataType::Owned(v) => {
                fill_vec(v, val);
                Ok(())
            },
            DataType::MutBorrowed(v) => {
                fill_vec(v, val);
                Ok(())
            },
            DataType::Borrowed(_) => Err(ViewError::ValueError(
                "cannot write through a read-only mirror",
            )),
        }
    }

    /// Create a read-only mirror of `self`: a non-owning view whose contents
    /// are those of `self` at the time of creation.
    ///
    /// Mirrors can only be created from the owning view; asking a mirror for
    /// another mirror is reported as double mirroring.
    pub fn create_mirror(&self) -> (r: Result<ViewRO<T>, ViewError>)
        ensures
            match r {
                Ok(m) => {
                    &&& self.owns_data()
                    &&& m.data is Borrowed
                    &&& !m.mirrored
                    &&& m.buffer() == self.buffer()
                    &&& same_layout(m.layout, self.layout)
                    &&& m.dim@ == self.dim@
                    &&& m.stride@ == self.stride@
                    &&& (self.wf() ==> m.wf())
                },
                Err(e) => !self.owns_data() && e == ViewError::DoubleMirroring(
                    "Cannot create a mirror from a non-data-owning View",
                ),
            },
    {
        match &self.data {
            DataType::Owned(v) => {
                let m = ViewBase {
                    data: DataType::Borrowed(copy_vec(v)),
                    layout: self.layout.duplicate(),
                    dim: copy_vec(&self.dim),
                    stride: copy_vec(&self.stride),
                    mirrored: false,
                };
                proof {
                    lemma_same_layout_stride_at(self.dim@, m.layout, self.layout);
                }
                Ok(m)
            },
            _ => Err(ViewError::DoubleMirroring(
                "Cannot create a mirror from a non-data-owning View",
            )),
        }
    }

    /// Create a read-write mirror of `self`: a non-owning view whose contents
    /// are those of `self` at the time of creation, and which accepts writes.
    ///
    /// Mirrors can only be created from the owning view; asking a mirror for
    /// another mirror is reported as double mirroring. The owner's runtime
    /// borrow guard is set on success, so a second read-write mirror is
    /// refused: an owner hands out exactly one.
    pub fn create_mutable_mirror(&mut self) -> (r: Result<ViewRW<T>, ViewError>)
        ensures
            r is Ok <==> old(self).owns_data() && !old(self).mirrored,
            match r {
                Ok(m) => {
                    &&& m.data is MutBorrowed
                    &&& !m.mirrored
                    &&& m.buffer() == old(self).buffer()
                    &&& same_layout(m.layout, old(self).layout)
                    &&& m.dim@ == old(self).dim@
                    &&& m.stride@ == old(self).stride@
                    &&& (old(self).wf() ==> m.wf())
                    &&& final(self).mirrored
                    &&& final(self).data == old(self).data
                    &&& final(self).layout == old(self).layout
                    &&& final(self).dim == old(self).dim
                    &&& final(self).stride == old(self).stride
                },
                Err(e) => {
                    &&& *final(self) == *old(self)
                    &&& e == (if !old(self).owns_data() {
                        ViewError::DoubleMirroring(
                            "Cannot create a mirror from a non-data-owning View",
                        )
                    } else {
                        ViewError::DoubleMirroring(
                            "Cannot create a second read-write mirror from this View",
                        )
                    })
                },
            },
    {
        let m = match &self.data {
            DataType::Owned(v) => {
                if self.mirrored {
                    return Err(ViewError::DoubleMirroring(
                        "Cannot create a second read-write mirror from this View",
                    ));
                }
                ViewBase {
                    data: DataType::MutBorrowed(copy_vec(v)),
                    layout: self.layout.duplicate(),
                    dim: copy_vec(&self.dim),
                    stride: copy_vec(&self.stride),
                    mirrored: false,
                }
            },
            _ => {
                return Err(ViewError::DoubleMirroring(
                    "Cannot create a mirror from a non-data-owning View",
                ));
            },
        };
        proof {
            lemma_same_layout_stride_at(self.dim@, m.layout, self.layout);
        }
        self.mirrored = true;
        Ok(m)
    }

    /// Consume the view and return its raw buffer.
    ///
    /// Only the owning view can give its values away; mirrors report a value
    /// error.
    pub fn raw_val(self) -> (r: Result<Vec<T>, ViewError>)
        ensures
            match r {
                Ok(v) => self.owns_data() && v@ == self.buffer(),
                Err(e) => !self.owns_data() && e == ViewError::ValueError(
                    "Cannot fetch raw values of a non-data-owning view",
                ),
            },
    {
        match self.data {
            DataType::Owned(v) => Ok(v),
            _ => Err(ViewError::ValueError(
                "Cannot fetch raw values of a non-data-owning view",
            )),
        }
    }

    /// Mapping function between logical index tuples and the flat offset: the
    /// sum of `index[i] * stride[i]`.
    pub fn flat_idx(&self, index: &Vec<usize>) -> (r: usize)
        requires
            index@.len() == self.stride@.len(),
            flat_sum(index@, self.stride@) <= usize::MAX as int,
        ensures
            r == flat_sum(index@, self.stride@),
    {
        match checked_flat_sum(index, &self.stride) {
            Some(f) => f,
            None => {
                proof {
                    assert(false);
                }
                0
            },
        }
    }
}

/// The buffer size described by `dim`, or `None` when the running product
/// overflows a machine word.
pub(crate) fn checked_capacity(dim: &Vec<usize>) -> (r: Option<usize>)
    ensures
        match r {
            Some(c) => capacity_fits(dim@) && c == seq_prod(dim@),
            None => !capacity_fits(dim@),
        },
{
    let n: usize = dim.len();
    let mut acc: usize = 1;
    let mut i: usize = 0;
    proof {
        assert(dim@.take(0) =~= Seq::<usize>::empty());
    }
    while i < n
        invariant
            n == dim@.len(),
            i <= n,
            acc == seq_prod(dim@.take(i as int)),
            forall|j: int|
                1 <= j <= i ==> #[trigger] seq_prod(dim@.take(j)) <= usize::MAX as int,
        decreases n - i,
    {
        proof {
            crate::view::parameters::lemma_seq_prod_push(dim@.take(i as int), dim@[i as int]);
            assert(dim@.take(i + 1) =~= dim@.take(i as int).push(dim@[i as int]));
        }
        match acc.checked_mul(dim[i]) {
            Some(a) => {
                acc = a;
            },
            None => {
                return None;
            },
        }
        i += 1;
    }
    proof {
        assert(dim@.take(n as int) =~= dim@);
    }
    Some(acc)
}

/// Flat-index bijection at the view level: on a well-formed row-major or
/// column-major view, every valid index tuple projects strictly inside the
/// buffer, and distinct tuples project to distinct offsets.
pub proof fn lemma_view_flat_idx_bijective<T>(v: ViewBase<T>, a: Seq<usize>, b: Seq<usize>)
    requires
        v.wf(),
        v.layout is Right || v.layout is Left,
        valid_index(a, v.dim@),
        valid_index(b, v.dim@),
    ensures
        0 <= flat_sum(a, v.stride@) < v.capacity(),
        flat_sum(a, v.stride@) == flat_sum(b, v.stride@) ==> a == b,
{
    if v.layout is Right {
        assert(is_right_stride(v.dim@, v.stride@));
        lemma_flat_index_bounded_right(a, v.dim@, v.stride@);
        if flat_sum(a, v.stride@) == flat_sum(b, v.stride@) {
            lemma_flat_index_injective_right(a, b, v.dim@, v.stride@);
        }
    } else {
        assert(is_left_stride(v.dim@, v.stride@));
        lemma_flat_index_bounded_left(a, v.dim@, v.stride@);
        if flat_sum(a, v.stride@) == flat_sum(b, v.stride@) {
            lemma_flat_index_injective_left(a, b, v.dim@, v.stride@);
        }
    }
}

} // verus!
