use vstd::prelude::*;

use crate::dtype::{spec_dtype_size, NpyDtype};
use crate::error::MemError;
use crate::idx::{
    dot_prefix, lemma_dot_prefix_add, lemma_dot_prefix_le, lemma_dot_prefix_zero,
    lemma_packed_last, lemma_prod_prefix_le, prod_prefix, ranges_to_idxs, seq_add_u, seq_dec_u,
    spec_nonempty, AxisRange, IdxN, MAX_RANK,
};
use crate::mem::HeapMem;

verus! {

/// Every prefix product of `s` fits the machine word.
pub open spec fn fits_seq(s: Seq<usize>) -> bool {
    forall|k: int| 0 <= k <= s.len() ==> #[trigger] prod_prefix(s, k) <= usize::MAX
}

/// The window described by `size`, `offset` and `stride` is consistent and
/// lies within a buffer of `mlen` elements.
///
/// The bound on `seq_add_u(offset, size)` keeps every flat position a
/// window computation can form representable; the last conjunct is the
/// in-bounds guarantee for the window's largest coordinate.
pub open spec fn layout_wf(size: Seq<usize>, offset: Seq<usize>, stride: Seq<usize>, mlen: nat) -> bool {
    &&& size.len() <= MAX_RANK
    &&& fits_seq(size)
    &&& offset.len() == size.len()
    &&& stride.len() == size.len()
    &&& forall|i: int| 0 <= i < size.len() ==> offset[i] + size[i] <= usize::MAX
    &&& dot_prefix(seq_add_u(offset, size), stride, size.len() as int) <= usize::MAX
    &&& (spec_nonempty(size) ==> dot_prefix(
        seq_add_u(offset, seq_dec_u(size)),
        stride,
        size.len() as int,
    ) < mlen)
}

/// Narrowing a window to a sub-range keeps the layout well-formed.
pub proof fn lemma_slice_layout(
    size: Seq<usize>,
    offset: Seq<usize>,
    stride: Seq<usize>,
    mlen: nat,
    lo: Seq<usize>,
    hi: Seq<usize>,
)
    requires
        layout_wf(size, offset, stride, mlen),
        lo.len() == size.len(),
        hi.len() == size.len(),
        forall|i: int| 0 <= i < size.len() ==> #[trigger] lo[i] <= hi[i] && hi[i] <= size[i],
    ensures
        layout_wf(
            Seq::new(size.len(), |i: int| ((hi[i] - lo[i]) as usize)),
            seq_add_u(offset, lo),
            stride,
            mlen,
        ),
{
    let n = size.len() as int;
    let nsize = Seq::new(size.len(), |i: int| ((hi[i] - lo[i]) as usize));
    let noff = seq_add_u(offset, lo);
    assert forall|i: int| 0 <= i < n implies nsize[i] <= size[i] by {}
    assert forall|k: int| 0 <= k <= n implies #[trigger] prod_prefix(nsize, k) <= usize::MAX by {
        lemma_prod_prefix_le(nsize, size, k);
    }
    assert forall|i: int| 0 <= i < n implies noff[i] + nsize[i] <= usize::MAX by {
        assert(noff[i] == offset[i] + lo[i]);
    }
    assert forall|i: int| 0 <= i < n implies seq_add_u(noff, nsize)[i] <= seq_add_u(
        offset,
        size,
    )[i] by {
        assert(noff[i] == offset[i] + lo[i]);
        assert(seq_add_u(noff, nsize)[i] == (offset[i] + hi[i]) as usize);
    }
    lemma_dot_prefix_le(seq_add_u(noff, nsize), seq_add_u(offset, size), stride, n);
    if spec_nonempty(nsize) {
        assert forall|i: int| 0 <= i < n implies size[i] >= 1 by {
            assert(nsize[i] >= 1);
        }
        assert(spec_nonempty(size));
        assert forall|i: int| 0 <= i < n implies seq_add_u(noff, seq_dec_u(nsize))[i] <= seq_add_u(
            offset,
            seq_dec_u(size),
        )[i] by {
            assert(nsize[i] >= 1);
            assert(noff[i] == offset[i] + lo[i]);
            assert(seq_add_u(noff, seq_dec_u(nsize))[i] == (offset[i] + hi[i] - 1) as usize);
            assert(seq_add_u(offset, seq_dec_u(size))[i] == (offset[i] + size[i] - 1) as usize);
        }
        lemma_dot_prefix_le(
            seq_add_u(noff, seq_dec_u(nsize)),
            seq_add_u(offset, seq_dec_u(size)),
            stride,
            n,
        );
    }
}

/// An owning dense array: a shape, an origin offset, a packed stride and
/// exclusive ownership of the backing buffer.
pub struct MemArray {
    pub size: IdxN,
    pub offset: IdxN,
    pub stride: IdxN,
    pub dtype: NpyDtype,
    pub mem: HeapMem,
}

/// A non-owning read window over a buffer, with its own shape, offset and
/// stride.
pub struct MemArrayView<'a> {
    pub size: IdxN,
    pub offset: IdxN,
    pub stride: IdxN,
    pub dtype: NpyDtype,
    pub mem: &'a HeapMem,
}

impl MemArray {
    /// The owner's invariant: consistent buffer bookkeeping, a zero origin
    /// and the canonical packed stride for its shape.
    pub open spec fn wf(&self) -> bool {
        &&& self.mem.wf()
        &&& self.mem.esz == spec_dtype_size(self.dtype)
        &&& self.mem.len == self.size.spec_flat_len()
        &&& self.size.wf()
        &&& self.size.span_ok()
        &&& self.offset.dims@.len() == self.size.dims@.len()
        &&& forall|i: int| 0 <= i < self.offset.dims@.len() ==> self.offset.dims@[i] == 0usize
        &&& self.stride.dims@.len() == self.size.dims@.len()
        &&& self.size.spec_is_packed(self.stride.dims@)
    }

    /// A well-formed owner's window satisfies the general layout invariant.
    pub proof fn lemma_owner_layout(&self)
        requires
            self.wf(),
        ensures
            layout_wf(self.size.dims@, self.offset.dims@, self.stride.dims@, self.mem.len as nat),
    {
        let n = self.size.dims@.len() as int;
        let size = self.size.dims@;
        let offset = self.offset.dims@;
        let stride = self.stride.dims@;
        assert forall|i: int| 0 <= i < n implies #[trigger] stride[i] == crate::idx::packed_seq(
            size,
        )[i] by {
            assert(stride[i] as nat == prod_prefix(size, i));
            assert(prod_prefix(size, i) <= usize::MAX);
        }
        assert(stride =~= crate::idx::packed_seq(size));
        assert(seq_add_u(offset, size) =~= size) by {
            assert forall|i: int| 0 <= i < n implies seq_add_u(offset, size)[i] == size[i] by {}
        }
        assert(dot_prefix(seq_add_u(offset, size), stride, n) == self.size.spec_span());
        if spec_nonempty(size) {
            assert(seq_add_u(offset, seq_dec_u(size)) =~= seq_dec_u(size)) by {
                assert forall|i: int| 0 <= i < n implies seq_add_u(offset, seq_dec_u(size))[i]
                    == seq_dec_u(size)[i] by {}
            }
            lemma_packed_last(size, stride, n);
        }
    }

    /// Allocates a packed, zero-filled array of the given shape: offset at
    /// the origin and the canonical packed stride.
    pub fn zeros(dtype: NpyDtype, size: IdxN) -> (r: MemArray)
        requires
            size.wf(),
            size.span_ok(),
            size.spec_flat_len() * spec_dtype_size(dtype) <= usize::MAX,
        ensures
            r.wf(),
            r.dtype == dtype,
            r.size.dims@ == size.dims@,
            r.mem.len == size.spec_flat_len(),
            r.mem.all_zero(),
    {
        let esz = dtype.size_of();
        let fl = size.flat_len();
        let mem = HeapMem::allocate(fl, esz);
        let rank = size.rank();
        let offset = IdxN::zero(rank);
        let stride = size.to_packed_stride();
        MemArray { size, offset, stride, dtype, mem }
    }

    /// Adopts an existing buffer for the given shape; fails when the
    /// buffer's element count or element width disagrees with the shape and
    /// dtype, or when the shape itself is unrepresentable.
    pub fn with_memory(dtype: NpyDtype, size: IdxN, mem: HeapMem) -> (r: Result<
        MemArray,
        MemError,
    >)
        requires
            mem.wf(),
        ensures
            match r {
                Ok(a) => {
                    &&& size.dims@.len() <= MAX_RANK
                    &&& size.span_ok()
                    &&& mem.len == size.spec_flat_len()
                    &&& mem.esz == spec_dtype_size(dtype)
                    &&& a.wf()
                    &&& a.dtype == dtype
                    &&& a.size.dims@ == size.dims@
                    &&& a.mem == mem
                },
                Err(e) => {
                    ||| (e == MemError::RankMismatch && size.dims@.len() > MAX_RANK)
                    ||| (e == MemError::Overflow && size.dims@.len() <= MAX_RANK
                        && !size.span_ok())
                    ||| (e == MemError::ShapeMismatch && size.dims@.len() <= MAX_RANK
                        && size.span_ok() && (mem.len != size.spec_flat_len() || mem.esz
                        != spec_dtype_size(dtype)))
                },
            },
    {
        if size.dims.len() > MAX_RANK {
            return Err(MemError::RankMismatch);
        }
        match size.try_span() {
            None => {
                return Err(MemError::Overflow);
            },
            Some(_) => {},
        }
        let fl = size.flat_len();
        if fl != mem.len() {
            return Err(MemError::ShapeMismatch);
        }
        if mem.elem_size() != dtype.size_of() {
            return Err(MemError::ShapeMismatch);
        }
        let rank = size.rank();
        let offset = IdxN::zero(rank);
        let stride = size.to_packed_stride();
        Ok(MemArray { size, offset, stride, dtype, mem })
    }

    /// The array's shape.
    pub fn shape(&self) -> (r: IdxN)
        ensures
            r.dims@ == self.size.dims@,
    {
        self.size.clone()
    }

    /// The array's shape; same as [`MemArray::shape`].
    pub fn size(&self) -> (r: IdxN)
        ensures
            r.dims@ == self.size.dims@,
    {
        self.size.clone()
    }

    /// The array's origin offset: always the zero index.
    pub fn offset(&self) -> (r: IdxN)
        ensures
            r.dims@ == self.offset.dims@,
    {
        self.offset.clone()
    }

    /// The array's stride: always the canonical packed stride.
    pub fn stride(&self) -> (r: IdxN)
        ensures
            r.dims@ == self.stride.dims@,
    {
        self.stride.clone()
    }

    /// Total number of elements.
    pub fn flat_size(&self) -> (r: usize)
        requires
            self.wf(),
        ensures
            r == self.size.spec_flat_len(),
    {
        self.size.flat_len()
    }

    /// The flat buffer position of the origin: zero for an owner.
    pub fn flat_offset(&self) -> (r: usize)
        requires
            self.wf(),
        ensures
            r == 0,
    {
        proof {
            lemma_dot_prefix_zero(
                self.offset.dims@,
                self.stride.dims@,
                self.offset.dims@.len() as int,
            );
        }
        self.offset.flat_index(&self.stride)
    }

    /// Whether the array is packed: an owner always is.
    pub fn is_packed(&self) -> (r: bool)
        requires
            self.wf(),
        ensures
            r,
    {
        self.size.is_packed(&self.stride)
    }

    /// Reinterprets the buffer under a new shape. Well-defined only when
    /// the new shape has the same flat length (the owner is always packed);
    /// anything else fails without touching the array.
    pub fn reshape(&mut self, new_size: IdxN) -> (r: Result<(), MemError>)
        requires
            old(self).wf(),
        ensures
            match r {
                Ok(()) => {
                    &&& new_size.dims@.len() <= MAX_RANK
                    &&& new_size.span_ok()
                    &&& new_size.spec_flat_len() == old(self).size.spec_flat_len()
                    &&& final(self).wf()
                    &&& final(self).size.dims@ == new_size.dims@
                    &&& final(self).dtype == old(self).dtype
                    &&& final(self).mem == old(self).mem
                },
                Err(e) => {
                    &&& *final(self) == *old(self)
                    &&& {
                        ||| (e == MemError::RankMismatch && new_size.dims@.len() > MAX_RANK)
                        ||| (e == MemError::Overflow && new_size.dims@.len() <= MAX_RANK
                            && !new_size.span_ok())
                        ||| (e == MemError::ShapeMismatch && new_size.dims@.len() <= MAX_RANK
                            && new_size.span_ok() && new_size.spec_flat_len()
                            != old(self).size.spec_flat_len())
                    }
                },
            },
    {
        if new_size.dims.len() > MAX_RANK {
            return Err(MemError::RankMismatch);
        }
        match new_size.try_span() {
            None => {
                return Err(MemError::Overflow);
            },
            Some(_) => {},
        }
        let fl = new_size.flat_len();
        if fl != self.mem.len() {
            return Err(MemError::ShapeMismatch);
        }
        let rank = new_size.rank();
        let stride = new_size.to_packed_stride();
        self.offset = IdxN::zero(rank);
        self.stride = stride;
        self.size = new_size;
        Ok(())
    }

    /// Read access to the backing buffer.
    pub fn memory(&self) -> (r: &HeapMem)
        ensures
            *r == self.mem,
    {
        &self.mem
    }

    /// Write access to the backing buffer.
    pub fn memory_mut(&mut self) -> (r: &mut HeapMem)
        ensures
            *r == old(self).mem,
            final(self).mem == *final(r),
            final(self).size == old(self).size,
            final(self).offset == old(self).offset,
            final(self).stride == old(self).stride,
            final(self).dtype == old(self).dtype,
    {
        &mut self.mem
    }

    /// A read window over the whole array, borrowing its buffer.
    pub fn as_view(&self) -> (r: MemArrayView<'_>)
        requires
            self.wf(),
        ensures
            r.wf(),
            r.size.dims@ == self.size.dims@,
            r.offset.dims@ == self.offset.dims@,
            r.stride.dims@ == self.stride.dims@,
            r.dtype == self.dtype,
            *r.mem == self.mem,
    {
        proof {
            self.lemma_owner_layout();
        }
        MemArrayView {
            size: self.size.clone(),
            offset: self.offset.clone(),
            stride: self.stride.clone(),
            dtype: self.dtype,
            mem: &self.mem,
        }
    }

    /// A read-write window over the whole array, exclusively borrowing its
    /// buffer: no other view can coexist with it.
    pub fn as_view_mut(&mut self) -> (r: MemArrayViewMut<'_>)
        requires
            old(self).wf(),
        ensures
            r.wf(),
            r.size.dims@ == old(self).size.dims@,
            r.offset.dims@ == old(self).offset.dims@,
            r.stride.dims@ == old(self).stride.dims@,
            r.dtype == old(self).dtype,
            *r.mem == old(self).mem,
            final(self).mem == *final(r.mem),
            final(self).size == old(self).size,
            final(self).offset == old(self).offset,
            final(self).stride == old(self).stride,
            final(self).dtype == old(self).dtype,
    {
        proof {
            self.lemma_owner_layout();
        }
        MemArrayViewMut {
            size: self.size.clone(),
            offset: self.offset.clone(),
            stride: self.stride.clone(),
            dtype: self.dtype,
            mem: &mut self.mem,
        }
    }

    /// Collapses the array to a rank-1 packed window over the whole backing
    /// region. An owner is always packed, so this always succeeds; the
    /// `Option` mirrors the general rule on flat access.
    pub fn flat_view(&self) -> (r: Option<MemArrayView<'_>>)
        requires
            self.wf(),
        ensures
            match r {
                Some(v) => {
                    &&& v.wf()
                    &&& v.dtype == self.dtype
                    &&& v.size.dims@.len() == 1
                    &&& v.size.dims@[0] == self.size.spec_flat_len()
                    &&& v.offset.dims@.len() == 1
                    &&& v.offset.dims@[0] == 0usize
                    &&& v.stride.dims@.len() == 1
                    &&& v.stride.dims@[0] == 1usize
                    &&& *v.mem == self.mem
                },
                None => false,
            },
    {
        let packed = self.is_packed();
        if !packed {
            return None;
        }
        let fl = self.flat_size();
        let mut sv: Vec<usize> = Vec::new();
        sv.push(fl);
        let mut ov: Vec<usize> = Vec::new();
        ov.push(0);
        let mut tv: Vec<usize> = Vec::new();
        tv.push(1);
        let v = MemArrayView {
            size: IdxN { dims: sv },
            offset: IdxN { dims: ov },
            stride: IdxN { dims: tv },
            dtype: self.dtype,
            mem: &self.mem,
        };
        proof {
            let size = v.size.dims@;
            let offset = v.offset.dims@;
            let stride = v.stride.dims@;
            assert forall|k: int| 0 <= k <= 1 implies #[trigger] prod_prefix(size, k)
                <= usize::MAX by {
                if k == 1 {
                    assert(prod_prefix(size, 1) == prod_prefix(size, 0) * (size[0] as nat));
                }
            }
            assert(dot_prefix(seq_add_u(offset, size), stride, 0) == 0);
            assert(dot_prefix(seq_add_u(offset, size), stride, 1) == (seq_add_u(offset, size)[0]
                as nat) * (stride[0] as nat));
            assert(seq_add_u(offset, size)[0] == fl);
            assert((fl as nat) * 1 == fl as nat) by (nonlinear_arith);
            if spec_nonempty(size) {
                assert(dot_prefix(seq_add_u(offset, seq_dec_u(size)), stride, 0) == 0);
                assert(dot_prefix(seq_add_u(offset, seq_dec_u(size)), stride, 1) == (seq_add_u(
                    offset,
                    seq_dec_u(size),
                )[0] as nat) * (stride[0] as nat));
                assert(seq_add_u(offset, seq_dec_u(size))[0] == (fl - 1) as usize);
                assert(((fl - 1) as nat) * 1 == (fl - 1) as nat) by (nonlinear_arith);
            }
        }
        Some(v)
    }
}

impl MemArray {
    /// Collapses the array to a rank-1 packed read-write window over the
    /// whole backing region; see [`MemArray::flat_view`].
    pub fn flat_view_mut(&mut self) -> (r: Option<MemArrayViewMut<'_>>)
        requires
            old(self).wf(),
        ensures
            match r {
                Some(v) => {
                    &&& v.wf()
                    &&& v.dtype == old(self).dtype
                    &&& v.size.dims@.len() == 1
                    &&& v.size.dims@[0] == old(self).size.spec_flat_len()
                    &&& v.offset.dims@.len() == 1
                    &&& v.offset.dims@[0] == 0usize
                    &&& v.stride.dims@.len() == 1
                    &&& v.stride.dims@[0] == 1usize
                    &&& *v.mem == old(self).mem
                    &&& final(self).mem == *final(v.mem)
                    &&& final(self).size == old(self).size
                    &&& final(self).offset == old(self).offset
                    &&& final(self).stride == old(self).stride
                    &&& final(self).dtype == old(self).dtype
                },
                None => false,
            },
    {
        let packed = self.is_packed();
        if !packed {
            return None;
        }
        let fl = self.flat_size();
        let mut sv: Vec<usize> = Vec::new();
        sv.push(fl);
        let mut ov: Vec<usize> = Vec::new();
        ov.push(0);
        let mut tv: Vec<usize> = Vec::new();
        tv.push(1);
        let v = MemArrayViewMut {
            size: IdxN { dims: sv },
            offset: IdxN { dims: ov },
            stride: IdxN { dims: tv },
            dtype: self.dtype,
            mem: &mut self.mem,
        };
        proof {
            let size = v.size.dims@;
            let offset = v.offset.dims@;
            let stride = v.stride.dims@;
            assert forall|k: int| 0 <= k <= 1 implies #[trigger] prod_prefix(size, k)
                <= usize::MAX by {
                if k == 1 {
                    assert(prod_prefix(size, 1) == prod_prefix(size, 0) * (size[0] as nat));
                }
            }
            assert(dot_prefix(seq_add_u(offset, size), stride, 0) == 0);
            assert(dot_prefix(seq_add_u(offset, size), stride, 1) == (seq_add_u(offset, size)[0]
                as nat) * (stride[0] as nat));
            assert(seq_add_u(offset, size)[0] == fl);
            assert((fl as nat) * 1 == fl as nat) by (nonlinear_arith);
            if spec_nonempty(size) {
                assert(dot_prefix(seq_add_u(offset, seq_dec_u(size)), stride, 0) == 0);
                assert(dot_prefix(seq_add_u(offset, seq_dec_u(size)), stride, 1) == (seq_add_u(
                    offset,
                    seq_dec_u(size),
                )[0] as nat) * (stride[0] as nat));
                assert(seq_add_u(offset, seq_dec_u(size))[0] == (fl - 1) as usize);
                assert(((fl - 1) as nat) * 1 == (fl - 1) as nat) by (nonlinear_arith);
            }
        }
        Some(v)
    }
}

impl<'a> MemArrayView<'a> {
    /// The window's invariant: a consistent buffer and a layout that stays
    /// inside it.
    pub open spec fn wf(&self) -> bool {
        &&& self.mem.wf()
        &&& self.mem.esz == spec_dtype_size(self.dtype)
        &&& layout_wf(self.size.dims@, self.offset.dims@, self.stride.dims@, self.mem.len as nat)
    }

    /// The flat buffer position of the window's origin.
    pub open spec fn spec_flat_offset(&self) -> nat {
        dot_prefix(self.offset.dims@, self.stride.dims@, self.size.dims@.len() as int)
    }

    /// The flat buffer position of coordinate `c` in this window.
    pub open spec fn spec_flat_of(&self, c: Seq<usize>) -> nat {
        dot_prefix(
            seq_add_u(self.offset.dims@, c),
            self.stride.dims@,
            self.size.dims@.len() as int,
        )
    }

    /// `c` addresses an element of this window.
    pub open spec fn valid_coord(&self, c: Seq<usize>) -> bool {
        &&& c.len() == self.size.dims@.len()
        &&& forall|i: int| 0 <= i < c.len() ==> c[i] < self.size.dims@[i]
    }

    /// The bytes of the element at coordinate `c`.
    pub open spec fn spec_elem(&self, c: Seq<usize>) -> Seq<u8> {
        let p = self.spec_flat_of(c);
        self.mem.bytes@.subrange(
            (p * self.mem.esz) as int,
            (p * self.mem.esz + self.mem.esz) as int,
        )
    }

    /// The window's shape.
    pub fn shape(&self) -> (r: IdxN)
        ensures
            r.dims@ == self.size.dims@,
    {
        self.size.clone()
    }

    /// The window's shape; same as [`MemArrayView::shape`].
    pub fn size(&self) -> (r: IdxN)
        ensures
            r.dims@ == self.size.dims@,
    {
        self.size.clone()
    }

    /// The window's offset.
    pub fn offset(&self) -> (r: IdxN)
        ensures
            r.dims@ == self.offset.dims@,
    {
        self.offset.clone()
    }

    /// The window's stride.
    pub fn stride(&self) -> (r: IdxN)
        ensures
            r.dims@ == self.stride.dims@,
    {
        self.stride.clone()
    }

    /// Number of elements the window addresses.
    pub fn flat_size(&self) -> (r: usize)
        requires
            self.wf(),
        ensures
            r == self.size.spec_flat_len(),
    {
        self.size.flat_len()
    }

    /// Flat buffer position of the window's origin.
    pub fn flat_offset(&self) -> (r: usize)
        requires
            self.wf(),
        ensures
            r == self.spec_flat_offset(),
    {
        proof {
            let n = self.size.dims@.len() as int;
            assert forall|i: int| 0 <= i < n implies self.offset.dims@[i] <= seq_add_u(
                self.offset.dims@,
                self.size.dims@,
            )[i] by {}
            lemma_dot_prefix_le(
                self.offset.dims@,
                seq_add_u(self.offset.dims@, self.size.dims@),
                self.stride.dims@,
                n,
            );
        }
        self.offset.flat_index(&self.stride)
    }

    /// Whether the window is packed: gapless under the canonical stride.
    pub fn is_packed(&self) -> (r: bool)
        requires
            self.wf(),
        ensures
            r == self.size.spec_is_packed(self.stride.dims@),
    {
        self.size.is_packed(&self.stride)
    }

    /// Copies out the bytes of the element at coordinate `at`.
    pub fn read_elem(&self, at: &IdxN) -> (r: Vec<u8>)
        requires
            self.wf(),
            self.valid_coord(at.dims@),
        ensures
            r@ == self.spec_elem(at.dims@),
            r@.len() == self.mem.esz,
    {
        let ghost n = self.size.dims@.len() as int;
        proof {
            assert forall|i: int| 0 <= i < n implies self.offset.dims@[i] + at.dims@[i]
                <= usize::MAX by {
                assert(at.dims@[i] < self.size.dims@[i]);
            }
        }
        let pidx = self.offset.index_add(at);
        proof {
            assert(pidx.dims@ =~= seq_add_u(self.offset.dims@, at.dims@)) by {
                assert forall|i: int| 0 <= i < n implies pidx.dims@[i] == seq_add_u(
                    self.offset.dims@,
                    at.dims@,
                )[i] by {}
            }
            assert(spec_nonempty(self.size.dims@)) by {
                assert forall|i: int| 0 <= i < n implies self.size.dims@[i] >= 1 by {
                    assert(at.dims@[i] < self.size.dims@[i]);
                }
            }
            assert forall|i: int| 0 <= i < n implies seq_add_u(self.offset.dims@, at.dims@)[i]
                <= seq_add_u(self.offset.dims@, seq_dec_u(self.size.dims@))[i] by {
                assert(at.dims@[i] < self.size.dims@[i]);
                assert(seq_add_u(self.offset.dims@, seq_dec_u(self.size.dims@))[i] == (
                self.offset.dims@[i] + self.size.dims@[i] - 1) as usize);
            }
            lemma_dot_prefix_le(
                seq_add_u(self.offset.dims@, at.dims@),
                seq_add_u(self.offset.dims@, seq_dec_u(self.size.dims@)),
                self.stride.dims@,
                n,
            );
        }
        let p = pidx.flat_index(&self.stride);
        let esz = self.mem.elem_size();
        proof {
            assert(p < self.mem.len);
            assert((p + 1) * esz <= self.mem.len * esz) by (nonlinear_arith)
                requires
                    p + 1 <= self.mem.len,
                    0 <= esz,
            ;
            assert((p + 1) * esz == p * esz + esz) by (nonlinear_arith);
        }
        self.mem.read_range(p * esz, esz)
    }

    /// A contiguous byte window over the whole region the view addresses,
    /// available exactly when the view is packed: this check is what keeps
    /// a strided or gapped window from posing as contiguous memory.
    pub fn flat_slice(&self) -> (r: Option<&[u8]>)
        requires
            self.wf(),
        ensures
            match r {
                Some(s) => {
                    &&& self.size.spec_is_packed(self.stride.dims@)
                    &&& s@.len() == self.size.spec_flat_len() * self.mem.esz
                    &&& self.size.spec_flat_len() > 0 ==> s@ == self.mem.bytes@.subrange(
                        (self.spec_flat_offset() * self.mem.esz) as int,
                        ((self.spec_flat_offset() + self.size.spec_flat_len()) * self.mem.esz)
                            as int,
                    )
                },
                None => !self.size.spec_is_packed(self.stride.dims@),
            },
    {
        if !self.is_packed() {
            return None;
        }
        let fs = self.flat_size();
        if fs == 0 {
            let s = slice_take(self.mem.as_slice(), 0);
            proof {
                assert((0 as nat) * (self.mem.esz as nat) == 0) by (nonlinear_arith);
            }
            return Some(s);
        }
        let fo = self.flat_offset();
        let esz = self.mem.elem_size();
        proof {
            let n = self.size.dims@.len() as int;
            assert(spec_nonempty(self.size.dims@)) by {
                assert forall|i: int| 0 <= i < n implies self.size.dims@[i] >= 1 by {
                    if self.size.dims@[i] == 0 {
                        crate::idx::lemma_prod_prefix_zero_dim(self.size.dims@, i, n);
                    }
                }
            }
            assert forall|i: int| 0 <= i < n implies self.offset.dims@[i] + seq_dec_u(
                self.size.dims@,
            )[i] <= usize::MAX by {}
            lemma_dot_prefix_add(self.offset.dims@, seq_dec_u(self.size.dims@), self.stride.dims@, n);
            lemma_packed_last(self.size.dims@, self.stride.dims@, n);
            assert(self.spec_flat_offset() + self.size.spec_flat_len() <= self.mem.len);
            assert((fo + fs) * esz <= self.mem.len * esz) by (nonlinear_arith)
                requires
                    fo + fs <= self.mem.len,
                    0 <= esz,
            ;
            assert((fo + fs) * esz == fo * esz + fs * esz) by (nonlinear_arith);
        }
        let a = fo * esz;
        let b = fs * esz;
        let s = slice_range(self.mem.as_slice(), a, a + b);
        Some(s)
    }

    /// The contiguous byte window of a packed view.
    pub fn as_slice(&self) -> (r: &[u8])
        requires
            self.wf(),
            self.size.spec_is_packed(self.stride.dims@),
        ensures
            r@.len() == self.size.spec_flat_len() * self.mem.esz,
            self.size.spec_flat_len() > 0 ==> r@ == self.mem.bytes@.subrange(
                (self.spec_flat_offset() * self.mem.esz) as int,
                ((self.spec_flat_offset() + self.size.spec_flat_len()) * self.mem.esz) as int,
            ),
    {
        match self.flat_slice() {
            Some(s) => s,
            None => vstd::pervasive::unreached(),
        }
    }

    /// Narrows the window to a sub-range along every axis: the new window
    /// aliases the same buffer, with the same stride, a shape equal to the
    /// per-axis extent of the range and an offset shifted by its start.
    pub fn view(self, ranges: &Vec<AxisRange>) -> (r: Result<MemArrayView<'a>, MemError>)
        requires
            self.wf(),
        ensures
            match r {
                Ok(v) => {
                    &&& ranges@.len() == self.size.dims@.len()
                    &&& forall|i: int|
                        0 <= i < self.size.dims@.len() ==> crate::idx::spec_axis_ok(
                            ranges@[i],
                            self.size.dims@[i],
                        )
                    &&& v.wf()
                    &&& v.dtype == self.dtype
                    &&& v.mem == self.mem
                    &&& v.stride.dims@ == self.stride.dims@
                    &&& v.size.dims@.len() == self.size.dims@.len()
                    &&& v.offset.dims@.len() == self.size.dims@.len()
                    &&& forall|i: int|
                        0 <= i < self.size.dims@.len() ==> #[trigger] v.size.dims@[i]
                            == crate::idx::spec_hi(ranges@[i].hi, self.size.dims@[i])
                            - crate::idx::spec_lo(ranges@[i].lo)
                    &&& forall|i: int|
                        0 <= i < self.size.dims@.len() ==> #[trigger] v.offset.dims@[i]
                            == self.offset.dims@[i] + crate::idx::spec_lo(ranges@[i].lo)
                },
                Err(e) => {
                    ||| (e == MemError::RankMismatch && ranges@.len() != self.size.dims@.len())
                    ||| (e == MemError::OutOfBounds && ranges@.len() == self.size.dims@.len()
                        && exists|i: int|
                        0 <= i < self.size.dims@.len() && !crate::idx::spec_axis_ok(
                            ranges@[i],
                            self.size.dims@[i],
                        ))
                },
            },
    {
        let ghost n = self.size.dims@.len() as int;
        let (lo, hi) = match ranges_to_idxs(ranges, &self.size) {
            Ok(x) => x,
            Err(e) => {
                return Err(e);
            },
        };
        let vsize = hi.index_sub(&lo);
        proof {
            assert forall|i: int| 0 <= i < n implies self.offset.dims@[i] + lo.dims@[i]
                <= usize::MAX by {
                assert(lo.dims@[i] <= hi.dims@[i] <= self.size.dims@[i]);
            }
        }
        let voffset = self.offset.index_add(&lo);
        proof {
            lemma_slice_layout(
                self.size.dims@,
                self.offset.dims@,
                self.stride.dims@,
                self.mem.len as nat,
                lo.dims@,
                hi.dims@,
            );
            assert(vsize.dims@ =~= Seq::new(
                self.size.dims@.len(),
                |i: int| ((hi.dims@[i] - lo.dims@[i]) as usize),
            )) by {
                assert forall|i: int| 0 <= i < n implies vsize.dims@[i] == (hi.dims@[i]
                    - lo.dims@[i]) as usize by {}
            }
            assert(voffset.dims@ =~= seq_add_u(self.offset.dims@, lo.dims@)) by {
                assert forall|i: int| 0 <= i < n implies voffset.dims@[i] == seq_add_u(
                    self.offset.dims@,
                    lo.dims@,
                )[i] by {}
            }
        }
        Ok(
            MemArrayView {
                size: vsize,
                offset: voffset,
                stride: self.stride,
                dtype: self.dtype,
                mem: self.mem,
            },
        )
    }
}

/// A non-owning read-write window over a buffer, with its own shape,
/// offset and stride.
///
/// While it lives, it is the only path to the buffer: the borrow it holds
/// excludes every other view into the same memory, so aliased writes are
/// impossible by construction rather than by runtime checks.
pub struct MemArrayViewMut<'a> {
    pub size: IdxN,
    pub offset: IdxN,
    pub stride: IdxN,
    pub dtype: NpyDtype,
    pub mem: &'a mut HeapMem,
}

impl<'a> MemArrayViewMut<'a> {
    /// The window's invariant; see [`MemArrayView::wf`].
    pub open spec fn wf(&self) -> bool {
        &&& self.mem.wf()
        &&& self.mem.esz == spec_dtype_size(self.dtype)
        &&& layout_wf(self.size.dims@, self.offset.dims@, self.stride.dims@, self.mem.len as nat)
    }

    /// The flat buffer position of the window's origin.
    pub open spec fn spec_flat_offset(&self) -> nat {
        dot_prefix(self.offset.dims@, self.stride.dims@, self.size.dims@.len() as int)
    }

    /// The flat buffer position of coordinate `c` in this window.
    pub open spec fn spec_flat_of(&self, c: Seq<usize>) -> nat {
        dot_prefix(
            seq_add_u(self.offset.dims@, c),
            self.stride.dims@,
            self.size.dims@.len() as int,
        )
    }

    /// `c` addresses an element of this window.
    pub open spec fn valid_coord(&self, c: Seq<usize>) -> bool {
        &&& c.len() == self.size.dims@.len()
        &&& forall|i: int| 0 <= i < c.len() ==> c[i] < self.size.dims@[i]
    }

    /// The window's shape.
    pub fn shape(&self) -> (r: IdxN)
        ensures
            r.dims@ == self.size.dims@,
    {
        self.size.clone()
    }

    /// The window's shape; same as [`MemArrayViewMut::shape`].
    pub fn size(&self) -> (r: IdxN)
        ensures
            r.dims@ == self.size.dims@,
    {
        self.size.clone()
    }

    /// The window's offset.
    pub fn offset(&self) -> (r: IdxN)
        ensures
            r.dims@ == self.offset.dims@,
    {
        self.offset.clone()
    }

    /// The window's stride.
    pub fn stride(&self) -> (r: IdxN)
        ensures
            r.dims@ == self.stride.dims@,
    {
        self.stride.clone()
    }

    /// A contiguous byte window over the whole region the view addresses,
    /// available exactly when the view is packed; see
    /// [`MemArrayView::flat_slice`].
    pub fn flat_slice(&self) -> (r: Option<&[u8]>)
        requires
            self.wf(),
        ensures
            match r {
                Some(s) => {
                    &&& self.size.spec_is_packed(self.stride.dims@)
                    &&& s@.len() == self.size.spec_flat_len() * old(self.mem).esz
                    &&& self.size.spec_flat_len() > 0 ==> s@ == old(self.mem).bytes@.subrange(
                        (self.spec_flat_offset() * old(self.mem).esz) as int,
                        ((self.spec_flat_offset() + self.size.spec_flat_len()) * old(
                            self.mem,
                        ).esz) as int,
                    )
                },
                None => !self.size.spec_is_packed(self.stride.dims@),
            },
    {
        if !self.size.is_packed(&self.stride) {
            return None;
        }
        let fs = self.size.flat_len();
        if fs == 0 {
            let s = slice_take(self.mem.as_slice(), 0);
            proof {
                assert((0 as nat) * (self.mem.esz as nat) == 0) by (nonlinear_arith);
            }
            return Some(s);
        }
        proof {
            let n = self.size.dims@.len() as int;
            assert forall|i: int| 0 <= i < n implies self.offset.dims@[i] <= seq_add_u(
                self.offset.dims@,
                self.size.dims@,
            )[i] by {}
            lemma_dot_prefix_le(
                self.offset.dims@,
                seq_add_u(self.offset.dims@, self.size.dims@),
                self.stride.dims@,
                n,
            );
        }
        let fo = self.offset.flat_index(&self.stride);
        let esz = self.mem.elem_size();
        proof {
            let n = self.size.dims@.len() as int;
            assert(spec_nonempty(self.size.dims@)) by {
                assert forall|i: int| 0 <= i < n implies self.size.dims@[i] >= 1 by {
                    if self.size.dims@[i] == 0 {
                        crate::idx::lemma_prod_prefix_zero_dim(self.size.dims@, i, n);
                    }
                }
            }
            assert forall|i: int| 0 <= i < n implies self.offset.dims@[i] + seq_dec_u(
                self.size.dims@,
            )[i] <= usize::MAX by {}
            lemma_dot_prefix_add(
                self.offset.dims@,
                seq_dec_u(self.size.dims@),
                self.stride.dims@,
                n,
            );
            lemma_packed_last(self.size.dims@, self.stride.dims@, n);
            assert(self.spec_flat_offset() + self.size.spec_flat_len() <= self.mem.len);
            assert((fo + fs) * esz <= self.mem.len * esz) by (nonlinear_arith)
                requires
                    fo + fs <= self.mem.len,
                    0 <= esz,
            ;
            assert((fo + fs) * esz == fo * esz + fs * esz) by (nonlinear_arith);
        }
        let a = fo * esz;
        let b = fs * esz;
        let s = slice_range(self.mem.as_slice(), a, a + b);
        Some(s)
    }

    /// One-way narrowing to a read-only window over the same memory.
    pub fn into_view(self) -> (r: MemArrayView<'a>)
        ensures
            r.size.dims@ == self.size.dims@,
            r.offset.dims@ == self.offset.dims@,
            r.stride.dims@ == self.stride.dims@,
            r.dtype == self.dtype,
            *r.mem == *old(self.mem),
    {
        MemArrayView {
            size: self.size,
            offset: self.offset,
            stride: self.stride,
            dtype: self.dtype,
            mem: self.mem,
        }
    }

    /// Overwrites the element at coordinate `at` with `val`.
    pub fn write_elem(&mut self, at: &IdxN, val: &Vec<u8>)
        requires
            old(self).wf(),
            old(self).valid_coord(at.dims@),
            val@.len() == old(self).mem.esz,
        ensures
            final(self).size == old(self).size,
            final(self).offset == old(self).offset,
            final(self).stride == old(self).stride,
            final(self).dtype == old(self).dtype,
            final(self).mem.len == old(self).mem.len,
            final(self).mem.esz == old(self).mem.esz,
            final(self).mem.phsz == old(self).mem.phsz,
            final(self).wf(),
            final(self).mem.bytes@.len() == old(self).mem.bytes@.len(),
            forall|j: int|
                0 <= j < old(self).mem.bytes@.len() && !((old(self).spec_flat_of(at.dims@)
                    * old(self).mem.esz) <= j < old(self).spec_flat_of(at.dims@) * old(
                    self,
                ).mem.esz + old(self).mem.esz) ==> final(self).mem.bytes@[j] == old(
                    self,
                ).mem.bytes@[j],
            forall|j: int|
                0 <= j < old(self).mem.esz ==> final(self).mem.bytes@[old(self).spec_flat_of(
                    at.dims@,
                ) * old(self).mem.esz + j] == val@[j],
    {
        let ghost n = self.size.dims@.len() as int;
        proof {
            assert forall|i: int| 0 <= i < n implies self.offset.dims@[i] + at.dims@[i]
                <= usize::MAX by {
                assert(at.dims@[i] < self.size.dims@[i]);
            }
        }
        let pidx = self.offset.index_add(at);
        proof {
            assert(pidx.dims@ =~= seq_add_u(self.offset.dims@, at.dims@)) by {
                assert forall|i: int| 0 <= i < n implies pidx.dims@[i] == seq_add_u(
                    self.offset.dims@,
                    at.dims@,
                )[i] by {}
            }
            assert(spec_nonempty(self.size.dims@)) by {
                assert forall|i: int| 0 <= i < n implies self.size.dims@[i] >= 1 by {
                    assert(at.dims@[i] < self.size.dims@[i]);
                }
            }
            assert forall|i: int| 0 <= i < n implies seq_add_u(self.offset.dims@, at.dims@)[i]
                <= seq_add_u(self.offset.dims@, seq_dec_u(self.size.dims@))[i] by {
                assert(at.dims@[i] < self.size.dims@[i]);
                assert(seq_add_u(self.offset.dims@, seq_dec_u(self.size.dims@))[i] == (
                self.offset.dims@[i] + self.size.dims@[i] - 1) as usize);
            }
            lemma_dot_prefix_le(
                seq_add_u(self.offset.dims@, at.dims@),
                seq_add_u(self.offset.dims@, seq_dec_u(self.size.dims@)),
                self.stride.dims@,
                n,
            );
        }
        let p = pidx.flat_index(&self.stride);
        let esz = self.mem.elem_size();
        proof {
            assert(p < self.mem.len);
            assert((p + 1) * esz <= self.mem.len * esz) by (nonlinear_arith)
                requires
                    p + 1 <= self.mem.len,
                    0 <= esz,
            ;
            assert((p + 1) * esz == p * esz + esz) by (nonlinear_arith);
        }
        let base = p * esz;
        let mut j: usize = 0;
        while j < esz
            invariant
                j <= esz,
                base + esz <= old(self).mem.phsz,
                base + esz <= self.mem.bytes@.len(),
                val@.len() == esz,
                self.mem.len == old(self).mem.len,
                self.mem.esz == old(self).mem.esz,
                self.mem.phsz == old(self).mem.phsz,
                esz == old(self).mem.esz,
                self.mem.bytes@.len() == old(self).mem.bytes@.len(),
                self.size == old(self).size,
                self.offset == old(self).offset,
                self.stride == old(self).stride,
                self.dtype == old(self).dtype,
                forall|k: int|
                    0 <= k < old(self).mem.bytes@.len() && !(base <= k < base + j)
                        ==> self.mem.bytes@[k] == old(self).mem.bytes@[k],
                forall|k: int| 0 <= k < j ==> self.mem.bytes@[base + k] == val@[k],
            decreases esz - j,
        {
            self.mem.set_byte(base + j, val[j]);
            j = j + 1;
        }
    }

    /// Narrows the window to a sub-range along every axis; see
    /// [`MemArrayView::view`].
    pub fn view_mut(self, ranges: &Vec<AxisRange>) -> (r: Result<MemArrayViewMut<'a>, MemError>)
        requires
            self.wf(),
        ensures
            match r {
                Ok(v) => {
                    &&& ranges@.len() == self.size.dims@.len()
                    &&& forall|i: int|
                        0 <= i < self.size.dims@.len() ==> crate::idx::spec_axis_ok(
                            ranges@[i],
                            self.size.dims@[i],
                        )
                    &&& v.wf()
                    &&& v.dtype == self.dtype
                    &&& *v.mem == *old(self.mem)
                    &&& *final(v.mem) == *final(self.mem)
                    &&& v.stride.dims@ == self.stride.dims@
                    &&& v.size.dims@.len() == self.size.dims@.len()
                    &&& v.offset.dims@.len() == self.size.dims@.len()
                    &&& forall|i: int|
                        0 <= i < self.size.dims@.len() ==> #[trigger] v.size.dims@[i]
                            == crate::idx::spec_hi(ranges@[i].hi, self.size.dims@[i])
                            - crate::idx::spec_lo(ranges@[i].lo)
                    &&& forall|i: int|
                        0 <= i < self.size.dims@.len() ==> #[trigger] v.offset.dims@[i]
                            == self.offset.dims@[i] + crate::idx::spec_lo(ranges@[i].lo)
                },
                Err(e) => {
                    &&& *final(self.mem) == *old(self.mem)
                    &&& {
                        ||| (e == MemError::RankMismatch && ranges@.len()
                            != self.size.dims@.len())
                        ||| (e == MemError::OutOfBounds && ranges@.len()
                            == self.size.dims@.len() && exists|i: int|
                            0 <= i < self.size.dims@.len() && !crate::idx::spec_axis_ok(
                                ranges@[i],
                                self.size.dims@[i],
                            ))
                    }
                },
            },
    {
        let ghost n = self.size.dims@.len() as int;
        let (lo, hi) = match ranges_to_idxs(ranges, &self.size) {
            Ok(x) => x,
            Err(e) => {
                return Err(e);
            },
        };
        let vsize = hi.index_sub(&lo);
        proof {
            assert forall|i: int| 0 <= i < n implies self.offset.dims@[i] + lo.dims@[i]
                <= usize::MAX by {
                assert(lo.dims@[i] <= hi.dims@[i] <= self.size.dims@[i]);
            }
        }
        let voffset = self.offset.index_add(&lo);
        proof {
            lemma_slice_layout(
                self.size.dims@,
                self.offset.dims@,
                self.stride.dims@,
                self.mem.len as nat,
                lo.dims@,
                hi.dims@,
            );
            assert(vsize.dims@ =~= Seq::new(
                self.size.dims@.len(),
                |i: int| ((hi.dims@[i] - lo.dims@[i]) as usize),
            )) by {
                assert forall|i: int| 0 <= i < n implies vsize.dims@[i] == (hi.dims@[i]
                    - lo.dims@[i]) as usize by {}
            }
            assert(voffset.dims@ =~= seq_add_u(self.offset.dims@, lo.dims@)) by {
                assert forall|i: int| 0 <= i < n implies voffset.dims@[i] == seq_add_u(
                    self.offset.dims@,
                    lo.dims@,
                )[i] by {}
            }
        }
        Ok(
            MemArrayViewMut {
                size: vsize,
                offset: voffset,
                stride: self.stride,
                dtype: self.dtype,
                mem: self.mem,
            },
        )
    }
}

/// The first `n` bytes of a slice.
pub fn slice_take(s: &[u8], n: usize) -> (r: &[u8])
    requires
        n <= s@.len(),
    ensures
        r@ == s@.subrange(0, n as int),
{
    slice_range(s, 0, n)
}

/// The sub-slice `[a, b)` of a byte slice.
pub fn slice_range(s: &[u8], a: usize, b: usize) -> (r: &[u8])
    requires
        a <= b <= s@.len(),
    ensures
        r@ == s@.subrange(a as int, b as int),
{
    &s[a..b]
}

} // verus!
