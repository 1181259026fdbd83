use vstd::prelude::*;

use crate::array::{MemArray, MemArrayView, MemArrayViewMut};
use crate::error::MemError;
use crate::idx::{IdxN, MAX_RANK};

verus! {

/// An owning array with one extra, runtime-resizable outer batch axis.
///
/// The backing buffer is sized once for `max_batch_size`; the live
/// `batch_size` may move freely below that cap, and changing it is a pure
/// metadata update — the buffer is never reallocated or moved.
pub struct OuterBatchArray {
    pub arr: MemArray,
    pub batch_size: usize,
    pub max_batch_size: usize,
}

impl OuterBatchArray {
    /// The batch invariant: the inner array is well-formed, its outermost
    /// axis is the batch capacity, and the live batch size stays below it.
    pub open spec fn wf(&self) -> bool {
        &&& self.arr.wf()
        &&& self.batch_size <= self.max_batch_size
        &&& self.arr.size.dims@.len() >= 1
        &&& self.arr.size.dims@[self.arr.size.dims@.len() - 1] == self.max_batch_size
    }

    /// The fixed per-item shape: the inner array's shape without the batch
    /// axis.
    pub open spec fn spec_item_dims(&self) -> Seq<usize> {
        self.arr.size.dims@.take(self.arr.size.dims@.len() - 1)
    }

    /// Allocates a zero-filled batch array whose items have shape `size`
    /// and whose capacity is `max_batch_size`; the batch axis is appended
    /// as the outermost axis and starts at full capacity.
    pub fn zeros(
        dtype: crate::dtype::NpyDtype,
        size: IdxN,
        max_batch_size: usize,
    ) -> (r: OuterBatchArray)
        requires
            size.dims@.len() < MAX_RANK,
            ({
                let full = size.dims@.push(max_batch_size);
                &&& crate::array::fits_seq(full)
                &&& crate::idx::dot_prefix(
                    full,
                    crate::idx::packed_seq(full),
                    full.len() as int,
                ) <= usize::MAX
                &&& crate::idx::prod_prefix(full, full.len() as int) * crate::dtype::spec_dtype_size(
                    dtype,
                ) <= usize::MAX
            }),
        ensures
            r.wf(),
            r.arr.dtype == dtype,
            r.spec_item_dims() == size.dims@,
            r.batch_size == max_batch_size,
            r.max_batch_size == max_batch_size,
            r.arr.mem.all_zero(),
    {
        let full = size.append(max_batch_size);
        let arr = MemArray::zeros(dtype, full);
        proof {
            assert(arr.size.dims@.take(arr.size.dims@.len() - 1) =~= size.dims@);
        }
        OuterBatchArray { arr, batch_size: max_batch_size, max_batch_size }
    }

    /// The fixed batch capacity.
    pub fn max_batch_size(&self) -> (r: usize)
        ensures
            r == self.max_batch_size,
    {
        self.max_batch_size
    }

    /// The live batch size.
    pub fn batch_size(&self) -> (r: usize)
        ensures
            r == self.batch_size,
    {
        self.batch_size
    }

    /// Sets the live batch size: a pure metadata update that never touches
    /// the buffer, let alone reallocates it. Growing beyond the capacity
    /// fails and changes nothing.
    pub fn set_batch_size(&mut self, new_batch_sz: usize) -> (r: Result<(), MemError>)
        requires
            old(self).wf(),
        ensures
            match r {
                Ok(()) => {
                    &&& new_batch_sz <= old(self).max_batch_size
                    &&& final(self).wf()
                    &&& final(self).batch_size == new_batch_sz
                    &&& final(self).max_batch_size == old(self).max_batch_size
                    &&& final(self).arr == old(self).arr
                },
                Err(e) => {
                    &&& e == MemError::BatchTooLarge
                    &&& new_batch_sz > old(self).max_batch_size
                    &&& *final(self) == *old(self)
                },
            },
    {
        if new_batch_sz > self.max_batch_size {
            return Err(MemError::BatchTooLarge);
        }
        self.batch_size = new_batch_sz;
        Ok(())
    }

    /// A read window whose outermost dimension is the live batch size: the
    /// item shape with the batch axis narrowed from the capacity to
    /// `batch_size`, over the same buffer.
    pub fn as_view(&self) -> (r: Result<MemArrayView<'_>, MemError>)
        requires
            self.wf(),
        ensures
            match r {
                Ok(v) => {
                    &&& v.wf()
                    &&& v.dtype == self.arr.dtype
                    &&& v.size.dims@.len() == self.arr.size.dims@.len()
                    &&& v.size.dims@[v.size.dims@.len() - 1] == self.batch_size
                    &&& forall|i: int|
                        0 <= i < v.size.dims@.len() - 1 ==> #[trigger] v.size.dims@[i]
                            == self.arr.size.dims@[i]
                    &&& *v.mem == self.arr.mem
                },
                Err(_) => false,
            },
    {
        let whole = self.arr.as_view();
        let rank = self.arr.size.rank();
        let mut ranges: Vec<crate::idx::AxisRange> = Vec::new();
        let mut i: usize = 0;
        while i < rank - 1
            invariant
                self.wf(),
                rank == self.arr.size.dims@.len(),
                rank >= 1,
                i <= rank - 1,
                ranges@.len() == i,
                forall|k: int|
                    0 <= k < i ==> (#[trigger] ranges@[k]).lo is Unbounded && ranges@[k].hi
                        is Unbounded,
            decreases rank - 1 - i,
        {
            ranges.push(crate::idx::AxisRange::full());
            i = i + 1;
        }
        ranges.push(crate::idx::AxisRange::to(self.batch_size));
        let v = match whole.view(&ranges) {
            Ok(v) => v,
            Err(_) => vstd::pervasive::unreached(),
        };
        proof {
            let n = self.arr.size.dims@.len() as int;
            assert forall|i2: int| 0 <= i2 < n - 1 implies #[trigger] v.size.dims@[i2]
                == self.arr.size.dims@[i2] by {
                assert(crate::idx::spec_lo(ranges@[i2].lo) == 0);
                assert(crate::idx::spec_hi(ranges@[i2].hi, self.arr.size.dims@[i2])
                    == self.arr.size.dims@[i2]);
            }
            assert(v.size.dims@[n - 1] == self.batch_size);
        }
        Ok(v)
    }

    /// A read-write window whose outermost dimension is the live batch
    /// size; see [`OuterBatchArray::as_view`].
    pub fn as_view_mut(&mut self) -> (r: Result<MemArrayViewMut<'_>, MemError>)
        requires
            old(self).wf(),
        ensures
            match r {
                Ok(v) => {
                    &&& v.wf()
                    &&& v.dtype == old(self).arr.dtype
                    &&& v.size.dims@.len() == old(self).arr.size.dims@.len()
                    &&& v.size.dims@[v.size.dims@.len() - 1] == old(self).batch_size
                    &&& forall|i: int|
                        0 <= i < v.size.dims@.len() - 1 ==> #[trigger] v.size.dims@[i]
                            == old(self).arr.size.dims@[i]
                    &&& *v.mem == old(self).arr.mem
                    &&& final(self).arr.mem == *final(v.mem)
                    &&& final(self).arr.size == old(self).arr.size
                    &&& final(self).arr.offset == old(self).arr.offset
                    &&& final(self).arr.stride == old(self).arr.stride
                    &&& final(self).arr.dtype == old(self).arr.dtype
                    &&& final(self).batch_size == old(self).batch_size
                    &&& final(self).max_batch_size == old(self).max_batch_size
                },
                Err(_) => false,
            },
    {
        let rank = self.arr.size.rank();
        let bsz = self.batch_size;
        let mut ranges: Vec<crate::idx::AxisRange> = Vec::new();
        let mut i: usize = 0;
        while i < rank - 1
            invariant
                old(self).wf(),
                rank == old(self).arr.size.dims@.len(),
                rank >= 1,
                bsz == old(self).batch_size,
                i <= rank - 1,
                ranges@.len() == i,
                *self == *old(self),
                forall|k: int|
                    0 <= k < i ==> (#[trigger] ranges@[k]).lo is Unbounded && ranges@[k].hi
                        is Unbounded,
            decreases rank - 1 - i,
        {
            ranges.push(crate::idx::AxisRange::full());
            i = i + 1;
        }
        ranges.push(crate::idx::AxisRange::to(bsz));
        let whole = self.arr.as_view_mut();
        let v = match whole.view_mut(&ranges) {
            Ok(v) => v,
            Err(_) => vstd::pervasive::unreached(),
        };
        proof {
            let n = old(self).arr.size.dims@.len() as int;
            assert forall|i2: int| 0 <= i2 < n - 1 implies #[trigger] v.size.dims@[i2] == old(
                self,
            ).arr.size.dims@[i2] by {
                assert(crate::idx::spec_lo(ranges@[i2].lo) == 0);
                assert(crate::idx::spec_hi(ranges@[i2].hi, old(self).arr.size.dims@[i2]) == old(
                    self,
                ).arr.size.dims@[i2]);
            }
            assert(v.size.dims@[n - 1] == old(self).batch_size);
        }
        Ok(v)
    }
}

/// Law: moving the batch size down and back up is pure metadata motion —
/// the buffer after the two updates is the very buffer from before, with
/// no reallocation, and each view exposed in between has the live batch
/// size as its outermost dimension (stated by `as_view`'s contract).
pub proof fn lemma_batch_resize_round_trip(
    a0: OuterBatchArray,
    a1: OuterBatchArray,
    a2: OuterBatchArray,
    k: usize,
    j: usize,
)
    requires
        a0.wf(),
        j <= k,
        k <= a0.max_batch_size,
        a0.batch_size == k,
        // the two updates, as set_batch_size's contract leaves them
        a1.arr == a0.arr && a1.batch_size == j && a1.max_batch_size == a0.max_batch_size,
        a2.arr == a1.arr && a2.batch_size == k && a2.max_batch_size == a1.max_batch_size,
    ensures
        a2.arr.mem == a0.arr.mem,
        a2.batch_size == a0.batch_size,
{
}

} // verus!
