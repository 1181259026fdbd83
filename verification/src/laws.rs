use vstd::prelude::*;

use crate::array::MemArrayView;
use crate::idx::{
    dot_prefix, lemma_dot_prefix_le, lemma_prod_prefix_agree, lemma_prod_prefix_le,
    lemma_prod_prefix_pos, prod_prefix, seq_add_u, seq_dec_u, spec_nonempty,
};

verus! {

/// Law: reading any coordinate of any well-formed window over a zero-filled
/// buffer yields the zero element — in particular, slicing a freshly zeroed
/// array by any valid range and reading back gives zero everywhere.
///
/// The window produced by [`crate::array::MemArray::zeros`] followed by
/// [`crate::array::MemArray::as_view`] and any chain of
/// [`MemArrayView::view`] slices satisfies the hypotheses by those
/// functions' contracts.
pub proof fn lemma_zero_buffer_reads_zero(v: MemArrayView<'_>, c: Seq<usize>)
    requires
        v.wf(),
        v.mem.all_zero(),
        v.valid_coord(c),
    ensures
        v.spec_elem(c).len() == v.mem.esz,
        forall|j: int| 0 <= j < v.spec_elem(c).len() ==> v.spec_elem(c)[j] == 0u8,
{
    let n = v.size.dims@.len() as int;
    let p = v.spec_flat_of(c);
    assert(spec_nonempty(v.size.dims@)) by {
        assert forall|i: int| 0 <= i < n implies v.size.dims@[i] >= 1 by {
            assert(c[i] < v.size.dims@[i]);
        }
    }
    assert forall|i: int| 0 <= i < n implies seq_add_u(v.offset.dims@, c)[i] <= seq_add_u(
        v.offset.dims@,
        seq_dec_u(v.size.dims@),
    )[i] by {
        assert(c[i] < v.size.dims@[i]);
        assert(seq_add_u(v.offset.dims@, seq_dec_u(v.size.dims@))[i] == (v.offset.dims@[i]
            + v.size.dims@[i] - 1) as usize);
    }
    lemma_dot_prefix_le(
        seq_add_u(v.offset.dims@, c),
        seq_add_u(v.offset.dims@, seq_dec_u(v.size.dims@)),
        v.stride.dims@,
        n,
    );
    assert(p < v.mem.len);
    assert((p + 1) * v.mem.esz <= v.mem.len * v.mem.esz) by (nonlinear_arith)
        requires
            p + 1 <= v.mem.len,
            0 <= v.mem.esz,
    ;
    assert((p + 1) * v.mem.esz == p * v.mem.esz + v.mem.esz) by (nonlinear_arith);
}

/// Law: slicing a packed window strictly inside any inner axis (any axis
/// but the outermost) breaks packedness, provided neither shape is empty:
/// the narrowed window keeps the parent's stride, which no longer matches
/// the canonical packed stride of the narrowed shape, so its `flat_slice`
/// returns nothing. In particular a strict sub-range along more than one
/// axis always strikes an inner axis. Shapes with a zero extent are left
/// out: their canonical strides vanish and such windows hold no elements
/// to expose.
pub proof fn lemma_strict_inner_slice_not_packed(parent: MemArrayView<'_>, v: MemArrayView<'_>, i: int)
    requires
        parent.size.spec_is_packed(parent.stride.dims@),
        v.stride.dims@ == parent.stride.dims@,
        v.size.dims@.len() == parent.size.dims@.len(),
        forall|j: int|
            0 <= j < v.size.dims@.len() ==> 1 <= #[trigger] v.size.dims@[j]
                <= parent.size.dims@[j],
        0 <= i < v.size.dims@.len() - 1,
        v.size.dims@[i] < parent.size.dims@[i],
    ensures
        !v.size.spec_is_packed(v.stride.dims@),
{
    let size = parent.size.dims@;
    let nsize = v.size.dims@;
    let stride = parent.stride.dims@;
    assert forall|j: int| 0 <= j < size.len() implies size[j] >= 1 by {
        assert(1 <= nsize[j] <= size[j]);
    }
    lemma_prod_prefix_le(nsize, size, i);
    lemma_prod_prefix_pos(size, i);
    assert(prod_prefix(nsize, i + 1) == prod_prefix(nsize, i) * (nsize[i] as nat));
    assert(prod_prefix(size, i + 1) == prod_prefix(size, i) * (size[i] as nat));
    assert(prod_prefix(nsize, i) * (nsize[i] as nat) < prod_prefix(size, i) * (size[i] as nat))
        by (nonlinear_arith)
        requires
            prod_prefix(nsize, i) <= prod_prefix(size, i),
            nsize[i] < size[i],
            1 <= prod_prefix(size, i),
            0 <= nsize[i],
    ;
    assert(stride[i + 1] as nat == prod_prefix(size, i + 1));
    assert(v.stride.dims@[i + 1] as nat != prod_prefix(nsize, i + 1));
}

/// Law: narrowing only the outermost axis of a packed window keeps it
/// packed — sliced axes that span their full extent never break the flat
/// contiguous slice.
pub proof fn lemma_outer_slice_stays_packed(parent: MemArrayView<'_>, v: MemArrayView<'_>)
    requires
        parent.size.spec_is_packed(parent.stride.dims@),
        v.stride.dims@ == parent.stride.dims@,
        v.size.dims@.len() == parent.size.dims@.len(),
        forall|j: int|
            0 <= j < v.size.dims@.len() - 1 ==> #[trigger] v.size.dims@[j]
                == parent.size.dims@[j],
    ensures
        v.size.spec_is_packed(v.stride.dims@),
{
    let n = v.size.dims@.len() as int;
    assert forall|k: int| 0 <= k < n implies #[trigger] v.stride.dims@[k] as nat == prod_prefix(
        v.size.dims@,
        k,
    ) by {
        lemma_prod_prefix_agree(v.size.dims@, parent.size.dims@, k);
        assert(parent.stride.dims@[k] as nat == prod_prefix(parent.size.dims@, k));
    }
}

} // verus!
