use vstd::prelude::*;

use crate::error::MemError;

verus! {

/// The largest rank the engine supports.
pub const MAX_RANK: usize = 5;

/// Product of the first `k` entries of `s`.
///
/// `prod_prefix(s, s.len())` is the flat length of a shape `s`, and
/// `prod_prefix(s, k)` is the canonical packed stride of axis `k` under the
/// engine's column-major-first convention (axis 0 varies fastest).
pub open spec fn prod_prefix(s: Seq<usize>, k: int) -> nat
    decreases k,
{
    if k <= 0 {
        1
    } else {
        prod_prefix(s, k - 1) * (s[k - 1] as nat)
    }
}

/// Dot product of the first `k` entries of `a` and `b`: the flat buffer
/// position of coordinate `a` under stride `b` when `k` is the rank.
pub open spec fn dot_prefix(a: Seq<usize>, b: Seq<usize>, k: int) -> nat
    decreases k,
{
    if k <= 0 {
        0
    } else {
        dot_prefix(a, b, k - 1) + (a[k - 1] as nat) * (b[k - 1] as nat)
    }
}

/// Partial dot products never exceed later ones.
pub proof fn lemma_dot_prefix_mono(a: Seq<usize>, b: Seq<usize>, j: int, k: int)
    requires
        0 <= j <= k,
    ensures
        dot_prefix(a, b, j) <= dot_prefix(a, b, k),
    decreases k - j,
{
    if j < k {
        lemma_dot_prefix_mono(a, b, j, k - 1);
    }
}

/// Prefix products only see the entries before the cut.
pub proof fn lemma_prod_prefix_agree(a: Seq<usize>, b: Seq<usize>, k: int)
    requires
        forall|i: int| 0 <= i < k ==> a[i] == b[i],
    ensures
        prod_prefix(a, k) == prod_prefix(b, k),
    decreases k,
{
    if k > 0 {
        lemma_prod_prefix_agree(a, b, k - 1);
    }
}

/// A product of positive extents is positive.
pub proof fn lemma_prod_prefix_pos(s: Seq<usize>, k: int)
    requires
        forall|i: int| 0 <= i < k ==> s[i] >= 1,
    ensures
        prod_prefix(s, k) >= 1,
    decreases k,
{
    if k > 0 {
        lemma_prod_prefix_pos(s, k - 1);
        assert(prod_prefix(s, k - 1) * (s[k - 1] as nat) >= 1) by (nonlinear_arith)
            requires
                prod_prefix(s, k - 1) >= 1,
                s[k - 1] >= 1,
        ;
    }
}

/// A zero extent on any axis forces the whole product to zero.
pub proof fn lemma_prod_prefix_zero_dim(s: Seq<usize>, i: int, k: int)
    requires
        0 <= i < k,
        s[i] == 0,
    ensures
        prod_prefix(s, k) == 0,
    decreases k,
{
    if i < k - 1 {
        lemma_prod_prefix_zero_dim(s, i, k - 1);
        assert(prod_prefix(s, k - 1) * (s[k - 1] as nat) == 0) by (nonlinear_arith)
            requires
                prod_prefix(s, k - 1) == 0,
        ;
    } else {
        assert(prod_prefix(s, k - 1) * (s[k - 1] as nat) == 0) by (nonlinear_arith)
            requires
                s[k - 1] == 0nat,
        ;
    }
}

/// The dot product of the zero index with any stride is zero.
pub proof fn lemma_dot_prefix_zero(a: Seq<usize>, s: Seq<usize>, k: int)
    requires
        forall|i: int| 0 <= i < k ==> a[i] == 0,
    ensures
        dot_prefix(a, s, k) == 0,
    decreases k,
{
    if k > 0 {
        lemma_dot_prefix_zero(a, s, k - 1);
    }
}

/// The dot product grows monotonically with its left argument.
pub proof fn lemma_dot_prefix_le(a: Seq<usize>, b: Seq<usize>, s: Seq<usize>, k: int)
    requires
        forall|i: int| 0 <= i < k ==> a[i] <= b[i],
    ensures
        dot_prefix(a, s, k) <= dot_prefix(b, s, k),
    decreases k,
{
    if k > 0 {
        lemma_dot_prefix_le(a, b, s, k - 1);
        assert((a[k - 1] as nat) * (s[k - 1] as nat) <= (b[k - 1] as nat) * (s[k - 1] as nat))
            by (nonlinear_arith)
            requires
                a[k - 1] <= b[k - 1],
        ;
    }
}

/// The prefix product grows monotonically with its argument.
pub proof fn lemma_prod_prefix_le(a: Seq<usize>, b: Seq<usize>, k: int)
    requires
        forall|i: int| 0 <= i < k ==> a[i] <= b[i],
    ensures
        prod_prefix(a, k) <= prod_prefix(b, k),
    decreases k,
{
    if k > 0 {
        lemma_prod_prefix_le(a, b, k - 1);
        assert(prod_prefix(a, k - 1) * (a[k - 1] as nat) <= prod_prefix(b, k - 1) * (b[k - 1]
            as nat)) by (nonlinear_arith)
            requires
                prod_prefix(a, k - 1) <= prod_prefix(b, k - 1),
                a[k - 1] <= b[k - 1],
        ;
    }
}

/// Element-wise sum of two equally long sequences, truncated to the machine
/// word; exact whenever each component sum fits.
pub open spec fn seq_add_u(a: Seq<usize>, b: Seq<usize>) -> Seq<usize> {
    Seq::new(a.len(), |i: int| ((a[i] + b[i]) as usize))
}

/// Each entry lowered by one; meaningful when every entry is positive.
pub open spec fn seq_dec_u(a: Seq<usize>) -> Seq<usize> {
    Seq::new(a.len(), |i: int| ((a[i] - 1) as usize))
}

/// Every axis has at least one element.
pub open spec fn spec_nonempty(a: Seq<usize>) -> bool {
    forall|i: int| 0 <= i < a.len() ==> a[i] >= 1
}

/// The dot product distributes over an element-wise sum that stays within
/// the machine word.
pub proof fn lemma_dot_prefix_add(a: Seq<usize>, b: Seq<usize>, s: Seq<usize>, k: int)
    requires
        a.len() == b.len(),
        k <= a.len(),
        forall|i: int| 0 <= i < k ==> a[i] + b[i] <= usize::MAX,
    ensures
        dot_prefix(seq_add_u(a, b), s, k) == dot_prefix(a, s, k) + dot_prefix(b, s, k),
    decreases k,
{
    if k > 0 {
        lemma_dot_prefix_add(a, b, s, k - 1);
        assert(seq_add_u(a, b)[k - 1] == (a[k - 1] + b[k - 1]) as usize);
        assert(((a[k - 1] + b[k - 1]) as usize as nat) * (s[k - 1] as nat) == (a[k - 1] as nat) * (
        s[k - 1] as nat) + (b[k - 1] as nat) * (s[k - 1] as nat)) by (nonlinear_arith)
            requires
                a[k - 1] + b[k - 1] <= usize::MAX,
                0 <= a[k - 1],
                0 <= b[k - 1],
        ;
    }
}

/// Under the canonical packed stride, the last coordinate of a nonempty
/// shape lands one short of the flat length.
pub proof fn lemma_packed_last(size: Seq<usize>, stride: Seq<usize>, k: int)
    requires
        0 <= k <= size.len(),
        stride.len() == size.len(),
        forall|i: int| 0 <= i < size.len() ==> #[trigger] stride[i] as nat == prod_prefix(size, i),
        forall|i: int| 0 <= i < size.len() ==> size[i] >= 1,
    ensures
        dot_prefix(seq_dec_u(size), stride, k) + 1 == prod_prefix(size, k),
    decreases k,
{
    if k > 0 {
        lemma_packed_last(size, stride, k - 1);
        assert(seq_dec_u(size)[k - 1] == (size[k - 1] - 1) as usize);
        assert(((size[k - 1] - 1) as nat) * prod_prefix(size, k - 1) + prod_prefix(size, k - 1)
            == (size[k - 1] as nat) * prod_prefix(size, k - 1)) by (nonlinear_arith)
            requires
                size[k - 1] >= 1,
        ;
        assert(prod_prefix(size, k) == prod_prefix(size, k - 1) * (size[k - 1] as nat));
        assert(prod_prefix(size, k - 1) * (size[k - 1] as nat) == (size[k - 1] as nat)
            * prod_prefix(size, k - 1)) by (nonlinear_arith);
    }
}

/// A coordinate, shape, offset or stride of rank at most [`MAX_RANK`].
///
/// Strides are in elements, not bytes. One entry per axis; axis 0 is the
/// fastest-varying axis.
pub struct IdxN {
    pub dims: Vec<usize>,
}

impl Clone for IdxN {
    fn clone(&self) -> (r: Self)
        ensures
            r.dims@ == self.dims@,
    {
        let mut v: Vec<usize> = Vec::new();
        let mut i: usize = 0;
        while i < self.dims.len()
            invariant
                i <= self.dims.len(),
                v@ == self.dims@.subrange(0, i as int),
            decreases self.dims.len() - i,
        {
            v.push(self.dims[i]);
            i = i + 1;
        }
        proof {
            assert(v@ =~= self.dims@);
        }
        IdxN { dims: v }
    }
}

impl IdxN {
    /// Rank bound that every index of the engine satisfies.
    pub open spec fn wf(&self) -> bool {
        self.dims@.len() <= MAX_RANK
    }

    pub open spec fn spec_rank(&self) -> nat {
        self.dims@.len()
    }

    /// Flat length: the number of elements of a packed array of this shape.
    pub open spec fn spec_flat_len(&self) -> nat {
        prod_prefix(self.dims@, self.dims@.len() as int)
    }

    /// Every prefix product of the shape fits in the machine word, so the
    /// packed strides and the flat length are all representable.
    pub open spec fn fits(&self) -> bool {
        forall|k: int|
            0 <= k <= self.dims@.len() ==> #[trigger] prod_prefix(self.dims@, k) <= usize::MAX
    }

    /// `stride` is the canonical packed stride for shape `self`.
    pub open spec fn spec_is_packed(&self, stride: Seq<usize>) -> bool {
        &&& stride.len() == self.dims@.len()
        &&& forall|k: int|
            0 <= k < stride.len() ==> #[trigger] stride[k] as nat == prod_prefix(self.dims@, k)
    }

    /// Wraps a dimension vector; rejects ranks above [`MAX_RANK`].
    pub fn new(dims: Vec<usize>) -> (r: Result<IdxN, MemError>)
        ensures
            match r {
                Ok(ix) => ix.dims@ == dims@ && ix.wf(),
                Err(e) => e == MemError::RankMismatch && dims@.len() > MAX_RANK,
            },
    {
        if dims.len() > MAX_RANK {
            Err(MemError::RankMismatch)
        } else {
            Ok(IdxN { dims })
        }
    }

    /// The zero index of a given rank: the origin coordinate.
    pub fn zero(rank: usize) -> (r: IdxN)
        requires
            rank <= MAX_RANK,
        ensures
            r.dims@.len() == rank,
            forall|k: int| 0 <= k < rank ==> r.dims@[k] == 0usize,
            r.wf(),
    {
        let mut v: Vec<usize> = Vec::new();
        let mut i: usize = 0;
        while i < rank
            invariant
                i <= rank,
                v@.len() == i,
                forall|k: int| 0 <= k < i ==> v@[k] == 0usize,
            decreases rank - i,
        {
            v.push(0);
            i = i + 1;
        }
        IdxN { dims: v }
    }

    pub fn rank(&self) -> (r: usize)
        ensures
            r == self.dims@.len(),
    {
        self.dims.len()
    }

    /// The extent along axis `i`.
    pub fn dim(&self, i: usize) -> (r: usize)
        requires
            i < self.dims@.len(),
        ensures
            r == self.dims@[i as int],
    {
        self.dims[i]
    }

    /// Flat length as a machine word; see [`IdxN::fits`].
    pub fn flat_len(&self) -> (r: usize)
        requires
            self.fits(),
        ensures
            r == self.spec_flat_len(),
    {
        let mut acc: usize = 1;
        let mut i: usize = 0;
        while i < self.dims.len()
            invariant
                i <= self.dims@.len(),
                self.fits(),
                acc == prod_prefix(self.dims@, i as int),
            decreases self.dims@.len() - i,
        {
            proof {
                assert(prod_prefix(self.dims@, i + 1) == acc * self.dims@[i as int]);
                assert(prod_prefix(self.dims@, i + 1) <= usize::MAX);
            }
            acc = acc * self.dims[i];
            i = i + 1;
        }
        acc
    }

    /// Flat length computed with overflow checking: `None` exactly when some
    /// prefix product leaves the machine word.
    pub fn try_flat_len(&self) -> (r: Option<usize>)
        ensures
            match r {
                Some(n) => self.fits() && n == self.spec_flat_len(),
                None => !self.fits(),
            },
    {
        let mut acc: usize = 1;
        let mut i: usize = 0;
        while i < self.dims.len()
            invariant
                i <= self.dims@.len(),
                acc == prod_prefix(self.dims@, i as int),
                forall|k: int| 0 <= k <= i ==> #[trigger] prod_prefix(self.dims@, k) <= usize::MAX,
            decreases self.dims@.len() - i,
        {
            match acc.checked_mul(self.dims[i]) {
                Some(next) => {
                    proof {
                        assert(prod_prefix(self.dims@, i + 1) == acc * self.dims@[i as int]);
                    }
                    acc = next;
                },
                None => {
                    proof {
                        assert(prod_prefix(self.dims@, i + 1) == acc * self.dims@[i as int]);
                        assert(prod_prefix(self.dims@, i + 1) > usize::MAX);
                    }
                    return None;
                },
            }
            i = i + 1;
        }
        Some(acc)
    }

    /// The canonical packed stride for shape `self`: axis 0 has stride 1 and
    /// each later axis steps by the product of all earlier extents.
    pub fn to_packed_stride(&self) -> (r: IdxN)
        requires
            self.fits(),
        ensures
            r.dims@.len() == self.dims@.len(),
            self.spec_is_packed(r.dims@),
            r.wf() <==> self.wf(),
    {
        let mut v: Vec<usize> = Vec::new();
        let mut acc: usize = 1;
        let mut i: usize = 0;
        while i < self.dims.len()
            invariant
                i <= self.dims@.len(),
                self.fits(),
                acc == prod_prefix(self.dims@, i as int),
                v@.len() == i,
                forall|k: int| 0 <= k < i ==> #[trigger] v@[k] as nat == prod_prefix(self.dims@, k),
            decreases self.dims@.len() - i,
        {
            v.push(acc);
            proof {
                assert(prod_prefix(self.dims@, i + 1) == acc * self.dims@[i as int]);
                assert(prod_prefix(self.dims@, i + 1) <= usize::MAX);
            }
            acc = acc * self.dims[i];
            i = i + 1;
        }
        IdxN { dims: v }
    }

    /// Flat buffer position of coordinate `self` under `stride`.
    pub fn flat_index(&self, stride: &IdxN) -> (r: usize)
        requires
            stride.dims@.len() == self.dims@.len(),
            dot_prefix(self.dims@, stride.dims@, self.dims@.len() as int) <= usize::MAX,
        ensures
            r == dot_prefix(self.dims@, stride.dims@, self.dims@.len() as int),
    {
        let n = self.dims.len();
        let mut acc: usize = 0;
        let mut i: usize = 0;
        while i < n
            invariant
                i <= n,
                n == self.dims@.len(),
                stride.dims@.len() == n,
                dot_prefix(self.dims@, stride.dims@, n as int) <= usize::MAX,
                acc == dot_prefix(self.dims@, stride.dims@, i as int),
            decreases n - i,
        {
            proof {
                lemma_dot_prefix_mono(self.dims@, stride.dims@, i + 1, n as int);
                assert(dot_prefix(self.dims@, stride.dims@, i + 1) == acc + self.dims@[i as int]
                    * stride.dims@[i as int]);
            }
            acc = acc + self.dims[i] * stride.dims[i];
            i = i + 1;
        }
        acc
    }

    /// True when `stride` is the canonical packed stride for shape `self`:
    /// the window has no gaps and no reordering.
    pub fn is_packed(&self, stride: &IdxN) -> (r: bool)
        requires
            self.fits(),
        ensures
            r == self.spec_is_packed(stride.dims@),
    {
        if stride.dims.len() != self.dims.len() {
            return false;
        }
        let mut acc: usize = 1;
        let mut i: usize = 0;
        while i < self.dims.len()
            invariant
                i <= self.dims@.len(),
                self.fits(),
                stride.dims@.len() == self.dims@.len(),
                acc == prod_prefix(self.dims@, i as int),
                forall|k: int|
                    0 <= k < i ==> #[trigger] stride.dims@[k] as nat == prod_prefix(self.dims@, k),
            decreases self.dims@.len() - i,
        {
            if stride.dims[i] != acc {
                return false;
            }
            proof {
                assert(prod_prefix(self.dims@, i + 1) == acc * self.dims@[i as int]);
                assert(prod_prefix(self.dims@, i + 1) <= usize::MAX);
            }
            acc = acc * self.dims[i];
            i = i + 1;
        }
        true
    }

    /// Element-wise sum, used to shift an offset by a slice start.
    pub fn index_add(&self, other: &IdxN) -> (r: IdxN)
        requires
            other.dims@.len() == self.dims@.len(),
            forall|k: int|
                0 <= k < self.dims@.len() ==> self.dims@[k] + other.dims@[k] <= usize::MAX,
        ensures
            r.dims@.len() == self.dims@.len(),
            forall|k: int|
                0 <= k < self.dims@.len() ==> #[trigger] r.dims@[k] == self.dims@[k]
                    + other.dims@[k],
            r.wf() <==> self.wf(),
    {
        let n = self.dims.len();
        let mut v: Vec<usize> = Vec::new();
        let mut i: usize = 0;
        while i < n
            invariant
                i <= n,
                n == self.dims@.len(),
                other.dims@.len() == n,
                forall|k: int| 0 <= k < n ==> self.dims@[k] + other.dims@[k] <= usize::MAX,
                v@.len() == i,
                forall|k: int|
                    0 <= k < i ==> #[trigger] v@[k] == self.dims@[k] + other.dims@[k],
            decreases n - i,
        {
            v.push(self.dims[i] + other.dims[i]);
            i = i + 1;
        }
        IdxN { dims: v }
    }

    /// Element-wise difference, used to turn slice bounds into an extent.
    pub fn index_sub(&self, other: &IdxN) -> (r: IdxN)
        requires
            other.dims@.len() == self.dims@.len(),
            forall|k: int| 0 <= k < self.dims@.len() ==> other.dims@[k] <= self.dims@[k],
        ensures
            r.dims@.len() == self.dims@.len(),
            forall|k: int|
                0 <= k < self.dims@.len() ==> #[trigger] r.dims@[k] == self.dims@[k]
                    - other.dims@[k],
            r.wf() <==> self.wf(),
    {
        let n = self.dims.len();
        let mut v: Vec<usize> = Vec::new();
        let mut i: usize = 0;
        while i < n
            invariant
                i <= n,
                n == self.dims@.len(),
                other.dims@.len() == n,
                forall|k: int| 0 <= k < n ==> other.dims@[k] <= self.dims@[k],
                v@.len() == i,
                forall|k: int|
                    0 <= k < i ==> #[trigger] v@[k] == self.dims@[k] - other.dims@[k],
            decreases n - i,
        {
            v.push(self.dims[i] - other.dims[i]);
            i = i + 1;
        }
        IdxN { dims: v }
    }

    /// Appends one axis of extent `d`, raising the rank by one.
    pub fn append(&self, d: usize) -> (r: IdxN)
        requires
            self.dims@.len() < MAX_RANK,
        ensures
            r.dims@ == self.dims@.push(d),
            r.wf(),
    {
        let mut r = self.clone();
        r.dims.push(d);
        r
    }
}

/// The canonical packed stride of shape `s` as a sequence; exact whenever
/// every prefix product fits the machine word.
pub open spec fn packed_seq(s: Seq<usize>) -> Seq<usize> {
    Seq::new(s.len(), |i: int| (prod_prefix(s, i) as usize))
}

impl IdxN {
    /// Sum of `dims[i] * packed_stride[i]` over all axes: an upper bound on
    /// every flat position a window of this shape can reach from offset zero.
    pub open spec fn spec_span(&self) -> nat {
        dot_prefix(self.dims@, packed_seq(self.dims@), self.dims@.len() as int)
    }

    /// The shape's packed strides and their span all fit the machine word,
    /// so any in-bounds flat position is representable.
    pub open spec fn span_ok(&self) -> bool {
        self.fits() && self.spec_span() <= usize::MAX
    }

    /// Computes the span with overflow checking: `None` exactly when the
    /// shape's packed layout leaves the machine word.
    pub fn try_span(&self) -> (r: Option<usize>)
        ensures
            match r {
                Some(n) => self.span_ok() && n == self.spec_span(),
                None => !self.span_ok(),
            },
    {
        let n = self.dims.len();
        let mut acc: usize = 1;
        let mut total: usize = 0;
        let mut i: usize = 0;
        while i < n
            invariant
                i <= n,
                n == self.dims@.len(),
                acc == prod_prefix(self.dims@, i as int),
                total == dot_prefix(self.dims@, packed_seq(self.dims@), i as int),
                forall|k: int| 0 <= k <= i ==> #[trigger] prod_prefix(self.dims@, k) <= usize::MAX,
            decreases n - i,
        {
            let term = match acc.checked_mul(self.dims[i]) {
                Some(t) => t,
                None => {
                    proof {
                        assert(prod_prefix(self.dims@, i + 1) == prod_prefix(self.dims@, i as int)
                            * (self.dims@[i as int] as nat));
                        assert(prod_prefix(self.dims@, i + 1) > usize::MAX);
                    }
                    return None;
                },
            };
            proof {
                assert(prod_prefix(self.dims@, i + 1) == prod_prefix(self.dims@, i as int) * (
                self.dims@[i as int] as nat));
                assert(packed_seq(self.dims@)[i as int] == acc);
                assert(dot_prefix(self.dims@, packed_seq(self.dims@), i + 1) == total + (
                self.dims@[i as int] as nat) * (acc as nat));
            }
            let next_total = match total.checked_add(term) {
                Some(t) => t,
                None => {
                    proof {
                        assert((self.dims@[i as int] as nat) * (acc as nat) == term)
                            by (nonlinear_arith)
                            requires
                                acc as nat * (self.dims@[i as int] as nat) == term as nat,
                        ;
                        assert(dot_prefix(self.dims@, packed_seq(self.dims@), i + 1) > usize::MAX);
                        lemma_dot_prefix_mono(self.dims@, packed_seq(self.dims@), i + 1, n as int);
                    }
                    return None;
                },
            };
            proof {
                assert((self.dims@[i as int] as nat) * (acc as nat) == term) by (nonlinear_arith)
                    requires
                        acc as nat * (self.dims@[i as int] as nat) == term as nat,
                ;
            }
            total = next_total;
            acc = term;
            i = i + 1;
        }
        Some(total)
    }
}

/// One end of an axis range: open, inclusive or exclusive.
#[derive(Clone, Copy, Debug)]
pub enum IdxBound {
    Unbounded,
    Incl(usize),
    Excl(usize),
}

/// A sub-range request along one axis, with open, closed or unbounded ends.
#[derive(Clone, Copy, Debug)]
pub struct AxisRange {
    pub lo: IdxBound,
    pub hi: IdxBound,
}

impl AxisRange {
    /// The whole axis.
    pub fn full() -> (r: AxisRange)
        ensures
            r.lo is Unbounded,
            r.hi is Unbounded,
    {
        AxisRange { lo: IdxBound::Unbounded, hi: IdxBound::Unbounded }
    }

    /// The half-open range `[start, end)`.
    pub fn range(start: usize, end: usize) -> (r: AxisRange)
        ensures
            r.lo == IdxBound::Incl(start),
            r.hi == IdxBound::Excl(end),
    {
        AxisRange { lo: IdxBound::Incl(start), hi: IdxBound::Excl(end) }
    }

    /// The closed range `[start, end]`.
    pub fn range_incl(start: usize, end: usize) -> (r: AxisRange)
        ensures
            r.lo == IdxBound::Incl(start),
            r.hi == IdxBound::Incl(end),
    {
        AxisRange { lo: IdxBound::Incl(start), hi: IdxBound::Incl(end) }
    }

    /// The range `[start, ..)` to the end of the axis.
    pub fn from(start: usize) -> (r: AxisRange)
        ensures
            r.lo == IdxBound::Incl(start),
            r.hi is Unbounded,
    {
        AxisRange { lo: IdxBound::Incl(start), hi: IdxBound::Unbounded }
    }

    /// The range `[0, end)` from the start of the axis.
    pub fn to(end: usize) -> (r: AxisRange)
        ensures
            r.lo is Unbounded,
            r.hi == IdxBound::Excl(end),
    {
        AxisRange { lo: IdxBound::Unbounded, hi: IdxBound::Excl(end) }
    }
}

/// The start index denoted by a lower bound.
pub open spec fn spec_lo(b: IdxBound) -> int {
    match b {
        IdxBound::Unbounded => 0,
        IdxBound::Incl(v) => v as int,
        IdxBound::Excl(v) => v as int + 1,
    }
}

/// The end index (exclusive) denoted by an upper bound on an axis of
/// extent `len`.
pub open spec fn spec_hi(b: IdxBound, len: usize) -> int {
    match b {
        IdxBound::Unbounded => len as int,
        IdxBound::Incl(v) => v as int + 1,
        IdxBound::Excl(v) => v as int,
    }
}

/// The range resolves to a valid pair of slice indexes on an axis of
/// extent `len`.
pub open spec fn spec_axis_ok(r: AxisRange, len: usize) -> bool {
    0 <= spec_lo(r.lo) && spec_lo(r.lo) <= spec_hi(r.hi, len) && spec_hi(r.hi, len) <= len
}

/// Resolves one axis range against the axis extent; out-of-range requests
/// fail rather than clamp.
pub fn axis_bounds(r: &AxisRange, len: usize) -> (out: Result<(usize, usize), MemError>)
    ensures
        match out {
            Ok(se) => spec_axis_ok(*r, len) && se.0 == spec_lo(r.lo) && se.1 == spec_hi(r.hi, len),
            Err(er) => er == MemError::OutOfBounds && !spec_axis_ok(*r, len),
        },
{
    let s: usize = match r.lo {
        IdxBound::Unbounded => 0,
        IdxBound::Incl(v) => v,
        IdxBound::Excl(v) => {
            if v >= len {
                return Err(MemError::OutOfBounds);
            }
            v + 1
        },
    };
    let e: usize = match r.hi {
        IdxBound::Unbounded => len,
        IdxBound::Incl(v) => {
            if v >= len {
                return Err(MemError::OutOfBounds);
            }
            v + 1
        },
        IdxBound::Excl(v) => {
            if v > len {
                return Err(MemError::OutOfBounds);
            }
            v
        },
    };
    if s <= e {
        Ok((s, e))
    } else {
        Err(MemError::OutOfBounds)
    }
}

/// Resolves a vector of axis ranges against a shape, producing the start
/// and end index of the requested window.
pub fn ranges_to_idxs(ranges: &Vec<AxisRange>, size: &IdxN) -> (out: Result<
    (IdxN, IdxN),
    MemError,
>)
    ensures
        match out {
            Ok(se) => {
                &&& ranges@.len() == size.dims@.len()
                &&& se.0.dims@.len() == size.dims@.len()
                &&& se.1.dims@.len() == size.dims@.len()
                &&& forall|i: int|
                    0 <= i < size.dims@.len() ==> spec_axis_ok(ranges@[i], size.dims@[i])
                &&& forall|i: int|
                    0 <= i < size.dims@.len() ==> #[trigger] se.0.dims@[i] == spec_lo(
                        ranges@[i].lo,
                    )
                &&& forall|i: int|
                    0 <= i < size.dims@.len() ==> #[trigger] se.1.dims@[i] == spec_hi(
                        ranges@[i].hi,
                        size.dims@[i],
                    )
            },
            Err(er) => {
                ||| (er == MemError::RankMismatch && ranges@.len() != size.dims@.len())
                ||| (er == MemError::OutOfBounds && ranges@.len() == size.dims@.len() && exists|
                    i: int,
                |
                    0 <= i < size.dims@.len() && !spec_axis_ok(ranges@[i], size.dims@[i]))
            },
        },
{
    let n = size.dims.len();
    if ranges.len() != n {
        return Err(MemError::RankMismatch);
    }
    let mut lo: Vec<usize> = Vec::new();
    let mut hi: Vec<usize> = Vec::new();
    let mut i: usize = 0;
    while i < n
        invariant
            i <= n,
            n == size.dims@.len(),
            ranges@.len() == n,
            lo@.len() == i,
            hi@.len() == i,
            forall|k: int| 0 <= k < i ==> spec_axis_ok(ranges@[k], size.dims@[k]),
            forall|k: int| 0 <= k < i ==> #[trigger] lo@[k] == spec_lo(ranges@[k].lo),
            forall|k: int|
                0 <= k < i ==> #[trigger] hi@[k] == spec_hi(ranges@[k].hi, size.dims@[k]),
        decreases n - i,
    {
        match axis_bounds(&ranges[i], size.dims[i]) {
            Ok(se) => {
                lo.push(se.0);
                hi.push(se.1);
            },
            Err(_) => {
                return Err(MemError::OutOfBounds);
            },
        }
        i = i + 1;
    }
    Ok((IdxN { dims: lo }, IdxN { dims: hi }))
}

/// Converts a possibly negative position into an index below `len`:
/// a negative `i` counts back from the end, as in `len + i`.
pub fn i2idx(i: isize, len: usize) -> (r: usize)
    requires
        (0 <= i && (i as int) < (len as int)) || (i < 0 && 0 - (len as int) <= (i as int)),
    ensures
        r as int == if i >= 0 {
            i as int
        } else {
            len as int + i as int
        },
        r < len,
{
    if i >= 0 {
        i as usize
    } else {
        let back: usize = ((-(i + 1)) as usize) + 1;
        len - back
    }
}

} // verus!
