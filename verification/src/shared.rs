use vstd::prelude::*;

use crate::array::MemArray;
use crate::error::MemError;
use crate::idx::IdxN;
use crate::mem::HeapMem;

verus! {

/// The runtime borrow discipline of a single-thread shared array: free,
/// some number of outstanding read borrows, or one exclusive write borrow.
#[derive(Clone, Copy, Debug, PartialEq, Eq, Structural)]
pub enum BorrowState {
    Free,
    Reading(usize),
    Writing,
}

/// Grants one more read borrow: allowed unless a write borrow is
/// outstanding.
pub fn try_borrow_shared(s: BorrowState) -> (r: Result<BorrowState, MemError>)
    ensures
        match r {
            Ok(ns) => {
                &&& !(s is Writing)
                &&& (s is Free ==> ns == BorrowState::Reading(1))
                &&& (s is Reading ==> s->0 < usize::MAX && ns == BorrowState::Reading(
                    (s->0 + 1) as usize,
                ))
            },
            Err(e) => {
                &&& e == MemError::AliasConflict
                &&& (s is Writing || (s is Reading && s->0 == usize::MAX))
            },
        },
{
    match s {
        BorrowState::Free => Ok(BorrowState::Reading(1)),
        BorrowState::Reading(n) => {
            if n == usize::MAX {
                Err(MemError::AliasConflict)
            } else {
                Ok(BorrowState::Reading(n + 1))
            }
        },
        BorrowState::Writing => Err(MemError::AliasConflict),
    }
}

/// Releases one read borrow.
pub fn release_shared(s: BorrowState) -> (r: Result<BorrowState, MemError>)
    ensures
        match r {
            Ok(ns) => {
                &&& s == BorrowState::Reading(1) ==> ns == BorrowState::Free
                &&& (s is Reading && s->0 > 1 ==> ns == BorrowState::Reading(
                    (s->0 - 1) as usize,
                ))
                &&& (s is Reading)
            },
            Err(e) => e == MemError::AliasConflict && !(s is Reading),
        },
{
    match s {
        BorrowState::Reading(n) => {
            if n <= 1 {
                Ok(BorrowState::Free)
            } else {
                Ok(BorrowState::Reading(n - 1))
            }
        },
        _ => Err(MemError::AliasConflict),
    }
}

/// Grants the exclusive write borrow: allowed exactly when no borrow of
/// any kind is outstanding. This is the aliasing law of the single-thread
/// shared array: while an immutable borrow is outstanding, borrowing
/// mutably fails right here, at the point of the borrow.
pub fn try_borrow_exclusive(s: BorrowState) -> (r: Result<BorrowState, MemError>)
    ensures
        r is Ok <==> s is Free,
        r is Ok ==> r.unwrap() == BorrowState::Writing,
        r is Err ==> r.unwrap_err() == MemError::AliasConflict,
{
    match s {
        BorrowState::Free => Ok(BorrowState::Writing),
        _ => Err(MemError::AliasConflict),
    }
}

/// Releases the exclusive write borrow.
pub fn release_exclusive(s: BorrowState) -> (r: Result<BorrowState, MemError>)
    ensures
        r is Ok <==> s is Writing,
        r is Ok ==> r.unwrap() == BorrowState::Free,
        r is Err ==> r.unwrap_err() == MemError::AliasConflict,
{
    match s {
        BorrowState::Writing => Ok(BorrowState::Free),
        _ => Err(MemError::AliasConflict),
    }
}

/// The shared cell's payload: the borrow bookkeeping and the buffer.
pub struct SharedInner {
    pub state: BorrowState,
    pub mem: HeapMem,
}

#[verifier::external_type_specification]
#[verifier::external_body]
#[verifier::reject_recursive_types(T)]
pub struct ExRefCell<T: ?Sized>(core::cell::RefCell<T>);

/// Relies on `core::cell::RefCell::new`: wraps the payload in a
/// runtime-checked interior-mutability cell.
#[verifier::external_body]
fn cell_new(v: SharedInner) -> (c: core::cell::RefCell<SharedInner>) {
    core::cell::RefCell::new(v)
}

/// Relies on `core::cell::RefCell::replace`: swaps the payload out and the
/// given value in. `replace` panics only while the cell is borrowed; the
/// cell lives in a private field, nothing in this crate ever calls
/// `borrow` or `borrow_mut` on it, and every operation puts the payload
/// back before returning, so no call can observe an active borrow.
#[verifier::external_body]
fn cell_replace(c: &core::cell::RefCell<SharedInner>, v: SharedInner) -> (r: SharedInner) {
    c.replace(v)
}

/// Relies on `std::rc::Rc::clone`: a new handle to the same cell, bumping
/// the reference count; the cell is freed when the last handle drops.
#[verifier::external_body]
fn rc_cell_clone(c: &std::rc::Rc<core::cell::RefCell<SharedInner>>) -> (r: std::rc::Rc<
    core::cell::RefCell<SharedInner>,
>) {
    std::rc::Rc::clone(c)
}

/// A single-thread shared array: shape, offset and stride duplicated per
/// handle, the buffer shared behind a reference count with a
/// runtime-checked exclusive-access cell.
///
/// The borrow discipline itself — which borrows are granted in which
/// states — is the verified [`BorrowState`] machine above; each operation
/// takes the cell's state out, decides through the machine, and puts the
/// result back. What the cell holds at any moment is runtime knowledge
/// that no handle can assume.
pub struct SharedArray {
    size: IdxN,
    offset: IdxN,
    stride: IdxN,
    dtype: crate::dtype::NpyDtype,
    cell: std::rc::Rc<core::cell::RefCell<SharedInner>>,
}

impl SharedArray {
    /// The handle's shape, one extent per axis.
    pub closed spec fn spec_size(&self) -> Seq<usize> {
        self.size.dims@
    }

    /// The handle's offset.
    pub closed spec fn spec_offset(&self) -> Seq<usize> {
        self.offset.dims@
    }

    /// The handle's stride.
    pub closed spec fn spec_stride(&self) -> Seq<usize> {
        self.stride.dims@
    }

    /// The handle's element kind.
    pub closed spec fn spec_dtype(&self) -> crate::dtype::NpyDtype {
        self.dtype
    }

    /// The handle's shape.
    pub fn shape(&self) -> (r: IdxN)
        ensures
            r.dims@ == self.spec_size(),
    {
        self.size.clone()
    }

    /// The handle's element kind.
    pub fn dtype(&self) -> (r: crate::dtype::NpyDtype)
        ensures
            r == self.spec_dtype(),
    {
        self.dtype
    }

    /// Moves an owned array into shared ownership; the new cell starts
    /// with no borrows outstanding.
    pub fn new(arr: MemArray) -> (r: SharedArray)
        requires
            arr.wf(),
        ensures
            r.spec_size() == arr.size.dims@,
            r.spec_offset() == arr.offset.dims@,
            r.spec_stride() == arr.stride.dims@,
            r.spec_dtype() == arr.dtype,
    {
        let inner = SharedInner { state: BorrowState::Free, mem: arr.mem };
        SharedArray {
            size: arr.size,
            offset: arr.offset,
            stride: arr.stride,
            dtype: arr.dtype,
            cell: std::rc::Rc::new(cell_new(inner)),
        }
    }

    /// A new handle to the same buffer: O(1), metadata copied, buffer
    /// shared.
    pub fn clone_handle(&self) -> (r: SharedArray)
        ensures
            r.spec_size() == self.spec_size(),
            r.spec_offset() == self.spec_offset(),
            r.spec_stride() == self.spec_stride(),
            r.spec_dtype() == self.spec_dtype(),
    {
        SharedArray {
            size: self.size.clone(),
            offset: self.offset.clone(),
            stride: self.stride.clone(),
            dtype: self.dtype,
            cell: rc_cell_clone(&self.cell),
        }
    }

    /// A placeholder payload used while an operation holds the real one.
    fn vacant() -> (r: SharedInner)
        ensures
            r.state == BorrowState::Free,
    {
        SharedInner {
            state: BorrowState::Free,
            mem: HeapMem { bytes: Vec::new(), len: 0, esz: 1, phsz: 0 },
        }
    }

    /// Takes a read borrow; fails immediately when a write borrow is
    /// outstanding anywhere, per the borrow machine. Whether the grant is
    /// given depends on the cell's runtime state, which no handle can
    /// assume; the refusal is always the aliasing error.
    pub fn borrow_shared(&self) -> (r: Result<(), MemError>)
        ensures
            r is Err ==> r.unwrap_err() == MemError::AliasConflict,
    {
        let inner = cell_replace(&self.cell, Self::vacant());
        match try_borrow_shared(inner.state) {
            Ok(ns) => {
                let _ = cell_replace(&self.cell, SharedInner { state: ns, mem: inner.mem });
                Ok(())
            },
            Err(e) => {
                let _ = cell_replace(&self.cell, inner);
                Err(e)
            },
        }
    }

    /// Releases one read borrow; refused when none is outstanding.
    pub fn release_shared(&self) -> (r: Result<(), MemError>)
        ensures
            r is Err ==> r.unwrap_err() == MemError::AliasConflict,
    {
        let inner = cell_replace(&self.cell, Self::vacant());
        match release_shared(inner.state) {
            Ok(ns) => {
                let _ = cell_replace(&self.cell, SharedInner { state: ns, mem: inner.mem });
                Ok(())
            },
            Err(e) => {
                let _ = cell_replace(&self.cell, inner);
                Err(e)
            },
        }
    }

    /// Takes the exclusive write borrow; fails at this very call while any
    /// other borrow is outstanding, per the borrow machine.
    pub fn borrow_exclusive(&self) -> (r: Result<(), MemError>)
        ensures
            r is Err ==> r.unwrap_err() == MemError::AliasConflict,
    {
        let inner = cell_replace(&self.cell, Self::vacant());
        match try_borrow_exclusive(inner.state) {
            Ok(ns) => {
                let _ = cell_replace(&self.cell, SharedInner { state: ns, mem: inner.mem });
                Ok(())
            },
            Err(e) => {
                let _ = cell_replace(&self.cell, inner);
                Err(e)
            },
        }
    }

    /// Releases the exclusive write borrow; refused when it is not held.
    pub fn release_exclusive(&self) -> (r: Result<(), MemError>)
        ensures
            r is Err ==> r.unwrap_err() == MemError::AliasConflict,
    {
        let inner = cell_replace(&self.cell, Self::vacant());
        match release_exclusive(inner.state) {
            Ok(ns) => {
                let _ = cell_replace(&self.cell, SharedInner { state: ns, mem: inner.mem });
                Ok(())
            },
            Err(e) => {
                let _ = cell_replace(&self.cell, inner);
                Err(e)
            },
        }
    }

    /// Copies the buffer's bytes out; fails with the aliasing error while
    /// a write borrow is outstanding, and with the shape error if the
    /// cell's buffer ever disagrees with its own bookkeeping.
    pub fn read_bytes(&self) -> (r: Result<Vec<u8>, MemError>)
        ensures
            r is Err ==> (r.unwrap_err() == MemError::AliasConflict || r.unwrap_err()
                == MemError::ShapeMismatch),
    {
        let inner = cell_replace(&self.cell, Self::vacant());
        let ok = match inner.state {
            BorrowState::Writing => false,
            _ => true,
        };
        if !ok {
            let _ = cell_replace(&self.cell, inner);
            return Err(MemError::AliasConflict);
        }
        let n = inner.mem.phys_size();
        let limit = inner.mem.as_bytes().len();
        if n > limit {
            let _ = cell_replace(&self.cell, inner);
            return Err(MemError::ShapeMismatch);
        }
        let data = inner.mem.read_range(0, n);
        let _ = cell_replace(&self.cell, inner);
        Ok(data)
    }

    /// Overwrites the whole buffer with the zero bit pattern; allowed only
    /// while a write borrow is held — the single-thread variant cannot tie
    /// the grant to one handle, so holding it is the caller's discipline.
    /// Fails with the shape error if the cell's buffer ever disagrees with
    /// its own bookkeeping.
    pub fn zero_fill(&self) -> (r: Result<(), MemError>)
        ensures
            r is Err ==> (r.unwrap_err() == MemError::AliasConflict || r.unwrap_err()
                == MemError::ShapeMismatch),
    {
        let mut inner = cell_replace(&self.cell, Self::vacant());
        let ok = match inner.state {
            BorrowState::Writing => true,
            _ => false,
        };
        if !ok {
            let _ = cell_replace(&self.cell, inner);
            return Err(MemError::AliasConflict);
        }
        let wf_ok = match inner.mem.len().checked_mul(inner.mem.elem_size()) {
            Some(p) => p == inner.mem.phys_size() && inner.mem.phys_size()
                == inner.mem.as_bytes().len() && inner.mem.elem_size() >= 1,
            None => false,
        };
        if !wf_ok {
            let _ = cell_replace(&self.cell, inner);
            return Err(MemError::ShapeMismatch);
        }
        inner.mem.zero_fill();
        let _ = cell_replace(&self.cell, inner);
        Ok(())
    }
}

#[verifier::external_type_specification]
#[verifier::external_body]
#[verifier::reject_recursive_types(T)]
pub struct ExSharedMem<T>(sharedmem::SharedMem<T>);

/// What a cross-thread shared region holds. A region is immutable once
/// built, so its contents are a function of the value alone.
pub uninterp spec fn shared_mem_contents(m: sharedmem::SharedMem<u8>) -> Seq<u8>;

/// Relies on `sharedmem::SharedMem::new` with a `Vec` buffer: the new
/// region holds exactly the vector's bytes.
#[verifier::external_body]
fn shared_mem_new(v: Vec<u8>) -> (m: sharedmem::SharedMem<u8>)
    ensures
        shared_mem_contents(m) == v@,
{
    sharedmem::SharedMem::new(v)
}

/// Relies on `sharedmem::SharedMem`'s `Clone` (an atomic reference-count
/// bump): the same region, freed when the last handle drops.
#[verifier::external_body]
fn shared_mem_clone(m: &sharedmem::SharedMem<u8>) -> (r: sharedmem::SharedMem<u8>)
    ensures
        shared_mem_contents(r) == shared_mem_contents(*m),
{
    m.clone()
}

/// Relies on `sharedmem::SharedMem::as_slice`, whose slice window is the
/// whole region.
#[verifier::external_body]
fn shared_mem_read(m: &sharedmem::SharedMem<u8>) -> (v: Vec<u8>)
    ensures
        v@ == shared_mem_contents(*m),
{
    m.as_slice().to_vec()
}

/// A cross-thread shared array: shape, offset and stride duplicated per
/// handle, the element bytes in an immutable, atomically reference-counted
/// shared region that any number of threads may read concurrently.
pub struct SharedMemArray {
    pub size: IdxN,
    pub offset: IdxN,
    pub stride: IdxN,
    pub dtype: crate::dtype::NpyDtype,
    /// The shared region. Handles built by this library always wrap a
    /// `Vec`-backed region, whose bytes never change; a region of another
    /// kind (a file mapping, whose bytes follow the file) placed here from
    /// outside is not covered by the contents model the contracts use.
    pub mem: sharedmem::SharedMem<u8>,
}

impl SharedMemArray {
    /// The handle's invariant: the shared region holds one element of
    /// `dtype` width per position of the packed shape.
    pub open spec fn wf(&self) -> bool {
        &&& self.size.wf()
        &&& self.size.span_ok()
        &&& self.offset.dims@.len() == self.size.dims@.len()
        &&& forall|i: int| 0 <= i < self.offset.dims@.len() ==> self.offset.dims@[i] == 0usize
        &&& self.stride.dims@.len() == self.size.dims@.len()
        &&& self.size.spec_is_packed(self.stride.dims@)
        &&& shared_mem_contents(self.mem).len() == self.size.spec_flat_len()
            * crate::dtype::spec_dtype_size(self.dtype)
    }

    /// Moves an owned array's buffer into a cross-thread shared region.
    pub fn from_array(arr: MemArray) -> (r: SharedMemArray)
        requires
            arr.wf(),
        ensures
            r.wf(),
            r.size.dims@ == arr.size.dims@,
            r.dtype == arr.dtype,
            shared_mem_contents(r.mem) == arr.mem.bytes@,
    {
        let mem = shared_mem_new(arr.mem.bytes);
        SharedMemArray {
            size: arr.size,
            offset: arr.offset,
            stride: arr.stride,
            dtype: arr.dtype,
            mem,
        }
    }

    /// A new handle to the same region: O(1), metadata copied, region
    /// shared.
    pub fn clone_handle(&self) -> (r: SharedMemArray)
        requires
            self.wf(),
        ensures
            r.wf(),
            r.size.dims@ == self.size.dims@,
            r.dtype == self.dtype,
            shared_mem_contents(r.mem) == shared_mem_contents(self.mem),
    {
        SharedMemArray {
            size: self.size.clone(),
            offset: self.offset.clone(),
            stride: self.stride.clone(),
            dtype: self.dtype,
            mem: shared_mem_clone(&self.mem),
        }
    }

    /// Copies the whole region's bytes out.
    pub fn read_bytes(&self) -> (r: Vec<u8>)
        ensures
            r@ == shared_mem_contents(self.mem),
    {
        shared_mem_read(&self.mem)
    }

    /// Rebuilds an exclusive owned array from the shared bytes.
    pub fn to_array(&self) -> (r: Result<MemArray, MemError>)
        requires
            self.wf(),
        ensures
            match r {
                Ok(a) => {
                    &&& a.wf()
                    &&& a.dtype == self.dtype
                    &&& a.size.dims@ == self.size.dims@
                    &&& a.mem.bytes@ == shared_mem_contents(self.mem)
                },
                Err(_) => false,
            },
    {
        let bytes = shared_mem_read(&self.mem);
        let esz = self.dtype.size_of();
        let fl = self.size.flat_len();
        proof {
            crate::idx::lemma_dot_prefix_mono(
                self.size.dims@,
                crate::idx::packed_seq(self.size.dims@),
                0,
                self.size.dims@.len() as int,
            );
            assert((fl as nat) * (esz as nat) == bytes@.len());
        }
        let mem = match HeapMem::with_bytes(fl, esz, bytes) {
            Ok(m) => m,
            Err(_) => vstd::pervasive::unreached(),
        };
        match MemArray::with_memory(self.dtype, self.size.clone(), mem) {
            Ok(a) => Ok(a),
            Err(_) => vstd::pervasive::unreached(),
        }
    }
}


/// The lock invariant of a cross-thread shared buffer: a consistent
/// allocation of the fixed element count and width.
pub open spec fn buf_pred(flat: nat, esz: nat) -> spec_fn(HeapMem) -> bool {
    |m: HeapMem| m.wf() && m.len as nat == flat && m.esz as nat == esz
}

/// A cross-thread shared, mutable array: shape, offset and stride
/// duplicated per handle, the buffer behind an atomic reference count and
/// a verified readers-writer lock. Any number of threads may hold read
/// borrows at once; a write borrow waits for them and then excludes
/// everything until released.
pub struct SyncSharedArray {
    pub size: IdxN,
    pub offset: IdxN,
    pub stride: IdxN,
    pub dtype: crate::dtype::NpyDtype,
    pub lock: std::sync::Arc<vstd::rwlock::RwLock<HeapMem, spec_fn(HeapMem) -> bool>>,
}

/// Relies on `std::sync::Arc::clone`: a new handle to the very same lock,
/// bumping the atomic reference count; the lock and its buffer are freed
/// when the last handle drops.
#[verifier::external_body]
fn arc_lock_clone(
    c: &std::sync::Arc<vstd::rwlock::RwLock<HeapMem, spec_fn(HeapMem) -> bool>>,
) -> (r: std::sync::Arc<vstd::rwlock::RwLock<HeapMem, spec_fn(HeapMem) -> bool>>)
    ensures
        r == *c,
{
    std::sync::Arc::clone(c)
}

impl SyncSharedArray {
    /// The handle's invariant: packed layout metadata, and a lock whose
    /// invariant pins the buffer's element count and width.
    pub open spec fn wf(&self) -> bool {
        &&& self.size.wf()
        &&& self.size.span_ok()
        &&& self.offset.dims@.len() == self.size.dims@.len()
        &&& forall|i: int| 0 <= i < self.offset.dims@.len() ==> self.offset.dims@[i] == 0usize
        &&& self.stride.dims@.len() == self.size.dims@.len()
        &&& self.size.spec_is_packed(self.stride.dims@)
        &&& self.lock.pred() == buf_pred(
            self.size.spec_flat_len(),
            crate::dtype::spec_dtype_size(self.dtype),
        )
    }

    /// Moves an owned array into cross-thread shared ownership.
    pub fn new(arr: MemArray) -> (r: SyncSharedArray)
        requires
            arr.wf(),
        ensures
            r.wf(),
            r.size.dims@ == arr.size.dims@,
            r.dtype == arr.dtype,
    {
        let ghost pred = buf_pred(
            arr.size.spec_flat_len(),
            crate::dtype::spec_dtype_size(arr.dtype),
        );
        let lock = vstd::rwlock::RwLock::new(arr.mem, Ghost(pred));
        SyncSharedArray {
            size: arr.size,
            offset: arr.offset,
            stride: arr.stride,
            dtype: arr.dtype,
            lock: std::sync::Arc::new(lock),
        }
    }

    /// A new handle to the same lock and buffer: O(1), metadata copied.
    pub fn clone_handle(&self) -> (r: SyncSharedArray)
        requires
            self.wf(),
        ensures
            r.wf(),
            r.size.dims@ == self.size.dims@,
            r.dtype == self.dtype,
    {
        SyncSharedArray {
            size: self.size.clone(),
            offset: self.offset.clone(),
            stride: self.stride.clone(),
            dtype: self.dtype,
            lock: arc_lock_clone(&self.lock),
        }
    }

    /// Copies the buffer's bytes out under a read borrow; other readers
    /// may hold theirs concurrently.
    pub fn read_bytes(&self) -> (r: Vec<u8>)
        requires
            self.wf(),
        ensures
            r@.len() == self.size.spec_flat_len() * crate::dtype::spec_dtype_size(self.dtype),
    {
        let handle = self.lock.acquire_read();
        let m = handle.borrow();
        let data = m.read_range(0, m.phys_size());
        handle.release_read();
        data
    }

    /// Zero-fills the buffer under the exclusive write borrow: the lock
    /// blocks until every read borrow is released and keeps everyone out
    /// until the write is done.
    pub fn zero_fill(&self)
        requires
            self.wf(),
    {
        let (mut m, handle) = self.lock.acquire_write();
        m.zero_fill();
        handle.release_write(m);
    }
}

} // verus!
