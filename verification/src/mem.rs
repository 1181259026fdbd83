use vstd::prelude::*;

use crate::error::MemError;

verus! {

/// Exclusive owner of a heap allocation of `len` elements, each `esz` bytes
/// wide, stored as raw little-endian-tagged bytes.
///
/// Exactly one `HeapMem` value owns a given allocation: moving it transfers
/// ownership and dropping it frees the storage exactly once, both enforced
/// structurally by Rust ownership of the backing vector.
pub struct HeapMem {
    /// The backing storage, element after element.
    pub bytes: Vec<u8>,
    /// Number of elements.
    pub len: usize,
    /// Width of one element in bytes.
    pub esz: usize,
    /// Physical byte size, cached for diagnostics: always `len * esz`.
    pub phsz: usize,
}

impl HeapMem {
    /// The buffer's bookkeeping agrees with its storage.
    pub open spec fn wf(&self) -> bool {
        &&& 1 <= self.esz
        &&& self.phsz == self.len * self.esz
        &&& self.bytes@.len() == self.phsz
    }

    /// Every byte of the allocation is zero.
    pub open spec fn all_zero(&self) -> bool {
        forall|i: int| 0 <= i < self.bytes@.len() ==> self.bytes@[i] == 0u8
    }

    /// Allocates storage for `len` elements of `esz` bytes, zero-filled.
    ///
    /// The zero bit pattern is a valid value of every element kind the
    /// engine admits. If the allocator cannot satisfy the request the
    /// process aborts; allocation failure is not a recoverable error here.
    pub fn allocate(len: usize, esz: usize) -> (r: HeapMem)
        requires
            1 <= esz,
            len * esz <= usize::MAX,
        ensures
            r.wf(),
            r.len == len,
            r.esz == esz,
            r.phsz == len * esz,
            r.all_zero(),
    {
        let phsz = len * esz;
        let bytes = vec![0u8; phsz];
        proof {
            assert forall|i: int| 0 <= i < bytes@.len() implies bytes@[i] == 0u8 by {
                assert(cloned(0u8, bytes@[i]));
            }
        }
        HeapMem { bytes, len, esz, phsz }
    }

    /// Adopts an existing byte vector as a buffer of `len` elements of
    /// `esz` bytes; fails when the byte count disagrees.
    pub fn with_bytes(len: usize, esz: usize, bytes: Vec<u8>) -> (r: Result<HeapMem, MemError>)
        ensures
            match r {
                Ok(m) => {
                    &&& 1 <= esz
                    &&& bytes@.len() == len * esz
                    &&& m.wf()
                    &&& m.len == len
                    &&& m.esz == esz
                    &&& m.bytes@ == bytes@
                },
                Err(e) => {
                    &&& e == MemError::ShapeMismatch
                    &&& (esz < 1 || bytes@.len() != len * esz)
                },
            },
    {
        if esz < 1 {
            return Err(MemError::ShapeMismatch);
        }
        let blen = bytes.len();
        match len.checked_mul(esz) {
            Some(phsz) => {
                if blen == phsz {
                    Ok(HeapMem { bytes, len, esz, phsz })
                } else {
                    Err(MemError::ShapeMismatch)
                }
            },
            None => {
                proof {
                    assert(bytes@.len() == blen);
                }
                Err(MemError::ShapeMismatch)
            },
        }
    }

    /// Writes the zero bit pattern across the whole allocation.
    pub fn zero_fill(&mut self)
        requires
            old(self).wf(),
        ensures
            final(self).wf(),
            final(self).len == old(self).len,
            final(self).esz == old(self).esz,
            final(self).phsz == old(self).phsz,
            final(self).all_zero(),
    {
        let fresh = vec![0u8; self.phsz];
        proof {
            assert forall|i: int| 0 <= i < fresh@.len() implies fresh@[i] == 0u8 by {
                assert(cloned(0u8, fresh@[i]));
            }
        }
        self.bytes = fresh;
    }

    /// Number of elements owned.
    pub fn len(&self) -> (r: usize)
        ensures
            r == self.len,
    {
        self.len
    }

    /// Width of one element in bytes.
    pub fn elem_size(&self) -> (r: usize)
        ensures
            r == self.esz,
    {
        self.esz
    }

    /// Cached physical byte size of the allocation.
    pub fn phys_size(&self) -> (r: usize)
        ensures
            r == self.phsz,
    {
        self.phsz
    }

    /// Read access to the whole allocation, element-typed: with byte-wide
    /// storage this is the same window as [`HeapMem::as_bytes`].
    pub fn as_slice(&self) -> (r: &[u8])
        ensures
            r@ == self.bytes@,
    {
        self.bytes.as_slice()
    }

    /// Read access to the whole allocation as raw bytes.
    pub fn as_bytes(&self) -> (r: &[u8])
        ensures
            r@ == self.bytes@,
    {
        self.bytes.as_slice()
    }

    /// One byte of the allocation.
    pub fn read_byte(&self, i: usize) -> (r: u8)
        requires
            i < self.bytes@.len(),
        ensures
            r == self.bytes@[i as int],
    {
        self.bytes[i]
    }

    /// Overwrites one byte of the allocation.
    pub fn set_byte(&mut self, i: usize, b: u8)
        requires
            i < old(self).bytes@.len(),
        ensures
            final(self).bytes@ == old(self).bytes@.update(i as int, b),
            final(self).len == old(self).len,
            final(self).esz == old(self).esz,
            final(self).phsz == old(self).phsz,
    {
        self.bytes[i] = b;
    }

    /// Copies `n` bytes starting at byte position `start`.
    pub fn read_range(&self, start: usize, n: usize) -> (r: Vec<u8>)
        requires
            start + n <= self.bytes@.len(),
        ensures
            r@ == self.bytes@.subrange(start as int, start as int + n as int),
    {
        let limit = self.bytes.len();
        let mut v: Vec<u8> = Vec::new();
        let mut i: usize = 0;
        while i < n
            invariant
                i <= n,
                start + n <= limit,
                limit == self.bytes@.len(),
                v@ == self.bytes@.subrange(start as int, start as int + i as int),
            decreases n - i,
        {
            v.push(self.bytes[start + i]);
            proof {
                assert(v@ =~= self.bytes@.subrange(start as int, start as int + i as int + 1));
            }
            i = i + 1;
        }
        v
    }
}

} // verus!
