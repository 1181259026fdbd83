use vstd::prelude::*;

verus! {

/// The recoverable failures of the array engine.
///
/// Format errors come from the serializers, shape and bounds errors from
/// construction and slicing, and aliasing errors from the runtime-checked
/// shared handles. Allocation failure is not here: it aborts the process.
#[derive(Clone, Copy, Debug, PartialEq, Eq, Structural)]
pub enum MemError {
    /// Ranks of two indexes that must agree differ.
    RankMismatch,
    /// A buffer length disagrees with the flat length of a shape.
    ShapeMismatch,
    /// A requested sub-range leaves `[0, shape[i])` on some axis.
    OutOfBounds,
    /// A flat, contiguous slice was requested of a non-packed window.
    NotPacked,
    /// A flat length or flat index does not fit in the machine word.
    Overflow,
    /// The magic constant at the head of a stream is wrong.
    BadMagic,
    /// The format version is not the accepted one.
    BadVersion,
    /// The header text or directory of a stream is malformed.
    BadHeader,
    /// The data section of a stream does not start on the required alignment.
    BadAlignment,
    /// A dtype descriptor token is not one of the recognized descriptors.
    BadDtype,
    /// The stored dtype does not structurally equal the requested one.
    DtypeMismatch,
    /// The stream ends before the declared contents.
    Truncated,
    /// A conflicting borrow of a shared array was requested.
    AliasConflict,
    /// A batch size above the fixed maximum was requested.
    BatchTooLarge,
    /// An archive key does not sort strictly after the keys before it.
    KeyOrder,
}

impl MemError {
    /// A short human-readable description of the failure.
    pub fn describe(&self) -> (r: &'static str)
        ensures
            r@.len() > 0,
    {
        proof {
            reveal_strlit("rank mismatch");
            reveal_strlit("shape mismatch");
            reveal_strlit("out of bounds");
            reveal_strlit("not packed");
            reveal_strlit("overflow");
            reveal_strlit("bad magic");
            reveal_strlit("bad version");
            reveal_strlit("bad header");
            reveal_strlit("bad alignment");
            reveal_strlit("bad dtype");
            reveal_strlit("dtype mismatch");
            reveal_strlit("truncated");
            reveal_strlit("alias conflict");
            reveal_strlit("batch too large");
            reveal_strlit("key out of order");
        }
        match self {
            MemError::RankMismatch => "rank mismatch",
            MemError::ShapeMismatch => "shape mismatch",
            MemError::OutOfBounds => "out of bounds",
            MemError::NotPacked => "not packed",
            MemError::Overflow => "overflow",
            MemError::BadMagic => "bad magic",
            MemError::BadVersion => "bad version",
            MemError::BadHeader => "bad header",
            MemError::BadAlignment => "bad alignment",
            MemError::BadDtype => "bad dtype",
            MemError::DtypeMismatch => "dtype mismatch",
            MemError::Truncated => "truncated",
            MemError::AliasConflict => "alias conflict",
            MemError::BatchTooLarge => "batch too large",
            MemError::KeyOrder => "key out of order",
        }
    }
}

} // verus!
