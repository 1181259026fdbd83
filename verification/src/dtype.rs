use vstd::prelude::*;

use crate::error::MemError;

verus! {

/// Byte order of stored element data.
///
/// The engine's own buffers are little-endian-tagged; a descriptor whose
/// byte order disagrees with [`NpyEndianness::native`] is rejected rather
/// than byte-swapped.
#[derive(Clone, Copy, Debug, PartialEq, Eq, Structural)]
pub enum NpyEndianness {
    Little,
    Big,
}

impl NpyEndianness {
    /// The byte order the engine stores and exchanges natively.
    pub fn native() -> (r: Self)
        ensures
            r == NpyEndianness::Little,
    {
        NpyEndianness::Little
    }
}

/// The closed set of element kinds the engine represents.
#[derive(Clone, Copy, Debug, PartialEq, Eq, Structural)]
pub enum NpyDtype {
    Float32,
    Float64,
    Int8,
    Int16,
    Int32,
    Int64,
    UInt8,
    UInt16,
    UInt32,
    UInt64,
}

/// Width in bytes of one element of dtype `d`.
pub open spec fn spec_dtype_size(d: NpyDtype) -> nat {
    match d {
        NpyDtype::Float32 => 4,
        NpyDtype::Float64 => 8,
        NpyDtype::Int8 => 1,
        NpyDtype::Int16 => 2,
        NpyDtype::Int32 => 4,
        NpyDtype::Int64 => 8,
        NpyDtype::UInt8 => 1,
        NpyDtype::UInt16 => 2,
        NpyDtype::UInt32 => 4,
        NpyDtype::UInt64 => 8,
    }
}

impl NpyDtype {
    /// Width in bytes of one element.
    pub fn size_of(&self) -> (r: usize)
        ensures
            r == spec_dtype_size(*self),
            1 <= r <= 8,
    {
        match self {
            NpyDtype::Float32 => 4,
            NpyDtype::Float64 => 8,
            NpyDtype::Int8 => 1,
            NpyDtype::Int16 => 2,
            NpyDtype::Int32 => 4,
            NpyDtype::Int64 => 8,
            NpyDtype::UInt8 => 1,
            NpyDtype::UInt16 => 2,
            NpyDtype::UInt32 => 4,
            NpyDtype::UInt64 => 8,
        }
    }
}

/// A dtype descriptor as it appears in a stream header: a byte order (absent
/// for single-byte kinds) and an element kind.
#[derive(Clone, Copy, Debug, PartialEq, Eq)]
pub struct NpyDtypeDesc {
    pub endian: Option<NpyEndianness>,
    pub dtype: NpyDtype,
}

/// The header token of the unsigned-byte descriptor: `'|u1',`.
pub open spec fn spec_desc_u1() -> Seq<u8> {
    seq![39u8, 124u8, 117u8, 49u8, 39u8, 44u8]
}

/// The header token of the little-endian 32-bit float descriptor: `'<f4',`.
pub open spec fn spec_desc_f4() -> Seq<u8> {
    seq![39u8, 60u8, 102u8, 52u8, 39u8, 44u8]
}

/// The header token of the little-endian 64-bit float descriptor: `'<f8',`.
pub open spec fn spec_desc_f8() -> Seq<u8> {
    seq![39u8, 60u8, 102u8, 56u8, 39u8, 44u8]
}

/// The descriptor value denoted by a recognized header token.
pub open spec fn spec_parse_desc(tok: Seq<u8>) -> Option<NpyDtypeDesc> {
    if tok == spec_desc_u1() {
        Some(NpyDtypeDesc { endian: None, dtype: NpyDtype::UInt8 })
    } else if tok == spec_desc_f4() {
        Some(NpyDtypeDesc { endian: Some(NpyEndianness::Little), dtype: NpyDtype::Float32 })
    } else if tok == spec_desc_f8() {
        Some(NpyDtypeDesc { endian: Some(NpyEndianness::Little), dtype: NpyDtype::Float64 })
    } else {
        None
    }
}

/// The header token that denotes descriptor `d`, for the serializable
/// descriptors.
pub open spec fn spec_desc_token(d: NpyDtypeDesc) -> Option<Seq<u8>> {
    if d == (NpyDtypeDesc { endian: None, dtype: NpyDtype::UInt8 }) {
        Some(spec_desc_u1())
    } else if d == (NpyDtypeDesc { endian: Some(NpyEndianness::Little), dtype: NpyDtype::Float32 }) {
        Some(spec_desc_f4())
    } else if d == (NpyDtypeDesc { endian: Some(NpyEndianness::Little), dtype: NpyDtype::Float64 }) {
        Some(spec_desc_f8())
    } else {
        None
    }
}

/// Exact byte-wise equality of two windows.
pub fn bytes_eq(a: &[u8], b: &[u8]) -> (r: bool)
    ensures
        r == (a@ == b@),
{
    if a.len() != b.len() {
        proof {
            assert(a@.len() != b@.len());
        }
        return false;
    }
    let n = a.len();
    let mut i: usize = 0;
    while i < n
        invariant
            i <= n,
            n == a@.len(),
            n == b@.len(),
            forall|k: int| 0 <= k < i ==> a@[k] == b@[k],
        decreases n - i,
    {
        if a[i] != b[i] {
            return false;
        }
        i = i + 1;
    }
    proof {
        assert(a@ =~= b@);
    }
    true
}

/// The u1 descriptor token as bytes.
pub fn desc_u1_bytes() -> (v: Vec<u8>)
    ensures
        v@ == spec_desc_u1(),
{
    let mut v: Vec<u8> = Vec::new();
    v.push(39);
    v.push(124);
    v.push(117);
    v.push(49);
    v.push(39);
    v.push(44);
    proof {
        assert(v@ =~= spec_desc_u1());
    }
    v
}

/// The f4 descriptor token as bytes.
pub fn desc_f4_bytes() -> (v: Vec<u8>)
    ensures
        v@ == spec_desc_f4(),
{
    let mut v: Vec<u8> = Vec::new();
    v.push(39);
    v.push(60);
    v.push(102);
    v.push(52);
    v.push(39);
    v.push(44);
    proof {
        assert(v@ =~= spec_desc_f4());
    }
    v
}

/// The f8 descriptor token as bytes.
pub fn desc_f8_bytes() -> (v: Vec<u8>)
    ensures
        v@ == spec_desc_f8(),
{
    let mut v: Vec<u8> = Vec::new();
    v.push(39);
    v.push(60);
    v.push(102);
    v.push(56);
    v.push(39);
    v.push(44);
    proof {
        assert(v@ =~= spec_desc_f8());
    }
    v
}

impl NpyDtypeDesc {
    /// Parses a whitespace-delimited descriptor token. Exactly the three
    /// recognized descriptors parse; anything else is a hard failure.
    pub fn parse(desc: &Vec<u8>) -> (r: Result<NpyDtypeDesc, MemError>)
        ensures
            match r {
                Ok(d) => spec_parse_desc(desc@) == Some(d),
                Err(e) => e == MemError::BadDtype && spec_parse_desc(desc@) is None,
            },
    {
        let u1 = desc_u1_bytes();
        let f4 = desc_f4_bytes();
        let f8 = desc_f8_bytes();
        if bytes_eq(desc.as_slice(), u1.as_slice()) {
            Ok(NpyDtypeDesc { endian: None, dtype: NpyDtype::UInt8 })
        } else if bytes_eq(desc.as_slice(), f4.as_slice()) {
            Ok(NpyDtypeDesc { endian: Some(NpyEndianness::Little), dtype: NpyDtype::Float32 })
        } else if bytes_eq(desc.as_slice(), f8.as_slice()) {
            Ok(NpyDtypeDesc { endian: Some(NpyEndianness::Little), dtype: NpyDtype::Float64 })
        } else {
            Err(MemError::BadDtype)
        }
    }

    /// The header token for this descriptor; fails for descriptors the
    /// stream format does not carry.
    pub fn token(&self) -> (r: Result<Vec<u8>, MemError>)
        ensures
            match r {
                Ok(v) => spec_desc_token(*self) == Some(v@),
                Err(e) => e == MemError::BadDtype && spec_desc_token(*self) is None,
            },
    {
        match (self.endian, self.dtype) {
            (None, NpyDtype::UInt8) => Ok(desc_u1_bytes()),
            (Some(NpyEndianness::Little), NpyDtype::Float32) => Ok(desc_f4_bytes()),
            (Some(NpyEndianness::Little), NpyDtype::Float64) => Ok(desc_f8_bytes()),
            _ => Err(MemError::BadDtype),
        }
    }

    /// Structural equality with another descriptor: the check a stream's
    /// declared dtype must pass against the requesting element kind.
    pub fn matches(&self, other: &NpyDtypeDesc) -> (r: bool)
        ensures
            r == (*self == *other),
    {
        let de = match (self.dtype, other.dtype) {
            (NpyDtype::Float32, NpyDtype::Float32) => true,
            (NpyDtype::Float64, NpyDtype::Float64) => true,
            (NpyDtype::Int8, NpyDtype::Int8) => true,
            (NpyDtype::Int16, NpyDtype::Int16) => true,
            (NpyDtype::Int32, NpyDtype::Int32) => true,
            (NpyDtype::Int64, NpyDtype::Int64) => true,
            (NpyDtype::UInt8, NpyDtype::UInt8) => true,
            (NpyDtype::UInt16, NpyDtype::UInt16) => true,
            (NpyDtype::UInt32, NpyDtype::UInt32) => true,
            (NpyDtype::UInt64, NpyDtype::UInt64) => true,
            _ => false,
        };
        let ee = match (self.endian, other.endian) {
            (None, None) => true,
            (Some(NpyEndianness::Little), Some(NpyEndianness::Little)) => true,
            (Some(NpyEndianness::Big), Some(NpyEndianness::Big)) => true,
            _ => false,
        };
        de && ee
    }

    /// The native descriptor of a dtype: the descriptor the engine writes
    /// for arrays of that element kind.
    pub fn native_of(dtype: NpyDtype) -> (r: NpyDtypeDesc)
        ensures
            r.dtype == dtype,
            r.endian == if spec_dtype_size(dtype) == 1 {
                None::<NpyEndianness>
            } else {
                Some(NpyEndianness::Little)
            },
    {
        let sz = dtype.size_of();
        if sz == 1 {
            NpyDtypeDesc { endian: None, dtype }
        } else {
            NpyDtypeDesc { endian: Some(NpyEndianness::Little), dtype }
        }
    }
}


/// The descriptor the engine writes for element kind `d`: byte order
/// absent for single-byte kinds, little-endian otherwise.
pub open spec fn spec_native_desc(d: NpyDtype) -> NpyDtypeDesc {
    NpyDtypeDesc {
        endian: if spec_dtype_size(d) == 1 {
            None
        } else {
            Some(NpyEndianness::Little)
        },
        dtype: d,
    }
}

/// Parsing the token of a serializable descriptor recovers the descriptor.
pub proof fn lemma_desc_token_round(d: NpyDtypeDesc)
    requires
        spec_desc_token(d) is Some,
    ensures
        spec_parse_desc(spec_desc_token(d).unwrap()) == Some(d),
        spec_desc_token(d).unwrap().len() == 6,
        forall|i: int|
            0 <= i < spec_desc_token(d).unwrap().len() ==> 33 <= #[trigger] spec_desc_token(
                d,
            ).unwrap()[i] < 127,
{
    let t = spec_desc_token(d).unwrap();
    assert(spec_desc_u1()[1] == 124u8);
    assert(spec_desc_f4()[1] == 60u8);
    assert(spec_desc_f4()[3] == 52u8);
    assert(spec_desc_f8()[3] == 56u8);
    assert(spec_desc_u1() != spec_desc_f4()) by {
        assert(spec_desc_u1()[1] != spec_desc_f4()[1]);
    }
    assert(spec_desc_u1() != spec_desc_f8()) by {
        assert(spec_desc_u1()[1] != spec_desc_f8()[1]);
    }
    assert(spec_desc_f4() != spec_desc_f8()) by {
        assert(spec_desc_f4()[3] != spec_desc_f8()[3]);
    }
    if d == (NpyDtypeDesc { endian: None, dtype: NpyDtype::UInt8 }) {
        assert forall|i: int| 0 <= i < t.len() implies 33 <= #[trigger] t[i] < 127 by {}
    } else if d == (NpyDtypeDesc { endian: Some(NpyEndianness::Little), dtype: NpyDtype::Float32 }) {
        assert forall|i: int| 0 <= i < t.len() implies 33 <= #[trigger] t[i] < 127 by {}
    } else {
        assert forall|i: int| 0 <= i < t.len() implies 33 <= #[trigger] t[i] < 127 by {}
    }
}

} // verus!
