use vstd::prelude::*;

use crate::array::MemArray;
use crate::error::MemError;

verus! {

/// Strict lexicographic order on byte strings: a proper prefix sorts
/// first, otherwise the first differing byte decides.
pub open spec fn lex_lt(a: Seq<u8>, b: Seq<u8>) -> bool
    decreases a.len(),
{
    if b.len() == 0 {
        false
    } else if a.len() == 0 {
        true
    } else if a[0] < b[0] {
        true
    } else if a[0] > b[0] {
        false
    } else {
        lex_lt(a.drop_first(), b.drop_first())
    }
}

/// Dropping an equal prefix does not change the order.
pub proof fn lemma_lex_skip(a: Seq<u8>, b: Seq<u8>, i: int)
    requires
        0 <= i <= a.len(),
        i <= b.len(),
        forall|k: int| 0 <= k < i ==> a[k] == b[k],
    ensures
        lex_lt(a, b) == lex_lt(a.skip(i), b.skip(i)),
    decreases i,
{
    if i > 0 {
        assert(a.len() > 0 && b.len() > 0);
        assert(a[0] == b[0]);
        lemma_lex_skip(a.drop_first(), b.drop_first(), i - 1);
        assert(a.drop_first().skip(i - 1) =~= a.skip(i));
        assert(b.drop_first().skip(i - 1) =~= b.skip(i));
    } else {
        assert(a.skip(0) =~= a);
        assert(b.skip(0) =~= b);
    }
}

/// Decides the strict lexicographic order of two byte strings.
pub fn lex_lt_bytes(a: &Vec<u8>, b: &Vec<u8>) -> (r: bool)
    ensures
        r == lex_lt(a@, b@),
{
    let an = a.len();
    let bn = b.len();
    let n = if an < bn {
        an
    } else {
        bn
    };
    let mut i: usize = 0;
    while i < n
        invariant
            i <= n,
            an == a@.len(),
            bn == b@.len(),
            n == if an < bn {
                an
            } else {
                bn
            },
            forall|k: int| 0 <= k < i ==> a@[k] == b@[k],
        decreases n - i,
    {
        if a[i] < b[i] {
            proof {
                lemma_lex_skip(a@, b@, i as int);
                assert(a@.skip(i as int)[0] == a@[i as int]);
                assert(b@.skip(i as int)[0] == b@[i as int]);
            }
            return true;
        }
        if a[i] > b[i] {
            proof {
                lemma_lex_skip(a@, b@, i as int);
                assert(a@.skip(i as int)[0] == a@[i as int]);
                assert(b@.skip(i as int)[0] == b@[i as int]);
            }
            return false;
        }
        i = i + 1;
    }
    proof {
        lemma_lex_skip(a@, b@, n as int);
        assert(a@.skip(n as int).len() == an - n);
        assert(b@.skip(n as int).len() == bn - n);
    }
    an < bn
}

/// The keys are in strictly increasing lexicographic order.
pub open spec fn keys_sorted(ks: Seq<Vec<u8>>) -> bool
    decreases ks.len(),
{
    if ks.len() <= 1 {
        true
    } else {
        lex_lt(ks[0]@, ks[1]@) && keys_sorted(ks.drop_first())
    }
}

/// Appending a key above the last keeps the keys sorted.
pub proof fn lemma_sorted_push(ks: Seq<Vec<u8>>, v: Vec<u8>)
    requires
        keys_sorted(ks),
        ks.len() == 0 || lex_lt(ks[ks.len() - 1]@, v@),
    ensures
        keys_sorted(ks.push(v)),
    decreases ks.len(),
{
    let ns = ks.push(v);
    if ks.len() == 0 {
        assert(ns.len() == 1);
    } else if ks.len() == 1 {
        assert(ns[0] == ks[0]);
        assert(ns[1] == v);
        assert(lex_lt(ns[0]@, ns[1]@));
        assert(ns.drop_first() =~= Seq::<Vec<u8>>::empty().push(v));
        assert(keys_sorted(ns.drop_first()));
    } else {
        assert(ks.drop_first()[ks.drop_first().len() - 1] == ks[ks.len() - 1]);
        lemma_sorted_push(ks.drop_first(), v);
        assert(ns.drop_first() =~= ks.drop_first().push(v));
        assert(ns[0] == ks[0]);
        assert(ns[1] == ks[1]);
        assert(lex_lt(ns[0]@, ns[1]@));
    }
}

/// A multi-array archive: named arrays kept in strictly increasing
/// lexicographic key order, so the directory the engine writes is
/// deterministic. Keys and values sit at matching positions.
pub struct NkvArchive {
    pub keys: Vec<Vec<u8>>,
    pub vals: Vec<MemArray>,
}

impl NkvArchive {
    /// The archive invariant: one value per key, keys strictly sorted.
    pub open spec fn wf(&self) -> bool {
        &&& self.keys@.len() == self.vals@.len()
        &&& keys_sorted(self.keys@)
    }

    /// An empty archive.
    pub fn new() -> (r: NkvArchive)
        ensures
            r.wf(),
            r.keys@.len() == 0,
    {
        NkvArchive { keys: Vec::new(), vals: Vec::new() }
    }

    /// Number of named arrays held.
    pub fn len(&self) -> (r: usize)
        ensures
            r == self.keys@.len(),
    {
        self.keys.len()
    }

    /// Appends a named array. Keys must arrive in strictly increasing
    /// lexicographic order — the order the directory is written in; a key
    /// that does not sort after the last one is rejected unchanged.
    pub fn push_entry(&mut self, key: Vec<u8>, value: MemArray) -> (r: Result<(), MemError>)
        requires
            old(self).wf(),
        ensures
            match r {
                Ok(()) => {
                    &&& final(self).wf()
                    &&& final(self).keys@ == old(self).keys@.push(key)
                    &&& final(self).vals@ == old(self).vals@.push(value)
                    &&& (old(self).keys@.len() == 0 || lex_lt(
                        old(self).keys@[old(self).keys@.len() - 1]@,
                        key@,
                    ))
                },
                Err(e) => {
                    &&& e == MemError::KeyOrder
                    &&& *final(self) == *old(self)
                    &&& old(self).keys@.len() > 0
                    &&& !lex_lt(old(self).keys@[old(self).keys@.len() - 1]@, key@)
                },
            },
    {
        let n = self.keys.len();
        if n > 0 {
            let ok = lex_lt_bytes(&self.keys[n - 1], &key);
            if !ok {
                return Err(MemError::KeyOrder);
            }
        }
        proof {
            lemma_sorted_push(self.keys@, key);
        }
        self.keys.push(key);
        self.vals.push(value);
        Ok(())
    }
}


/// One directory line of a written archive: the key, the byte offset of
/// the entry's payload, and the payload's byte length.
pub struct NkvDirEntry {
    pub key: Vec<u8>,
    pub offset: u64,
    pub length: u64,
}

/// An ephemeral descriptor of a written archive: the header length and the
/// directory.
pub struct NkvHeader {
    pub hlen: u32,
    pub kvs: Vec<NkvDirEntry>,
}

/// The directory as plain values: key bytes, offset, length per entry.
pub open spec fn dir_view(v: Seq<NkvDirEntry>) -> Seq<(Seq<u8>, u64, u64)> {
    Seq::new(v.len(), |i: int| (v[i].key@, v[i].offset, v[i].length))
}

/// The six magic bytes that open an archive stream.
pub open spec fn nkv_magic() -> Seq<u8> {
    seq![147u8, 78u8, 85u8, 77u8, 75u8, 86u8]
}

/// The archive magic bytes as a vector.
pub fn nkv_magic_bytes() -> (v: Vec<u8>)
    ensures
        v@ == nkv_magic(),
{
    let mut v: Vec<u8> = Vec::new();
    v.push(147);
    v.push(78);
    v.push(85);
    v.push(77);
    v.push(75);
    v.push(86);
    proof {
        assert(v@ =~= nkv_magic());
    }
    v
}

/// One encoded directory line: key length, key bytes, offset, length.
pub open spec fn enc_dir_entry(e: (Seq<u8>, u64, u64)) -> Seq<u8> {
    vstd::bytes::spec_u32_to_le_bytes(e.0.len() as u32) + e.0 + vstd::bytes::spec_u64_to_le_bytes(
        e.1,
    ) + vstd::bytes::spec_u64_to_le_bytes(e.2)
}

/// The encoded directory: the lines in order.
pub open spec fn enc_dir(es: Seq<(Seq<u8>, u64, u64)>) -> Seq<u8>
    decreases es.len(),
{
    if es.len() == 0 {
        Seq::empty()
    } else {
        enc_dir_entry(es[0]) + enc_dir(es.drop_first())
    }
}

/// Appending one directory line appends its encoding.
pub proof fn lemma_enc_dir_push(es: Seq<(Seq<u8>, u64, u64)>, e: (Seq<u8>, u64, u64))
    ensures
        enc_dir(es.push(e)) == enc_dir(es) + enc_dir_entry(e),
    decreases es.len(),
{
    if es.len() == 0 {
        assert(es.push(e)[0] == e);
        assert(es.push(e).drop_first() =~= Seq::<(Seq<u8>, u64, u64)>::empty());
        assert(enc_dir(Seq::<(Seq<u8>, u64, u64)>::empty()) == Seq::<u8>::empty());
        assert(enc_dir(es) == Seq::<u8>::empty());
        assert(enc_dir(es.push(e)) == enc_dir_entry(e) + enc_dir(es.push(e).drop_first()));
        assert(enc_dir(es.push(e)) =~= enc_dir(es) + enc_dir_entry(e));
    } else {
        assert(es.push(e)[0] == es[0]);
        assert(es.push(e).drop_first() =~= es.drop_first().push(e));
        lemma_enc_dir_push(es.drop_first(), e);
        assert(enc_dir(es.push(e)) =~= enc_dir(es) + enc_dir_entry(e));
    }
}

/// The header length that pads the directory so the data region begins on
/// a 16-byte boundary, measured from after the length field.
pub open spec fn spec_nkv_hlen(dlen: nat) -> nat {
    ((((12 + (4 + dlen) + 15) / 16) * 16 - 12) as nat)
}

/// `n` zero bytes.
pub open spec fn zero_bytes(n: nat) -> Seq<u8> {
    Seq::new(n, |i: int| 0u8)
}

/// The whole archive header: magic, version (2, 0), little-endian header
/// length and entry count, the directory lines, zero padding to the
/// 16-byte boundary.
pub open spec fn spec_nkv_bytes(es: Seq<(Seq<u8>, u64, u64)>) -> Seq<u8> {
    let dlen = enc_dir(es).len();
    let hlen = spec_nkv_hlen(dlen);
    nkv_magic() + seq![2u8, 0u8] + vstd::bytes::spec_u32_to_le_bytes(hlen as u32)
        + vstd::bytes::spec_u32_to_le_bytes(es.len() as u32) + enc_dir(es) + zero_bytes(
        (hlen - (4 + dlen)) as nat,
    )
}

/// The byte length of the serialized single-array stream of `v`.
pub open spec fn spec_payload_len(v: MemArray) -> nat {
    crate::npy::spec_serialize(v.dtype, v.size.dims@, v.mem.bytes@).len()
}

/// Rounds a byte count up to the next 16-byte boundary.
pub open spec fn pad16(n: nat) -> nat {
    (((n + 15) / 16) * 16) as nat
}

/// The directory offsets chain from `base`: each entry starts where the
/// previous entry's padded payload ends.
pub open spec fn dir_chained(dir: Seq<(Seq<u8>, u64, u64)>, base: nat) -> bool
    decreases dir.len(),
{
    if dir.len() == 0 {
        true
    } else {
        dir[0].1 == base && dir_chained(dir.drop_first(), base + pad16(dir[0].2 as nat))
    }
}

/// Chained offsets from an aligned base are all 16-byte aligned.
pub proof fn lemma_dir_offsets_aligned(dir: Seq<(Seq<u8>, u64, u64)>, base: nat)
    requires
        dir_chained(dir, base),
        base % 16 == 0,
    ensures
        forall|i: int| 0 <= i < dir.len() ==> (#[trigger] dir[i]).1 as nat % 16 == 0,
    decreases dir.len(),
{
    if dir.len() > 0 {
        let nb = base + pad16(dir[0].2 as nat);
        assert(pad16(dir[0].2 as nat) % 16 == 0) by {
            let q = (dir[0].2 as nat + 15) / 16;
            vstd::arithmetic::div_mod::lemma_mod_multiples_basic(q as int, 16);
        }
        assert(nb % 16 == 0) by {
            vstd::arithmetic::div_mod::lemma_add_mod_noop(base as int, pad16(dir[0].2 as nat) as int, 16);
        }
        lemma_dir_offsets_aligned(dir.drop_first(), nb);
        assert forall|i: int| 0 <= i < dir.len() implies (#[trigger] dir[i]).1 as nat % 16
            == 0 by {
            if i > 0 {
                assert(dir.drop_first()[i - 1] == dir[i]);
            }
        }
    }
}

/// Reads one directory region: `n` lines from byte position `pos`.
pub open spec fn spec_dec_dir(b: Seq<u8>, pos: int, n: nat) -> Result<
    (Seq<(Seq<u8>, u64, u64)>, int),
    MemError,
>
    decreases n,
{
    if n == 0 {
        Ok((Seq::empty(), pos))
    } else if pos + 4 > b.len() {
        Err(MemError::Truncated)
    } else {
        let kl = vstd::bytes::spec_u32_from_le_bytes(b.subrange(pos, pos + 4)) as int;
        if pos + 4 + kl + 16 > b.len() {
            Err(MemError::Truncated)
        } else {
            let key = b.subrange(pos + 4, pos + 4 + kl);
            let off = vstd::bytes::spec_u64_from_le_bytes(b.subrange(pos + 4 + kl, pos + 4 + kl + 8));
            let ln = vstd::bytes::spec_u64_from_le_bytes(
                b.subrange(pos + 4 + kl + 8, pos + 4 + kl + 16),
            );
            match spec_dec_dir(b, pos + 4 + kl + 16, (n - 1) as nat) {
                Err(e) => Err(e),
                Ok(rest) => Ok((seq![(key, off, ln)] + rest.0, rest.1)),
            }
        }
    }
}

/// The deterministic reading of an archive header from the front of a byte
/// stream: the header length and the directory, or the failure.
pub open spec fn spec_read_nkv_header(b: Seq<u8>) -> Result<
    (nat, Seq<(Seq<u8>, u64, u64)>),
    MemError,
> {
    if b.len() < 6 {
        Err(MemError::Truncated)
    } else if b.subrange(0, 6) != nkv_magic() {
        Err(MemError::BadMagic)
    } else if b.len() < 8 {
        Err(MemError::Truncated)
    } else if !(b[6] == 2 && b[7] == 0) {
        Err(MemError::BadVersion)
    } else if b.len() < 12 {
        Err(MemError::Truncated)
    } else {
        let hlen = vstd::bytes::spec_u32_from_le_bytes(b.subrange(8, 12)) as nat;
        if (12 + hlen) % 16 != 0 {
            Err(MemError::BadAlignment)
        } else if hlen < 4 {
            Err(MemError::BadHeader)
        } else if b.len() < 12 + hlen {
            Err(MemError::Truncated)
        } else {
            let count = vstd::bytes::spec_u32_from_le_bytes(b.subrange(12, 16)) as nat;
            match spec_dec_dir(b, 16, count) {
                Err(e) => Err(e),
                Ok(rest) => {
                    if rest.1 > 12 + hlen {
                        Err(MemError::BadHeader)
                    } else {
                        Ok((hlen, rest.0))
                    }
                },
            }
        }
    }
}


/// Where the payload region ends after laying the padded payloads of `dir`
/// end to end from `base`.
pub open spec fn chain_end(dir: Seq<(Seq<u8>, u64, u64)>, base: nat) -> nat
    decreases dir.len(),
{
    if dir.len() == 0 {
        base
    } else {
        chain_end(dir.drop_first(), base + pad16(dir[0].2 as nat))
    }
}

/// Appending a line whose offset is the current end keeps the chain.
pub proof fn lemma_chain_push(dir: Seq<(Seq<u8>, u64, u64)>, base: nat, e: (Seq<u8>, u64, u64))
    requires
        dir_chained(dir, base),
        e.1 as nat == chain_end(dir, base),
    ensures
        dir_chained(dir.push(e), base),
        chain_end(dir.push(e), base) == chain_end(dir, base) + pad16(e.2 as nat),
    decreases dir.len(),
{
    let nd = dir.push(e);
    if dir.len() == 0 {
        assert(nd[0] == e);
        assert(nd.drop_first() =~= Seq::<(Seq<u8>, u64, u64)>::empty());
        assert(chain_end(dir, base) == base);
        assert(dir_chained(Seq::<(Seq<u8>, u64, u64)>::empty(), base + pad16(e.2 as nat)));
        assert(chain_end(Seq::<(Seq<u8>, u64, u64)>::empty(), base + pad16(e.2 as nat)) == base
            + pad16(e.2 as nat));
        assert(dir_chained(nd, base));
        assert(chain_end(nd, base) == base + pad16(e.2 as nat));
    } else {
        assert(nd[0] == dir[0]);
        assert(nd.drop_first() =~= dir.drop_first().push(e));
        lemma_chain_push(dir.drop_first(), base + pad16(dir[0].2 as nat), e);
        assert(dir_chained(nd, base));
        assert(chain_end(nd, base) == chain_end(nd.drop_first(), base + pad16(nd[0].2 as nat)));
    }
}

/// The encoded directory length: twenty bytes of bookkeeping plus the key,
/// per line.
pub open spec fn dir_bytes_len(dir: Seq<(Seq<u8>, u64, u64)>) -> nat
    decreases dir.len(),
{
    if dir.len() == 0 {
        0
    } else {
        20 + dir[0].0.len() + dir_bytes_len(dir.drop_first())
    }
}

/// The encoded directory is exactly that long.
pub proof fn lemma_dir_bytes_len(dir: Seq<(Seq<u8>, u64, u64)>)
    ensures
        enc_dir(dir).len() == dir_bytes_len(dir),
    decreases dir.len(),
{
    vstd::bytes::lemma_auto_spec_u32_to_from_le_bytes();
    vstd::bytes::lemma_auto_spec_u64_to_from_le_bytes();
    if dir.len() > 0 {
        lemma_dir_bytes_len(dir.drop_first());
        assert(enc_dir_entry(dir[0]).len() == 20 + dir[0].0.len());
    }
}

/// Appending a line adds its twenty bookkeeping bytes and key length.
pub proof fn lemma_dir_bytes_len_push(dir: Seq<(Seq<u8>, u64, u64)>, e: (Seq<u8>, u64, u64))
    ensures
        dir_bytes_len(dir.push(e)) == dir_bytes_len(dir) + 20 + e.0.len(),
    decreases dir.len(),
{
    if dir.len() == 0 {
        assert(dir.push(e)[0] == e);
        assert(dir.push(e).drop_first() =~= Seq::<(Seq<u8>, u64, u64)>::empty());
        assert(dir_bytes_len(Seq::<(Seq<u8>, u64, u64)>::empty()) == 0);
        assert(dir_bytes_len(dir.push(e)) == 20 + e.0.len() + dir_bytes_len(
            dir.push(e).drop_first(),
        ));
    } else {
        assert(dir.push(e)[0] == dir[0]);
        assert(dir.push(e).drop_first() =~= dir.drop_first().push(e));
        lemma_dir_bytes_len_push(dir.drop_first(), e);
    }
}

/// An archive's keys as a bare directory skeleton: the shape the
/// directory's byte length depends on.
pub open spec fn keys_dir(ks: Seq<Vec<u8>>) -> Seq<(Seq<u8>, u64, u64)> {
    Seq::new(ks.len(), |i: int| (ks[i]@, 0u64, 0u64))
}

/// A directory prefix is never longer than the whole.
pub proof fn lemma_dir_bytes_len_prefix(dir: Seq<(Seq<u8>, u64, u64)>, j: int)
    requires
        0 <= j <= dir.len(),
    ensures
        dir_bytes_len(dir.subrange(0, j)) <= dir_bytes_len(dir),
    decreases dir.len(),
{
    if j == 0 {
        assert(dir.subrange(0, 0) =~= Seq::<(Seq<u8>, u64, u64)>::empty());
        assert(dir_bytes_len(Seq::<(Seq<u8>, u64, u64)>::empty()) == 0);
    } else {
        assert(dir.subrange(0, j)[0] == dir[0]);
        assert(dir.subrange(0, j).drop_first() =~= dir.drop_first().subrange(0, j - 1));
        lemma_dir_bytes_len_prefix(dir.drop_first(), j - 1);
    }
}

/// Where the payload region ends when the values' padded single-array
/// streams are laid end to end from `base`.
pub open spec fn payload_chain_end(vals: Seq<MemArray>, base: nat) -> nat
    decreases vals.len(),
{
    if vals.len() == 0 {
        base
    } else {
        payload_chain_end(vals.drop_first(), base + pad16(spec_payload_len(vals[0])))
    }
}

/// Laying payloads end to end never moves the end before the base.
pub proof fn lemma_payload_chain_ge(vals: Seq<MemArray>, base: nat)
    ensures
        payload_chain_end(vals, base) >= base,
    decreases vals.len(),
{
    if vals.len() > 0 {
        lemma_payload_chain_ge(vals.drop_first(), base + pad16(spec_payload_len(vals[0])));
    }
}

/// Every value's element kind has a stream descriptor.
pub open spec fn spec_nkv_serializable(vals: Seq<MemArray>) -> bool {
    forall|i: int|
        0 <= i < vals.len() ==> crate::dtype::spec_desc_token(
            crate::dtype::spec_native_desc((#[trigger] vals[i]).dtype),
        ) is Some
}

/// The archive's directory and payload arithmetic stays within the machine
/// word and the format's 32-bit fields. Together with
/// [`spec_nkv_serializable`] this is exactly the condition under which the
/// directory writer succeeds.
pub open spec fn spec_nkv_fits(keys: Seq<Vec<u8>>, vals: Seq<MemArray>) -> bool {
    &&& keys.len() <= 0xFFFFFFFF
    &&& forall|i: int| 0 <= i < keys.len() ==> (#[trigger] keys[i])@.len() <= 0xFFFFFFFF
    &&& forall|i: int| 0 <= i < vals.len() ==> #[trigger] spec_payload_len(vals[i]) <= usize::MAX
    &&& 31 + dir_bytes_len(keys_dir(keys)) <= usize::MAX
    &&& spec_nkv_hlen(dir_bytes_len(keys_dir(keys))) <= 0xFFFFFFFF
    &&& 12 + spec_nkv_hlen(dir_bytes_len(keys_dir(keys))) <= usize::MAX
    &&& payload_chain_end(vals, 12 + spec_nkv_hlen(dir_bytes_len(keys_dir(keys))))
        <= usize::MAX
}

/// Copies a byte vector.
pub fn copy_bytes(v: &Vec<u8>) -> (r: Vec<u8>)
    ensures
        r@ == v@,
{
    let r = crate::npy::slice_to_vec(v.as_slice(), 0, v.len());
    proof {
        assert(v@.subrange(0, v@.len() as int) =~= v@);
    }
    r
}

/// Writes the archive directory: magic, version (2, 0), little-endian
/// header length and entry count, one line per array — key length, key,
/// byte offset, payload byte length — and zero padding so the data region
/// begins on a 16-byte boundary. Offsets place each payload, itself padded
/// to 16 bytes, directly after the previous one; every offset is 16-byte
/// aligned. Succeeds exactly when every value's element kind has a stream
/// descriptor and the archive's arithmetic fits the format's fields and
/// the machine word.
#[verifier::rlimit(100)]
#[verifier::loop_isolation(false)]
pub fn write_nkv_header(archive: &NkvArchive) -> (r: Result<(Vec<u8>, NkvHeader), MemError>)
    requires
        archive.wf(),
        forall|i: int| 0 <= i < archive.vals@.len() ==> (#[trigger] archive.vals@[i]).wf(),
    ensures
        match r {
            Ok(out) => {
                &&& spec_nkv_serializable(archive.vals@)
                &&& spec_nkv_fits(archive.keys@, archive.vals@)
                &&& out.1.kvs@.len() == archive.keys@.len()
                &&& forall|i: int|
                    0 <= i < out.1.kvs@.len() ==> (#[trigger] out.1.kvs@[i]).key@
                        == archive.keys@[i]@
                &&& forall|i: int|
                    0 <= i < out.1.kvs@.len() ==> (#[trigger] out.1.kvs@[i]).length as nat
                        == spec_payload_len(archive.vals@[i])
                &&& dir_chained(dir_view(out.1.kvs@), 12 + out.1.hlen as nat)
                &&& out.1.hlen as nat == spec_nkv_hlen(enc_dir(dir_view(out.1.kvs@)).len())
                &&& forall|i: int|
                    0 <= i < out.1.kvs@.len() ==> (#[trigger] out.1.kvs@[i]).offset as nat % 16
                        == 0
                &&& out.0@ == spec_nkv_bytes(dir_view(out.1.kvs@))
            },
            Err(e) => {
                ||| (e == MemError::BadDtype && exists|i: int|
                    0 <= i < archive.vals@.len() && crate::dtype::spec_desc_token(
                        crate::dtype::spec_native_desc((#[trigger] archive.vals@[i]).dtype),
                    ) is None)
                ||| (e == MemError::Overflow && spec_nkv_serializable(archive.vals@)
                    && !spec_nkv_fits(archive.keys@, archive.vals@))
            },
        },
{
    let n = archive.keys.len();

    // every element kind must have a stream descriptor
    let mut c: usize = 0;
    while c < n
        invariant
            c <= n,
            forall|k: int|
                0 <= k < c ==> crate::dtype::spec_desc_token(
                    crate::dtype::spec_native_desc((#[trigger] archive.vals@[k]).dtype),
                ) is Some,
        decreases n - c,
    {
        let d = crate::dtype::NpyDtypeDesc::native_of(archive.vals[c].dtype);
        match d.token() {
            Ok(_) => {},
            Err(_) => {
                return Err(MemError::BadDtype);
            },
        }
        c = c + 1;
    }

    // payload byte lengths: the single-array stream of each value
    let mut plens: Vec<usize> = Vec::new();
    let mut i: usize = 0;
    while i < n
        invariant
            i <= n,
            plens@.len() == i,
            forall|k: int|
                0 <= k < i ==> #[trigger] plens@[k] as nat == spec_payload_len(archive.vals@[k]),
        decreases n - i,
    {
        let v = &archive.vals[i];
        let hdr = crate::npy::NpyHeader {
            dtype_desc: crate::dtype::NpyDtypeDesc::native_of(v.dtype),
            col_major: false,
            nd_size: crate::npy::copy_vec_usize(&v.size.dims),
            data_offset: 0,
        };
        let hb = match crate::npy::write_npy_header(&hdr) {
            Ok(h) => h,
            Err(_) => {
                proof {
                    assert(archive.vals@[i as int].size.dims@.len() <= crate::idx::MAX_RANK);
                }
                vstd::pervasive::unreached()
            },
        };
        proof {
            assert(crate::npy::spec_serialize(v.dtype, v.size.dims@, v.mem.bytes@)
                == crate::npy::spec_encode_header(
                crate::dtype::spec_desc_token(crate::dtype::spec_native_desc(v.dtype)).unwrap(),
                false,
                crate::npy::spec_file_dims(false, v.size.dims@),
            ) + v.mem.bytes@);
        }
        let pl = match hb.len().checked_add(v.mem.phys_size()) {
            Some(x) => x,
            None => {
                proof {
                    assert(spec_payload_len(archive.vals@[i as int]) > usize::MAX);
                    assert(!spec_nkv_fits(archive.keys@, archive.vals@));
                }
                return Err(MemError::Overflow);
            },
        };
        proof {
            assert(pl as nat == spec_payload_len(archive.vals@[i as int]));
        }
        plens.push(pl);
        i = i + 1;
    }

    // directory byte length
    let mut dl: usize = 0;
    let mut j: usize = 0;
    while j < n
        invariant
            j <= n,
            dl as nat == dir_bytes_len(
                Seq::new(j as nat, |k: int| (archive.keys@[k]@, 0u64, 0u64)),
            ),
            forall|k: int| 0 <= k < j ==> (#[trigger] archive.keys@[k])@.len() <= 0xFFFFFFFF,
        decreases n - j,
    {
        let kl = archive.keys[j].len();
        if kl > 0xFFFFFFFF {
            proof {
                assert(!spec_nkv_fits(archive.keys@, archive.vals@));
            }
            return Err(MemError::Overflow);
        }
        proof {
            let pref = Seq::new(j as nat, |k: int| (archive.keys@[k]@, 0u64, 0u64));
            let prefn = Seq::new((j + 1) as nat, |k: int| (archive.keys@[k]@, 0u64, 0u64));
            assert(prefn =~= pref.push((archive.keys@[j as int]@, 0u64, 0u64)));
            lemma_dir_bytes_len_push(pref, (archive.keys@[j as int]@, 0u64, 0u64));
            assert(prefn =~= keys_dir(archive.keys@).subrange(0, j + 1));
            lemma_dir_bytes_len_prefix(keys_dir(archive.keys@), j + 1);
        }
        let step = match 20usize.checked_add(kl) {
            Some(x) => x,
            None => {
                proof {
                    assert(31 + dir_bytes_len(keys_dir(archive.keys@)) > usize::MAX);
                    assert(!spec_nkv_fits(archive.keys@, archive.vals@));
                }
                return Err(MemError::Overflow);
            },
        };
        let ndl = match dl.checked_add(step) {
            Some(x) => x,
            None => {
                proof {
                    assert(31 + dir_bytes_len(keys_dir(archive.keys@)) > usize::MAX);
                    assert(!spec_nkv_fits(archive.keys@, archive.vals@));
                }
                return Err(MemError::Overflow);
            },
        };
        dl = ndl;
        j = j + 1;
    }
    if n > 0xFFFFFFFF {
        proof {
            assert(!spec_nkv_fits(archive.keys@, archive.vals@));
        }
        return Err(MemError::Overflow);
    }
    proof {
        assert(Seq::new(n as nat, |k: int| (archive.keys@[k]@, 0u64, 0u64)) =~= keys_dir(
            archive.keys@,
        ));
        assert(dl as nat == dir_bytes_len(keys_dir(archive.keys@)));
    }

    let unpadded = match 4usize.checked_add(dl) {
        Some(x) => x,
        None => {
            proof {
                assert(31 + dir_bytes_len(keys_dir(archive.keys@)) > usize::MAX);
                assert(!spec_nkv_fits(archive.keys@, archive.vals@));
            }
            return Err(MemError::Overflow);
        },
    };
    let x0 = match unpadded.checked_add(27) {
        Some(x) => x,
        None => {
            proof {
                assert(31 + dir_bytes_len(keys_dir(archive.keys@)) > usize::MAX);
                assert(!spec_nkv_fits(archive.keys@, archive.vals@));
            }
            return Err(MemError::Overflow);
        },
    };
    // x0 == 12 + unpadded + 15
    let q = x0 / 16;
    let hlen = q * 16 - 12;
    proof {
        vstd::arithmetic::div_mod::lemma_fundamental_div_mod(x0 as int, 16);
        assert(q * 16 >= 12 + unpadded);
        assert(hlen as nat == spec_nkv_hlen(dl as nat));
        assert(hlen >= unpadded);
    }
    if hlen > 0xFFFFFFFF {
        proof {
            assert(spec_nkv_hlen(dir_bytes_len(keys_dir(archive.keys@))) > 0xFFFFFFFF);
            assert(!spec_nkv_fits(archive.keys@, archive.vals@));
        }
        return Err(MemError::Overflow);
    }

    let base = match 12usize.checked_add(hlen) {
        Some(x) => x,
        None => {
            proof {
                assert(12 + spec_nkv_hlen(dir_bytes_len(keys_dir(archive.keys@))) > usize::MAX);
                assert(!spec_nkv_fits(archive.keys@, archive.vals@));
            }
            return Err(MemError::Overflow);
        },
    };
    proof {
        vstd::arithmetic::div_mod::lemma_mod_multiples_basic(q as int, 16);
        assert((12 + hlen as nat) % 16 == 0);
    }

    // the directory lines, each payload placed after the previous padded one
    proof {
        assert(archive.vals@.skip(0) =~= archive.vals@);
    }
    let mut kvs: Vec<NkvDirEntry> = Vec::new();
    let mut off: usize = base;
    let mut m: usize = 0;
    while m < n
        invariant
            m <= n,
            kvs@.len() == m,
            forall|k: int| 0 <= k < m ==> (#[trigger] kvs@[k]).key@ == archive.keys@[k]@,
            forall|k: int|
                0 <= k < m ==> (#[trigger] kvs@[k]).length as nat == spec_payload_len(
                    archive.vals@[k],
                ),
            dir_chained(dir_view(kvs@), base as nat),
            off as nat == chain_end(dir_view(kvs@), base as nat),
            payload_chain_end(archive.vals@.skip(m as int), off as nat) == payload_chain_end(
                archive.vals@,
                base as nat,
            ),
        decreases n - m,
    {
        let key = copy_bytes(&archive.keys[m]);
        let pl = plens[m];
        let d16 = pl / 16;
        let rem = pl % 16;
        let base16 = d16 * 16;
        proof {
            vstd::arithmetic::div_mod::lemma_fundamental_div_mod(pl as int, 16);
            assert(archive.vals@.skip(m as int)[0] == archive.vals@[m as int]);
            assert(archive.vals@.skip(m as int).drop_first() =~= archive.vals@.skip(m + 1));
            assert(payload_chain_end(archive.vals@.skip(m as int), off as nat)
                == payload_chain_end(
                archive.vals@.skip(m + 1),
                off as nat + pad16(spec_payload_len(archive.vals@[m as int])),
            ));
        }
        let padded = if rem == 0 {
            proof {
                vstd::arithmetic::div_mod::lemma_fundamental_div_mod_converse(
                    pl + 15,
                    16,
                    d16 as int,
                    15,
                );
                assert(pad16(pl as nat) == base16 as nat);
            }
            base16
        } else {
            proof {
                vstd::arithmetic::div_mod::lemma_fundamental_div_mod_converse(
                    pl + 15,
                    16,
                    d16 + 1,
                    rem - 1,
                );
                assert(pad16(pl as nat) == base16 as nat + 16);
            }
            match base16.checked_add(16) {
                Some(x) => x,
                None => {
                    proof {
                        lemma_payload_chain_ge(
                            archive.vals@.skip(m + 1),
                            off as nat + pad16(spec_payload_len(archive.vals@[m as int])),
                        );
                        assert(payload_chain_end(archive.vals@, base as nat) > usize::MAX);
                        assert(!spec_nkv_fits(archive.keys@, archive.vals@));
                    }
                    return Err(MemError::Overflow);
                },
            }
        };
        let noff = match off.checked_add(padded) {
            Some(x) => x,
            None => {
                proof {
                    lemma_payload_chain_ge(
                        archive.vals@.skip(m + 1),
                        off as nat + pad16(spec_payload_len(archive.vals@[m as int])),
                    );
                    assert(payload_chain_end(archive.vals@, base as nat) > usize::MAX);
                    assert(!spec_nkv_fits(archive.keys@, archive.vals@));
                }
                return Err(MemError::Overflow);
            },
        };
        let ghost olddir = dir_view(kvs@);
        let entry = NkvDirEntry { key, offset: off as u64, length: pl as u64 };
        let ghost ge = (entry.key@, entry.offset, entry.length);
        kvs.push(entry);
        proof {
            assert(dir_view(kvs@) =~= olddir.push(ge));
            assert(ge.1 as nat == chain_end(olddir, base as nat));
            lemma_chain_push(olddir, base as nat, ge);
            assert(pad16(ge.2 as nat) == padded as nat);
        }
        off = noff;
        m = m + 1;
    }
    proof {
        lemma_dir_offsets_aligned(dir_view(kvs@), base as nat);
        assert forall|i2: int| 0 <= i2 < kvs@.len() implies (#[trigger] kvs@[i2]).offset as nat
            % 16 == 0 by {
            assert(dir_view(kvs@)[i2].1 == kvs@[i2].offset);
        }
        assert(archive.vals@.skip(n as int) =~= Seq::<MemArray>::empty());
        assert(payload_chain_end(archive.vals@, base as nat) == off as nat);
        assert forall|i2: int| 0 <= i2 < archive.vals@.len() implies #[trigger] spec_payload_len(
            archive.vals@[i2],
        ) <= usize::MAX by {
            assert(plens@[i2] as nat == spec_payload_len(archive.vals@[i2]));
        }
        assert(spec_nkv_fits(archive.keys@, archive.vals@));
    }

    // assemble the bytes
    let ghost dir = dir_view(kvs@);
    let mut out = nkv_magic_bytes();
    out.push(2);
    out.push(0);
    let mut hb = vstd::bytes::u32_to_le_bytes(hlen as u32);
    out.append(&mut hb);
    let mut cb = vstd::bytes::u32_to_le_bytes(n as u32);
    out.append(&mut cb);
    let ghost front = out@;
    let mut p: usize = 0;
    while p < n
        invariant
            p <= n,
            n == kvs@.len(),
            dir == dir_view(kvs@),
            forall|k: int| 0 <= k < n ==> (#[trigger] kvs@[k]).key@.len() <= 0xFFFFFFFF,
            out@ == front + enc_dir(dir.subrange(0, p as int)),
        decreases n - p,
    {
        let e = &kvs[p];
        let mut klb = vstd::bytes::u32_to_le_bytes(e.key.len() as u32);
        out.append(&mut klb);
        let mut kb = copy_bytes(&e.key);
        out.append(&mut kb);
        let mut ob = vstd::bytes::u64_to_le_bytes(e.offset);
        out.append(&mut ob);
        let mut lb = vstd::bytes::u64_to_le_bytes(e.length);
        out.append(&mut lb);
        proof {
            let pref = dir.subrange(0, p as int);
            let prefn = dir.subrange(0, p + 1);
            assert(prefn =~= pref.push(dir[p as int]));
            lemma_enc_dir_push(pref, dir[p as int]);
            let kv = kvs@[p as int];
            assert(dir[p as int] == (kv.key@, kv.offset, kv.length));
            assert(out@ =~= front + enc_dir(prefn));
        }
        p = p + 1;
    }
    proof {
        assert(dir.subrange(0, n as int) =~= dir);
        lemma_dir_bytes_len(dir);
        assert(dir_bytes_len(dir) == dl as nat) by {
            lemma_dir_len_keys(dir, archive.keys@);
            assert(Seq::new(archive.keys@.len(), |k: int| (archive.keys@[k]@, 0u64, 0u64))
                =~= keys_dir(archive.keys@));
        }
    }
    // hlen - (4 + dl) zero bytes of padding
    let pad = hlen - unpadded;
    let ghost before_pad = out@;
    let mut z: usize = 0;
    while z < pad
        invariant
            z <= pad,
            out@ == before_pad + zero_bytes(z as nat),
        decreases pad - z,
    {
        out.push(0);
        proof {
            assert(out@ =~= before_pad + zero_bytes((z + 1) as nat));
        }
        z = z + 1;
    }
    proof {
        assert(pad as nat == spec_nkv_hlen(enc_dir(dir).len()) - (4 + enc_dir(dir).len()));
        assert(out@ =~= spec_nkv_bytes(dir));
    }
    Ok((out, NkvHeader { hlen: hlen as u32, kvs }))
}

/// The directory's byte length is determined by its keys, which match the
/// archive's.
pub proof fn lemma_dir_len_keys(dir: Seq<(Seq<u8>, u64, u64)>, keys: Seq<Vec<u8>>)
    requires
        dir.len() == keys.len(),
        forall|k: int| 0 <= k < dir.len() ==> (#[trigger] dir[k]).0 == keys[k]@,
    ensures
        dir_bytes_len(dir) == dir_bytes_len(Seq::new(keys.len(), |k: int| (keys[k]@, 0u64, 0u64))),
    decreases dir.len(),
{
    if dir.len() > 0 {
        let other = Seq::new(keys.len(), |k: int| (keys[k]@, 0u64, 0u64));
        assert forall|k: int|
            0 <= k < dir.drop_first().len() implies (#[trigger] dir.drop_first()[k]).0
            == keys.drop_first()[k]@ by {
            assert(dir.drop_first()[k] == dir[k + 1]);
        }
        lemma_dir_len_keys(dir.drop_first(), keys.drop_first());
        assert(other.drop_first() =~= Seq::new(
            keys.drop_first().len(),
            |k: int| (keys.drop_first()[k]@, 0u64, 0u64),
        ));
        assert(dir[0].0.len() == other[0].0.len());
    }
}


/// Reads and validates an archive header from the front of a byte string;
/// see [`spec_read_nkv_header`] for the exact acceptance.
#[verifier::loop_isolation(false)]
pub fn read_nkv_header(b: &[u8]) -> (r: Result<NkvHeader, MemError>)
    ensures
        match r {
            Ok(h) => spec_read_nkv_header(b@) == Ok::<(nat, Seq<(Seq<u8>, u64, u64)>), MemError>(
                (h.hlen as nat, dir_view(h.kvs@)),
            ),
            Err(e) => spec_read_nkv_header(b@) == Err::<(nat, Seq<(Seq<u8>, u64, u64)>), MemError>(
                e,
            ),
        },
{
    let n = b.len();
    if n < 6 {
        return Err(MemError::Truncated);
    }
    let magic = nkv_magic_bytes();
    if !crate::dtype::bytes_eq(crate::array::slice_range(b, 0, 6), magic.as_slice()) {
        return Err(MemError::BadMagic);
    }
    if n < 8 {
        return Err(MemError::Truncated);
    }
    if !(b[6] == 2 && b[7] == 0) {
        return Err(MemError::BadVersion);
    }
    if n < 12 {
        return Err(MemError::Truncated);
    }
    let hlen = vstd::bytes::u32_from_le_bytes(crate::array::slice_range(b, 8, 12)) as usize;
    let m16 = (12 + (hlen % 16)) % 16;
    proof {
        vstd::arithmetic::div_mod::lemma_add_mod_noop(12int, hlen as int, 16);
        vstd::arithmetic::div_mod::lemma_small_mod(12nat, 16nat);
        vstd::arithmetic::div_mod::lemma_mod_twice(hlen as int, 16);
        assert(m16 as int == (12 + hlen) % 16);
    }
    if m16 != 0 {
        return Err(MemError::BadAlignment);
    }
    if hlen < 4 {
        return Err(MemError::BadHeader);
    }
    let limit = match 12usize.checked_add(hlen) {
        Some(x) => x,
        None => {
            proof {
                assert(b@.len() == n);
            }
            return Err(MemError::Truncated);
        },
    };
    if n < limit {
        return Err(MemError::Truncated);
    }
    let count = vstd::bytes::u32_from_le_bytes(crate::array::slice_range(b, 12, 16)) as usize;
    let ghost total = count as nat;
    let mut kvs: Vec<NkvDirEntry> = Vec::new();
    let mut pos: usize = 16;
    let mut t: usize = 0;
    while t < count
        invariant
            t <= count,
            16 <= pos <= n,
            n == b@.len(),
            kvs@.len() == t,
            forall|rest: Seq<(Seq<u8>, u64, u64)>, endp: int|
                spec_dec_dir(b@, pos as int, (count - t) as nat) == Ok::<
                    (Seq<(Seq<u8>, u64, u64)>, int),
                    MemError,
                >((rest, endp)) ==> spec_dec_dir(b@, 16, count as nat) == Ok::<
                    (Seq<(Seq<u8>, u64, u64)>, int),
                    MemError,
                >((dir_view(kvs@) + rest, endp)),
            forall|e: MemError|
                spec_dec_dir(b@, pos as int, (count - t) as nat) == Err::<
                    (Seq<(Seq<u8>, u64, u64)>, int),
                    MemError,
                >(e) ==> spec_dec_dir(b@, 16, count as nat) == Err::<
                    (Seq<(Seq<u8>, u64, u64)>, int),
                    MemError,
                >(e),
        decreases count - t,
    {
        let pos4 = match pos.checked_add(4) {
            Some(x) => x,
            None => {
                proof {
                    assert(b@.len() == n);
                    assert(spec_dec_dir(b@, pos as int, (count - t) as nat) == Err::<
                        (Seq<(Seq<u8>, u64, u64)>, int),
                        MemError,
                    >(MemError::Truncated));
                }
                return Err(MemError::Truncated);
            },
        };
        if pos4 > n {
            proof {
                assert(spec_dec_dir(b@, pos as int, (count - t) as nat) == Err::<
                    (Seq<(Seq<u8>, u64, u64)>, int),
                    MemError,
                >(MemError::Truncated));
                assert(spec_dec_dir(b@, 16, count as nat) == Err::<
                    (Seq<(Seq<u8>, u64, u64)>, int),
                    MemError,
                >(MemError::Truncated));
                assert(spec_read_nkv_header(b@) == Err::<
                    (nat, Seq<(Seq<u8>, u64, u64)>),
                    MemError,
                >(MemError::Truncated));
            }
            return Err(MemError::Truncated);
        }
        let kl = vstd::bytes::u32_from_le_bytes(crate::array::slice_range(b, pos, pos4)) as usize;
        let kend = match pos4.checked_add(kl) {
            Some(x) => x,
            None => {
                proof {
                    assert(pos + 4 + kl + 16 > b@.len());
                    assert(spec_dec_dir(b@, pos as int, (count - t) as nat) == Err::<
                        (Seq<(Seq<u8>, u64, u64)>, int),
                        MemError,
                    >(MemError::Truncated));
                }
                return Err(MemError::Truncated);
            },
        };
        let eend = match kend.checked_add(16) {
            Some(x) => x,
            None => {
                proof {
                    assert(pos + 4 + kl + 16 > b@.len());
                    assert(spec_dec_dir(b@, pos as int, (count - t) as nat) == Err::<
                        (Seq<(Seq<u8>, u64, u64)>, int),
                        MemError,
                    >(MemError::Truncated));
                }
                return Err(MemError::Truncated);
            },
        };
        if eend > n {
            proof {
                assert(spec_dec_dir(b@, pos as int, (count - t) as nat) == Err::<
                    (Seq<(Seq<u8>, u64, u64)>, int),
                    MemError,
                >(MemError::Truncated));
            }
            return Err(MemError::Truncated);
        }
        proof {
            assert(kend + 16 == eend);
            assert(eend <= n);
        }
        let key = crate::npy::slice_to_vec(b, pos4, kl);
        let off = vstd::bytes::u64_from_le_bytes(crate::array::slice_range(b, kend, kend + 8));
        let ln = vstd::bytes::u64_from_le_bytes(crate::array::slice_range(b, kend + 8, eend));
        let ghost olddir = dir_view(kvs@);
        let ghost ge = (key@, off, ln);
        kvs.push(NkvDirEntry { key, offset: off, length: ln });
        proof {
            assert(dir_view(kvs@) =~= olddir.push(ge));
            assert(spec_dec_dir(b@, pos as int, (count - t) as nat) == (match spec_dec_dir(
                b@,
                pos + 4 + kl + 16,
                (count - t - 1) as nat,
            ) {
                Err(e) => Err::<(Seq<(Seq<u8>, u64, u64)>, int), MemError>(e),
                Ok(rest) => Ok::<(Seq<(Seq<u8>, u64, u64)>, int), MemError>(
                    (seq![ge] + rest.0, rest.1),
                ),
            }));
            assert forall|rest: Seq<(Seq<u8>, u64, u64)>, endp: int|
                spec_dec_dir(b@, (pos + 4 + kl + 16) as int, (count - t - 1) as nat) == Ok::<
                    (Seq<(Seq<u8>, u64, u64)>, int),
                    MemError,
                >((rest, endp)) implies spec_dec_dir(b@, 16, count as nat) == Ok::<
                (Seq<(Seq<u8>, u64, u64)>, int),
                MemError,
            >((dir_view(kvs@) + rest, endp)) by {
                assert(spec_dec_dir(b@, pos as int, (count - t) as nat) == Ok::<
                    (Seq<(Seq<u8>, u64, u64)>, int),
                    MemError,
                >((seq![ge] + rest, endp)));
                assert(olddir + (seq![ge] + rest) =~= dir_view(kvs@) + rest);
            }
            assert forall|e2: MemError|
                spec_dec_dir(b@, (pos + 4 + kl + 16) as int, (count - t - 1) as nat) == Err::<
                    (Seq<(Seq<u8>, u64, u64)>, int),
                    MemError,
                >(e2) implies spec_dec_dir(b@, 16, count as nat) == Err::<
                (Seq<(Seq<u8>, u64, u64)>, int),
                MemError,
            >(e2) by {
                assert(spec_dec_dir(b@, pos as int, (count - t) as nat) == Err::<
                    (Seq<(Seq<u8>, u64, u64)>, int),
                    MemError,
                >(e2));
            }
        }
        pos = eend;
        t = t + 1;
    }
    proof {
        assert(spec_dec_dir(b@, pos as int, 0) == Ok::<(Seq<(Seq<u8>, u64, u64)>, int), MemError>(
            (Seq::empty(), pos as int),
        ));
        assert(spec_dec_dir(b@, 16, count as nat) == Ok::<
            (Seq<(Seq<u8>, u64, u64)>, int),
            MemError,
        >((dir_view(kvs@) + Seq::<(Seq<u8>, u64, u64)>::empty(), pos as int)));
        assert(dir_view(kvs@) + Seq::<(Seq<u8>, u64, u64)>::empty() =~= dir_view(kvs@));
        assert(spec_dec_dir(b@, 16, count as nat) == Ok::<
            (Seq<(Seq<u8>, u64, u64)>, int),
            MemError,
        >((dir_view(kvs@), pos as int)));
    }
    if pos > limit {
        return Err(MemError::BadHeader);
    }
    Ok(NkvHeader { hlen: hlen as u32, kvs })
}

/// Reading an encoded directory region recovers its lines.
pub proof fn lemma_dec_dir_from(b: Seq<u8>, pos: int, es: Seq<(Seq<u8>, u64, u64)>)
    requires
        0 <= pos,
        pos + enc_dir(es).len() <= b.len(),
        b.subrange(pos, pos + enc_dir(es).len() as int) == enc_dir(es),
        forall|i: int| 0 <= i < es.len() ==> (#[trigger] es[i]).0.len() <= 0xFFFFFFFF,
    ensures
        spec_dec_dir(b, pos, es.len()) == Ok::<(Seq<(Seq<u8>, u64, u64)>, int), MemError>(
            (es, pos + enc_dir(es).len()),
        ),
    decreases es.len(),
{
    vstd::bytes::lemma_auto_spec_u32_to_from_le_bytes();
    vstd::bytes::lemma_auto_spec_u64_to_from_le_bytes();
    if es.len() == 0 {
        assert(es =~= Seq::<(Seq<u8>, u64, u64)>::empty());
        assert(enc_dir(es).len() == 0);
        assert(spec_dec_dir(b, pos, es.len()) == Ok::<
            (Seq<(Seq<u8>, u64, u64)>, int),
            MemError,
        >((Seq::empty(), pos)));
        assert(Seq::<(Seq<u8>, u64, u64)>::empty() =~= es);
    }
    if es.len() > 0 {
        let e = es[0];
        let eb = enc_dir_entry(e);
        let kl = e.0.len() as int;
        let rest = es.drop_first();
        assert(enc_dir(es) == eb + enc_dir(rest));
        assert(eb.len() == 20 + kl);
        assert forall|i: int| 0 <= i < enc_dir(es).len() implies b[pos + i] == enc_dir(es)[i] by {
            assert(b.subrange(pos, pos + enc_dir(es).len() as int)[i] == b[pos + i]);
        }
        assert(b.subrange(pos, pos + 4) =~= vstd::bytes::spec_u32_to_le_bytes(
            e.0.len() as u32,
        )) by {
            assert forall|i: int| 0 <= i < 4 implies #[trigger] b.subrange(pos, pos + 4)[i]
                == vstd::bytes::spec_u32_to_le_bytes(e.0.len() as u32)[i] by {
                assert(b[pos + i] == enc_dir(es)[i]);
                assert(enc_dir(es)[i] == eb[i]);
            }
        }
        assert(vstd::bytes::spec_u32_from_le_bytes(b.subrange(pos, pos + 4)) as int == kl);
        assert(pos + 4 + kl + 16 <= b.len());
        assert(b.subrange(pos + 4, pos + 4 + kl) =~= e.0) by {
            assert forall|i: int| 0 <= i < kl implies #[trigger] b.subrange(pos + 4, pos + 4 + kl)[i]
                == e.0[i] by {
                assert(b[pos + 4 + i] == enc_dir(es)[4 + i]);
                assert(enc_dir(es)[4 + i] == eb[4 + i]);
                assert(eb[4 + i] == e.0[i]);
            }
        }
        assert(b.subrange(pos + 4 + kl, pos + 4 + kl + 8) =~= vstd::bytes::spec_u64_to_le_bytes(
            e.1,
        )) by {
            assert forall|i: int| 0 <= i < 8 implies #[trigger] b.subrange(pos + 4 + kl, pos + 4 + kl + 8)[i]
                == vstd::bytes::spec_u64_to_le_bytes(e.1)[i] by {
                assert(b[pos + 4 + kl + i] == enc_dir(es)[4 + kl + i]);
                assert(enc_dir(es)[4 + kl + i] == eb[4 + kl + i]);
            }
        }
        assert(b.subrange(pos + 4 + kl + 8, pos + 4 + kl + 16)
            =~= vstd::bytes::spec_u64_to_le_bytes(e.2)) by {
            assert forall|i: int|
                0 <= i < 8 implies #[trigger] b.subrange(pos + 4 + kl + 8, pos + 4 + kl + 16)[i]
                == vstd::bytes::spec_u64_to_le_bytes(e.2)[i] by {
                assert(b[pos + 4 + kl + 8 + i] == enc_dir(es)[4 + kl + 8 + i]);
                assert(enc_dir(es)[4 + kl + 8 + i] == eb[4 + kl + 8 + i]);
            }
        }
        let pos2 = pos + 20 + kl;
        assert(b.subrange(pos2, pos2 + enc_dir(rest).len() as int) =~= enc_dir(rest)) by {
            assert forall|i: int|
                0 <= i < enc_dir(rest).len() implies #[trigger] b.subrange(
                pos2,
                pos2 + enc_dir(rest).len() as int,
            )[i] == enc_dir(rest)[i] by {
                assert(b[pos2 + i] == enc_dir(es)[20 + kl + i]);
                assert(enc_dir(es)[20 + kl + i] == enc_dir(rest)[i]);
            }
        }
        assert forall|i: int| 0 <= i < rest.len() implies (#[trigger] rest[i]).0.len()
            <= 0xFFFFFFFF by {
            assert(rest[i] == es[i + 1]);
        }
        lemma_dec_dir_from(b, pos2, rest);
        let key2 = b.subrange(pos + 4, pos + 4 + kl);
        let off2 = vstd::bytes::spec_u64_from_le_bytes(b.subrange(pos + 4 + kl, pos + 4 + kl + 8));
        let ln2 = vstd::bytes::spec_u64_from_le_bytes(
            b.subrange(pos + 4 + kl + 8, pos + 4 + kl + 16),
        );
        assert(key2 == e.0);
        assert(off2 == e.1);
        assert(ln2 == e.2);
        assert((key2, off2, ln2) == e);
        assert(seq![(key2, off2, ln2)] =~= seq![e]);
        assert(seq![e] + rest =~= es);
        assert(pos2 == pos + 4 + kl + 16);
        assert(spec_dec_dir(b, pos2, rest.len()) == Ok::<
            (Seq<(Seq<u8>, u64, u64)>, int),
            MemError,
        >((rest, pos2 + enc_dir(rest).len())));
        assert(pos2 + enc_dir(rest).len() == pos + enc_dir(es).len());
        assert(spec_dec_dir(b, pos, es.len()) == Ok::<
            (Seq<(Seq<u8>, u64, u64)>, int),
            MemError,
        >((seq![(key2, off2, ln2)] + rest, pos2 + enc_dir(rest).len())));
        assert(seq![(key2, off2, ln2)] + rest == seq![e] + rest);
        assert(seq![(key2, off2, ln2)] + rest == es);
        assert((seq![(key2, off2, ln2)] + rest, pos2 + enc_dir(rest).len() as int) == (
            es,
            pos + enc_dir(es).len() as int,
        ));
        assert(spec_dec_dir(b, pos, es.len()) == Ok::<
            (Seq<(Seq<u8>, u64, u64)>, int),
            MemError,
        >((es, pos + enc_dir(es).len())));
    }
}

/// Law: the archive directory round trip — the directory the engine
/// writes, read back, recovers every key with its byte offset and length,
/// in order. Together with the writer's contract this covers any archive
/// of named arrays: the directory returned by the writer re-reads exactly,
/// and each offset is 16-byte aligned.
pub proof fn lemma_nkv_round_trip(es: Seq<(Seq<u8>, u64, u64)>)
    requires
        es.len() <= 0xFFFFFFFF,
        forall|i: int| 0 <= i < es.len() ==> (#[trigger] es[i]).0.len() <= 0xFFFFFFFF,
        12 + (4 + enc_dir(es).len()) + 15 <= usize::MAX,
        spec_nkv_hlen(enc_dir(es).len()) <= 0xFFFFFFFF,
    ensures
        spec_read_nkv_header(spec_nkv_bytes(es)) == Ok::<(nat, Seq<(Seq<u8>, u64, u64)>), MemError>(
            (spec_nkv_hlen(enc_dir(es).len()), es),
        ),
{
    vstd::bytes::lemma_auto_spec_u32_to_from_le_bytes();
    vstd::bytes::lemma_auto_spec_u64_to_from_le_bytes();
    let dlen = enc_dir(es).len();
    let hlen = spec_nkv_hlen(dlen);
    let hb = vstd::bytes::spec_u32_to_le_bytes(hlen as u32);
    let cb = vstd::bytes::spec_u32_to_le_bytes(es.len() as u32);
    let pad = (hlen - (4 + dlen)) as nat;
    let enc = spec_nkv_bytes(es);
    let x0 = 12 + (4 + dlen) + 15;
    vstd::arithmetic::div_mod::lemma_fundamental_div_mod(x0 as int, 16);
    assert((x0 / 16) * 16 >= 12 + (4 + dlen));
    assert(hlen >= 4 + dlen);
    assert(enc.len() == 16 + dlen + pad);
    assert(enc.len() == 12 + hlen);
    assert(enc.subrange(0, 6) =~= nkv_magic()) by {
        assert forall|i: int| 0 <= i < 6 implies #[trigger] enc[i] == nkv_magic()[i] by {}
    }
    assert(enc[6] == 2u8);
    assert(enc[7] == 0u8);
    assert(enc.subrange(8, 12) =~= hb) by {
        assert forall|i: int| 0 <= i < 4 implies #[trigger] enc[8 + i] == hb[i] by {}
    }
    assert(vstd::bytes::spec_u32_from_le_bytes(enc.subrange(8, 12)) as nat == hlen);
    assert((12 + hlen) % 16 == 0) by {
        vstd::arithmetic::div_mod::lemma_mod_multiples_basic((x0 / 16) as int, 16);
        assert(12 + hlen == (x0 / 16) * 16);
    }
    assert(enc.subrange(12, 16) =~= cb) by {
        assert forall|i: int| 0 <= i < 4 implies #[trigger] enc[12 + i] == cb[i] by {}
    }
    assert(vstd::bytes::spec_u32_from_le_bytes(enc.subrange(12, 16)) as nat == es.len());
    assert(enc.subrange(16, 16 + dlen as int) =~= enc_dir(es)) by {
        assert forall|i: int| 0 <= i < dlen implies #[trigger] enc[16 + i] == enc_dir(es)[i] by {}
    }
    lemma_dec_dir_from(enc, 16, es);
    assert(16 + dlen <= 12 + hlen);
}

} // verus!
