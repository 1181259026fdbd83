use memarray::array::MemArray;
use memarray::batch::OuterBatchArray;
use memarray::dtype::{NpyDtype, NpyDtypeDesc, NpyEndianness};
use memarray::error::MemError;
use memarray::idx::{i2idx, AxisRange, IdxN};
use memarray::mem::HeapMem;
use memarray::nkv::{lex_lt_bytes, read_nkv_header, write_nkv_header, NkvArchive};
use memarray::npy::{format_usize, parse_usize, read_npy_header, strip_punct, tokenize, write_npy_header, NpyHeader};
use memarray::shared::{SharedArray, SharedMemArray, SyncSharedArray};
use memarray::sz2int;

fn idx(dims: &[usize]) -> IdxN {
    IdxN { dims: dims.to_vec() }
}

fn f32_array(dims: &[usize], vals: &[f32]) -> MemArray {
    let mut bytes = Vec::new();
    for v in vals {
        bytes.extend_from_slice(&v.to_le_bytes());
    }
    let mem = HeapMem::with_bytes(vals.len(), 4, bytes).unwrap();
    MemArray::with_memory(NpyDtype::Float32, idx(dims), mem).unwrap()
}

fn u8_array(dims: &[usize], vals: &[u8]) -> MemArray {
    let mem = HeapMem::with_bytes(vals.len(), 1, vals.to_vec()).unwrap();
    MemArray::with_memory(NpyDtype::UInt8, idx(dims), mem).unwrap()
}

#[test]
fn idx_flat_len_and_stride() {
    let s = idx(&[3, 4, 5]);
    assert_eq!(s.flat_len(), 60);
    let st = s.to_packed_stride();
    assert_eq!(st.dims, vec![1, 3, 12]);
    assert!(s.is_packed(&st));
    let bad = idx(&[1, 4, 12]);
    assert!(!s.is_packed(&bad));
}

#[test]
fn idx_rank_zero() {
    let s = idx(&[]);
    assert_eq!(s.flat_len(), 1);
    assert_eq!(s.rank(), 0);
}

#[test]
fn idx_too_many_axes_rejected() {
    assert!(matches!(
        IdxN::new(vec![1, 1, 1, 1, 1, 1]),
        Err(MemError::RankMismatch)
    ));
}

#[test]
fn i2idx_wraps_negative() {
    assert_eq!(i2idx(2, 5), 2);
    assert_eq!(i2idx(-1, 5), 4);
    assert_eq!(i2idx(-5, 5), 0);
}

#[test]
fn sz2int_small() {
    assert_eq!(sz2int(12), 12i32);
}

#[test]
fn zeros_is_packed_and_zero() {
    let a = MemArray::zeros(NpyDtype::Float32, idx(&[4, 3]));
    assert!(a.is_packed());
    assert_eq!(a.flat_size(), 12);
    assert_eq!(a.flat_offset(), 0);
    assert!(a.mem.as_bytes().iter().all(|b| *b == 0));
}

#[test]
fn zeroed_slice_reads_zero_everywhere() {
    // a freshly zeroed array, sliced by a valid range, reads back zero at
    // every coordinate of the window
    let a = MemArray::zeros(NpyDtype::Float64, idx(&[5, 4]));
    let v = a.as_view();
    let ranges = vec![AxisRange::range(1, 4), AxisRange::range(2, 4)];
    let w = v.view(&ranges).unwrap();
    assert_eq!(w.size().dims, vec![3, 2]);
    for i in 0..3usize {
        for j in 0..2usize {
            let e = w.read_elem(&idx(&[i, j]));
            assert_eq!(e.len(), 8);
            assert!(e.iter().all(|b| *b == 0));
        }
    }
}

#[test]
fn with_memory_checks_length() {
    let mem = HeapMem::with_bytes(5, 1, vec![1, 2, 3, 4, 5]).unwrap();
    let r = MemArray::with_memory(NpyDtype::UInt8, idx(&[2, 3]), mem);
    assert!(matches!(r, Err(MemError::ShapeMismatch)));
}

#[test]
fn with_memory_checks_elem_width() {
    let mem = HeapMem::with_bytes(6, 1, vec![0; 6]).unwrap();
    let r = MemArray::with_memory(NpyDtype::Float32, idx(&[2, 3]), mem);
    assert!(matches!(r, Err(MemError::ShapeMismatch)));
}

#[test]
fn reshape_same_flat_len() {
    let mut a = u8_array(&[2, 3], &[1, 2, 3, 4, 5, 6]);
    a.reshape(idx(&[6])).unwrap();
    assert_eq!(a.size().dims, vec![6]);
    assert_eq!(a.stride().dims, vec![1]);
    let r = a.reshape(idx(&[4]));
    assert!(matches!(r, Err(MemError::ShapeMismatch)));
    assert_eq!(a.size().dims, vec![6]);
}

#[test]
fn strict_inner_slice_is_not_packed() {
    // slicing strictly inside more than one axis strikes an inner axis, so
    // the window loses its flat contiguous slice
    let a = MemArray::zeros(NpyDtype::UInt8, idx(&[4, 4]));
    let v = a.as_view();
    let w = v
        .view(&vec![AxisRange::range(0, 2), AxisRange::range(0, 2)])
        .unwrap();
    assert!(!w.is_packed());
    assert!(w.flat_slice().is_none());
}

#[test]
fn full_extent_slice_stays_packed() {
    let a = MemArray::zeros(NpyDtype::UInt8, idx(&[4, 4]));
    let v = a.as_view();
    let w = v
        .view(&vec![AxisRange::full(), AxisRange::range(1, 3)])
        .unwrap();
    // only the outermost axis was narrowed: the window is still gapless
    assert!(w.is_packed());
    let s = w.flat_slice().unwrap();
    assert_eq!(s.len(), 8);
}

#[test]
fn out_of_range_slice_fails() {
    let a = MemArray::zeros(NpyDtype::UInt8, idx(&[4]));
    let v = a.as_view();
    let r = v.view(&vec![AxisRange::range(2, 9)]);
    assert!(matches!(r, Err(MemError::OutOfBounds)));
}

#[test]
fn rank_mismatch_slice_fails() {
    let a = MemArray::zeros(NpyDtype::UInt8, idx(&[4]));
    let v = a.as_view();
    let r = v.view(&vec![AxisRange::full(), AxisRange::full()]);
    assert!(matches!(r, Err(MemError::RankMismatch)));
}

#[test]
fn view_mut_writes_through() {
    let mut a = u8_array(&[2, 2], &[0, 0, 0, 0]);
    {
        let mut w = a.as_view_mut();
        w.write_elem(&idx(&[1, 0]), &vec![9]);
    }
    let v = a.as_view();
    assert_eq!(v.read_elem(&idx(&[1, 0])), vec![9]);
    assert_eq!(v.read_elem(&idx(&[0, 0])), vec![0]);
}

#[test]
fn flat_view_covers_whole_buffer() {
    let a = u8_array(&[2, 3], &[1, 2, 3, 4, 5, 6]);
    let v = a.flat_view().unwrap();
    assert_eq!(v.size().dims, vec![6]);
    assert_eq!(v.as_slice(), &[1, 2, 3, 4, 5, 6]);
}

#[test]
fn dtype_descriptor_round_trip() {
    for d in [NpyDtype::UInt8, NpyDtype::Float32, NpyDtype::Float64] {
        let desc = NpyDtypeDesc::native_of(d);
        let tok = desc.token().unwrap();
        let back = NpyDtypeDesc::parse(&tok).unwrap();
        assert!(back.matches(&desc));
    }
}

#[test]
fn dtype_unknown_token_fails() {
    let r = NpyDtypeDesc::parse(&b"'<i8',".to_vec());
    assert!(matches!(r, Err(MemError::BadDtype)));
}

#[test]
fn dtype_unsupported_descriptor_has_no_token() {
    let desc = NpyDtypeDesc {
        endian: Some(NpyEndianness::Big),
        dtype: NpyDtype::Float32,
    };
    assert!(matches!(desc.token(), Err(MemError::BadDtype)));
}

#[test]
fn endianness_native_is_little() {
    assert_eq!(NpyEndianness::native(), NpyEndianness::Little);
}

#[test]
fn decimal_round_trip() {
    for n in [0usize, 7, 10, 305, 65535, 123456789] {
        let d = format_usize(n);
        assert_eq!(parse_usize(&d), Some(n));
    }
    assert_eq!(parse_usize(&b"12x".to_vec()), None);
    assert_eq!(parse_usize(&b"".to_vec()), None);
}

#[test]
fn tokenizer_splits_on_whitespace() {
    let toks = tokenize(b"{'descr':  '<f4',\t'shape': (3,) }   ");
    let toks: Vec<&[u8]> = toks.iter().map(|t| t.as_slice()).collect();
    assert_eq!(
        toks,
        vec![
            b"{'descr':".as_slice(),
            b"'<f4',".as_slice(),
            b"'shape':".as_slice(),
            b"(3,)".as_slice(),
            b"}".as_slice(),
        ]
    );
}

#[test]
fn strip_removes_tuple_punctuation() {
    assert_eq!(strip_punct(&b"(3,".to_vec()), b"3".to_vec());
    assert_eq!(strip_punct(&b"4)".to_vec()), b"4".to_vec());
    assert_eq!(strip_punct(&b"()".to_vec()), Vec::<u8>::new());
}

#[test]
fn npy_header_round_trip_row_major() {
    let h = NpyHeader {
        dtype_desc: NpyDtypeDesc::native_of(NpyDtype::Float32),
        col_major: false,
        nd_size: vec![3, 4],
        data_offset: 0,
    };
    let bytes = write_npy_header(&h).unwrap();
    assert_eq!(bytes.len() % 64, 0);
    let back = read_npy_header(&bytes).unwrap();
    assert!(!back.col_major);
    assert_eq!(back.nd_size, vec![3, 4]);
    assert_eq!(back.data_offset, bytes.len());
    assert!(back.dtype_desc.matches(&h.dtype_desc));
}

#[test]
fn npy_header_round_trip_col_major() {
    let h = NpyHeader {
        dtype_desc: NpyDtypeDesc::native_of(NpyDtype::UInt8),
        col_major: true,
        nd_size: vec![2, 5],
        data_offset: 0,
    };
    let bytes = write_npy_header(&h).unwrap();
    let back = read_npy_header(&bytes).unwrap();
    assert!(back.col_major);
    assert_eq!(back.nd_size, vec![2, 5]);
}

#[test]
fn npy_bad_magic_rejected() {
    let h = NpyHeader {
        dtype_desc: NpyDtypeDesc::native_of(NpyDtype::UInt8),
        col_major: false,
        nd_size: vec![2],
        data_offset: 0,
    };
    let mut bytes = write_npy_header(&h).unwrap();
    bytes[0] = 0;
    assert!(matches!(read_npy_header(&bytes), Err(MemError::BadMagic)));
}

#[test]
fn npy_bad_version_rejected() {
    let h = NpyHeader {
        dtype_desc: NpyDtypeDesc::native_of(NpyDtype::UInt8),
        col_major: false,
        nd_size: vec![2],
        data_offset: 0,
    };
    let mut bytes = write_npy_header(&h).unwrap();
    bytes[6] = 2;
    assert!(matches!(read_npy_header(&bytes), Err(MemError::BadVersion)));
}

#[test]
fn npy_misaligned_header_rejected() {
    let h = NpyHeader {
        dtype_desc: NpyDtypeDesc::native_of(NpyDtype::UInt8),
        col_major: false,
        nd_size: vec![2],
        data_offset: 0,
    };
    let mut bytes = write_npy_header(&h).unwrap();
    // shrink the declared header length so 10 + H is no longer 64-aligned
    bytes[8] = bytes[8].wrapping_sub(1);
    assert!(matches!(
        read_npy_header(&bytes),
        Err(MemError::BadAlignment)
    ));
}

#[test]
fn npy_truncated_rejected() {
    assert!(matches!(
        read_npy_header(&[0x93, b'N', b'U', b'M']),
        Err(MemError::Truncated)
    ));
}

#[test]
fn serialize_round_trip_f32() {
    let a = f32_array(&[2, 2], &[1.0, -2.5, 3.25, 0.0]);
    let bytes = a.serialize().unwrap();
    let b = MemArray::deserialize(&bytes, NpyDtype::Float32).unwrap();
    assert_eq!(b.size().dims, vec![2, 2]);
    assert_eq!(b.mem.as_bytes(), a.mem.as_bytes());
}

#[test]
fn serialize_round_trip_f64() {
    let mut bytes = Vec::new();
    for v in [1.5f64, -0.25, 1e300] {
        bytes.extend_from_slice(&v.to_le_bytes());
    }
    let mem = HeapMem::with_bytes(3, 8, bytes).unwrap();
    let a = MemArray::with_memory(NpyDtype::Float64, idx(&[3]), mem).unwrap();
    let out = a.serialize().unwrap();
    let b = MemArray::deserialize(&out, NpyDtype::Float64).unwrap();
    assert_eq!(b.size().dims, vec![3]);
    assert_eq!(b.mem.as_bytes(), a.mem.as_bytes());
}

#[test]
fn serialize_round_trip_u8() {
    let a = u8_array(&[2, 3], &[10, 20, 30, 40, 50, 60]);
    let out = a.serialize().unwrap();
    let b = MemArray::deserialize(&out, NpyDtype::UInt8).unwrap();
    assert_eq!(b.size().dims, vec![2, 3]);
    assert_eq!(b.mem.as_bytes(), &[10, 20, 30, 40, 50, 60]);
}

#[test]
fn serialize_unsupported_dtype_fails() {
    let mem = HeapMem::with_bytes(2, 4, vec![0; 8]).unwrap();
    let a = MemArray::with_memory(NpyDtype::Int32, idx(&[2]), mem).unwrap();
    assert!(matches!(a.serialize(), Err(MemError::BadDtype)));
}

#[test]
fn deserialize_wrong_dtype_fails() {
    let a = u8_array(&[4], &[1, 2, 3, 4]);
    let out = a.serialize().unwrap();
    let r = MemArray::deserialize(&out, NpyDtype::Float32);
    assert!(matches!(r, Err(MemError::DtypeMismatch)));
}

#[test]
fn deserialize_truncated_data_fails() {
    let a = u8_array(&[4], &[1, 2, 3, 4]);
    let out = a.serialize().unwrap();
    let r = MemArray::deserialize(&out[..out.len() - 2], NpyDtype::UInt8);
    assert!(matches!(r, Err(MemError::Truncated)));
}

#[test]
fn row_major_declared_shape_round_trip() {
    // a row-major declared 4 x 3 array is internally column-major [3, 4];
    // the stream carries the declared shape and the reread reports it back
    let a = MemArray::zeros(NpyDtype::Float32, idx(&[3, 4]));
    let bytes = a.serialize().unwrap();
    let hdr = read_npy_header(&bytes).unwrap();
    assert!(!hdr.col_major);
    let declared: Vec<usize> = hdr.nd_size.iter().rev().cloned().collect();
    assert_eq!(declared, vec![4, 3]);
    let b = MemArray::deserialize(&bytes, NpyDtype::Float32).unwrap();
    assert_eq!(b.flat_size(), 12);
    assert!(b.mem.as_bytes().iter().all(|x| *x == 0));
    assert_eq!(b.mem.as_bytes().len(), 12 * 4);
}

#[test]
fn lex_order_on_bytes() {
    assert!(lex_lt_bytes(&b"a".to_vec(), &b"b".to_vec()));
    assert!(lex_lt_bytes(&b"a".to_vec(), &b"ab".to_vec()));
    assert!(!lex_lt_bytes(&b"b".to_vec(), &b"ab".to_vec()));
    assert!(!lex_lt_bytes(&b"a".to_vec(), &b"a".to_vec()));
}

#[test]
fn archive_keys_must_arrive_in_order() {
    let mut arch = NkvArchive::new();
    arch.push_entry(b"alpha".to_vec(), u8_array(&[1], &[1]))
        .unwrap();
    let r = arch.push_entry(b"alpha".to_vec(), u8_array(&[1], &[2]));
    assert!(matches!(r, Err(MemError::KeyOrder)));
    let r2 = arch.push_entry(b"aa".to_vec(), u8_array(&[1], &[3]));
    assert!(matches!(r2, Err(MemError::KeyOrder)));
    arch.push_entry(b"beta".to_vec(), u8_array(&[1], &[4]))
        .unwrap();
    assert_eq!(arch.len(), 2);
}

#[test]
fn archive_directory_round_trip() {
    let mut arch = NkvArchive::new();
    arch.push_entry(b"bias".to_vec(), f32_array(&[3], &[0.5, 1.5, 2.5]))
        .unwrap();
    arch.push_entry(b"data".to_vec(), u8_array(&[2, 2], &[9, 8, 7, 6]))
        .unwrap();
    arch.push_entry(b"weight".to_vec(), f32_array(&[2, 3], &[0.0; 6]))
        .unwrap();
    let (bytes, hdr) = write_nkv_header(&arch).unwrap();
    assert_eq!((12 + hdr.hlen as usize) % 16, 0);
    let back = read_nkv_header(&bytes).unwrap();
    assert_eq!(back.hlen, hdr.hlen);
    assert_eq!(back.kvs.len(), 3);
    let keys: Vec<&[u8]> = back.kvs.iter().map(|e| e.key.as_slice()).collect();
    assert_eq!(
        keys,
        vec![b"bias".as_slice(), b"data".as_slice(), b"weight".as_slice()]
    );
    for (a, b) in back.kvs.iter().zip(hdr.kvs.iter()) {
        assert_eq!(a.offset, b.offset);
        assert_eq!(a.length, b.length);
        assert_eq!(a.offset % 16, 0);
    }
    // the first payload starts right after the padded directory, and each
    // next one after the previous payload padded to 16 bytes
    assert_eq!(hdr.kvs[0].offset, 12 + hdr.hlen as u64);
    let pad16 = |n: u64| ((n + 15) / 16) * 16;
    assert_eq!(hdr.kvs[1].offset, hdr.kvs[0].offset + pad16(hdr.kvs[0].length));
    assert_eq!(hdr.kvs[2].offset, hdr.kvs[1].offset + pad16(hdr.kvs[1].length));
    // the recorded lengths are the single-array stream lengths
    let v0 = f32_array(&[3], &[0.5, 1.5, 2.5]);
    assert_eq!(hdr.kvs[0].length as usize, v0.serialize().unwrap().len());
}

#[test]
fn archive_empty_directory_bytes() {
    let arch = NkvArchive::new();
    let (bytes, hdr) = write_nkv_header(&arch).unwrap();
    assert_eq!(hdr.hlen, 4);
    assert_eq!(hdr.kvs.len(), 0);
    assert_eq!(
        bytes,
        vec![0x93, b'N', b'U', b'M', b'K', b'V', 2, 0, 4, 0, 0, 0, 0, 0, 0, 0]
    );
    let back = read_nkv_header(&bytes).unwrap();
    assert_eq!(back.hlen, 4);
    assert_eq!(back.kvs.len(), 0);
}

#[test]
fn archive_bad_magic_rejected() {
    let arch = NkvArchive::new();
    let (mut bytes, _) = write_nkv_header(&arch).unwrap();
    bytes[0] = 1;
    assert!(matches!(read_nkv_header(&bytes), Err(MemError::BadMagic)));
}

#[test]
fn batch_resize_round_trip() {
    let mut b = OuterBatchArray::zeros(NpyDtype::Float32, idx(&[3]), 8);
    assert_eq!(b.batch_size(), 8);
    assert_eq!(b.max_batch_size(), 8);
    {
        let v = b.as_view().unwrap();
        assert_eq!(v.size().dims, vec![3, 8]);
    }
    b.set_batch_size(7).unwrap();
    {
        let v = b.as_view().unwrap();
        assert_eq!(v.size().dims, vec![3, 7]);
    }
    b.set_batch_size(8).unwrap();
    {
        let v = b.as_view().unwrap();
        assert_eq!(v.size().dims, vec![3, 8]);
    }
    assert!(matches!(
        b.set_batch_size(9),
        Err(MemError::BatchTooLarge)
    ));
    assert_eq!(b.batch_size(), 8);
}

#[test]
fn shared_array_borrow_conflicts() {
    let a = u8_array(&[2], &[5, 6]);
    let s = SharedArray::new(a);
    let t = s.clone_handle();
    // a read borrow on one handle blocks the write borrow on another,
    // failing at the point of the second borrow
    s.borrow_shared().unwrap();
    assert!(matches!(t.borrow_exclusive(), Err(MemError::AliasConflict)));
    // more readers may pile on
    t.borrow_shared().unwrap();
    t.release_shared().unwrap();
    s.release_shared().unwrap();
    // with all reads released the write borrow is granted
    t.borrow_exclusive().unwrap();
    assert!(matches!(s.borrow_shared(), Err(MemError::AliasConflict)));
    assert!(matches!(s.read_bytes(), Err(MemError::AliasConflict)));
    t.zero_fill().unwrap();
    t.release_exclusive().unwrap();
    assert_eq!(s.read_bytes().unwrap(), vec![0, 0]);
}

#[test]
fn shared_mem_array_fans_out() {
    let a = u8_array(&[2, 2], &[1, 2, 3, 4]);
    let s = SharedMemArray::from_array(a);
    let t = s.clone_handle();
    assert_eq!(s.read_bytes(), vec![1, 2, 3, 4]);
    assert_eq!(t.read_bytes(), vec![1, 2, 3, 4]);
    let back = t.to_array().unwrap();
    assert_eq!(back.size().dims, vec![2, 2]);
    assert_eq!(back.mem.as_bytes(), &[1, 2, 3, 4]);
}

#[test]
fn sync_shared_array_locks_and_zeroes() {
    let a = u8_array(&[2, 2], &[1, 2, 3, 4]);
    let s = SyncSharedArray::new(a);
    let t = s.clone_handle();
    assert_eq!(s.read_bytes(), vec![1, 2, 3, 4]);
    assert_eq!(t.read_bytes(), vec![1, 2, 3, 4]);
    t.zero_fill();
    assert_eq!(s.read_bytes(), vec![0, 0, 0, 0]);
}

#[test]
fn heap_mem_zero_fill() {
    let mut m = HeapMem::with_bytes(3, 1, vec![7, 8, 9]).unwrap();
    m.zero_fill();
    assert_eq!(m.as_bytes(), &[0, 0, 0]);
    assert_eq!(m.len(), 3);
    assert_eq!(m.phys_size(), 3);
}

#[test]
fn error_descriptions_exist() {
    assert!(!MemError::BadMagic.describe().is_empty());
    assert!(!MemError::AliasConflict.describe().is_empty());
}
