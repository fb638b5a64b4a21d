use bbqvec::Bitmap;
use bbqvec::Quantization;
use bbqvec::disk;

fn key(f: f32) -> u32 {
    bbqvec::keys::sim_key_from_bits(f.to_bits())
}

fn unkey(k: u32) -> f32 {
    f32::from_bits(bbqvec::keys::bits_from_sim_key(k))
}

fn to_bits(v: &[f32]) -> Vec<u32> {
    v.iter().map(|f| f.to_bits()).collect()
}

#[test]
fn finds_count() {
    let mut cbm = bbqvec::CountingBitmap::<bbqvec::BitVec>::new(3);
    let mut bm_a = bbqvec::BitVec::new();
    bm_a.add(2);
    let mut bm_b = bbqvec::BitVec::new();
    bm_b.add(1);
    bm_b.add(2);
    let mut bm_c = bbqvec::BitVec::new();
    bm_c.add(0);
    bm_c.add(1);
    bm_c.add(2);
    cbm.or(bm_a);
    cbm.or(bm_b);
    cbm.or(bm_c);
    let v: Vec<u64> = cbm.top_k(1).unwrap().iter_elems();
    assert_eq!(v.len(), 1);
    assert_eq!(v[0], 2);
    assert!(cbm.top_k(10).is_none());
    assert_eq!(cbm.top_k(1).unwrap().count(), 1);
}

#[test]
fn counting_bitmap_layers() {
    // Depth 3; inputs {2}, {1,2}, {1,2}: the top layer meeting a budget of
    // one is {2}, and no layer meets a budget of ten.
    let mut cbm = bbqvec::CountingBitmap::<bbqvec::RoaringBitmap>::new(3);
    let mut a = bbqvec::RoaringBitmap::new();
    a.add(2);
    let mut b = bbqvec::RoaringBitmap::new();
    b.add(1);
    b.add(2);
    let mut c = bbqvec::RoaringBitmap::new();
    c.add(1);
    c.add(2);
    cbm.or(a);
    cbm.or(b);
    cbm.or(c);
    assert_eq!(cbm.top_k(1).unwrap().iter_elems(), vec![2]);
    assert!(cbm.top_k(10).is_none());
    assert_eq!(cbm.cardinalities(), vec![2, 2, 1]);
}

#[test]
fn result_set_ordering() {
    let mut rs = bbqvec::ResultSet::new(3);
    rs.add_result(10, key(0.5));
    rs.add_result(11, key(0.9));
    rs.add_result(12, key(-0.25));
    rs.add_result(13, key(0.7));
    let results = rs.iter_results();
    let ids: Vec<u64> = results.iter().map(|r| r.id).collect();
    assert_eq!(ids, vec![11, 13, 10]);
    let sims: Vec<f32> = results.iter().map(|r| unkey(r.similarity)).collect();
    assert_eq!(sims, vec![0.9, 0.7, 0.5]);
    assert_eq!(rs.len(), 3);
    assert_eq!(rs.checked, 4);
    assert!(!rs.is_empty());
}

#[test]
fn result_set_suppresses_duplicates() {
    let mut rs = bbqvec::ResultSet::new(4);
    rs.add_result(5, key(0.5));
    rs.add_result(5, key(0.8));
    rs.add_result(6, key(0.2));
    rs.add_result(6, key(0.2));
    let ids: Vec<u64> = rs.iter_results().iter().map(|r| r.id).collect();
    assert_eq!(ids, vec![5, 6]);
    assert_eq!(rs.checked, 4);
}

#[test]
fn result_set_drops_weakest_when_full() {
    let mut rs = bbqvec::ResultSet::new(2);
    rs.add_result(1, key(0.1));
    rs.add_result(2, key(0.2));
    rs.add_result(3, key(0.3));
    let ids: Vec<u64> = rs.iter_results().iter().map(|r| r.id).collect();
    assert_eq!(ids, vec![3, 2]);
    rs.add_result(4, key(0.05));
    let ids: Vec<u64> = rs.iter_results().iter().map(|r| r.id).collect();
    assert_eq!(ids, vec![3, 2]);
}

#[test]
fn recall_counts_overlap() {
    let mut a = bbqvec::ResultSet::new(4);
    a.add_result(1, key(0.9));
    a.add_result(2, key(0.8));
    a.add_result(3, key(0.7));
    a.add_result(4, key(0.6));
    let mut b = bbqvec::ResultSet::new(4);
    b.add_result(2, key(0.9));
    b.add_result(5, key(0.8));
    b.add_result(1, key(0.7));
    b.add_result(6, key(0.6));
    // Of b's first 4 baseline entries, a's first 4 hold ids 1 and 2.
    assert_eq!(a.compute_recall(&b, 4), 2);
    assert_eq!(a.compute_recall(&b, 1), 0);
    assert_eq!(a.compute_recall(&b, 3), 2);
}

#[test]
fn sim_keys_order_like_floats() {
    let floats = vec![-3.5f32, -1.0, -0.0, 0.0, 0.125, 1.0, 7.25, 1e30];
    for w in floats.windows(2) {
        assert!(key(w[0]) <= key(w[1]));
    }
    assert!(key(-0.0) < key(0.0));
    for f in floats {
        assert_eq!(unkey(key(f)), f);
    }
}

#[test]
fn identity_quantization_round_trip() {
    let v = to_bits(&[1.0, -2.5, 0.0, 3.25e-7]);
    let lowered = bbqvec::NoQuantization::lower(v.clone()).unwrap();
    let bytes = bbqvec::NoQuantization::marshal(&lowered);
    assert_eq!(bytes.len(), bbqvec::NoQuantization::vector_size(4));
    let back = bbqvec::NoQuantization::unmarshal(&bytes).unwrap();
    assert_eq!(back, lowered);
    assert_eq!(bbqvec::NoQuantization::name(), "none");
    // Little-endian layout of 1.0f32.
    assert_eq!(&bytes[0..4], &[0x00, 0x00, 0x80, 0x3F]);
}

#[test]
fn bf16_quantization_round_trip() {
    let v = to_bits(&[1.0, -2.5, 0.335, 100.25]);
    let lowered = bbqvec::BF16Quantization::lower(v).unwrap();
    let bytes = bbqvec::BF16Quantization::marshal(&lowered);
    assert_eq!(bytes.len(), bbqvec::BF16Quantization::vector_size(4));
    let back = bbqvec::BF16Quantization::unmarshal(&bytes).unwrap();
    assert_eq!(back, lowered);
    assert_eq!(bbqvec::BF16Quantization::name(), "bf16");
    // The rehydrated floats are within bfloat16 relative error.
    let rehydrated = bbqvec::BF16Quantization::rehydrate(&lowered);
    let fs: Vec<f32> = rehydrated.iter().map(|x| f32::from_bits(*x)).collect();
    assert!((fs[0] - 1.0).abs() <= 0.01);
    assert!((fs[1] + 2.5).abs() <= 0.02);
    assert!((fs[2] - 0.335).abs() <= 0.335 * 0.01);
}

#[test]
fn unmarshal_rejects_ragged_bytes() {
    let bytes = vec![1u8, 2, 3];
    assert_eq!(
        bbqvec::NoQuantization::unmarshal(&bytes).unwrap_err(),
        bbqvec::Error::SerializationFailure
    );
    assert_eq!(
        bbqvec::BF16Quantization::unmarshal(&bytes).unwrap_err(),
        bbqvec::Error::SerializationFailure
    );
}

#[test]
fn bf16_lowering_matches_half() {
    // The bit-level bfloat16 lowering agrees with the half crate's software
    // conversion on ordinary values, signs, rounding cases, and NaN.
    let samples = vec![
        0.0f32, -0.0, 1.0, -1.0, 0.5, 0.335, 1.00390625, -1.00390625, 100.25, 3.4e38, -3.4e38,
        1e-40, f32::INFINITY, f32::NEG_INFINITY, f32::NAN, f32::MIN_POSITIVE,
    ];
    for f in samples {
        let mine = bbqvec::quantization::bf16_bits_from_f32_bits(f.to_bits());
        let theirs = half::bf16::from_f32(f).to_bits();
        assert_eq!(mine, theirs, "bf16 lowering differs for {f}");
    }
    let mut state = 0x12345678u32;
    for _ in 0..20000 {
        state = state.wrapping_mul(1664525).wrapping_add(1013904223);
        let mine = bbqvec::quantization::bf16_bits_from_f32_bits(state);
        let theirs = half::bf16::from_f32(f32::from_bits(state)).to_bits();
        assert_eq!(mine, theirs, "bf16 lowering differs for bits {state:#x}");
    }
}

#[test]
fn face_index_cases() {
    assert_eq!(bbqvec::vector_store::find_face_idx(&to_bits(&[1.0, 0.0])), 1);
    assert_eq!(bbqvec::vector_store::find_face_idx(&to_bits(&[-1.0, 0.0])), -1);
    assert_eq!(bbqvec::vector_store::find_face_idx(&to_bits(&[0.0, 2.0])), 2);
    assert_eq!(bbqvec::vector_store::find_face_idx(&to_bits(&[0.1, -3.0])), -2);
    // Equal magnitudes break toward the maximal (positive) side.
    assert_eq!(bbqvec::vector_store::find_face_idx(&to_bits(&[-2.0, 2.0])), 2);
    // The larger magnitude wins even when it is negative.
    assert_eq!(bbqvec::vector_store::find_face_idx(&to_bits(&[-2.0, 1.0])), -1);
    assert_eq!(bbqvec::vector_store::face_slot(1, 4), 0);
    assert_eq!(bbqvec::vector_store::face_slot(-1, 4), 1);
    assert_eq!(bbqvec::vector_store::face_slot(4, 4), 6);
    assert_eq!(bbqvec::vector_store::face_slot(-4, 4), 7);
}

#[test]
fn croaring_bitmap_operations() {
    let mut a = bbqvec::CRoaringBitmap::new();
    assert!(a.is_empty());
    a.add(3);
    a.add(1);
    a.add(3);
    assert!(!a.is_empty());
    assert_eq!(a.count(), 2);
    assert!(a.contains(3));
    assert!(!a.contains(2));
    assert_eq!(a.iter_elems(), vec![1, 3]);
    let mut b = bbqvec::CRoaringBitmap::new();
    b.add(3);
    b.add(7);
    a.or(&b);
    assert_eq!(a.iter_elems(), vec![1, 3, 7]);
    a.xor(&b);
    assert_eq!(a.iter_elems(), vec![1]);
    a.add(9);
    let mut c = bbqvec::CRoaringBitmap::new();
    c.add(9);
    a.and_not(&c);
    assert_eq!(a.iter_elems(), vec![1]);
    assert!(a.estimate_size() > 0);
}

#[test]
fn roaring_bitmap_operations() {
    let mut a = bbqvec::RoaringBitmap::new();
    assert!(a.is_empty());
    a.add(5);
    a.add(2);
    assert_eq!(a.count(), 2);
    assert!(a.contains(5));
    assert_eq!(a.iter_elems(), vec![2, 5]);
    let mut b = bbqvec::RoaringBitmap::new();
    b.add(5);
    b.add(6);
    a.or(&b);
    assert_eq!(a.iter_elems(), vec![2, 5, 6]);
    a.xor(&b);
    assert_eq!(a.iter_elems(), vec![2]);
    a.add(6);
    a.and_not(&b);
    assert_eq!(a.iter_elems(), vec![2]);
    assert!(a.estimate_size() > 0);
}

#[test]
fn bitvec_bitmap_operations() {
    let mut a = bbqvec::BitVec::new();
    assert!(a.is_empty());
    a.add(0);
    a.add(8);
    assert_eq!(a.count(), 2);
    assert!(a.contains(8));
    assert!(!a.contains(100));
    assert_eq!(a.iter_elems(), vec![0, 8]);
    let mut b = bbqvec::BitVec::new();
    b.add(8);
    b.add(64);
    a.or(&b);
    assert_eq!(a.iter_elems(), vec![0, 8, 64]);
    a.xor(&b);
    assert_eq!(a.iter_elems(), vec![0]);
    a.add(64);
    a.and_not(&b);
    assert_eq!(a.iter_elems(), vec![0]);
}

#[test]
fn unaligned_slice_round_trip() {
    let v = to_bits(&[1.5, -0.25]);
    let bytes = bbqvec::NoQuantization::marshal(&v);
    let slice = bbqvec::UnalignedF32Slice::from_bytes(bytes.clone()).unwrap();
    assert_eq!(slice.len(), 2);
    assert!(!slice.is_empty());
    assert_eq!(slice.as_bytes(), &bytes);
    assert_eq!(slice.to_vector(), v);
    assert_eq!(
        bbqvec::UnalignedF32Slice::from_bytes(vec![0u8; 5]).unwrap_err(),
        bbqvec::Error::SerializationFailure
    );
}

#[test]
fn disk_metadata_rules() {
    let meta = disk::default_metadata(16, disk::QuantKind::F32, 0);
    assert_ne!(meta.token, 0);
    assert_eq!(meta.vecs_per_file, 200_000);
    assert!(meta.vec_files.is_empty());
    assert_eq!(
        disk::validate_metadata(&meta, disk::QuantKind::Bf16, 16).unwrap_err(),
        bbqvec::Error::QuantizationMismatch
    );
    assert_eq!(
        disk::validate_metadata(&meta, disk::QuantKind::F32, 8).unwrap_err(),
        bbqvec::Error::DimensionMismatch
    );
    disk::validate_metadata(&meta, disk::QuantKind::F32, 16).unwrap();
    assert_eq!(disk::page_of_id(400_123, 200_000), (2, 123));
    assert_eq!(disk::page_file_size(200_000, 64), Some(12_800_000));
    assert_eq!(disk::page_file_size(usize::MAX, 2), None);
    assert_eq!(disk::vector_byte_range(2, 8, 10).unwrap(), (16, 24));
    assert_eq!(
        disk::vector_byte_range(10, 8, 10).unwrap_err(),
        bbqvec::Error::IoFailure
    );
}
