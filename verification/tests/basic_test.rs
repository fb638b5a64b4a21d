use bbqvec::VectorBackend;
use bbqvec::VectorMath;
use rand::RngExt;

fn random_unit(dimensions: usize) -> Vec<f32> {
    let mut rng = rand::rng();
    let mut v: Vec<f32> = (0..dimensions).map(|_| rng.random_range(-1.0f32..1.0f32)).collect();
    normalize_f(&mut v);
    v
}

fn normalize_f(v: &mut Vec<f32>) {
    let norm = v.iter().map(|x| x * x).sum::<f32>().sqrt();
    for x in v.iter_mut() {
        *x /= norm;
    }
}

fn dot_f(a: &[f32], b: &[f32]) -> f32 {
    a.iter().zip(b.iter()).map(|(x, y)| x * y).sum()
}

fn orthonormalize(basis: &mut Vec<Vec<f32>>) {
    let dim = basis[0].len();
    for i in 0..basis.len() {
        normalize_f(&mut basis[i]);
        for j in i + 1..basis.len() {
            let d = dot_f(&basis[i], &basis[j]);
            for k in 0..dim {
                basis[j][k] -= d * basis[i][k];
            }
            normalize_f(&mut basis[j]);
        }
    }
}

fn to_bits(v: &[f32]) -> Vec<u32> {
    v.iter().map(|f| f.to_bits()).collect()
}

pub fn create_random_vector(dimensions: usize) -> Vec<u32> {
    to_bits(&random_unit(dimensions))
}

pub fn create_vector_set(dimensions: usize, count: usize) -> Vec<Vec<u32>> {
    (0..count).map(|_| create_random_vector(dimensions)).collect()
}

struct TestMath;

impl VectorMath for TestMath {
    fn dot_spec(_a: bbqvec::spec_types::Seq<u32>, _b: bbqvec::spec_types::Seq<u32>) -> u32 {
        panic!()
    }

    fn normalize_spec(_v: bbqvec::spec_types::Seq<u32>) -> bbqvec::spec_types::Seq<u32> {
        panic!()
    }

    fn dot(a: &Vec<u32>, b: &Vec<u32>) -> u32 {
        let mut acc = 0.0f32;
        for (x, y) in a.iter().zip(b.iter()) {
            acc += f32::from_bits(*x) * f32::from_bits(*y);
        }
        acc.to_bits()
    }

    fn normalize(v: &Vec<u32>) -> Vec<u32> {
        let mut fs: Vec<f32> = v.iter().map(|x| f32::from_bits(*x)).collect();
        normalize_f(&mut fs);
        to_bits(&fs)
    }

    fn make_basis(n_basis: usize, dimensions: usize) -> Vec<Vec<Vec<u32>>> {
        let mut bases = Vec::new();
        for _ in 0..n_basis {
            let mut basis: Vec<Vec<f32>> = (0..dimensions).map(|_| random_unit(dimensions)).collect();
            orthonormalize(&mut basis);
            bases.push(basis.iter().map(|v| to_bits(v)).collect());
        }
        bases
    }
}

/// Axis-aligned bases, for deterministic face assignment in tests.
struct AxisMath;

impl VectorMath for AxisMath {
    fn dot_spec(_a: bbqvec::spec_types::Seq<u32>, _b: bbqvec::spec_types::Seq<u32>) -> u32 {
        panic!()
    }

    fn normalize_spec(_v: bbqvec::spec_types::Seq<u32>) -> bbqvec::spec_types::Seq<u32> {
        panic!()
    }

    fn dot(a: &Vec<u32>, b: &Vec<u32>) -> u32 {
        TestMath::dot(a, b)
    }

    fn normalize(v: &Vec<u32>) -> Vec<u32> {
        TestMath::normalize(v)
    }

    fn make_basis(n_basis: usize, dimensions: usize) -> Vec<Vec<Vec<u32>>> {
        let mut bases = Vec::new();
        for _ in 0..n_basis {
            let mut basis = Vec::new();
            for i in 0..dimensions {
                let mut v = vec![0.0f32; dimensions];
                v[i] = 1.0;
                basis.push(to_bits(&v));
            }
            bases.push(basis);
        }
        bases
    }
}

type Mem = bbqvec::MemoryBackend<TestMath>;

#[test]
fn creates_a_vector() {
    let v = create_random_vector(20);
    assert_eq!(v.len(), 20);
}

#[test]
fn random_vector_unit_norm() {
    let v = create_random_vector(20);
    let norm = v.iter().map(|x| {
        let f = f32::from_bits(*x);
        f * f
    }).sum::<f32>().sqrt();
    assert!((norm - 1.0).abs() <= 1e-5);
}

#[test]
fn full_table_scan() {
    let vecs = create_vector_set(20, 200);
    let mut mem = Mem::new(20, 3).unwrap();
    for (id, v) in vecs.iter().enumerate() {
        mem.put_vector(id as u64, v).unwrap();
    }
    let target = create_random_vector(256);
    let _ = mem.find_nearest(&target, 20).unwrap();
    assert!(mem.vector_exists(0));
    assert!(!mem.vector_exists(1000));
    let ids = mem.iter_vector_ids();
    assert_eq!(ids.len(), 200);
    assert_eq!(ids[0], 0);
    assert_eq!(ids[199], 199);
    let info = mem.info();
    assert_eq!(info.dimensions, 20);
    assert_eq!(info.n_basis, 3);
    assert_eq!(info.quantization, "none");
    assert!(!info.has_index_data);
}

#[test]
fn built_index() {
    let vecs = create_vector_set(20, 2000);
    let mem = Mem::new(20, 10).unwrap();
    let mut store = bbqvec::VectorStore::new_croaring_bitmap(mem).unwrap();
    let items: Vec<(u64, Vec<u32>)> = vecs.into_iter().enumerate().map(|(i, v)| (i as u64, v)).collect();
    store.add_vector_iter(&items).unwrap();
}

#[test]
fn built_quantized_index() {
    let vecs = create_vector_set(20, 2000);
    let mem = bbqvec::QuantizedMemoryBackend::<bbqvec::BF16Quantization, TestMath>::new(20, 10)
        .unwrap();
    let mut store = bbqvec::VectorStore::new_croaring_bitmap(mem).unwrap();
    let items: Vec<(u64, Vec<u32>)> = vecs.into_iter().enumerate().map(|(i, v)| (i as u64, v)).collect();
    store.add_vector_iter(&items).unwrap();
}

#[test]
fn built_big_index() {
    let vecs = create_vector_set(256, 1000);
    let mem = Mem::new(256, 10).unwrap();
    let mut store = bbqvec::VectorStore::new_croaring_bitmap(mem).unwrap();
    let items: Vec<(u64, Vec<u32>)> = vecs.into_iter().enumerate().map(|(i, v)| (i as u64, v)).collect();
    store.add_vector_iter(&items).unwrap();
}

#[test]
fn test_create_basis() {
    let mut mem = Mem::new(2, 1).unwrap();
    let vecs = vec![
        vec![1.0f32, 0.0],
        vec![0.0, 1.0],
        vec![1.0, 1.0],
        vec![-1.0, 0.0],
    ];
    for (i, v) in vecs.iter().enumerate() {
        mem.put_vector(i as u64, &to_bits(v)).unwrap();
    }
    let basis_set = TestMath::make_basis(1, 2);
    assert_eq!(basis_set.len(), 1);
    assert_eq!(basis_set[0].len(), 2);
}

#[test]
fn test_make_bitmaps() {
}

#[test]
fn stored_vectors_are_normalized() {
    // Insert an unnormalised vector; the backend stores its unit form, so
    // scoring it against its own direction gives 1 within 1e-5.
    let mut mem = Mem::new(2, 1).unwrap();
    mem.put_vector(0, &to_bits(&[3.0, 4.0])).unwrap();
    let sim = mem.compute_similarity(&to_bits(&[0.6, 0.8]), 0).unwrap();
    assert!((f32::from_bits(sim) - 1.0).abs() <= 1e-5);
}

#[test]
fn tiny_store_axis_basis() {
    // Four 2-d vectors under one axis-aligned basis; querying [1, 0] with
    // k = 2, search_k = 2, spill = 1 returns ids 0 and 2 with similarities
    // 1 and the square root of one half.
    let mem = bbqvec::MemoryBackend::<AxisMath>::new(2, 1).unwrap();
    let mut store = bbqvec::VectorStore::new_croaring_bitmap(mem).unwrap();
    let vecs = vec![
        vec![1.0f32, 0.0],
        vec![0.0, 1.0],
        vec![1.0, 1.0],
        vec![-1.0, 0.0],
    ];
    for (i, v) in vecs.iter().enumerate() {
        store.add_vector(i as u64, &to_bits(v)).unwrap();
    }
    let rs = store.find_nearest(&to_bits(&[1.0, 0.0]), 2, 2, 1).unwrap();
    let results = rs.iter_results();
    assert_eq!(results.len(), 2);
    assert_eq!(results[0].id, 0);
    assert_eq!(results[1].id, 2);
    let sim0 = f32::from_bits(bbqvec::keys::bits_from_sim_key(results[0].similarity));
    let sim1 = f32::from_bits(bbqvec::keys::bits_from_sim_key(results[1].similarity));
    assert!((sim0 - 1.0).abs() <= 1e-6);
    assert!((sim1 - 0.5f32.sqrt()).abs() <= 1e-6);
}

#[test]
fn unindexed_store_full_scan_fallback() {
    // A store with no bases answers by full scan: the same results, in the
    // same order, as full_table_scan.
    let vecs = create_vector_set(20, 200);
    let mem = Mem::new(20, 0).unwrap();
    let mut store = bbqvec::VectorStore::new_croaring_bitmap(mem).unwrap();
    for (id, v) in vecs.iter().enumerate() {
        store.add_vector(id as u64, v).unwrap();
    }
    let target = create_random_vector(20);
    let a = store.find_nearest(&target, 20, 1, 0).unwrap();
    let b = store.full_table_scan(&target, 20).unwrap();
    assert_eq!(a.iter_results(), b.iter_results());
    assert_eq!(a.checked, b.checked);
}

#[test]
fn dimension_mismatch_is_rejected() {
    let mem = Mem::new(4, 2).unwrap();
    let mut store = bbqvec::VectorStore::new_roaring_bitmap(mem).unwrap();
    let err = store.add_vector(0, &to_bits(&[1.0, 0.0])).unwrap_err();
    assert_eq!(err, bbqvec::Error::DimensionMismatch);
    let err = store.find_nearest(&to_bits(&[1.0, 0.0]), 5, 1, 0).unwrap_err();
    assert_eq!(err, bbqvec::Error::DimensionMismatch);
}

#[test]
fn budget_unmet_is_reported() {
    let mem = Mem::new(2, 1).unwrap();
    let mut store = bbqvec::VectorStore::new_croaring_bitmap(mem).unwrap();
    store.add_vector(0, &to_bits(&[1.0, 0.0])).unwrap();
    // No layer can reach a budget larger than the number of stored ids.
    let err = store.find_nearest(&to_bits(&[1.0, 0.0]), 5, 100, 1).unwrap_err();
    assert_eq!(err, bbqvec::Error::BudgetUnmet);
}

#[test]
fn missing_vector_is_reported() {
    let mem = Mem::new(2, 1).unwrap();
    let err = mem.compute_similarity(&to_bits(&[1.0, 0.0]), 7).unwrap_err();
    assert_eq!(err, bbqvec::Error::MissingVector);
}

#[test]
fn ballot_growth_with_spill() {
    // With one basis the candidate layer is exactly the ballot, and the
    // number of candidates scored never shrinks as spill grows.
    let vecs = create_vector_set(8, 300);
    let mem = Mem::new(8, 1).unwrap();
    let mut store = bbqvec::VectorStore::new_croaring_bitmap(mem).unwrap();
    for (id, v) in vecs.iter().enumerate() {
        store.add_vector(id as u64, v).unwrap();
    }
    let target = create_random_vector(8);
    let mut last = 0;
    for spill in 0..8 {
        let rs = store.find_nearest(&target, 10, 1, spill).unwrap();
        assert!(rs.checked >= last);
        last = rs.checked;
    }
}

#[test]
fn faces_partition_inserted_ids() {
    // Under an axis-aligned 2-d basis the four vectors land in faces
    // +1: {0, 2}, +2: {1}, -1: {3}, -2: {}; together they partition the
    // inserted ids, and the same holds for every basis.
    let mem = bbqvec::MemoryBackend::<AxisMath>::new(2, 3).unwrap();
    let mut store = bbqvec::VectorStore::new_croaring_bitmap(mem).unwrap();
    let vecs = vec![
        vec![1.0f32, 0.0],
        vec![0.0, 1.0],
        vec![1.0, 1.0],
        vec![-1.0, 0.0],
    ];
    for (i, v) in vecs.iter().enumerate() {
        store.add_vector(i as u64, &to_bits(v)).unwrap();
    }
    assert!(store.is_indexed(2));
    assert!(!store.is_indexed(9));
    for basis in 0..3 {
        assert_eq!(store.face_members(basis, 0), vec![0, 2]);
        assert_eq!(store.face_members(basis, 1), vec![3]);
        assert_eq!(store.face_members(basis, 2), vec![1]);
        assert_eq!(store.face_members(basis, 3), Vec::<u64>::new());
        let mut all: Vec<u64> = Vec::new();
        for slot in 0..4 {
            all.extend(store.face_members(basis, slot));
        }
        all.sort_unstable();
        assert_eq!(all, vec![0, 1, 2, 3]);
    }
}

#[test]
fn zero_k_and_tied_similarities() {
    let mem = bbqvec::MemoryBackend::<AxisMath>::new(2, 1).unwrap();
    let mut store = bbqvec::VectorStore::new_croaring_bitmap(mem).unwrap();
    store.add_vector(7, &to_bits(&[1.0, 0.0])).unwrap();
    store.add_vector(8, &to_bits(&[1.0, 0.0])).unwrap();
    // A zero-capacity query still succeeds and still counts candidates.
    let rs = store.find_nearest(&to_bits(&[1.0, 0.0]), 0, 1, 0).unwrap();
    assert_eq!(rs.len(), 0);
    assert!(rs.is_empty());
    assert_eq!(rs.checked, 2);
    // Tied similarities keep the earlier candidate first.
    let rs = store.find_nearest(&to_bits(&[1.0, 0.0]), 2, 1, 0).unwrap();
    let ids: Vec<u64> = rs.iter_results().iter().map(|r| r.id).collect();
    assert_eq!(ids, vec![7, 8]);
}
