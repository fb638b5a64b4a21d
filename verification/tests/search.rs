use bbqvec::VectorMath;
use rand::RngExt;

fn random_unit(dimensions: usize) -> Vec<f32> {
    let mut rng = rand::rng();
    let mut v: Vec<f32> = (0..dimensions).map(|_| rng.random_range(-1.0f32..1.0f32)).collect();
    normalize_f(&mut v);
    v
}

fn normalize_f(v: &mut Vec<f32>) {
    let norm = v.iter().map(|x| x * x).sum::<f32>().sqrt();
    for x in v.iter_mut() {
        *x /= norm;
    }
}

fn dot_f(a: &[f32], b: &[f32]) -> f32 {
    a.iter().zip(b.iter()).map(|(x, y)| x * y).sum()
}

fn orthonormalize(basis: &mut Vec<Vec<f32>>) {
    let dim = basis[0].len();
    for i in 0..basis.len() {
        normalize_f(&mut basis[i]);
        for j in i + 1..basis.len() {
            let d = dot_f(&basis[i], &basis[j]);
            for k in 0..dim {
                basis[j][k] -= d * basis[i][k];
            }
            normalize_f(&mut basis[j]);
        }
    }
}

fn to_bits(v: &[f32]) -> Vec<u32> {
    v.iter().map(|f| f.to_bits()).collect()
}

fn create_random_vector(dimensions: usize) -> Vec<u32> {
    to_bits(&random_unit(dimensions))
}

fn create_vector_set(dimensions: usize, count: usize) -> Vec<Vec<u32>> {
    (0..count).map(|_| create_random_vector(dimensions)).collect()
}

struct SearchMath;

impl VectorMath for SearchMath {
    fn dot_spec(_a: bbqvec::spec_types::Seq<u32>, _b: bbqvec::spec_types::Seq<u32>) -> u32 {
        panic!()
    }

    fn normalize_spec(_v: bbqvec::spec_types::Seq<u32>) -> bbqvec::spec_types::Seq<u32> {
        panic!()
    }

    fn dot(a: &Vec<u32>, b: &Vec<u32>) -> u32 {
        let mut acc = 0.0f32;
        for (x, y) in a.iter().zip(b.iter()) {
            acc += f32::from_bits(*x) * f32::from_bits(*y);
        }
        acc.to_bits()
    }

    fn normalize(v: &Vec<u32>) -> Vec<u32> {
        let mut fs: Vec<f32> = v.iter().map(|x| f32::from_bits(*x)).collect();
        normalize_f(&mut fs);
        to_bits(&fs)
    }

    fn make_basis(n_basis: usize, dimensions: usize) -> Vec<Vec<Vec<u32>>> {
        let mut bases = Vec::new();
        for _ in 0..n_basis {
            let mut basis: Vec<Vec<f32>> = (0..dimensions).map(|_| random_unit(dimensions)).collect();
            orthonormalize(&mut basis);
            bases.push(basis.iter().map(|v| to_bits(v)).collect());
        }
        bases
    }
}

#[test]
fn search_index() {
    let data = create_vector_set(10, 100_000);
    let mem = bbqvec::MemoryBackend::<SearchMath>::new(10, 10).unwrap();
    let mut store = bbqvec::VectorStore::new_croaring_bitmap(mem).unwrap();
    println!("Made store");
    let items: Vec<(u64, Vec<u32>)> = data.into_iter().enumerate().map(|(i, v)| (i as u64, v)).collect();
    store.add_vector_iter(&items).unwrap();
    println!("itered");
    println!("built");
    for _i in 0..1000 {
        let target = create_random_vector(10);
        store.find_nearest(&target, 20, 1000, 1).unwrap();
    }
}

#[test]
fn recall_against_full_scan() {
    // Build an index over random unit vectors and check that accelerated
    // queries recover most of the exact top twenty.
    let dims = 10;
    let count = 20_000;
    let queries = 50;
    let data = create_vector_set(dims, count);
    let mem = bbqvec::MemoryBackend::<SearchMath>::new(dims, 10).unwrap();
    let mut store = bbqvec::VectorStore::new_croaring_bitmap(mem).unwrap();
    let items: Vec<(u64, Vec<u32>)> = data.into_iter().enumerate().map(|(i, v)| (i as u64, v)).collect();
    store.add_vector_iter(&items).unwrap();
    let mut found: usize = 0;
    let mut total: usize = 0;
    for _ in 0..queries {
        let target = create_random_vector(dims);
        let exact = store.full_table_scan(&target, 20).unwrap();
        let fast = store.find_nearest(&target, 20, 1000, 1).unwrap();
        found += fast.compute_recall(&exact, 20);
        total += 20;
    }
    let recall = found as f64 / total as f64;
    assert!(recall >= 0.8, "recall {recall} below the expected floor");
}
