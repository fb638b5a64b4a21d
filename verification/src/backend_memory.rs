//! The in-memory backend: a sparse, growable array of stored vectors,
//! indexed by id.
//!
//! Vectors are normalised by the plugged-in kernel and lowered by the chosen
//! quantization before they are kept.  The index over this backend is
//! transient: nothing is persisted.

use vstd::prelude::*;

use crate::backend::BackendInfo;
use crate::backend::VectorBackend;
use crate::bitmaps::Bitmap;
use crate::error::Error;
use crate::math::VectorMath;
use crate::quantization::NoQuantization;
use crate::quantization::Quantization;
use crate::Basis;
use crate::Vector;
use crate::ID;
use crate::ID_LIMIT;

verus! {

broadcast use vstd::string::to_string_from_display_ensures_for_str;

/// A backend keeping lowered vectors in a sparse array indexed by id.
pub struct QuantizedMemoryBackend<Q: Quantization, M: VectorMath> {
    vecs: Vec<Option<Q::Lower>>,
    dimensions: usize,
    n_basis: usize,
    math: core::marker::PhantomData<M>,
}

/// The in-memory backend without quantization.
pub type MemoryBackend<M> = QuantizedMemoryBackend<NoQuantization, M>;

impl<Q: Quantization, M: VectorMath> QuantizedMemoryBackend<Q, M> {
    /// An empty backend for vectors of the given dimensionality, to be
    /// indexed with `n_basis` bases.
    pub fn new(dimensions: usize, n_basis: usize) -> (r: Result<Self, Error>)
        ensures
            r matches Ok(b) ==> {
                &&& b.inv()
                &&& b.spec_dimensions() == dimensions
                &&& b.spec_n_basis() == n_basis
                &&& b.spec_ids() == Set::<u64>::empty()
                &&& b.spec_quantization() == Q::name_spec()
                &&& !b.spec_has_index_data()
            },
            r is Ok,
    {
        let b = QuantizedMemoryBackend {
            vecs: Vec::new(),
            dimensions,
            n_basis,
            math: core::marker::PhantomData,
        };
        proof {
            assert(b.spec_ids() =~= Set::<u64>::empty());
        }
        Ok(b)
    }
}

impl<Q: Quantization, M: VectorMath> VectorBackend for QuantizedMemoryBackend<Q, M> {
    closed spec fn inv(&self) -> bool {
        self.vecs@.len() <= ID_LIMIT
    }

    closed spec fn spec_dimensions(&self) -> nat {
        self.dimensions as nat
    }

    closed spec fn spec_n_basis(&self) -> nat {
        self.n_basis as nat
    }

    closed spec fn spec_ids(&self) -> Set<u64> {
        Set::new(|id: u64| id < self.vecs@.len() && self.vecs@[id as int] is Some)
    }

    closed spec fn spec_stored(&self, id: u64) -> Seq<u32> {
        if id < self.vecs@.len() && self.vecs@[id as int] is Some {
            Q::raw_spec(&self.vecs@[id as int].unwrap())
        } else {
            Seq::empty()
        }
    }

    open spec fn spec_store_form(&self, v: Seq<u32>) -> Seq<u32> {
        Q::lower_spec(M::normalize_spec(v))
    }

    open spec fn spec_persisted_bases(&self) -> Option<Seq<Basis>> {
        None
    }

    open spec fn spec_persisted_bitmap(&self, basis: int, face: int) -> Option<Set<u64>> {
        None
    }

    open spec fn spec_project(&self, a: Seq<u32>, b: Seq<u32>) -> u32 {
        M::dot_spec(a, b)
    }

    open spec fn spec_quantization(&self) -> Seq<char> {
        Q::name_spec()
    }

    open spec fn spec_has_index_data(&self) -> bool {
        false
    }

    fn put_vector(&mut self, id: ID, v: &Vector) -> (r: Result<(), Error>) {
        if v.len() != self.dimensions {
            return Err(Error::DimensionMismatch);
        }
        let uid = id as usize;
        let ghost pre = self.vecs@;
        while self.vecs.len() <= uid
            invariant
                uid < ID_LIMIT,
                pre.len() <= self.vecs@.len(),
                self.vecs@.len() == pre.len() || self.vecs@.len() <= uid + 1,
                self.dimensions == old(self).dimensions,
                self.n_basis == old(self).n_basis,
                forall|j: int| 0 <= j < pre.len() ==> self.vecs@[j] == pre[j],
                forall|j: int| pre.len() <= j < self.vecs@.len() ==> self.vecs@[j] is None,
            decreases uid + 1 - self.vecs@.len(),
        {
            self.vecs.push(None);
        }
        let normalized = M::normalize(v);
        let lowered = match Q::lower(normalized) {
            Ok(l) => l,
            Err(e) => {
                proof {
                    assert(false);
                }
                return Err(e);
            },
        };
        let ghost grown = self.vecs@;
        let slot = &mut self.vecs[uid];
        *slot = Some(lowered);
        proof {
            assert(self.vecs@ == grown.update(uid as int, Some(lowered)));
            assert(self.spec_ids() =~= old(self).spec_ids().insert(id));
            assert(self.spec_stored(id) == Q::raw_spec(&lowered));
            assert forall|j: u64|
                j != id implies #[trigger] self.spec_stored(j) == old(self).spec_stored(j) by {
                if j < grown.len() {
                    assert(self.vecs@[j as int] == grown[j as int]);
                }
            }
        }
        Ok(())
    }

    fn compute_similarity(&self, target: &Vector, target_id: ID) -> (r: Result<u32, Error>) {
        if target_id >= self.vecs.len() as u64 {
            proof {
                assert(!self.spec_ids().contains(target_id));
            }
            return Err(Error::MissingVector);
        }
        let uid = target_id as usize;
        match &self.vecs[uid] {
            Some(l) => {
                let raw = Q::rehydrate(l);
                Ok(M::dot(target, &raw))
            },
            None => {
                proof {
                    assert(!self.spec_ids().contains(target_id));
                }
                Err(Error::MissingVector)
            },
        }
    }

    fn project(&self, a: &Vector, b: &Vector) -> (r: u32) {
        M::dot(a, b)
    }

    fn make_basis(&self) -> (r: Vec<Basis>) {
        M::make_basis(self.n_basis, self.dimensions)
    }

    fn info(&self) -> (r: BackendInfo) {
        BackendInfo {
            quantization: Q::name().to_string(),
            has_index_data: false,
            dimensions: self.dimensions,
            n_basis: self.n_basis,
            vector_count: self.vecs.len(),
        }
    }

    fn iter_vector_ids(&self) -> (r: Vec<ID>) {
        let mut out: Vec<ID> = Vec::new();
        let n = self.vecs.len();
        let mut i: usize = 0;
        while i < n
            invariant
                i <= n,
                n == self.vecs@.len(),
                n <= ID_LIMIT,
                forall|p: int, q: int| 0 <= p < q < out@.len() ==> out@[p] < out@[q],
                forall|p: int| 0 <= p < out@.len() ==> out@[p] < i,
                forall|x: u64|
                    #[trigger] out@.contains(x) <==> (x < i && self.vecs@[x as int] is Some),
            decreases n - i,
        {
            let id = i as u64;
            let is_some = self.vecs[i].is_some();
            if is_some {
                let ghost before = out@;
                out.push(id);
                proof {
                    assert forall|x: u64| #[trigger] out@.contains(x) <==> (x < i + 1
                        && self.vecs@[x as int] is Some) by {
                        if out@.contains(x) {
                            let q = choose|q: int| 0 <= q < out@.len() && out@[q] == x;
                            if q < before.len() {
                                assert(before[q] == x);
                                assert(before.contains(x));
                            } else {
                                assert(x == id);
                            }
                        }
                        if x < i + 1 && self.vecs@[x as int] is Some {
                            if x < i {
                                assert(before.contains(x));
                                let q = choose|q: int| 0 <= q < before.len() && before[q] == x;
                                assert(out@[q] == x);
                            } else {
                                assert(out@[out@.len() - 1] == x);
                            }
                        }
                    }
                }
            }
            i = i + 1;
        }
        proof {
            assert forall|x: u64| #[trigger] out@.contains(x) <==> self.spec_ids().contains(
                x,
            ) by {}
        }
        out
    }

    fn vector_exists(&self, id: ID) -> (r: bool) {
        if id >= self.vecs.len() as u64 {
            proof {
                assert(!self.spec_ids().contains(id));
            }
            return false;
        }
        self.vecs[id as usize].is_some()
    }

    fn close(self) -> (r: Result<(), Error>) {
        Ok(())
    }

    fn load_bases(&self) -> (r: Result<Option<Vec<Basis>>, Error>) {
        Ok(None)
    }

    fn load_bitmap<T: Bitmap>(&mut self, basis: usize, index: i32) -> (r: Result<
        Option<T>,
        Error,
    >) {
        Ok(None)
    }
}

} // verus!
