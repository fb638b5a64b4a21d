//! The index itself: random orthonormal bases and, per basis, one bitmap per
//! face of the unit sphere, orchestrating ingest and queries.
//!
//! A face is named by a signed nonzero integer: `+k` is axis `k - 1` with
//! positive projection, `-k` the same axis negative.  A basis of
//! dimensionality `D` has `2 * D` faces, stored densely with face `f` at
//! slot `2 * (|f| - 1) + (if f > 0 { 0 } else { 1 })`.

use vstd::prelude::*;

use crate::backend::lemma_sorted_unique;
use crate::backend::spec_sorted_asc;
use crate::backend::spec_sorted_ids;
use crate::backend::VectorBackend;
use crate::bitmaps::bounded_id_set;
use crate::bitmaps::Bitmap;
use crate::bitmaps::BitVec;
use crate::bitmaps::CRoaringBitmap;
use crate::bitmaps::RoaringBitmap;
use crate::counting_bitmap::lemma_counting_semantics;
use crate::counting_bitmap::lemma_top_layer_range;
use crate::counting_bitmap::spec_hits;
use crate::counting_bitmap::spec_top_layer;
use crate::counting_bitmap::CountingBitmap;
use crate::result::spec_scan;
use crate::result::ResultSet;
use crate::error::Error;
use crate::keys::spec_is_positive;
use crate::keys::spec_magnitude;
use crate::keys::spec_sim_key;
use crate::keys::sim_key_from_bits;
use crate::keys::SIGN_BIT;
use crate::Basis;
use crate::Vector;
use crate::ID;
use crate::ID_LIMIT;

verus! {

/// Inclusive upper bound on dimensionality: faces are numbered with 32-bit
/// signed integers, and slot arithmetic must not overflow on any platform.
pub const DIM_LIMIT: usize = 0x3FFF_FFFF;

/// The first index of a maximal entry of `s`, ordering entries as the floats
/// their bit patterns encode (via the order key).
pub open spec fn spec_argmax_key(s: Seq<u32>) -> int
    decreases s.len(),
{
    if s.len() <= 1 {
        0
    } else {
        let p = spec_argmax_key(s.drop_last());
        if spec_sim_key(s.last()) > spec_sim_key(s[p]) {
            s.len() - 1
        } else {
            p
        }
    }
}

/// The first index of a minimal entry of `s`, in the same order.
pub open spec fn spec_argmin_key(s: Seq<u32>) -> int
    decreases s.len(),
{
    if s.len() <= 1 {
        0
    } else {
        let p = spec_argmin_key(s.drop_last());
        if spec_sim_key(s.last()) < spec_sim_key(s[p]) {
            s.len() - 1
        } else {
            p
        }
    }
}

/// The dominant axis of a projection vector: whichever of the maximal and
/// minimal entries has the larger magnitude, ties broken toward the maximal
/// side.
pub open spec fn spec_face_axis(proj: Seq<u32>) -> int {
    let amax = spec_argmax_key(proj);
    let amin = spec_argmin_key(proj);
    if spec_magnitude(proj[amax]) >= spec_magnitude(proj[amin]) {
        amax
    } else {
        amin
    }
}

/// The face a projection vector selects: the dominant axis, one-based, with
/// the sign of its entry.
pub open spec fn spec_find_face_idx(proj: Seq<u32>) -> int {
    let axis = spec_face_axis(proj);
    if spec_is_positive(proj[axis]) {
        axis + 1
    } else {
        -(axis + 1)
    }
}

/// The storage slot of a face index.
pub open spec fn spec_face_slot(face: int) -> int {
    if face > 0 {
        2 * (face - 1)
    } else {
        2 * (-face - 1) + 1
    }
}

proof fn lemma_argmax_key_in_range(s: Seq<u32>)
    requires
        s.len() >= 1,
    ensures
        0 <= spec_argmax_key(s) < s.len(),
        0 <= spec_argmin_key(s) < s.len(),
    decreases s.len(),
{
    if s.len() > 1 {
        lemma_argmax_key_in_range(s.drop_last());
    }
}

/// A face index is nonzero and at most the dimensionality in magnitude; its
/// slot lies below `2 * proj.len()`.
pub proof fn lemma_face_idx_range(proj: Seq<u32>)
    requires
        proj.len() >= 1,
    ensures
        1 <= spec_find_face_idx(proj) <= proj.len() || -(proj.len() as int) <= spec_find_face_idx(
            proj,
        ) <= -1,
        0 <= spec_face_slot(spec_find_face_idx(proj)) < 2 * proj.len(),
{
    lemma_argmax_key_in_range(proj);
}

/// Selects the face of a projection vector: the entry whose float magnitude
/// is largest decides the axis (ties prefer the maximal side), its sign the
/// face's sign.
pub fn find_face_idx(projection: &Vector) -> (r: i32)
    requires
        1 <= projection@.len() <= DIM_LIMIT,
    ensures
        r as int == spec_find_face_idx(projection@),
{
    let n = projection.len();
    let mut amax: usize = 0;
    let mut amin: usize = 0;
    let mut kmax: u32 = sim_key_from_bits(projection[0]);
    let mut kmin: u32 = kmax;
    let mut j: usize = 1;
    proof {
        assert(projection@.take(1).len() == 1);
        assert(projection@.take(1)[0] == projection@[0]);
    }
    while j < n
        invariant
            1 <= j <= n,
            n == projection@.len(),
            amax < j,
            amin < j,
            kmax == spec_sim_key(projection@[amax as int]),
            kmin == spec_sim_key(projection@[amin as int]),
            amax as int == spec_argmax_key(projection@.take(j as int)),
            amin as int == spec_argmin_key(projection@.take(j as int)),
        decreases n - j,
    {
        let kj = sim_key_from_bits(projection[j]);
        proof {
            assert(projection@.take(j as int + 1).drop_last() =~= projection@.take(j as int));
            assert(projection@.take(j as int + 1).last() == projection@[j as int]);
        }
        if kj > kmax {
            amax = j;
            kmax = kj;
        }
        if kj < kmin {
            amin = j;
            kmin = kj;
        }
        j = j + 1;
    }
    proof {
        assert(projection@.take(n as int) =~= projection@);
    }
    let axis = if (projection[amax] & 0x7FFF_FFFF) >= (projection[amin] & 0x7FFF_FFFF) {
        amax
    } else {
        amin
    };
    let bits = projection[axis];
    if bits & SIGN_BIT == 0 && bits != 0 {
        (axis as i32) + 1
    } else {
        -((axis as i32) + 1)
    }
}

/// The storage slot of a face index.
pub fn face_slot(face: i32, dimensions: usize) -> (r: usize)
    requires
        dimensions <= DIM_LIMIT,
        1 <= face <= dimensions || -(dimensions as int) <= face <= -1,
    ensures
        r == spec_face_slot(face as int),
        r < 2 * dimensions,
{
    if face > 0 {
        2 * ((face as usize) - 1)
    } else {
        2 * (((-face) as usize) - 1) + 1
    }
}

/// The ids of a batch of insert pairs.
pub open spec fn spec_batch_ids(items: Seq<(u64, Vector)>) -> Set<u64> {
    Set::new(|x: u64| exists|p: int| 0 <= p < items.len() && (#[trigger] items[p]).0 == x)
}

/// The face stored at slot `s`: positive for even slots, negative for odd.
pub open spec fn spec_slot_face(s: int) -> int {
    if s % 2 == 0 {
        s / 2 + 1
    } else {
        -(s / 2 + 1)
    }
}

/// What a store loads into slot `s` of basis `i` from a backend: the
/// persisted bitmap of that slot's face, or the empty set.
pub open spec fn spec_loaded_face<E: VectorBackend>(backend: E, i: int, s: int) -> Set<u64> {
    match backend.spec_persisted_bitmap(i, spec_slot_face(s)) {
        Some(ids) => ids,
        None => Set::empty(),
    }
}

/// The ids counted by at least `j + 1` of the sets in `hist`.
pub open spec fn spec_layer(hist: Seq<Set<u64>>, j: int) -> Set<u64> {
    Set::new(|id: u64| spec_hits(hist, id) >= j + 1)
}

/// The candidate layers of a query: layer `j` holds the ids endorsed by at
/// least `j + 1` ballots.
pub open spec fn spec_query_layers(hist: Seq<Set<u64>>) -> Seq<Set<u64>> {
    Seq::new(hist.len(), |j: int| spec_layer(hist, j))
}

/// The vector index: a backend, `B` random orthonormal bases, and one face
/// bitmap per (basis, face).
pub struct VectorStore<E: VectorBackend, B: Bitmap> {
    backend: E,
    dimensions: usize,
    bases: Vec<Basis>,
    bitmaps: Vec<Vec<B>>,
    indexed: Ghost<Set<u64>>,
    partitioned: Ghost<bool>,
}

impl<E: VectorBackend, B: Bitmap> VectorStore<E, B> {
    /// The backend, for contracts.
    pub closed spec fn spec_backend(&self) -> E {
        self.backend
    }

    /// The configured dimensionality.
    pub closed spec fn spec_dimensions(&self) -> nat {
        self.dimensions as nat
    }

    /// The number of bases.
    pub closed spec fn n_bases(&self) -> nat {
        self.bases@.len()
    }

    /// Basis vector `j` of basis `i`.
    pub closed spec fn basis_vec(&self, i: int, j: int) -> Seq<u32> {
        self.bases@[i]@[j]@
    }

    /// The id set of the face bitmap at slot `s` of basis `i`.
    pub closed spec fn face_elems(&self, i: int, s: int) -> Set<u64> {
        self.bitmaps@[i]@[s].elems()
    }

    /// Whether some face of basis `i` holds `id`.
    pub open spec fn covers(&self, i: int, id: u64) -> bool {
        exists|s: int|
            0 <= s < 2 * self.spec_dimensions() && (#[trigger] self.face_elems(i, s)).contains(id)
    }

    /// The ids routed into the face bitmaps through this store.
    pub closed spec fn indexed(&self) -> Set<u64> {
        self.indexed@
    }

    /// Whether the face bitmaps are known to partition `indexed()`: true for
    /// any store whose loaded bitmaps were all empty (in particular a fresh
    /// one), and kept true by insertion.
    pub closed spec fn is_partitioned(&self) -> bool {
        self.partitioned@
    }

    /// The projections of `v` onto basis `i`, as `f32` bits.
    pub open spec fn spec_projections(&self, v: Seq<u32>, i: int) -> Seq<u32> {
        Seq::new(self.spec_dimensions(), |j: int| self.spec_backend().spec_project(v, self.basis_vec(i, j)))
    }

    /// The face slot `v` falls in under basis `i`.
    pub open spec fn spec_face_of(&self, v: Seq<u32>, i: int) -> int {
        spec_face_slot(spec_find_face_idx(self.spec_projections(v, i)))
    }

    /// Well-formedness: shapes agree with the backend's configuration, every
    /// face bitmap is a bounded id set, and — where `is_partitioned()` —
    /// within each basis the face bitmaps are pairwise disjoint and their
    /// union is exactly `indexed()`.
    pub closed spec fn inv(&self) -> bool {
        &&& self.backend.inv()
        &&& 1 <= self.dimensions <= DIM_LIMIT
        &&& self.dimensions == self.backend.spec_dimensions()
        &&& self.bases@.len() == self.bitmaps@.len()
        &&& forall|i: int| 0 <= i < self.bases@.len() ==> (#[trigger] self.bases@[i])@.len()
            == self.dimensions
        &&& forall|i: int, j: int|
            0 <= i < self.bases@.len() && 0 <= j < self.bases@[i]@.len() ==> (
            #[trigger] self.bases@[i]@[j])@.len() == self.dimensions
        &&& forall|i: int| 0 <= i < self.bitmaps@.len() ==> (#[trigger] self.bitmaps@[i])@.len()
            == 2 * self.dimensions
        &&& forall|i: int, s: int|
            0 <= i < self.bitmaps@.len() && 0 <= s < self.bitmaps@[i]@.len() ==> bounded_id_set(
                (#[trigger] self.bitmaps@[i]@[s]).elems(),
            )
        &&& self.partitioned@ ==> forall|i: int, s: int, t: int|
            0 <= i < self.bitmaps@.len() && 0 <= s < t < self.bitmaps@[i]@.len() ==> (
            #[trigger] self.bitmaps@[i]@[s].elems()).disjoint(#[trigger] self.bitmaps@[i]@[t].elems())
        &&& self.partitioned@ ==> forall|i: int, id: u64|
            #![trigger self.bitmaps@[i], self.indexed@.contains(id)]
            0 <= i < self.bitmaps@.len() ==> (self.indexed@.contains(id) <==> exists|s: int|
                0 <= s < self.bitmaps@[i]@.len() && (#[trigger] self.bitmaps@[i]@[s].elems()).contains(
                    id,
                ))
    }

    /// The bases, for contracts.
    pub closed spec fn spec_bases(&self) -> Seq<Basis> {
        self.bases@
    }

    /// Builds a store over a backend: persisted bases are kept as loaded and
    /// fresh ones drawn only where none are persisted, and every face bitmap
    /// holds exactly what the backend persisted for its face (empty where
    /// nothing is).  A backend configured with zero or oversized
    /// dimensionality is rejected with the dimension error, and exactly
    /// then; any other failure comes from a backend load.
    pub fn new(backend: E) -> (r: Result<Self, Error>)
        requires
            backend.inv(),
        ensures
            r matches Ok(s) ==> {
                &&& s.inv()
                &&& s.spec_dimensions() == backend.spec_dimensions()
                &&& s.n_bases() == backend.spec_n_basis()
                &&& s.spec_backend() == backend
                &&& backend.spec_persisted_bases() matches Some(pb) ==> s.spec_bases() == pb
                &&& forall|i: int, t: int|
                    0 <= i < s.n_bases() && 0 <= t < 2 * s.spec_dimensions()
                        ==> #[trigger] s.face_elems(i, t) == spec_loaded_face(backend, i, t)
                &&& s.is_partitioned() ==> s.indexed() == Set::<u64>::empty()
                &&& (forall|i: int, f: int|
                    #[trigger] backend.spec_persisted_bitmap(i, f) is None) ==> s.is_partitioned()
            },
            (backend.spec_dimensions() == 0 || backend.spec_dimensions() > DIM_LIMIT) <==> r
                == Err::<Self, Error>(Error::DimensionMismatch),
            r matches Err(e) ==> e == Error::DimensionMismatch || e == Error::IoFailure || e
                == Error::SerializationFailure,
    {
        let mut be = backend;
        let info = be.info();
        if info.dimensions == 0 || info.dimensions > DIM_LIMIT {
            return Err(Error::DimensionMismatch);
        }
        let dimensions = info.dimensions;
        let bases = match be.load_bases() {
            Ok(Some(b)) => b,
            Ok(None) => be.make_basis(),
            Err(e) => {
                return Err(e);
            },
        };
        let ghost b0 = be;
        let n_basis = bases.len();
        let mut bitmaps: Vec<Vec<B>> = Vec::new();
        let mut all_empty: bool = true;
        let mut i: usize = 0;
        while i < n_basis
            invariant
                i <= n_basis,
                be == b0,
                b0 == backend,
                be.inv(),
                1 <= dimensions <= DIM_LIMIT,
                dimensions == b0.spec_dimensions(),
                bitmaps@.len() == i,
                forall|p: int| 0 <= p < i ==> (#[trigger] bitmaps@[p])@.len() == 2 * dimensions,
                forall|p: int, s: int|
                    0 <= p < i && 0 <= s < bitmaps@[p]@.len() ==> bounded_id_set(
                        (#[trigger] bitmaps@[p]@[s]).elems(),
                    ),
                forall|p: int, s: int|
                    0 <= p < i && 0 <= s < bitmaps@[p]@.len() ==> (
                    #[trigger] bitmaps@[p]@[s]).elems() == spec_loaded_face(b0, p, s),
                all_empty ==> forall|p: int, s: int|
                    0 <= p < i && 0 <= s < bitmaps@[p]@.len() ==> (
                    #[trigger] bitmaps@[p]@[s]).elems() == Set::<u64>::empty(),
                (forall|p: int, f: int| #[trigger] b0.spec_persisted_bitmap(p, f) is None)
                    ==> all_empty,
            decreases n_basis - i,
        {
            let mut row: Vec<B> = Vec::new();
            let mut s: usize = 0;
            while s < 2 * dimensions
                invariant
                    s <= 2 * dimensions,
                    be == b0,
                b0 == backend,
                    be.inv(),
                    1 <= dimensions <= DIM_LIMIT,
                    dimensions == b0.spec_dimensions(),
                    i < n_basis,
                    row@.len() == s,
                    forall|t: int| 0 <= t < s ==> bounded_id_set((#[trigger] row@[t]).elems()),
                    forall|t: int|
                        0 <= t < s ==> (#[trigger] row@[t]).elems() == spec_loaded_face(b0, i as int, t),
                    all_empty ==> forall|t: int|
                        0 <= t < s ==> (#[trigger] row@[t]).elems() == Set::<u64>::empty(),
                    bitmaps@.len() == i,
                    forall|p: int, t: int|
                        0 <= p < i && 0 <= t < bitmaps@[p]@.len() ==> (
                        #[trigger] bitmaps@[p]@[t]).elems() == spec_loaded_face(b0, p, t),
                    all_empty ==> forall|p: int, t: int|
                        0 <= p < i && 0 <= t < bitmaps@[p]@.len() ==> (
                        #[trigger] bitmaps@[p]@[t]).elems() == Set::<u64>::empty(),
                    (forall|p: int, f: int| #[trigger] b0.spec_persisted_bitmap(p, f) is None)
                        ==> all_empty,
                decreases 2 * dimensions - s,
            {
                let axis = s / 2;
                let face: i32 = if s % 2 == 0 {
                    (axis as i32) + 1
                } else {
                    -((axis as i32) + 1)
                };
                proof {
                    assert(face as int == spec_slot_face(s as int));
                }
                let bm: B = match be.load_bitmap::<B>(i, face) {
                    Ok(Some(bm)) => {
                        all_empty = all_empty && bm.is_empty();
                        bm
                    },
                    Ok(None) => B::new(),
                    Err(e) => {
                        return Err(e);
                    },
                };
                row.push(bm);
                s = s + 1;
            }
            bitmaps.push(row);
            i = i + 1;
        }
        let store = VectorStore {
            backend: be,
            dimensions,
            bases,
            bitmaps,
            indexed: Ghost(Set::empty()),
            partitioned: Ghost(all_empty),
        };
        proof {
            if all_empty {
                assert forall|p: int, id: u64|
                    #![trigger store.bitmaps@[p], store.indexed@.contains(id)]
                    0 <= p < store.bitmaps@.len() implies (store.indexed@.contains(id)
                    <==> exists|s: int|
                    0 <= s < store.bitmaps@[p]@.len() && (
                    #[trigger] store.bitmaps@[p]@[s].elems()).contains(id)) by {
                    if exists|s: int|
                        0 <= s < store.bitmaps@[p]@.len() && (
                        #[trigger] store.bitmaps@[p]@[s].elems()).contains(id) {
                        let s = choose|s: int|
                            0 <= s < store.bitmaps@[p]@.len() && (
                            #[trigger] store.bitmaps@[p]@[s].elems()).contains(id);
                        assert(store.bitmaps@[p]@[s].elems() == Set::<u64>::empty());
                        assert(false);
                    }
                }
            }
        }
        Ok(store)
    }

    /// Routes `id` into the face bitmap `vector` selects under every basis.
    fn add_to_bitmaps(&mut self, id: ID, vector: &Vector)
        requires
            old(self).inv(),
            id < ID_LIMIT,
            !old(self).indexed().contains(id),
        ensures
            final(self).inv(),
            final(self).spec_backend() == old(self).spec_backend(),
            final(self).spec_dimensions() == old(self).spec_dimensions(),
            final(self).spec_bases() == old(self).spec_bases(),
            final(self).n_bases() == old(self).n_bases(),
            final(self).indexed() == old(self).indexed().insert(id),
            final(self).is_partitioned() == old(self).is_partitioned(),
            forall|i: int, s: int|
                #![trigger final(self).face_elems(i, s)]
                0 <= i < old(self).n_bases() && 0 <= s < 2 * old(self).spec_dimensions()
                    ==> final(self).face_elems(i, s) == if s == old(self).spec_face_of(
                    vector@,
                    i,
                ) {
                    old(self).face_elems(i, s).insert(id)
                } else {
                    old(self).face_elems(i, s)
                },
    {
        let ghost pre = *old(self);
        let n = self.bases.len();
        let dims = self.dimensions;
        let mut i: usize = 0;
        while i < n
            invariant
                i <= n,
                pre.inv(),
                id < ID_LIMIT,
                !pre.indexed@.contains(id),
                n == pre.bases@.len(),
                dims == pre.dimensions,
                self.backend == pre.backend,
                self.dimensions == pre.dimensions,
                self.bases@ == pre.bases@,
                self.indexed@ == pre.indexed@,
                self.partitioned@ == pre.partitioned@,
                self.bitmaps@.len() == pre.bitmaps@.len(),
                forall|p: int| i <= p < n ==> #[trigger] self.bitmaps@[p] == pre.bitmaps@[p],
                forall|p: int| 0 <= p < i ==> (#[trigger] self.bitmaps@[p])@.len() == 2 * dims,
                forall|p: int, s: int|
                    #![trigger self.bitmaps@[p]@[s]]
                    0 <= p < i && 0 <= s < 2 * dims ==> self.bitmaps@[p]@[s].elems() == if s
                        == pre.spec_face_of(vector@, p) {
                        pre.face_elems(p, s).insert(id)
                    } else {
                        pre.face_elems(p, s)
                    },
            decreases n - i,
        {
            let mut proj: Vector = Vec::new();
            let mut j: usize = 0;
            while j < dims
                invariant
                    j <= dims,
                    dims == pre.dimensions,
                    pre.inv(),
                    i < n,
                    n == pre.bases@.len(),
                    self.backend == pre.backend,
                    self.dimensions == pre.dimensions,
                    self.bases@ == pre.bases@,
                    proj@.len() == j,
                    forall|q: int|
                        0 <= q < j ==> proj@[q] == pre.backend.spec_project(
                            vector@,
                            #[trigger] pre.bases@[i as int]@[q]@,
                        ),
                decreases dims - j,
            {
                proj.push(self.backend.project(vector, &self.bases[i][j]));
                j = j + 1;
            }
            proof {
                assert(proj@ =~= pre.spec_projections(vector@, i as int));
                lemma_face_idx_range(proj@);
            }
            let face = find_face_idx(&proj);
            let slot = face_slot(face, dims);
            let ghost bm_pre = self.bitmaps@;
            let ghost row_pre = self.bitmaps@[i as int];
            let row = &mut self.bitmaps[i];
            let target_bm = &mut row[slot];
            target_bm.add(id);
            proof {
                assert(slot == pre.spec_face_of(vector@, i as int));
                assert(self.bitmaps@ == bm_pre.update(i as int, self.bitmaps@[i as int]));
                assert(self.bitmaps@[i as int]@ == row_pre@.update(
                    slot as int,
                    self.bitmaps@[i as int]@[slot as int],
                ));
                assert(self.bitmaps@[i as int]@[slot as int].elems() == row_pre@[slot as int].elems().insert(
                    id,
                ));
            }
            i = i + 1;
        }
        self.indexed = Ghost(pre.indexed@.insert(id));
        proof {
            assert forall|p: int, s: int|
                0 <= p < self.bitmaps@.len() && 0 <= s < self.bitmaps@[p]@.len() implies
                bounded_id_set((#[trigger] self.bitmaps@[p]@[s]).elems()) by {
                assert(bounded_id_set(pre.face_elems(p, s)));
            }
            if pre.partitioned@ {
                assert forall|p: int, s: int, t: int|
                    0 <= p < self.bitmaps@.len() && 0 <= s < t < self.bitmaps@[p]@.len() implies (
                #[trigger] self.bitmaps@[p]@[s].elems()).disjoint(
                    #[trigger] self.bitmaps@[p]@[t].elems(),
                ) by {
                    assert(pre.face_elems(p, s).disjoint(pre.face_elems(p, t)));
                    assert(!pre.face_elems(p, s).contains(id) && !pre.face_elems(p, t).contains(
                        id,
                    )) by {
                        if pre.face_elems(p, s).contains(id) || pre.face_elems(p, t).contains(id) {
                            assert(pre.indexed@.contains(id));
                        }
                    }
                    assert forall|x: u64|
                        self.bitmaps@[p]@[s].elems().contains(x) && self.bitmaps@[p]@[t].elems().contains(
                            x,
                        ) implies false by {
                        assert(!(pre.face_elems(p, s).contains(x) && pre.face_elems(
                            p,
                            t,
                        ).contains(x)));
                    }
                }
                assert forall|p: int, id2: u64|
                    #![trigger self.bitmaps@[p], self.indexed@.contains(id2)]
                    0 <= p < self.bitmaps@.len() implies (self.indexed@.contains(id2)
                    <==> exists|s: int|
                    0 <= s < self.bitmaps@[p]@.len() && (
                    #[trigger] self.bitmaps@[p]@[s].elems()).contains(id2)) by {
                    let fs = pre.spec_face_of(vector@, p);
                    lemma_face_idx_range(pre.spec_projections(vector@, p));
                    assert(0 <= fs < 2 * pre.dimensions);
                    if self.indexed@.contains(id2) {
                        if id2 == id {
                            assert(self.bitmaps@[p]@[fs].elems().contains(id));
                        } else {
                            assert(pre.indexed@.contains(id2));
                            let s = choose|s: int|
                                0 <= s < pre.bitmaps@[p]@.len() && (
                                #[trigger] pre.bitmaps@[p]@[s].elems()).contains(id2);
                            assert(self.bitmaps@[p]@[s].elems().contains(id2));
                        }
                    }
                    if exists|s: int|
                        0 <= s < self.bitmaps@[p]@.len() && (
                        #[trigger] self.bitmaps@[p]@[s].elems()).contains(id2) {
                        let s = choose|s: int|
                            0 <= s < self.bitmaps@[p]@.len() && (
                            #[trigger] self.bitmaps@[p]@[s].elems()).contains(id2);
                        if id2 != id {
                            assert(pre.face_elems(p, s).contains(id2));
                            assert(pre.indexed@.contains(id2));
                        }
                        assert(self.indexed@.contains(id2));
                    }
                }
            }
        }
    }

    /// Stores `(id, vector)` in the backend (normalised and lowered) and
    /// routes the id into the face bitmap the raw vector selects under every
    /// basis.  Replacing a stored vector is not supported: the id must be
    /// fresh.
    pub fn add_vector(&mut self, id: ID, vector: &Vector) -> (r: Result<(), Error>)
        requires
            old(self).inv(),
            id < ID_LIMIT,
            !old(self).indexed().contains(id),
        ensures
            final(self).inv(),
            final(self).spec_dimensions() == old(self).spec_dimensions(),
            final(self).spec_bases() == old(self).spec_bases(),
            final(self).n_bases() == old(self).n_bases(),
            final(self).is_partitioned() == old(self).is_partitioned(),
            (vector@.len() != old(self).spec_dimensions()) <==> r == Err::<(), Error>(
                Error::DimensionMismatch,
            ),
            r matches Err(e) ==> e == Error::DimensionMismatch || e == Error::IoFailure,
            r is Err ==> final(self).indexed() == old(self).indexed()
                && final(self).spec_backend().spec_ids() == old(self).spec_backend().spec_ids()
                && (forall|i: int, s: int|
                0 <= i < old(self).n_bases() && 0 <= s < 2 * old(self).spec_dimensions()
                    ==> #[trigger] final(self).face_elems(i, s) == old(self).face_elems(i, s)),
            r is Ok ==> {
                &&& final(self).spec_backend().spec_ids() == old(self).spec_backend().spec_ids().insert(
                    id,
                )
                &&& final(self).spec_backend().spec_stored(id) == old(
                    self,
                ).spec_backend().spec_store_form(vector@)
                &&& forall|j: u64|
                    j != id ==> #[trigger] final(self).spec_backend().spec_stored(j) == old(
                        self,
                    ).spec_backend().spec_stored(j)
                &&& final(self).indexed() == old(self).indexed().insert(id)
                &&& forall|i: int, s: int|
                    #![trigger final(self).face_elems(i, s)]
                    0 <= i < old(self).n_bases() && 0 <= s < 2 * old(self).spec_dimensions()
                        ==> final(self).face_elems(i, s) == if s == final(self).spec_face_of(
                        vector@,
                        i,
                    ) {
                        old(self).face_elems(i, s).insert(id)
                    } else {
                        old(self).face_elems(i, s)
                    }
            },
    {
        match self.backend.put_vector(id, vector) {
            Ok(u) => u,
            Err(e) => {
                return Err(e);
            },
        };
        let ghost mid = *self;
        self.add_to_bitmaps(id, vector);
        proof {
            assert forall|i: int| 0 <= i < self.n_bases() implies #[trigger] self.spec_face_of(
                vector@,
                i,
            ) == mid.spec_face_of(vector@, i) by {
                assert(self.spec_projections(vector@, i) =~= mid.spec_projections(vector@, i));
            }
        }
        Ok(())
    }

    /// Stores a batch of `(id, vector)` pairs in order, stopping at the
    /// first failure: on success every pair is stored and indexed, and on
    /// failure exactly the pairs before the failing one are.  Ids must be
    /// fresh and pairwise distinct.
    pub fn add_vector_iter(&mut self, items: &Vec<(ID, Vector)>) -> (r: Result<(), Error>)
        requires
            old(self).inv(),
            forall|i: int|
                0 <= i < items@.len() ==> (#[trigger] items@[i]).0 < ID_LIMIT && !old(self).indexed().contains(items@[i].0),
            forall|i: int, j: int|
                0 <= i < j < items@.len() ==> (#[trigger] items@[i]).0 != (#[trigger] items@[j]).0,
        ensures
            final(self).inv(),
            final(self).spec_dimensions() == old(self).spec_dimensions(),
            final(self).n_bases() == old(self).n_bases(),
            final(self).is_partitioned() == old(self).is_partitioned(),
            r matches Err(e) ==> e == Error::DimensionMismatch || e == Error::IoFailure,
            r is Ok ==> final(self).indexed() == old(self).indexed().union(
                spec_batch_ids(items@),
            ) && final(self).spec_backend().spec_ids() == old(self).spec_backend().spec_ids().union(
                spec_batch_ids(items@),
            ),
            r is Err ==> exists|m: int|
                0 <= m <= items@.len() && #[trigger] final(self).indexed() == old(self).indexed().union(spec_batch_ids(items@.take(m))) && final(self).spec_backend().spec_ids() == old(self).spec_backend().spec_ids().union(
                    spec_batch_ids(items@.take(m)),
                ),
    {
        let n = items.len();
        let mut i: usize = 0;
        while i < n
            invariant
                i <= n,
                n == items@.len(),
                self.inv(),
                self.spec_dimensions() == old(self).spec_dimensions(),
                self.n_bases() == old(self).n_bases(),
                self.is_partitioned() == old(self).is_partitioned(),
                forall|p: int|
                    0 <= p < n ==> (#[trigger] items@[p]).0 < ID_LIMIT && !old(self).indexed().contains(items@[p].0),
                forall|p: int, q: int|
                    0 <= p < q < n ==> (#[trigger] items@[p]).0 != (#[trigger] items@[q]).0,
                self.indexed() == old(self).indexed().union(spec_batch_ids(items@.take(i as int))),
                self.spec_backend().spec_ids() == old(self).spec_backend().spec_ids().union(
                    spec_batch_ids(items@.take(i as int)),
                ),
            decreases n - i,
        {
            proof {
                assert(!self.indexed().contains(items@[i as int].0)) by {
                    if spec_batch_ids(items@.take(i as int)).contains(items@[i as int].0) {
                        let p = choose|p: int|
                            0 <= p < i && (#[trigger] items@.take(i as int)[p]).0 == items@[
                                i as int
                            ].0;
                        assert(items@[p].0 == items@[i as int].0);
                    }
                }
            }
            let pair = &items[i];
            let result = self.add_vector(pair.0, &pair.1);
            let failed = result.is_err();
            proof {
                if !failed {
                    assert(spec_batch_ids(items@.take(i as int + 1)) =~= spec_batch_ids(
                        items@.take(i as int),
                    ).insert(items@[i as int].0)) by {
                        assert forall|x: u64|
                            spec_batch_ids(items@.take(i as int + 1)).contains(x)
                                <==> spec_batch_ids(items@.take(i as int)).insert(
                                items@[i as int].0,
                            ).contains(x) by {
                            if spec_batch_ids(items@.take(i as int + 1)).contains(x) {
                                let p = choose|p: int|
                                    0 <= p < i + 1 && (#[trigger] items@.take(i as int + 1)[p]).0
                                        == x;
                                if p < i {
                                    assert(items@.take(i as int)[p].0 == x);
                                }
                            }
                            if spec_batch_ids(items@.take(i as int)).contains(x) {
                                let p = choose|p: int|
                                    0 <= p < i && (#[trigger] items@.take(i as int)[p]).0 == x;
                                assert(items@.take(i as int + 1)[p].0 == x);
                            }
                            if x == items@[i as int].0 {
                                assert(items@.take(i as int + 1)[i as int].0 == x);
                            }
                        }
                    }
                    assert(self.indexed() =~= old(self).indexed().union(
                        spec_batch_ids(items@.take(i as int + 1)),
                    ));
                    assert(self.spec_backend().spec_ids() =~= old(self).spec_backend().spec_ids().union(spec_batch_ids(items@.take(i as int + 1))));
                }
            }
            if failed {
                proof {
                    assert(0 <= i as int <= items@.len() && final(self).indexed() == old(self).indexed().union(spec_batch_ids(items@.take(i as int))) && final(self).spec_backend().spec_ids() == old(self).spec_backend().spec_ids().union(
                        spec_batch_ids(items@.take(i as int)),
                    ));
                }
                return result;
            }
            i = i + 1;
        }
        proof {
            assert(items@.take(n as int) =~= items@);
            assert(spec_batch_ids(items@.take(n as int)) =~= spec_batch_ids(items@));
        }
        Ok(())
    }

    /// The ballot built from a projection vector under basis `i` with the
    /// given number of rounds, together with the projection vector after
    /// them: each round unions in the face the projections select and zeroes
    /// the selected axis, so the next round picks the next-dominant one.
    pub open spec fn spec_spill(&self, proj: Seq<u32>, i: int, rounds: nat) -> (Set<u64>, Seq<u32>)
        decreases rounds,
    {
        if rounds == 0 {
            (Set::empty(), proj)
        } else {
            let prev = self.spec_spill(proj, i, (rounds - 1) as nat);
            let face = spec_find_face_idx(prev.1);
            let axis = if face > 0 {
                face - 1
            } else {
                -face - 1
            };
            (prev.0.union(self.face_elems(i, spec_face_slot(face))), prev.1.update(axis, 0u32))
        }
    }

    /// The per-basis ballots a query casts for `target` with the given
    /// number of spill rounds.
    pub open spec fn spec_ballots(&self, target: Seq<u32>, rounds: nat) -> Seq<Set<u64>> {
        Seq::new(
            self.n_bases(),
            |i: int| self.spec_spill(self.spec_projections(target, i), i, rounds).0,
        )
    }

    /// The candidate set of a query: the highest layer of the ballot counter
    /// that still holds at least `search_k` ids, if any.
    pub open spec fn spec_query_top(&self, target: Seq<u32>, rounds: nat, search_k: nat) -> Option<
        Set<u64>,
    > {
        let layers = spec_query_layers(self.spec_ballots(target, rounds));
        match spec_top_layer(layers, search_k) {
            None => None,
            Some(j) => Some(layers[j]),
        }
    }

    /// The similarity key a query for `target` gives each candidate.
    pub open spec fn spec_rescore(&self, target: Seq<u32>) -> spec_fn(u64) -> u32 {
        |id: u64| spec_sim_key(
            self.spec_backend().spec_project(target, self.spec_backend().spec_stored(id)),
        )
    }

    /// Answers a top-`k` query: projects `target` onto every basis, casts
    /// one ballot per basis (spilling into the next-dominant faces), takes
    /// the highest counter layer still holding `search_k` candidates, and
    /// rescores those candidates exactly through the backend.  With no bases
    /// configured the query falls back to the full scan.
    pub fn find_nearest(&self, target: &Vector, k: usize, search_k: usize, spill: usize) -> (r:
        Result<ResultSet, Error>)
        requires
            self.inv(),
        ensures
            (target@.len() != self.spec_dimensions()) <==> r == Err::<ResultSet, Error>(
                Error::DimensionMismatch,
            ),
            target@.len() == self.spec_dimensions() && self.n_bases() == 0 ==> {
                &&& r matches Ok(rs) ==> rs.inv() && rs.capacity() == k && (
                rs.sims(),
                rs.result_ids(),
                ) == spec_scan(
                    spec_sorted_ids(self.spec_backend().spec_ids()),
                    self.spec_rescore(target@),
                    k as nat,
                ) && rs.spec_checked() == spec_sorted_ids(self.spec_backend().spec_ids()).len()
                &&& r matches Err(e) ==> e == Error::IoFailure || e == Error::SerializationFailure
            },
            target@.len() == self.spec_dimensions() && self.n_bases() > 0 ==> {
                let rounds = (if spill >= self.spec_dimensions() {
                    self.spec_dimensions()
                } else {
                    spill as nat + 1
                });
                let top = self.spec_query_top(target@, rounds, search_k as nat);
                &&& (top is None <==> r == Err::<ResultSet, Error>(Error::BudgetUnmet))
                &&& top matches Some(cand) ==> {
                    &&& r matches Ok(rs) ==> rs.inv() && rs.capacity() == k && (
                    rs.sims(),
                    rs.result_ids(),
                    ) == spec_scan(spec_sorted_ids(cand), self.spec_rescore(target@), k as nat)
                        && rs.spec_checked() == spec_sorted_ids(cand).len()
                    &&& r matches Err(e) ==> e == Error::MissingVector || e == Error::IoFailure
                        || e == Error::SerializationFailure
                }
            },
    {
        if target.len() != self.dimensions {
            return Err(Error::DimensionMismatch);
        }
        let dims = self.dimensions;
        let sp = if spill >= dims {
            dims - 1
        } else {
            spill
        };
        let n_basis = self.bases.len();
        if n_basis == 0 {
            return self.backend.find_nearest(target, k);
        }
        let rounds = sp + 1;
        let ghost hist = self.spec_ballots(target@, rounds as nat);
        let mut bs = CountingBitmap::<B>::new(n_basis);
        let mut i: usize = 0;
        while i < n_basis
            invariant
                i <= n_basis,
                self.inv(),
                n_basis == self.n_bases(),
                dims == self.spec_dimensions(),
                target@.len() == dims,
                1 <= rounds <= dims,
                hist == self.spec_ballots(target@, rounds as nat),
                bs.inv(),
                bs.depth() == n_basis,
                bs.history() == hist.take(i as int),
            decreases n_basis - i,
        {
            let mut proj: Vector = Vec::new();
            let mut j: usize = 0;
            while j < dims
                invariant
                    j <= dims,
                    self.inv(),
                    i < n_basis,
                    n_basis == self.n_bases(),
                    dims == self.spec_dimensions(),
                    proj@.len() == j,
                    forall|q: int|
                        0 <= q < j ==> proj@[q] == self.spec_backend().spec_project(
                            target@,
                            #[trigger] self.basis_vec(i as int, q),
                        ),
                decreases dims - j,
            {
                proj.push(self.backend.project(target, &self.bases[i][j]));
                j = j + 1;
            }
            let ghost proj0 = self.spec_projections(target@, i as int);
            proof {
                assert(proj@ =~= proj0);
            }
            let mut ballot = B::new();
            let mut round: usize = 0;
            proof {
                assert((ballot.elems(), proj@) == self.spec_spill(proj0, i as int, 0));
            }
            while round < rounds
                invariant
                    round <= rounds,
                    self.inv(),
                    i < n_basis,
                    n_basis == self.n_bases(),
                    dims == self.spec_dimensions(),
                    1 <= rounds <= dims,
                    proj0 == self.spec_projections(target@, i as int),
                    proj@.len() == dims,
                    ballot.elems() == self.spec_spill(proj0, i as int, round as nat).0,
                    proj@ == self.spec_spill(proj0, i as int, round as nat).1,
                    bounded_id_set(ballot.elems()),
                decreases rounds - round,
            {
                proof {
                    lemma_face_idx_range(proj@);
                }
                let face = find_face_idx(&proj);
                let slot = face_slot(face, dims);
                ballot.or(&self.bitmaps[i][slot]);
                let axis = if face > 0 {
                    (face - 1) as usize
                } else {
                    ((-face) - 1) as usize
                };
                let cell = &mut proj[axis];
                *cell = 0;
                round = round + 1;
            }
            bs.or(ballot);
            proof {
                assert(hist.take(i as int + 1).drop_last() =~= hist.take(i as int));
                assert(hist.take(i as int + 1).last() == hist[i as int]);
                assert(hist[i as int] == self.spec_spill(proj0, i as int, rounds as nat).0);
            }
            i = i + 1;
        }
        proof {
            assert(hist.take(n_basis as int) =~= hist);
            lemma_counting_semantics(&bs);
            assert(bs.layers() =~~= spec_query_layers(hist)) by {
                assert forall|j: int| 0 <= j < n_basis implies bs.layers()[j] =~= spec_layer(
                    hist,
                    j,
                ) by {}
            }
        }
        let top = bs.top_k(search_k);
        match top {
            None => {
                proof {
                    lemma_top_layer_range(spec_query_layers(hist), search_k as nat);
                }
                Err(Error::BudgetUnmet)
            },
            Some(bm) => {
                let ghost cand_set = bm.elems();
                proof {
                    lemma_top_layer_range(spec_query_layers(hist), search_k as nat);
                    let j = spec_top_layer(spec_query_layers(hist), search_k as nat).unwrap();
                    assert(bounded_id_set(bs.layers()[j]));
                    assert(cand_set == spec_query_layers(hist)[j]);
                }
                let cands = bm.iter_elems();
                proof {
                    assert(spec_sorted_asc(cands@) && (forall|x: u64|
                        #[trigger] cands@.contains(x) <==> cand_set.contains(x)));
                    lemma_sorted_unique(cands@, spec_sorted_ids(cand_set));
                }
                let mut rs = ResultSet::new(k);
                let n = cands.len();
                let mut p: usize = 0;
                let mut failure: Option<Error> = None;
                while p < n && failure.is_none()
                    invariant
                        p <= n,
                        n == cands@.len(),
                        self.inv(),
                        failure is None ==> {
                            &&& rs.inv()
                            &&& rs.capacity() == k
                            &&& rs.spec_checked() == p
                            &&& (rs.sims(), rs.result_ids()) == spec_scan(
                                cands@.take(p as int),
                                self.spec_rescore(target@),
                                k as nat,
                            )
                        },
                        failure matches Some(e) ==> e == Error::MissingVector || e
                            == Error::IoFailure || e == Error::SerializationFailure,
                    decreases n - p,
                {
                    match self.backend.compute_similarity(target, cands[p]) {
                        Ok(sim) => {
                            let key = sim_key_from_bits(sim);
                            rs.add_result(cands[p], key);
                            proof {
                                assert(cands@.take(p as int + 1).drop_last() =~= cands@.take(
                                    p as int,
                                ));
                                assert(cands@.take(p as int + 1).last() == cands@[p as int]);
                            }
                        },
                        Err(e) => {
                            failure = Some(e);
                        },
                    }
                    p = p + 1;
                }
                match failure {
                    Some(e) => Err(e),
                    None => {
                        proof {
                            assert(cands@.take(n as int) =~= cands@);
                        }
                        Ok(rs)
                    },
                }
            },
        }
    }

    /// Whether `id` has been routed into the face bitmaps: the query that
    /// discharges `add_vector`'s freshness precondition.  It reads the
    /// first basis's faces, which partition the indexed ids.
    pub fn is_indexed(&self, id: ID) -> (r: bool)
        requires
            self.inv(),
            self.is_partitioned(),
            self.n_bases() >= 1,
            id < ID_LIMIT,
        ensures
            r == self.indexed().contains(id),
    {
        let dims = self.dimensions;
        let mut s: usize = 0;
        let mut found: bool = false;
        while !found && s < 2 * dims
            invariant
                s <= 2 * dims,
                self.inv(),
                self.is_partitioned(),
                self.n_bases() >= 1,
                id < ID_LIMIT,
                dims == self.spec_dimensions(),
                found ==> s < 2 * dims && self.face_elems(0, s as int).contains(id),
                !found ==> forall|t: int| 0 <= t < s ==> !(#[trigger] self.face_elems(
                    0,
                    t,
                )).contains(id),
            decreases 2 * dims - s + if found { 0int } else { 1int },
        {
            if self.bitmaps[0][s].contains(id) {
                found = true;
            } else {
                s = s + 1;
            }
        }
        proof {
            let row = self.bitmaps@[0];
            let seen = self.indexed@.contains(id);
            if found {
                assert(self.bitmaps@[0]@[s as int].elems().contains(id));
                assert(self.indexed@.contains(id));
            } else if self.indexed@.contains(id) {
                let t = choose|t: int|
                    0 <= t < self.bitmaps@[0]@.len() && (#[trigger] self.bitmaps@[0]@[t].elems()).contains(
                        id,
                    );
                assert(!self.face_elems(0, t).contains(id));
                assert(false);
            }
        }
        found
    }

    /// The ids stored in one face bitmap, ascending: face `f` of basis
    /// `basis` lives at slot `2 * (|f| - 1)` for positive `f` and one above
    /// for negative `f`.
    pub fn face_members(&self, basis: usize, slot: usize) -> (r: Vec<ID>)
        requires
            self.inv(),
            basis < self.n_bases(),
            slot < 2 * self.spec_dimensions(),
        ensures
            forall|x: u64| #[trigger] r@.contains(x) <==> self.face_elems(basis as int, slot as int).contains(x),
            forall|i: int, j: int| 0 <= i < j < r@.len() ==> r@[i] < r@[j],
            r@.len() == self.face_elems(basis as int, slot as int).len(),
    {
        self.bitmaps[basis][slot].iter_elems()
    }

    /// The exact answer by scanning every stored vector through the backend.
    pub fn full_table_scan(&self, vec: &Vector, k: usize) -> (r: Result<ResultSet, Error>)
        requires
            self.inv(),
        ensures
            r matches Ok(rs) ==> rs.inv() && rs.capacity() == k && (rs.sims(), rs.result_ids())
                == spec_scan(
                spec_sorted_ids(self.spec_backend().spec_ids()),
                self.spec_rescore(vec@),
                k as nat,
            ) && rs.spec_checked() == spec_sorted_ids(self.spec_backend().spec_ids()).len(),
            r matches Err(e) ==> e == Error::IoFailure || e == Error::SerializationFailure,
    {
        self.backend.find_nearest(vec, k)
    }
}

proof fn lemma_hits_uniform(hist: Seq<Set<u64>>, id: u64)
    ensures
        (forall|i: int| 0 <= i < hist.len() ==> (#[trigger] hist[i]).contains(id)) ==> spec_hits(
            hist,
            id,
        ) == hist.len(),
        (forall|i: int| 0 <= i < hist.len() ==> !(#[trigger] hist[i]).contains(id)) ==> spec_hits(
            hist,
            id,
        ) == 0,
        spec_hits(hist, id) <= hist.len(),
    decreases hist.len(),
{
    if hist.len() > 0 {
        lemma_hits_uniform(hist.drop_last(), id);
        assert forall|i: int| 0 <= i < hist.len() - 1 implies hist.drop_last()[i] == hist[i] by {}
        assert(hist.last() == hist[hist.len() - 1]);
    }
}

proof fn lemma_hits_monotone(a: Seq<Set<u64>>, b: Seq<Set<u64>>, id: u64)
    requires
        a.len() == b.len(),
        forall|i: int| 0 <= i < a.len() ==> (#[trigger] a[i]).subset_of(b[i]),
    ensures
        spec_hits(a, id) <= spec_hits(b, id),
    decreases a.len(),
{
    if a.len() > 0 {
        lemma_hits_monotone(a.drop_last(), b.drop_last(), id);
        assert forall|i: int| 0 <= i < a.len() - 1 implies (#[trigger] a.drop_last()[i]).subset_of(
            b.drop_last()[i],
        ) by {
            assert(a[i].subset_of(b[i]));
        }
        assert(a[a.len() - 1].subset_of(b[a.len() - 1]));
    }
}

/// The face partition law: in a well-formed store whose face bitmaps are
/// tracked as a partition, the faces of any one basis are pairwise disjoint,
/// and each basis's faces together hold exactly the indexed ids — every
/// indexed id stands in exactly one face per basis.
pub proof fn lemma_face_partition<E: VectorBackend, B: Bitmap>(store: &VectorStore<E, B>)
    requires
        store.inv(),
        store.is_partitioned(),
    ensures
        forall|i: int, s: int, t: int|
            0 <= i < store.n_bases() && 0 <= s < t < 2 * store.spec_dimensions() ==> (
            #[trigger] store.face_elems(i, s)).disjoint(#[trigger] store.face_elems(i, t)),
        forall|i: int, s: int, id: u64|
            0 <= i < store.n_bases() && 0 <= s < 2 * store.spec_dimensions()
                && #[trigger] store.face_elems(i, s).contains(id) ==> store.indexed().contains(id),
        forall|i: int, id: u64|
            0 <= i < store.n_bases() && store.indexed().contains(id) ==> #[trigger] store.covers(
                i,
                id,
            ),
{
    assert forall|i: int, s: int, id: u64|
        0 <= i < store.n_bases() && 0 <= s < 2 * store.spec_dimensions()
            && #[trigger] store.face_elems(i, s).contains(id) implies store.indexed().contains(
        id,
    ) by {
        let row = store.bitmaps@[i];
        let seen = store.indexed@.contains(id);
        assert(store.bitmaps@[i]@[s].elems().contains(id));
    }
    assert forall|i: int, id: u64|
        0 <= i < store.n_bases() && store.indexed().contains(id) implies #[trigger] store.covers(
            i,
            id,
        ) by {
        let row = store.bitmaps@[i];
        let seen = store.indexed@.contains(id);
        let s = choose|s: int|
            0 <= s < store.bitmaps@[i]@.len() && (#[trigger] store.bitmaps@[i]@[s].elems()).contains(
                id,
            );
        assert(store.face_elems(i, s).contains(id));
    }
}

/// The full-scan equivalence law: when every ballot a query casts endorses
/// exactly the backend's stored ids and `search_k` does not exceed their
/// number, the query selects exactly the stored ids as candidates, and its
/// result is the full table scan's result — the same fold of ordered
/// insertions over the same ids with the same exact similarities.  (A ballot
/// misses a stored id whenever the id's vector lies in a face the target's
/// spilled projections never select, and the two answers can then differ:
/// the law holds on queries whose ballots cover the stored ids.)
pub proof fn lemma_full_scan_equivalence<E: VectorBackend, B: Bitmap>(
    store: &VectorStore<E, B>,
    target: Seq<u32>,
    rounds: nat,
    search_k: nat,
)
    requires
        store.inv(),
        store.n_bases() >= 1,
        forall|i: int|
            0 <= i < store.n_bases() ==> #[trigger] store.spec_ballots(target, rounds)[i]
                == store.spec_backend().spec_ids(),
        store.spec_backend().spec_ids().finite(),
        search_k <= store.spec_backend().spec_ids().len(),
    ensures
        store.spec_query_top(target, rounds, search_k) == Some(store.spec_backend().spec_ids()),
{
    let ids = store.spec_backend().spec_ids();
    let hist = store.spec_ballots(target, rounds);
    let n = hist.len() as int;
    assert forall|j: int| 0 <= j < n implies spec_layer(hist, j) =~= ids by {
        assert forall|id: u64| spec_layer(hist, j).contains(id) <==> ids.contains(id) by {
            lemma_hits_uniform(hist, id);
            if ids.contains(id) {
                assert(forall|i: int| 0 <= i < n ==> (#[trigger] hist[i]).contains(id));
            } else {
                assert(forall|i: int| 0 <= i < n ==> !(#[trigger] hist[i]).contains(id));
            }
        }
    }
    let layers = spec_query_layers(hist);
    assert(layers.last() == spec_layer(hist, n - 1));
    assert(layers.last().len() >= search_k);
    assert(spec_top_layer(layers, search_k) == Some(n - 1));
}

/// The spill growth law: adding spill rounds only grows each ballot, and
/// with it every counter layer, so the candidate pool a query draws from
/// never shrinks as `spill` grows.  (Recall itself is a statistical property
/// of the floating-point geometry, outside these contracts.)
pub proof fn lemma_spill_monotone<E: VectorBackend, B: Bitmap>(
    store: &VectorStore<E, B>,
    target: Seq<u32>,
    r1: nat,
    r2: nat,
    j: int,
)
    requires
        r1 <= r2,
    ensures
        forall|i: int|
            0 <= i < store.n_bases() ==> (#[trigger] store.spec_ballots(target, r1)[i]).subset_of(
                store.spec_ballots(target, r2)[i],
            ),
        spec_layer(store.spec_ballots(target, r1), j).subset_of(
            spec_layer(store.spec_ballots(target, r2), j),
        ),
{
    assert forall|i: int|
        0 <= i < store.n_bases() implies (#[trigger] store.spec_ballots(target, r1)[i]).subset_of(
        store.spec_ballots(target, r2)[i],
    ) by {
        lemma_spill_subset(store, store.spec_projections(target, i), i, r1, r2);
    }
    assert forall|id: u64| spec_layer(store.spec_ballots(target, r1), j).contains(id) implies
        spec_layer(store.spec_ballots(target, r2), j).contains(id) by {
        lemma_hits_monotone(store.spec_ballots(target, r1), store.spec_ballots(target, r2), id);
    }
}

proof fn lemma_spill_subset<E: VectorBackend, B: Bitmap>(
    store: &VectorStore<E, B>,
    proj: Seq<u32>,
    i: int,
    r1: nat,
    r2: nat,
)
    requires
        r1 <= r2,
    ensures
        store.spec_spill(proj, i, r1).0.subset_of(store.spec_spill(proj, i, r2).0),
    decreases r2,
{
    if r1 < r2 {
        lemma_spill_subset(store, proj, i, r1, (r2 - 1) as nat);
    }
}

impl<E: VectorBackend> VectorStore<E, CRoaringBitmap> {
    /// A store whose face bitmaps are CRoaring compressed bitmaps.
    pub fn new_croaring_bitmap(backend: E) -> (r: Result<Self, Error>)
        requires
            backend.inv(),
        ensures
            r matches Ok(s) ==> s.inv() && s.spec_dimensions() == backend.spec_dimensions()
                && s.n_bases() == backend.spec_n_basis() && s.spec_backend().spec_ids()
                == backend.spec_ids() && (s.is_partitioned() ==> s.indexed() == Set::<u64>::empty()),
    {
        VectorStore::new(backend)
    }
}

impl<E: VectorBackend> VectorStore<E, RoaringBitmap> {
    /// A store whose face bitmaps are `roaring` compressed bitmaps.
    pub fn new_roaring_bitmap(backend: E) -> (r: Result<Self, Error>)
        requires
            backend.inv(),
        ensures
            r matches Ok(s) ==> s.inv() && s.spec_dimensions() == backend.spec_dimensions()
                && s.n_bases() == backend.spec_n_basis() && s.spec_backend().spec_ids()
                == backend.spec_ids() && (s.is_partitioned() ==> s.indexed() == Set::<u64>::empty()),
    {
        VectorStore::new(backend)
    }
}

impl<E: VectorBackend> VectorStore<E, BitVec> {
    /// A store whose face bitmaps are dense bit-vectors.
    pub fn new_bitvec_bitmap(backend: E) -> (r: Result<Self, Error>)
        requires
            backend.inv(),
        ensures
            r matches Ok(s) ==> s.inv() && s.spec_dimensions() == backend.spec_dimensions()
                && s.n_bases() == backend.spec_n_basis() && s.spec_backend().spec_ids()
                == backend.spec_ids() && (s.is_partitioned() ==> s.indexed() == Set::<u64>::empty()),
    {
        VectorStore::new(backend)
    }
}

} // verus!
