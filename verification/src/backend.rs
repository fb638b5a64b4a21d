//! The backend abstraction: vector storage, similarity computation, and
//! optional persistence of the index.
//!
//! The store is verified against this trait's contracts.  The crate's own
//! in-memory backend implements it with verified code; an embedding program
//! may implement it for other storage (a memory-mapped file, say), in which
//! case what is proved holds as far as that implementation honours these
//! contracts.

use vstd::prelude::*;

use crate::bitmaps::bounded_id_set;
use crate::bitmaps::Bitmap;
use crate::error::Error;
use crate::keys::sim_key_from_bits;
use crate::keys::spec_sim_key;
use crate::result::spec_scan;
use crate::result::ResultSet;
use crate::Basis;
use crate::Vector;
use crate::ID;
use crate::ID_LIMIT;

verus! {

/// Descriptive facts a backend reports about itself.
#[derive(Debug)]
pub struct BackendInfo {
    /// The label of the quantization the backend stores vectors with.
    pub quantization: String,
    /// Whether the backend holds a persisted index (bases and bitmaps).
    pub has_index_data: bool,
    /// The dimensionality of every stored vector.
    pub dimensions: usize,
    /// How many bases the index over this backend uses.
    pub n_basis: usize,
    /// A count of vector storage slots; a size hint, nothing more.
    pub vector_count: usize,
}

/// Strictly ascending: each entry is smaller than the next.
pub open spec fn spec_sorted_asc(q: Seq<u64>) -> bool {
    forall|i: int, j: int| 0 <= i < j < q.len() ==> q[i] < q[j]
}

/// The one strictly ascending sequence whose entries are exactly the members
/// of `s`.
pub open spec fn spec_sorted_ids(s: Set<u64>) -> Seq<u64> {
    choose|q: Seq<u64>|
        spec_sorted_asc(q) && (forall|x: u64| #[trigger] q.contains(x) <==> s.contains(x))
}

/// Two strictly ascending sequences with the same members are equal.
pub proof fn lemma_sorted_unique(a: Seq<u64>, b: Seq<u64>)
    requires
        spec_sorted_asc(a),
        spec_sorted_asc(b),
        forall|x: u64| #[trigger] a.contains(x) <==> b.contains(x),
    ensures
        a == b,
    decreases a.len(),
{
    if a.len() == 0 {
        if b.len() > 0 {
            assert(b.contains(b[0]));
            assert(!a.contains(b[0]));
            assert(false);
        }
        assert(a =~= b);
    } else if b.len() == 0 {
        assert(a.contains(a[0]));
        assert(!b.contains(a[0]));
        assert(false);
    } else {
        let la = a.last();
        let lb = b.last();
        assert(a.contains(la)) by {
            assert(a[a.len() - 1] == la);
        }
        assert(b.contains(lb)) by {
            assert(b[b.len() - 1] == lb);
        }
        assert(la == lb) by {
            assert(b.contains(la));
            let i = choose|i: int| 0 <= i < b.len() && b[i] == la;
            assert(b[b.len() - 1] == lb);
            assert(la <= lb);
            assert(a.contains(lb));
            let j = choose|j: int| 0 <= j < a.len() && a[j] == lb;
            assert(a[a.len() - 1] == la);
            assert(lb <= la);
        }
        assert forall|x: u64| #[trigger] a.drop_last().contains(x) <==> b.drop_last().contains(
            x,
        ) by {
            if a.drop_last().contains(x) {
                let i = choose|i: int| 0 <= i < a.len() - 1 && a.drop_last()[i] == x;
                assert(a[i] == x);
                assert(x < la);
                assert(a.contains(x));
                assert(b.contains(x));
                let j = choose|j: int| 0 <= j < b.len() && b[j] == x;
                assert(j < b.len() - 1);
                assert(b.drop_last()[j] == x);
            }
            if b.drop_last().contains(x) {
                let i = choose|i: int| 0 <= i < b.len() - 1 && b.drop_last()[i] == x;
                assert(b[i] == x);
                assert(x < lb);
                assert(b.contains(x));
                assert(a.contains(x));
                let j = choose|j: int| 0 <= j < a.len() && a[j] == x;
                assert(j < a.len() - 1);
                assert(a.drop_last()[j] == x);
            }
        }
        lemma_sorted_unique(a.drop_last(), b.drop_last());
        assert(a.len() == b.len()) by {
            assert(a.drop_last().len() == b.drop_last().len());
        }
        assert forall|i: int| 0 <= i < a.len() implies a[i] == b[i] by {
            if i < a.len() - 1 {
                assert(a.drop_last()[i] == a[i]);
                assert(b.drop_last()[i] == b[i]);
                assert(a.drop_last()[i] == b.drop_last()[i]);
            }
        }
        assert(a =~= b);
    }
}

/// A store of vectors keyed by id, with similarity computation and optional
/// index persistence.
pub trait VectorBackend: Sized {
    /// The backend's own well-formedness; constructors establish it.
    spec fn inv(&self) -> bool;

    /// The configured dimensionality.
    spec fn spec_dimensions(&self) -> nat;

    /// The number of bases configured for the index.
    spec fn spec_n_basis(&self) -> nat;

    /// The set of ids with a stored vector.
    spec fn spec_ids(&self) -> Set<u64>;

    /// The rehydrated bit patterns stored under `id` in this backend state:
    /// what a similarity lookup for `id` scores against.  Meaningful only
    /// when `id` is stored.
    spec fn spec_stored(&self, id: u64) -> Seq<u32>;

    /// What storing a vector keeps: the rehydrated view of the input after
    /// the backend's normalisation and lowering.
    spec fn spec_store_form(&self, v: Seq<u32>) -> Seq<u32>;

    /// The persisted bases, where the backend keeps any.
    spec fn spec_persisted_bases(&self) -> Option<Seq<Basis>>;

    /// The persisted id set of one (basis, face) bitmap, where the backend
    /// keeps any.
    spec fn spec_persisted_bitmap(&self, basis: int, face: int) -> Option<Set<u64>>;

    /// The value the backend's dot-product kernel returns for two vectors,
    /// as `f32` bits.  Deterministic per state.
    spec fn spec_project(&self, a: Seq<u32>, b: Seq<u32>) -> u32;

    /// The label of the backend's quantization.
    spec fn spec_quantization(&self) -> Seq<char>;

    /// Whether a persisted index can be loaded.
    spec fn spec_has_index_data(&self) -> bool;

    /// Stores (normalising and lowering) a vector under `id`.  Rejects a
    /// vector of the wrong dimensionality, and exactly those; a persistence
    /// failure may also be reported.  On success `id`'s slot holds the store
    /// form of the input and no other slot changes; on failure no slot
    /// changes.
    fn put_vector(&mut self, id: ID, v: &Vector) -> (r: Result<(), Error>)
        requires
            old(self).inv(),
            id < ID_LIMIT,
        ensures
            final(self).inv(),
            final(self).spec_dimensions() == old(self).spec_dimensions(),
            final(self).spec_n_basis() == old(self).spec_n_basis(),
            final(self).spec_quantization() == old(self).spec_quantization(),
            (v@.len() != old(self).spec_dimensions()) <==> r == Err::<(), Error>(
                Error::DimensionMismatch,
            ),
            r matches Ok(u) ==> final(self).spec_ids() == old(self).spec_ids().insert(id),
            r matches Ok(u) ==> final(self).spec_stored(id) == old(self).spec_store_form(v@),
            r matches Ok(u) ==> forall|j: u64|
                j != id ==> #[trigger] final(self).spec_stored(j) == old(self).spec_stored(j),
            r is Err ==> final(self).spec_ids() == old(self).spec_ids(),
            r is Err ==> forall|j: u64|
                #[trigger] final(self).spec_stored(j) == old(self).spec_stored(j),
            r matches Err(e) ==> e == Error::DimensionMismatch || e == Error::IoFailure,
    ;

    /// The similarity of `target` to the vector stored under `target_id`:
    /// the kernel's dot product of `target` with the stored rehydrated
    /// vector, as `f32` bits.  An absent id is reported as
    /// [`Error::MissingVector`]; a backend that reads storage may also fail
    /// to.
    fn compute_similarity(&self, target: &Vector, target_id: ID) -> (r: Result<u32, Error>)
        requires
            self.inv(),
        ensures
            r matches Ok(s) ==> self.spec_ids().contains(target_id) && s == self.spec_project(
                target@,
                self.spec_stored(target_id),
            ),
            !self.spec_ids().contains(target_id) ==> r == Err::<u32, Error>(Error::MissingVector),
            r matches Err(e) ==> (e == Error::MissingVector && !self.spec_ids().contains(target_id))
                || e == Error::IoFailure || e == Error::SerializationFailure,
    ;

    /// The dot product of two vectors, as `f32` bits, computed by the
    /// backend's kernel.  When the inputs differ in length the kernel pairs
    /// components up to the shorter one.
    fn project(&self, a: &Vector, b: &Vector) -> (r: u32)
        requires
            self.inv(),
        ensures
            r == self.spec_project(a@, b@),
    ;

    /// Fresh random orthonormal bases matching the backend's configuration:
    /// `spec_n_basis()` bases of `spec_dimensions()` vectors, each of
    /// `spec_dimensions()` components.  Only the shape is promised; the
    /// entries come from the backend's randomness.
    fn make_basis(&self) -> (r: Vec<Basis>)
        requires
            self.inv(),
        ensures
            r@.len() == self.spec_n_basis(),
            forall|i: int| 0 <= i < r@.len() ==> (#[trigger] r@[i])@.len() == self.spec_dimensions(),
            forall|i: int, j: int|
                0 <= i < r@.len() && 0 <= j < r@[i]@.len() ==> (#[trigger] r@[i]@[j])@.len()
                    == self.spec_dimensions(),
    ;

    /// The backend's descriptive facts.
    fn info(&self) -> (r: BackendInfo)
        requires
            self.inv(),
        ensures
            r.dimensions == self.spec_dimensions(),
            r.n_basis == self.spec_n_basis(),
            r.quantization@ == self.spec_quantization(),
            r.has_index_data == self.spec_has_index_data(),
    ;

    /// The stored ids, in strictly ascending order.
    fn iter_vector_ids(&self) -> (r: Vec<ID>)
        requires
            self.inv(),
        ensures
            spec_sorted_asc(r@),
            forall|x: u64| #[trigger] r@.contains(x) <==> self.spec_ids().contains(x),
            forall|i: int| 0 <= i < r@.len() ==> r@[i] < ID_LIMIT,
    ;

    /// Whether `id` has a stored vector.
    fn vector_exists(&self, id: ID) -> (r: bool)
        requires
            self.inv(),
        ensures
            r == self.spec_ids().contains(id),
    ;

    /// Releases the backend.
    fn close(self) -> (r: Result<(), Error>)
        requires
            self.inv(),
    ;

    /// The persisted bases, where the backend keeps any; their shape is
    /// checked on load, and what is handed back is exactly what is
    /// persisted.
    fn load_bases(&self) -> (r: Result<Option<Vec<Basis>>, Error>)
        requires
            self.inv(),
        ensures
            r matches Ok(Some(bases)) ==> bases@.len() == self.spec_n_basis() && (forall|i: int|
                0 <= i < bases@.len() ==> (#[trigger] bases@[i])@.len() == self.spec_dimensions())
                && (forall|i: int, j: int|
                0 <= i < bases@.len() && 0 <= j < bases@[i]@.len() ==> (
                #[trigger] bases@[i]@[j])@.len() == self.spec_dimensions()) && (
            self.spec_persisted_bases() matches Some(pb) && bases@ == pb),
            r matches Ok(None) ==> self.spec_persisted_bases() is None,
            r matches Err(e) ==> e == Error::IoFailure || e == Error::SerializationFailure,
    ;

    /// The persisted bitmap of one (basis, face) pair, where the backend
    /// keeps any; what is handed back holds exactly the persisted ids.
    fn load_bitmap<T: Bitmap>(&mut self, basis: usize, index: i32) -> (r: Result<
        Option<T>,
        Error,
    >)
        requires
            old(self).inv(),
        ensures
            final(self).inv(),
            *final(self) == *old(self),
            r matches Ok(Some(bm)) ==> bounded_id_set(bm.elems()) && (old(self).spec_persisted_bitmap(
                basis as int,
                index as int,
            ) matches Some(s) && bm.elems() == s),
            r matches Ok(None) ==> old(self).spec_persisted_bitmap(basis as int, index as int)
                is None,
            r matches Err(e) ==> e == Error::IoFailure || e == Error::SerializationFailure,
    ;

    /// Persists the bases; a backend without persistence accepts and drops
    /// them.
    fn save_bases(&mut self, bases: &Vec<Basis>) -> (r: Result<(), Error>)
        requires
            old(self).inv(),
        ensures
            final(self).inv(),
            final(self).spec_dimensions() == old(self).spec_dimensions(),
            final(self).spec_n_basis() == old(self).spec_n_basis(),
            final(self).spec_ids() == old(self).spec_ids(),
    {
        Ok(())
    }

    /// Persists the bitmap of one (basis, face) pair; a backend without
    /// persistence accepts and drops it.
    fn save_bitmap<T: Bitmap>(&mut self, basis: usize, index: i32, bitmap: &T) -> (r: Result<
        (),
        Error,
    >)
        requires
            old(self).inv(),
        ensures
            final(self).inv(),
            final(self).spec_dimensions() == old(self).spec_dimensions(),
            final(self).spec_n_basis() == old(self).spec_n_basis(),
            final(self).spec_ids() == old(self).spec_ids(),
    {
        Ok(())
    }

    /// Flushes durable storage; a backend without persistence does nothing.
    fn sync(&self) -> (r: Result<(), Error>)
        requires
            self.inv(),
    {
        Ok(())
    }

    /// Scores every stored id against `target` and keeps the best `k`: the
    /// exact, index-free answer.  On success the result is the fold of
    /// ordered insertions over the stored ids in ascending order, each with
    /// its similarity key.
    fn find_nearest(&self, target: &Vector, k: usize) -> (r: Result<ResultSet, Error>)
        requires
            self.inv(),
        ensures
            r matches Ok(rs) ==> rs.inv() && rs.capacity() == k && (rs.sims(), rs.result_ids())
                == spec_scan(
                spec_sorted_ids(self.spec_ids()),
                |id: u64| spec_sim_key(self.spec_project(target@, self.spec_stored(id))),
                k as nat,
            ) && rs.spec_checked() == spec_sorted_ids(self.spec_ids()).len(),
            r matches Err(e) ==> e == Error::IoFailure || e == Error::SerializationFailure,
    {
        let ids = self.iter_vector_ids();
        proof {
            assert(spec_sorted_asc(ids@) && (forall|x: u64| #[trigger] ids@.contains(x)
                <==> self.spec_ids().contains(x)));
            lemma_sorted_unique(ids@, spec_sorted_ids(self.spec_ids()));
        }
        let ghost simf = |id: u64| spec_sim_key(self.spec_project(target@, self.spec_stored(id)));
        let mut rs = ResultSet::new(k);
        let n = ids.len();
        let mut i: usize = 0;
        let mut failure: Option<Error> = None;
        while i < n && failure.is_none()
            invariant
                i <= n,
                n == ids@.len(),
                self.inv(),
                simf == |id: u64| spec_sim_key(self.spec_project(target@, self.spec_stored(id))),
                forall|x: u64| #[trigger] ids@.contains(x) <==> self.spec_ids().contains(x),
                failure is None ==> {
                    &&& rs.inv()
                    &&& rs.capacity() == k
                    &&& rs.spec_checked() == i
                    &&& (rs.sims(), rs.result_ids()) == spec_scan(
                        ids@.take(i as int),
                        simf,
                        k as nat,
                    )
                },
                failure matches Some(e) ==> e == Error::IoFailure
                    || e == Error::SerializationFailure,
            decreases n - i,
        {
            proof {
                assert(ids@.contains(ids@[i as int]));
            }
            match self.compute_similarity(target, ids[i]) {
                Ok(sim) => {
                    let key = sim_key_from_bits(sim);
                    rs.add_result(ids[i], key);
                    proof {
                        assert(ids@.take(i as int + 1).drop_last() =~= ids@.take(i as int));
                        assert(ids@.take(i as int + 1).last() == ids@[i as int]);
                    }
                },
                Err(e) => {
                    failure = Some(e);
                },
            }
            i = i + 1;
        }
        match failure {
            Some(e) => Err(e),
            None => {
                proof {
                    assert(ids@.take(n as int) =~= ids@);
                }
                Ok(rs)
            },
        }
    }
}

} // verus!
