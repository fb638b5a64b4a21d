//! A uniform, verified interface over three compressed-bitmap
//! implementations from outside crates: CRoaring (via `croaring`), the pure
//! Rust `roaring` bitmap, and the dense bit-vector of `bitvec`.
//!
//! Each outside bitmap is held in an opaque newtype and modelled by an
//! uninterpreted contents function giving the set of stored ids; the trusted
//! wrappers state, over that set, what each outside call does, and
//! everything built on [`Bitmap`] is verified against those contracts.

use vstd::prelude::*;

use crate::ID;
use crate::ID_LIMIT;

verus! {

/// A finite set of ids, all below [`ID_LIMIT`]: what any bitmap managed by
/// this crate holds.
pub open spec fn bounded_id_set(s: Set<u64>) -> bool {
    s.finite() && forall|x: u64| s.contains(x) ==> x < ID_LIMIT
}

/// Symmetric difference of two id sets.
pub open spec fn set_sym_diff(a: Set<u64>, b: Set<u64>) -> Set<u64> {
    a.union(b).difference(a.intersect(b))
}

/// The common face of the three bitmap kinds.  `elems()` is the set of ids
/// a bitmap holds; every method's contract is stated over it.
pub trait Bitmap: Sized {
    /// The set of ids stored in this bitmap.
    spec fn elems(&self) -> Set<u64>;

    /// An empty bitmap.
    fn new() -> (r: Self)
        ensures
            r.elems() == Set::<u64>::empty(),
    ;

    /// The number of stored ids.
    fn count(&self) -> (r: u64)
        ensures
            bounded_id_set(self.elems()) ==> r == self.elems().len(),
    ;

    /// A `true` answer means no id is stored.  (The dense bit-vector kind
    /// reports only whether its storage is empty, so `false` promises
    /// nothing.)
    fn is_empty(&self) -> (r: bool)
        ensures
            r ==> self.elems() == Set::<u64>::empty(),
    ;

    /// Stores `id`; idempotent.
    fn add(&mut self, id: ID)
        requires
            id < ID_LIMIT,
        ensures
            final(self).elems() == old(self).elems().insert(id),
    ;

    /// Whether `id` is stored.
    fn contains(&self, id: ID) -> (r: bool)
        requires
            id < ID_LIMIT,
        ensures
            r == self.elems().contains(id),
    ;

    /// The stored ids, in strictly ascending order.
    fn iter_elems(&self) -> (r: Vec<ID>)
        requires
            bounded_id_set(self.elems()),
        ensures
            forall|x: u64| self.elems().contains(x) <==> r@.contains(x),
            forall|i: int, j: int| 0 <= i < j < r@.len() ==> r@[i] < r@[j],
            r@.len() == self.elems().len(),
    ;

    /// Removes from `self` every id stored in `rhs`.
    fn and_not(&mut self, rhs: &Self)
        ensures
            final(self).elems() == old(self).elems().difference(rhs.elems()),
    ;

    /// Adds to `self` every id stored in `rhs`.
    fn or(&mut self, rhs: &Self)
        ensures
            final(self).elems() == old(self).elems().union(rhs.elems()),
    ;

    /// Keeps exactly the ids stored in one of `self`, `rhs` but not both.
    fn xor(&mut self, rhs: &Self)
        ensures
            final(self).elems() == set_sym_diff(old(self).elems(), rhs.elems()),
    ;

    /// A size estimate for serialised storage; no more is promised of it.
    fn estimate_size(&self) -> usize;
}

// ------------------------------------------------------------------
// CRoaring
// ------------------------------------------------------------------

/// A CRoaring compressed bitmap of 32-bit ids.
#[verifier::external_body]
pub struct CRoaringBitmap {
    inner: croaring::Bitmap,
}

/// The set of members of a CRoaring bitmap, as 64-bit ids.
pub uninterp spec fn croaring_elems(b: CRoaringBitmap) -> Set<u64>;

impl CRoaringBitmap {
    /// Relies on croaring::Bitmap::new: creates an empty bitmap.
    #[verifier::external_body]
    fn raw_new() -> (r: Self)
        ensures
            croaring_elems(r) == Set::<u64>::empty(),
    {
        CRoaringBitmap { inner: croaring::Bitmap::new() }
    }

    /// Relies on croaring::Bitmap::cardinality: the number of stored members.
    #[verifier::external_body]
    fn raw_count(&self) -> (r: u64)
        ensures
            bounded_id_set(croaring_elems(*self)) ==> r == croaring_elems(*self).len(),
    {
        self.inner.cardinality()
    }

    /// Relies on croaring::Bitmap::is_empty: true exactly when nothing is stored.
    #[verifier::external_body]
    fn raw_is_empty(&self) -> (r: bool)
        ensures
            r == croaring_elems(*self).is_empty(),
    {
        self.inner.is_empty()
    }

    /// Relies on croaring::Bitmap::add: stores one 32-bit member.
    #[verifier::external_body]
    fn raw_add(&mut self, id: u32)
        ensures
            croaring_elems(*final(self)) == croaring_elems(*old(self)).insert(id as u64),
    {
        self.inner.add(id)
    }

    /// Relies on croaring::Bitmap::contains: membership of one 32-bit value.
    #[verifier::external_body]
    fn raw_contains(&self, id: u32) -> (r: bool)
        ensures
            r == croaring_elems(*self).contains(id as u64),
    {
        self.inner.contains(id)
    }

    /// Relies on croaring::Bitmap::to_vec: all members in ascending order.
    #[verifier::external_body]
    fn raw_to_vec(&self) -> (r: Vec<u64>)
        requires
            bounded_id_set(croaring_elems(*self)),
        ensures
            forall|x: u64| croaring_elems(*self).contains(x) <==> r@.contains(x),
            forall|i: int, j: int| 0 <= i < j < r@.len() ==> r@[i] < r@[j],
            r@.len() == croaring_elems(*self).len(),
    {
        self.inner.to_vec().into_iter().map(u64::from).collect()
    }

    /// Relies on croaring::Bitmap::or_inplace: in-place union.
    #[verifier::external_body]
    fn raw_or(&mut self, rhs: &Self)
        ensures
            croaring_elems(*final(self)) == croaring_elems(*old(self)).union(
                croaring_elems(*rhs),
            ),
    {
        self.inner.or_inplace(&rhs.inner)
    }

    /// Relies on croaring::Bitmap::xor_inplace: in-place symmetric difference.
    #[verifier::external_body]
    fn raw_xor(&mut self, rhs: &Self)
        ensures
            croaring_elems(*final(self)) == set_sym_diff(
                croaring_elems(*old(self)),
                croaring_elems(*rhs),
            ),
    {
        self.inner.xor_inplace(&rhs.inner)
    }

    /// Relies on croaring::Bitmap::andnot_inplace: in-place set difference.
    #[verifier::external_body]
    fn raw_and_not(&mut self, rhs: &Self)
        ensures
            croaring_elems(*final(self)) == croaring_elems(*old(self)).difference(
                croaring_elems(*rhs),
            ),
    {
        self.inner.andnot_inplace(&rhs.inner)
    }

    /// Relies on croaring::Bitmap::get_serialized_size_in_bytes with the
    /// native format: a storage size estimate.
    #[verifier::external_body]
    fn raw_estimate_size(&self) -> usize {
        self.inner.get_serialized_size_in_bytes::<croaring::Native>()
    }
}

impl Bitmap for CRoaringBitmap {
    open spec fn elems(&self) -> Set<u64> {
        croaring_elems(*self)
    }

    fn new() -> (r: Self) {
        CRoaringBitmap::raw_new()
    }

    fn count(&self) -> (r: u64) {
        self.raw_count()
    }

    fn is_empty(&self) -> (r: bool) {
        self.raw_is_empty()
    }

    fn add(&mut self, id: ID) {
        self.raw_add(id as u32)
    }

    fn contains(&self, id: ID) -> (r: bool) {
        self.raw_contains(id as u32)
    }

    fn iter_elems(&self) -> (r: Vec<ID>) {
        self.raw_to_vec()
    }

    fn and_not(&mut self, rhs: &Self) {
        self.raw_and_not(rhs)
    }

    fn or(&mut self, rhs: &Self) {
        self.raw_or(rhs)
    }

    fn xor(&mut self, rhs: &Self) {
        self.raw_xor(rhs)
    }

    fn estimate_size(&self) -> usize {
        self.raw_estimate_size()
    }
}

// ------------------------------------------------------------------
// roaring (pure Rust)
// ------------------------------------------------------------------

/// A `roaring` crate compressed bitmap of 32-bit ids.
#[verifier::external_body]
pub struct RoaringBitmap {
    inner: roaring::RoaringBitmap,
}

/// The set of members of a `roaring` bitmap, as 64-bit ids.
pub uninterp spec fn roaring_elems(b: RoaringBitmap) -> Set<u64>;

impl RoaringBitmap {
    /// Relies on roaring::RoaringBitmap::new: creates an empty bitmap.
    #[verifier::external_body]
    fn raw_new() -> (r: Self)
        ensures
            roaring_elems(r) == Set::<u64>::empty(),
    {
        RoaringBitmap { inner: roaring::RoaringBitmap::new() }
    }

    /// Relies on roaring::RoaringBitmap::len: the number of stored members.
    #[verifier::external_body]
    fn raw_count(&self) -> (r: u64)
        ensures
            bounded_id_set(roaring_elems(*self)) ==> r == roaring_elems(*self).len(),
    {
        self.inner.len()
    }

    /// Relies on roaring::RoaringBitmap::is_empty: true exactly when nothing
    /// is stored.
    #[verifier::external_body]
    fn raw_is_empty(&self) -> (r: bool)
        ensures
            r == roaring_elems(*self).is_empty(),
    {
        self.inner.is_empty()
    }

    /// Relies on roaring::RoaringBitmap::insert: stores one 32-bit member.
    #[verifier::external_body]
    fn raw_add(&mut self, id: u32)
        ensures
            roaring_elems(*final(self)) == roaring_elems(*old(self)).insert(id as u64),
    {
        self.inner.insert(id);
    }

    /// Relies on roaring::RoaringBitmap::contains: membership of one value.
    #[verifier::external_body]
    fn raw_contains(&self, id: u32) -> (r: bool)
        ensures
            r == roaring_elems(*self).contains(id as u64),
    {
        self.inner.contains(id)
    }

    /// Relies on roaring::RoaringBitmap::iter: all members in ascending order.
    #[verifier::external_body]
    fn raw_to_vec(&self) -> (r: Vec<u64>)
        requires
            bounded_id_set(roaring_elems(*self)),
        ensures
            forall|x: u64| roaring_elems(*self).contains(x) <==> r@.contains(x),
            forall|i: int, j: int| 0 <= i < j < r@.len() ==> r@[i] < r@[j],
            r@.len() == roaring_elems(*self).len(),
    {
        self.inner.iter().map(u64::from).collect()
    }

    /// Relies on roaring's `BitOrAssign`: in-place union.
    #[verifier::external_body]
    fn raw_or(&mut self, rhs: &Self)
        ensures
            roaring_elems(*final(self)) == roaring_elems(*old(self)).union(roaring_elems(*rhs)),
    {
        self.inner |= &rhs.inner;
    }

    /// Relies on roaring's `BitXorAssign`: in-place symmetric difference.
    #[verifier::external_body]
    fn raw_xor(&mut self, rhs: &Self)
        ensures
            roaring_elems(*final(self)) == set_sym_diff(
                roaring_elems(*old(self)),
                roaring_elems(*rhs),
            ),
    {
        self.inner ^= &rhs.inner;
    }

    /// Relies on roaring's `SubAssign`: in-place set difference.
    #[verifier::external_body]
    fn raw_and_not(&mut self, rhs: &Self)
        ensures
            roaring_elems(*final(self)) == roaring_elems(*old(self)).difference(
                roaring_elems(*rhs),
            ),
    {
        self.inner -= &rhs.inner;
    }

    /// Relies on roaring::RoaringBitmap::serialized_size: a storage size
    /// estimate.
    #[verifier::external_body]
    fn raw_estimate_size(&self) -> usize {
        self.inner.serialized_size()
    }
}

impl Bitmap for RoaringBitmap {
    open spec fn elems(&self) -> Set<u64> {
        roaring_elems(*self)
    }

    fn new() -> (r: Self) {
        RoaringBitmap::raw_new()
    }

    fn count(&self) -> (r: u64) {
        self.raw_count()
    }

    fn is_empty(&self) -> (r: bool) {
        self.raw_is_empty()
    }

    fn add(&mut self, id: ID) {
        self.raw_add(id as u32)
    }

    fn contains(&self, id: ID) -> (r: bool) {
        self.raw_contains(id as u32)
    }

    fn iter_elems(&self) -> (r: Vec<ID>) {
        self.raw_to_vec()
    }

    fn and_not(&mut self, rhs: &Self) {
        self.raw_and_not(rhs)
    }

    fn or(&mut self, rhs: &Self) {
        self.raw_or(rhs)
    }

    fn xor(&mut self, rhs: &Self) {
        self.raw_xor(rhs)
    }

    fn estimate_size(&self) -> usize {
        self.raw_estimate_size()
    }
}

// ------------------------------------------------------------------
// bitvec (dense bit-vector)
// ------------------------------------------------------------------

/// A dense bit-vector bitmap, suitable for compact id ranges.
#[verifier::external_body]
pub struct BitVec {
    inner: bitvec::vec::BitVec,
}

/// The set of indices of one-bits of a dense bit-vector, as 64-bit ids.
pub uninterp spec fn bitvec_elems(b: BitVec) -> Set<u64>;

impl BitVec {
    /// Relies on bitvec::vec::BitVec::new: creates an empty bit-vector.
    #[verifier::external_body]
    fn raw_new() -> (r: Self)
        ensures
            bitvec_elems(r) == Set::<u64>::empty(),
    {
        BitVec { inner: bitvec::vec::BitVec::new() }
    }

    /// Relies on bitvec's count_ones: the number of one-bits.
    #[verifier::external_body]
    fn raw_count(&self) -> (r: u64)
        ensures
            bounded_id_set(bitvec_elems(*self)) ==> r == bitvec_elems(*self).len(),
    {
        self.inner.count_ones() as u64
    }

    /// Relies on bitvec::vec::BitVec::is_empty, which reports an empty
    /// allocation: a zero-length vector stores no one-bit, but an all-zero
    /// vector of positive length also stores none and reports `false`.
    #[verifier::external_body]
    fn raw_is_empty(&self) -> (r: bool)
        ensures
            r ==> bitvec_elems(*self) == Set::<u64>::empty(),
    {
        self.inner.is_empty()
    }

    /// Relies on bitvec's resize and set: grows storage as needed and sets
    /// one bit.
    #[verifier::external_body]
    fn raw_add(&mut self, id: u32)
        ensures
            bitvec_elems(*final(self)) == bitvec_elems(*old(self)).insert(id as u64),
    {
        let idx = id as usize;
        if self.inner.len() <= idx {
            self.inner.resize(idx + 1, false);
        }
        self.inner.set(idx, true);
    }

    /// Relies on bitvec's get: whether the bit at the index is one (bits
    /// beyond the allocated length read as zero).
    #[verifier::external_body]
    fn raw_contains(&self, id: u32) -> (r: bool)
        ensures
            r == bitvec_elems(*self).contains(id as u64),
    {
        match self.inner.get(id as usize) {
            Some(b) => *b,
            None => false,
        }
    }

    /// Relies on bitvec's iter_ones: indices of one-bits in ascending order.
    #[verifier::external_body]
    fn raw_to_vec(&self) -> (r: Vec<u64>)
        requires
            bounded_id_set(bitvec_elems(*self)),
        ensures
            forall|x: u64| bitvec_elems(*self).contains(x) <==> r@.contains(x),
            forall|i: int, j: int| 0 <= i < j < r@.len() ==> r@[i] < r@[j],
            r@.len() == bitvec_elems(*self).len(),
    {
        self.inner.iter_ones().map(|x| x as u64).collect()
    }

    /// Relies on bitvec's resize and `BitOrAssign`: grows to the other's
    /// length, then ors bitwise, which unions the one-bit index sets.
    #[verifier::external_body]
    fn raw_or(&mut self, rhs: &Self)
        ensures
            bitvec_elems(*final(self)) == bitvec_elems(*old(self)).union(bitvec_elems(*rhs)),
    {
        if self.inner.len() < rhs.inner.len() {
            self.inner.resize(rhs.inner.len(), false);
        }
        *self.inner.as_mut_bitslice() |= rhs.inner.as_bitslice();
    }

    /// Relies on bitvec's resize and `BitXorAssign`: grows to the other's
    /// length, then xors bitwise, the symmetric difference of the index sets.
    #[verifier::external_body]
    fn raw_xor(&mut self, rhs: &Self)
        ensures
            bitvec_elems(*final(self)) == set_sym_diff(
                bitvec_elems(*old(self)),
                bitvec_elems(*rhs),
            ),
    {
        if self.inner.len() < rhs.inner.len() {
            self.inner.resize(rhs.inner.len(), false);
        }
        *self.inner.as_mut_bitslice() ^= rhs.inner.as_bitslice();
    }

    /// Relies on bitvec's clone, resize, `Not` and `BitAndAssign`: masks
    /// with the other's complement padded to this length, clearing exactly
    /// the one-bits that the other also holds.
    #[verifier::external_body]
    fn raw_and_not(&mut self, rhs: &Self)
        ensures
            bitvec_elems(*final(self)) == bitvec_elems(*old(self)).difference(
                bitvec_elems(*rhs),
            ),
    {
        let mut mask = rhs.inner.clone();
        mask.resize(self.inner.len(), false);
        let mask = !mask;
        *self.inner.as_mut_bitslice() &= mask.as_bitslice();
    }

    /// Relies on std's size_of_val over bitvec's raw storage words: the
    /// in-memory size of the allocation.
    #[verifier::external_body]
    fn raw_estimate_size(&self) -> usize {
        core::mem::size_of_val(self.inner.as_raw_slice())
    }
}

impl Bitmap for BitVec {
    open spec fn elems(&self) -> Set<u64> {
        bitvec_elems(*self)
    }

    fn new() -> (r: Self) {
        BitVec::raw_new()
    }

    fn count(&self) -> (r: u64) {
        self.raw_count()
    }

    fn is_empty(&self) -> (r: bool) {
        self.raw_is_empty()
    }

    fn add(&mut self, id: ID) {
        self.raw_add(id as u32)
    }

    fn contains(&self, id: ID) -> (r: bool) {
        self.raw_contains(id as u32)
    }

    fn iter_elems(&self) -> (r: Vec<ID>) {
        self.raw_to_vec()
    }

    fn and_not(&mut self, rhs: &Self) {
        self.raw_and_not(rhs)
    }

    fn or(&mut self, rhs: &Self) {
        self.raw_or(rhs)
    }

    fn xor(&mut self, rhs: &Self) {
        self.raw_xor(rhs)
    }

    fn estimate_size(&self) -> usize {
        self.raw_estimate_size()
    }
}

} // verus!
