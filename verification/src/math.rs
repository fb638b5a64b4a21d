//! The pluggable floating-point kernels.
//!
//! The index never computes with floats; it consumes dot products and
//! normalised vectors as `f32` bit patterns produced by an implementation of
//! [`VectorMath`] that the embedding program supplies.  The two spec
//! functions name, per implementation, the value each kernel returns, so
//! that every verified contract built on them is exact and deterministic;
//! nothing beyond determinism and the stated lengths is assumed of the
//! numerics.

use vstd::prelude::*;

use crate::Basis;
use crate::Vector;

verus! {

/// The floating-point kernels an embedding program plugs in: a dot product,
/// vector normalisation, and random orthonormal basis construction.
pub trait VectorMath {
    /// The value `dot` returns, per implementation, as `f32` bits.  When the
    /// inputs differ in length, the kernel pairs components up to the
    /// shorter one.
    spec fn dot_spec(a: Seq<u32>, b: Seq<u32>) -> u32;

    /// The value `normalize` returns, per implementation, as `f32` bits.
    spec fn normalize_spec(v: Seq<u32>) -> Seq<u32>;

    /// The dot product of the floats the two vectors encode, as `f32` bits.
    fn dot(a: &Vector, b: &Vector) -> (r: u32)
        ensures
            r == Self::dot_spec(a@, b@),
    ;

    /// The input scaled to unit Euclidean norm (undefined numerics on a zero
    /// vector are the caller's concern), as `f32` bit patterns.
    fn normalize(v: &Vector) -> (r: Vector)
        ensures
            r@ == Self::normalize_spec(v@),
            r@.len() == v@.len(),
    ;

    /// `n_basis` random orthonormal bases of the given dimensionality: the
    /// result's shape is guaranteed; its entries depend on the
    /// implementation's randomness, of which nothing is promised.
    fn make_basis(n_basis: usize, dimensions: usize) -> (r: Vec<Basis>)
        ensures
            r@.len() == n_basis,
            forall|i: int| 0 <= i < n_basis ==> (#[trigger] r@[i])@.len() == dimensions,
            forall|i: int, j: int|
                0 <= i < n_basis && 0 <= j < dimensions ==> (#[trigger] r@[i]@[j])@.len()
                    == dimensions,
    ;
}

} // verus!
