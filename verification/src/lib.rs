//! An approximate-nearest-neighbour index for unit vectors under cosine
//! similarity.
//!
//! Real-valued data crosses this crate's boundary as IEEE 754 bit patterns:
//! a vector component is a `u32` holding the bits of an `f32`, and a
//! similarity is reported as a total-order key (see [`keys`]).  All index
//! logic — face assignment, ballots, the layered counting bitmap, top-k
//! selection — is verified here; the floating-point kernels (dot product,
//! normalisation, random basis construction) are supplied by the caller
//! through the [`math::VectorMath`] trait.

use vstd::prelude::*;

pub mod backend;
pub mod backend_memory;
pub mod bitmaps;
pub mod counting_bitmap;
pub mod disk;
pub mod error;
pub mod keys;
pub mod math;
pub mod quantization;
pub mod result;
pub mod spec_types;
pub mod unaligned_f32;
pub mod vector_store;

pub use backend::BackendInfo;
pub use backend::VectorBackend;
pub use backend_memory::MemoryBackend;
pub use backend_memory::QuantizedMemoryBackend;
pub use bitmaps::BitVec;
pub use bitmaps::Bitmap;
pub use bitmaps::CRoaringBitmap;
pub use bitmaps::RoaringBitmap;
pub use counting_bitmap::CountingBitmap;
pub use error::Error;
pub use math::VectorMath;
pub use quantization::BF16Quantization;
pub use quantization::NoQuantization;
pub use quantization::Quantization;
pub use result::ResultSet;
pub use result::SearchResult;
pub use unaligned_f32::UnalignedF32Slice;
pub use vector_store::VectorStore;

verus! {

/// Identifier a caller assigns to a vector.
pub type ID = u64;

/// Exclusive upper bound on vector ids accepted by the index: the compressed
/// bitmaps address members with 32 bits, and the in-memory backend needs
/// `id + 1` to fit a `usize` on every platform.
pub const ID_LIMIT: u64 = 0xFFFF_FFFF;

/// A vector of `f32` components, each carried as its IEEE 754 bit pattern.
pub type Vector = Vec<u32>;

/// An orthonormal set of `D` vectors of dimension `D`.
pub type Basis = Vec<Vector>;

} // verus!
