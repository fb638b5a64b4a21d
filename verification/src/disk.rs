//! The verified side of the on-disk layout: the metadata a store directory
//! describes itself with, its compatibility rules, and the page arithmetic
//! that places a vector in a fixed-size page file.
//!
//! Reading and writing the files themselves (memory maps, JSON) is left to
//! the embedding program; everything it must compute or check is here.

use vstd::prelude::*;

use crate::error::Error;

verus! {

/// The default number of vectors per page file.
pub const DEFAULT_VECS_PER_FILE: usize = 200_000;

/// Which quantization a store directory was written with.
#[derive(Clone, Copy, Debug, PartialEq, Eq, Structural)]
pub enum QuantKind {
    /// Full 32-bit patterns, four bytes per component.
    F32,
    /// bfloat16, two bytes per component.
    Bf16,
}

/// What `metadata.json` records about a store directory.
pub struct DiskMetadata {
    /// Dimensionality of every stored vector.
    pub dimensions: usize,
    /// The quantization the vectors were lowered with.
    pub quantization: QuantKind,
    /// How many vector slots each page file holds.
    pub vecs_per_file: usize,
    /// The ids of the page files present.
    pub vec_files: Vec<usize>,
    /// A random nonzero token marking this store instance's lineage.
    pub token: u64,
}

/// Fresh metadata for a new store directory: the default page size, no
/// pages, and the given token forced nonzero.
pub fn default_metadata(dimensions: usize, quantization: QuantKind, token: u64) -> (r:
    DiskMetadata)
    ensures
        r.dimensions == dimensions,
        r.quantization == quantization,
        r.vecs_per_file == DEFAULT_VECS_PER_FILE,
        r.vec_files@ == Seq::<usize>::empty(),
        r.token != 0,
        token != 0 ==> r.token == token,
{
    let token = if token == 0 {
        1
    } else {
        token
    };
    DiskMetadata { dimensions, quantization, vecs_per_file: DEFAULT_VECS_PER_FILE, vec_files: Vec::new(), token }
}

/// Holds loaded metadata against what the opener asked for: the quantization
/// labels must agree, then the dimensionality, and the page size must be
/// usable.  Exactly the conforming metadata is accepted.
pub fn validate_metadata(meta: &DiskMetadata, expected: QuantKind, dimensions: usize) -> (r:
    Result<(), Error>)
    ensures
        meta.quantization != expected ==> r == Err::<(), Error>(Error::QuantizationMismatch),
        meta.quantization == expected && meta.dimensions != dimensions ==> r == Err::<(), Error>(
            Error::DimensionMismatch,
        ),
        meta.quantization == expected && meta.dimensions == dimensions && meta.vecs_per_file == 0
            ==> r == Err::<(), Error>(Error::SerializationFailure),
        (meta.quantization == expected && meta.dimensions == dimensions && meta.vecs_per_file != 0)
            <==> r is Ok,
    {
    if meta.quantization != expected {
        return Err(Error::QuantizationMismatch);
    }
    if meta.dimensions != dimensions {
        return Err(Error::DimensionMismatch);
    }
    if meta.vecs_per_file == 0 {
        return Err(Error::SerializationFailure);
    }
    Ok(())
}

/// The page an id lives in and its slot within the page.
pub fn page_of_id(id: u64, vecs_per_file: usize) -> (r: (u64, u64))
    requires
        vecs_per_file >= 1,
    ensures
        r.0 == id / (vecs_per_file as u64),
        r.1 == id % (vecs_per_file as u64),
        r.1 < vecs_per_file,
{
    let vpp = vecs_per_file as u64;
    (id / vpp, id % vpp)
}

/// The size in bytes of a page file holding `max_vecs` vectors of
/// `vec_size` bytes each, where that fits the machine.
pub fn page_file_size(max_vecs: usize, vec_size: usize) -> (r: Option<usize>)
    ensures
        r matches Some(n) ==> n == max_vecs * vec_size,
        r is None <==> max_vecs * vec_size > usize::MAX,
{
    if vec_size == 0 {
        return Some(0);
    }
    if max_vecs > usize::MAX / vec_size {
        proof {
            assert(max_vecs * vec_size > usize::MAX) by (nonlinear_arith)
                requires
                    vec_size >= 1 && max_vecs > usize::MAX / vec_size,
            ;
        }
        return None;
    }
    proof {
        assert(max_vecs * vec_size <= usize::MAX) by (nonlinear_arith)
            requires
                vec_size >= 1 && max_vecs <= usize::MAX / vec_size,
        ;
    }
    Some(max_vecs * vec_size)
}

/// The byte range of the vector slot at `offset` in a page of `max_vecs`
/// slots of `vec_size` bytes; an offset outside the page is refused.
pub fn vector_byte_range(offset: usize, vec_size: usize, max_vecs: usize) -> (r: Result<
    (usize, usize),
    Error,
>)
    requires
        max_vecs * vec_size <= usize::MAX,
    ensures
        (offset >= max_vecs) <==> r == Err::<(usize, usize), Error>(Error::IoFailure),
        r matches Ok(se) ==> se.0 == offset * vec_size && se.1 == (offset + 1) * vec_size && se.1
            <= max_vecs * vec_size,
{
    if offset >= max_vecs {
        return Err(Error::IoFailure);
    }
    proof {
        assert((offset + 1) * vec_size <= max_vecs * vec_size && offset * vec_size <= (offset + 1)
            * vec_size && (offset + 1) * vec_size == offset * vec_size + vec_size)
            by (nonlinear_arith)
            requires
                offset < max_vecs,
        ;
    }
    let start = offset * vec_size;
    Ok((start, start + vec_size))
}

} // verus!
