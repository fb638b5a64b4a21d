//! A byte region holding packed little-endian `f32` bit patterns, read
//! without any alignment assumption.

use vstd::prelude::*;

use crate::error::Error;
use crate::quantization::spec_unmarshal_f32s;
use crate::quantization::unmarshal_f32s;
use crate::Vector;

verus! {

/// Bytes that pack whole 32-bit patterns, as a stored vector region does.
#[derive(Debug)]
pub struct UnalignedF32Slice {
    bytes: Vec<u8>,
}

impl UnalignedF32Slice {
    /// The underlying bytes.
    pub closed spec fn spec_bytes(&self) -> Seq<u8> {
        self.bytes@
    }

    /// Well-formedness: a whole number of four-byte groups.
    pub closed spec fn wf(&self) -> bool {
        self.spec_bytes().len() % 4 == 0
    }

    /// Wraps bytes, rejecting a length that is not a whole number of
    /// four-byte groups.
    pub fn from_bytes(bytes: Vec<u8>) -> (r: Result<Self, Error>)
        ensures
            r matches Ok(s) ==> s.wf() && s.spec_bytes() == bytes@,
            (bytes@.len() % 4 != 0) <==> r is Err,
            r matches Err(e) ==> e == Error::SerializationFailure,
    {
        if bytes.len() % 4 != 0 {
            return Err(Error::SerializationFailure);
        }
        Ok(UnalignedF32Slice { bytes })
    }

    /// The raw bytes.
    pub fn as_bytes(&self) -> (r: &Vec<u8>)
        ensures
            r@ == self.spec_bytes(),
    {
        &self.bytes
    }

    /// How many 32-bit patterns fit in the region.
    pub fn len(&self) -> (r: usize)
        ensures
            r == self.spec_bytes().len() / 4,
    {
        self.bytes.len() / 4
    }

    /// Whether the region is empty.
    pub fn is_empty(&self) -> (r: bool)
        ensures
            r == (self.spec_bytes().len() == 0),
    {
        self.bytes.is_empty()
    }

    /// The packed 32-bit patterns, decoded little-endian.
    pub fn to_vector(&self) -> (r: Vector)
        requires
            self.wf(),
        ensures
            spec_unmarshal_f32s(self.spec_bytes()) == Some(r@),
    {
        match unmarshal_f32s(&self.bytes) {
            Ok(v) => v,
            Err(e) => {
                proof {
                    assert(false);
                }
                Vec::new()
            },
        }
    }
}

} // verus!
