//! Lowering a vector of `f32` bit patterns to a denser stored form, and
//! marshalling that form to and from little-endian bytes.
//!
//! Two instances: [`NoQuantization`] keeps the 32-bit patterns as they are
//! (four bytes per component), and [`BF16Quantization`] keeps the upper
//! sixteen bits after round-to-nearest-even (two bytes per component), the
//! bfloat16 lowering computed here bit by bit, exactly as the `half` crate's
//! software conversion does it.

use vstd::prelude::*;

use crate::error::Error;
use crate::Vector;

verus! {

// ------------------------------------------------------------------
// bfloat16 bit-level conversion
// ------------------------------------------------------------------

/// The bfloat16 bit pattern nearest to the `f32` with bit pattern `x`:
/// NaNs keep their upper bits with the quiet bit forced, everything else is
/// rounded to nearest, ties to even.
pub open spec fn spec_bf16_of_f32_bits(x: u32) -> u16 {
    if x & 0x7FFF_FFFF > 0x7F80_0000 {
        ((x >> 16) | 0x0040) as u16
    } else if x & 0x8000 != 0 && x & 0x17FFF != 0 {
        ((x >> 16) as u16 + 1) as u16
    } else {
        (x >> 16) as u16
    }
}

/// Lowers one `f32` bit pattern to its nearest bfloat16 bit pattern.
pub fn bf16_bits_from_f32_bits(x: u32) -> (r: u16)
    ensures
        r == spec_bf16_of_f32_bits(x),
{
    if x & 0x7FFF_FFFF > 0x7F80_0000 {
        ((x >> 16) | 0x0040) as u16
    } else if x & 0x8000 != 0 && x & 0x17FFF != 0 {
        let hi = (x >> 16) as u16;
        assert(hi < 0xFFFF) by (bit_vector)
            requires
                hi == (x >> 16) as u16 && !(x & 0x7FFF_FFFF > 0x7F80_0000),
        ;
        hi + 1
    } else {
        (x >> 16) as u16
    }
}

/// Rehydrates a bfloat16 bit pattern to the `f32` bit pattern it denotes.
pub fn f32_bits_from_bf16_bits(b: u16) -> (r: u32)
    ensures
        r == (b as u32) << 16,
{
    (b as u32) << 16
}

// ------------------------------------------------------------------
// little-endian byte encodings
// ------------------------------------------------------------------

/// The four little-endian bytes of a 32-bit value.
pub open spec fn spec_le_bytes32(x: u32) -> Seq<u8> {
    seq![
        (x & 0xFF) as u8,
        ((x >> 8) & 0xFF) as u8,
        ((x >> 16) & 0xFF) as u8,
        ((x >> 24) & 0xFF) as u8,
    ]
}

/// The two little-endian bytes of a 16-bit value.
pub open spec fn spec_le_bytes16(x: u16) -> Seq<u8> {
    seq![(x & 0xFF) as u8, ((x >> 8) & 0xFF) as u8]
}

/// The 32-bit value stored in four little-endian bytes.
pub open spec fn spec_u32_of_le(b0: u8, b1: u8, b2: u8, b3: u8) -> u32 {
    (b0 as u32) | ((b1 as u32) << 8) | ((b2 as u32) << 16) | ((b3 as u32) << 24)
}

/// The 16-bit value stored in two little-endian bytes.
pub open spec fn spec_u16_of_le(b0: u8, b1: u8) -> u16 {
    (b0 as u16) | ((b1 as u16) << 8)
}

proof fn lemma_le32_round_trip(x: u32)
    ensures
        spec_u32_of_le(
            (x & 0xFF) as u8,
            ((x >> 8) & 0xFF) as u8,
            ((x >> 16) & 0xFF) as u8,
            ((x >> 24) & 0xFF) as u8,
        ) == x,
{
    assert(((x & 0xFF) as u8 as u32) | ((((x >> 8) & 0xFF) as u8 as u32) << 8) | ((((x >> 16)
        & 0xFF) as u8 as u32) << 16) | ((((x >> 24) & 0xFF) as u8 as u32) << 24) == x)
        by (bit_vector);
}

proof fn lemma_le16_round_trip(x: u16)
    ensures
        spec_u16_of_le((x & 0xFF) as u8, ((x >> 8) & 0xFF) as u8) == x,
{
    assert(((x & 0xFF) as u8 as u16) | ((((x >> 8) & 0xFF) as u8 as u16) << 8) == x)
        by (bit_vector);
}

// ------------------------------------------------------------------
// marshalled forms
// ------------------------------------------------------------------

/// The little-endian byte stream of a sequence of 32-bit patterns.
pub open spec fn spec_marshal_f32s(raw: Seq<u32>) -> Seq<u8>
    decreases raw.len(),
{
    if raw.len() == 0 {
        Seq::empty()
    } else {
        spec_marshal_f32s(raw.drop_last()) + spec_le_bytes32(raw.last())
    }
}

/// The 32-bit patterns stored in a little-endian byte stream, or nothing if
/// the length is not a whole number of four-byte groups.
pub open spec fn spec_unmarshal_f32s(bytes: Seq<u8>) -> Option<Seq<u32>> {
    if bytes.len() % 4 == 0 {
        Some(
            Seq::new(
                bytes.len() / 4,
                |i: int| spec_u32_of_le(bytes[4 * i], bytes[4 * i + 1], bytes[4 * i + 2], bytes[4 * i + 3]),
            ),
        )
    } else {
        None
    }
}

/// The byte stream of the bfloat16 lowering: the upper sixteen bits of each
/// pattern, little-endian.
pub open spec fn spec_marshal_bf16s(raw: Seq<u32>) -> Seq<u8>
    decreases raw.len(),
{
    if raw.len() == 0 {
        Seq::empty()
    } else {
        spec_marshal_bf16s(raw.drop_last()) + spec_le_bytes16((raw.last() >> 16) as u16)
    }
}

/// The rehydrated 32-bit patterns stored in a bfloat16 byte stream.
pub open spec fn spec_unmarshal_bf16s(bytes: Seq<u8>) -> Option<Seq<u32>> {
    if bytes.len() % 2 == 0 {
        Some(
            Seq::new(
                bytes.len() / 2,
                |i: int| (spec_u16_of_le(bytes[2 * i], bytes[2 * i + 1]) as u32) << 16,
            ),
        )
    } else {
        None
    }
}

proof fn lemma_marshal_f32s_len(raw: Seq<u32>)
    ensures
        spec_marshal_f32s(raw).len() == 4 * raw.len(),
    decreases raw.len(),
{
    if raw.len() > 0 {
        lemma_marshal_f32s_len(raw.drop_last());
    }
}

proof fn lemma_marshal_bf16s_len(raw: Seq<u32>)
    ensures
        spec_marshal_bf16s(raw).len() == 2 * raw.len(),
    decreases raw.len(),
{
    if raw.len() > 0 {
        lemma_marshal_bf16s_len(raw.drop_last());
    }
}

proof fn lemma_marshal_f32s_index(raw: Seq<u32>, i: int)
    requires
        0 <= i < raw.len(),
    ensures
        spec_marshal_f32s(raw).len() == 4 * raw.len(),
        spec_marshal_f32s(raw).subrange(4 * i, 4 * i + 4) =~= spec_le_bytes32(raw[i]),
    decreases raw.len(),
{
    lemma_marshal_f32s_len(raw);
    lemma_marshal_f32s_len(raw.drop_last());
    if i == raw.len() - 1 {
    } else {
        lemma_marshal_f32s_index(raw.drop_last(), i);
        assert(spec_marshal_f32s(raw).subrange(4 * i, 4 * i + 4) =~= spec_marshal_f32s(
            raw.drop_last(),
        ).subrange(4 * i, 4 * i + 4));
    }
}

proof fn lemma_marshal_bf16s_index(raw: Seq<u32>, i: int)
    requires
        0 <= i < raw.len(),
    ensures
        spec_marshal_bf16s(raw).len() == 2 * raw.len(),
        spec_marshal_bf16s(raw).subrange(2 * i, 2 * i + 2) =~= spec_le_bytes16(
            (raw[i] >> 16) as u16,
        ),
    decreases raw.len(),
{
    lemma_marshal_bf16s_len(raw);
    lemma_marshal_bf16s_len(raw.drop_last());
    if i == raw.len() - 1 {
    } else {
        lemma_marshal_bf16s_index(raw.drop_last(), i);
        assert(spec_marshal_bf16s(raw).subrange(2 * i, 2 * i + 2) =~= spec_marshal_bf16s(
            raw.drop_last(),
        ).subrange(2 * i, 2 * i + 2));
    }
}

/// Marshalling 32-bit patterns and reading the bytes back yields the same
/// patterns, exactly.
pub proof fn lemma_f32s_round_trip(raw: Seq<u32>)
    ensures
        spec_unmarshal_f32s(spec_marshal_f32s(raw)) == Some(raw),
{
    lemma_marshal_f32s_len(raw);
    let bytes = spec_marshal_f32s(raw);
    let decoded = spec_unmarshal_f32s(bytes).unwrap();
    assert forall|i: int| 0 <= i < raw.len() implies decoded[i] == raw[i] by {
        lemma_marshal_f32s_index(raw, i);
        assert(bytes[4 * i] == spec_le_bytes32(raw[i])[0]);
        assert(bytes[4 * i + 1] == spec_le_bytes32(raw[i])[1]);
        assert(bytes[4 * i + 2] == spec_le_bytes32(raw[i])[2]);
        assert(bytes[4 * i + 3] == spec_le_bytes32(raw[i])[3]);
        lemma_le32_round_trip(raw[i]);
    }
    assert(decoded =~= raw);
}

/// Marshalling rehydrated bfloat16 patterns (lower sixteen bits clear) and
/// reading the bytes back yields the same patterns, exactly.
pub proof fn lemma_bf16s_round_trip(raw: Seq<u32>)
    requires
        forall|i: int| 0 <= i < raw.len() ==> #[trigger] raw[i] & 0xFFFF == 0,
    ensures
        spec_unmarshal_bf16s(spec_marshal_bf16s(raw)) == Some(raw),
{
    lemma_marshal_bf16s_len(raw);
    let bytes = spec_marshal_bf16s(raw);
    let decoded = spec_unmarshal_bf16s(bytes).unwrap();
    assert forall|i: int| 0 <= i < raw.len() implies decoded[i] == raw[i] by {
        lemma_marshal_bf16s_index(raw, i);
        assert(bytes[2 * i] == spec_le_bytes16((raw[i] >> 16) as u16)[0]);
        assert(bytes[2 * i + 1] == spec_le_bytes16((raw[i] >> 16) as u16)[1]);
        lemma_le16_round_trip((raw[i] >> 16) as u16);
        let x = raw[i];
        assert(x & 0xFFFF == 0 ==> ((x >> 16) as u16 as u32) << 16 == x) by (bit_vector);
    }
    assert(decoded =~= raw);
}

// ------------------------------------------------------------------
// the trait and its two instances
// ------------------------------------------------------------------

/// A lowering of `f32` bit-pattern vectors to a stored form, with an exact
/// byte encoding.  `raw_spec` is the rehydrated view of a lowered value; all
/// contracts are stated over it.
pub trait Quantization {
    /// The stored form of one vector.
    type Lower;

    /// The rehydrated bit patterns a lowered value stands for.
    spec fn raw_spec(l: &Self::Lower) -> Seq<u32>;

    /// The rehydrated view of lowering the given patterns.
    spec fn lower_spec(v: Seq<u32>) -> Seq<u32>;

    /// Whether a sequence of patterns is a possible rehydrated view.
    spec fn raw_ok(raw: Seq<u32>) -> bool;

    /// Bytes per stored vector of the given dimensionality.
    spec fn byte_size_spec(dimensions: nat) -> nat;

    /// The byte encoding of a rehydrated view.
    spec fn marshal_spec(raw: Seq<u32>) -> Seq<u8>;

    /// The rehydrated view read from a byte encoding, if it decodes.
    spec fn unmarshal_spec(bytes: Seq<u8>) -> Option<Seq<u32>>;

    /// The quantization's label, as stored in metadata.
    spec fn name_spec() -> Seq<char>;

    /// Lowers a vector; never fails for these instances, and the result
    /// rehydrates to `lower_spec` of the input, one component per component.
    fn lower(v: Vector) -> (r: Result<Self::Lower, Error>)
        ensures
            r matches Ok(l) ==> Self::raw_spec(&l) == Self::lower_spec(v@),
            r is Ok,
            Self::lower_spec(v@).len() == v@.len(),
            Self::raw_ok(Self::lower_spec(v@)),
    ;

    /// Rehydrates a stored vector to its `f32` bit patterns.
    fn rehydrate(l: &Self::Lower) -> (r: Vector)
        ensures
            r@ == Self::raw_spec(l),
    ;

    /// Bytes per stored vector of the given dimensionality.
    fn vector_size(dimensions: usize) -> (r: usize)
        requires
            Self::byte_size_spec(dimensions as nat) <= usize::MAX,
        ensures
            r == Self::byte_size_spec(dimensions as nat),
    ;

    /// Encodes a stored vector to bytes.
    fn marshal(l: &Self::Lower) -> (r: Vec<u8>)
        ensures
            r@ == Self::marshal_spec(Self::raw_spec(l)),
            Self::raw_ok(Self::raw_spec(l)) ==> Self::unmarshal_spec(r@) == Some(
                Self::raw_spec(l),
            ),
    ;

    /// Decodes a stored vector from bytes; rejects byte streams of the wrong
    /// shape.
    fn unmarshal(bytes: &Vec<u8>) -> (r: Result<Self::Lower, Error>)
        ensures
            r matches Ok(l) ==> Self::unmarshal_spec(bytes@) == Some(Self::raw_spec(&l))
                && Self::raw_ok(Self::raw_spec(&l)),
            r matches Err(e) ==> Self::unmarshal_spec(bytes@) is None
                && e == Error::SerializationFailure,
    ;

    /// The quantization's label.
    fn name() -> (r: &'static str)
        ensures
            r@ == Self::name_spec(),
    ;

    /// The byte encoding loses nothing: every possible rehydrated view
    /// decodes back from its own encoding.
    proof fn lemma_marshal_round_trip(raw: Seq<u32>)
        requires
            Self::raw_ok(raw),
        ensures
            Self::unmarshal_spec(Self::marshal_spec(raw)) == Some(raw),
    ;
}

/// The identity lowering: four little-endian bytes per component.
pub struct NoQuantization {}

impl Quantization for NoQuantization {
    type Lower = Vector;

    open spec fn raw_spec(l: &Vector) -> Seq<u32> {
        l@
    }

    open spec fn lower_spec(v: Seq<u32>) -> Seq<u32> {
        v
    }

    open spec fn raw_ok(raw: Seq<u32>) -> bool {
        true
    }

    open spec fn byte_size_spec(dimensions: nat) -> nat {
        4 * dimensions
    }

    open spec fn marshal_spec(raw: Seq<u32>) -> Seq<u8> {
        spec_marshal_f32s(raw)
    }

    open spec fn unmarshal_spec(bytes: Seq<u8>) -> Option<Seq<u32>> {
        spec_unmarshal_f32s(bytes)
    }

    open spec fn name_spec() -> Seq<char> {
        "none"@
    }

    fn lower(v: Vector) -> (r: Result<Vector, Error>) {
        Ok(v)
    }

    fn rehydrate(l: &Vector) -> (r: Vector) {
        let mut out: Vector = Vec::new();
        let n = l.len();
        let mut i: usize = 0;
        while i < n
            invariant
                i <= n,
                n == l@.len(),
                out@ =~= l@.take(i as int),
            decreases n - i,
        {
            out.push(l[i]);
            i = i + 1;
        }
        proof {
            assert(l@.take(n as int) =~= l@);
        }
        out
    }

    fn vector_size(dimensions: usize) -> (r: usize) {
        4 * dimensions
    }

    fn marshal(l: &Vector) -> (r: Vec<u8>) {
        let r = marshal_f32s(l);
        proof {
            lemma_f32s_round_trip(l@);
        }
        r
    }

    fn unmarshal(bytes: &Vec<u8>) -> (r: Result<Vector, Error>) {
        unmarshal_f32s(bytes)
    }

    fn name() -> (r: &'static str) {
        "none"
    }

    proof fn lemma_marshal_round_trip(raw: Seq<u32>) {
        lemma_f32s_round_trip(raw);
    }
}

/// The bfloat16 lowering: each component rounded to the nearest bfloat16,
/// two little-endian bytes per component.  Lossy on lowering; the byte
/// round trip of the lowered form is exact.
pub struct BF16Quantization {}

/// Every pattern in the sequence has its lower sixteen bits clear: the shape
/// of rehydrated bfloat16 values.
pub open spec fn spec_all_bf16_shaped(raw: Seq<u32>) -> bool {
    forall|i: int| 0 <= i < raw.len() ==> #[trigger] raw[i] & 0xFFFF == 0
}

impl Quantization for BF16Quantization {
    type Lower = Vec<u16>;

    open spec fn raw_spec(l: &Vec<u16>) -> Seq<u32> {
        Seq::new(l@.len(), |i: int| (l@[i] as u32) << 16)
    }

    open spec fn lower_spec(v: Seq<u32>) -> Seq<u32> {
        Seq::new(v.len(), |i: int| (spec_bf16_of_f32_bits(v[i]) as u32) << 16)
    }

    open spec fn raw_ok(raw: Seq<u32>) -> bool {
        spec_all_bf16_shaped(raw)
    }

    open spec fn byte_size_spec(dimensions: nat) -> nat {
        2 * dimensions
    }

    open spec fn marshal_spec(raw: Seq<u32>) -> Seq<u8> {
        spec_marshal_bf16s(raw)
    }

    open spec fn unmarshal_spec(bytes: Seq<u8>) -> Option<Seq<u32>> {
        spec_unmarshal_bf16s(bytes)
    }

    open spec fn name_spec() -> Seq<char> {
        "bf16"@
    }

    fn lower(v: Vector) -> (r: Result<Vec<u16>, Error>) {
        let mut out: Vec<u16> = Vec::new();
        let n = v.len();
        let mut i: usize = 0;
        while i < n
            invariant
                i <= n,
                n == v@.len(),
                out@.len() == i,
                forall|j: int| 0 <= j < i ==> out@[j] == spec_bf16_of_f32_bits(v@[j]),
            decreases n - i,
        {
            out.push(bf16_bits_from_f32_bits(v[i]));
            i = i + 1;
        }
        proof {
            assert(Self::raw_spec(&out) =~= Self::lower_spec(v@));
            assert forall|i2: int| 0 <= i2 < n implies #[trigger] Self::lower_spec(v@)[i2]
                & 0xFFFF == 0 by {
                let b = spec_bf16_of_f32_bits(v@[i2]);
                assert(((b as u32) << 16) & 0xFFFF == 0) by (bit_vector);
            }
        }
        Ok(out)
    }

    fn rehydrate(l: &Vec<u16>) -> (r: Vector) {
        let mut out: Vector = Vec::new();
        let n = l.len();
        let mut i: usize = 0;
        while i < n
            invariant
                i <= n,
                n == l@.len(),
                out@.len() == i,
                forall|j: int| 0 <= j < i ==> out@[j] == (l@[j] as u32) << 16,
            decreases n - i,
        {
            out.push(f32_bits_from_bf16_bits(l[i]));
            i = i + 1;
        }
        proof {
            assert(out@ =~= Self::raw_spec(l));
        }
        out
    }

    fn vector_size(dimensions: usize) -> (r: usize) {
        2 * dimensions
    }

    fn marshal(l: &Vec<u16>) -> (r: Vec<u8>) {
        let r = marshal_bf16s(l);
        proof {
            assert forall|i: int| 0 <= i < Self::raw_spec(l).len() implies #[trigger] Self::raw_spec(
                l,
            )[i] & 0xFFFF == 0 by {
                let b = l@[i];
                assert(((b as u32) << 16) & 0xFFFF == 0) by (bit_vector);
            }
            lemma_bf16s_round_trip(Self::raw_spec(l));
        }
        r
    }

    fn unmarshal(bytes: &Vec<u8>) -> (r: Result<Vec<u16>, Error>) {
        unmarshal_bf16s(bytes)
    }

    fn name() -> (r: &'static str) {
        "bf16"
    }

    proof fn lemma_marshal_round_trip(raw: Seq<u32>) {
        lemma_bf16s_round_trip(raw);
    }
}

// ------------------------------------------------------------------
// executable marshalling
// ------------------------------------------------------------------

/// Encodes 32-bit patterns as little-endian bytes.
pub fn marshal_f32s(v: &Vec<u32>) -> (r: Vec<u8>)
    ensures
        r@ == spec_marshal_f32s(v@),
{
    let mut out: Vec<u8> = Vec::new();
    let n = v.len();
    let mut i: usize = 0;
    while i < n
        invariant
            i <= n,
            n == v@.len(),
            out@ == spec_marshal_f32s(v@.take(i as int)),
        decreases n - i,
    {
        let x = v[i];
        out.push((x & 0xFF) as u8);
        out.push(((x >> 8) & 0xFF) as u8);
        out.push(((x >> 16) & 0xFF) as u8);
        out.push(((x >> 24) & 0xFF) as u8);
        proof {
            assert(v@.take(i as int + 1).drop_last() =~= v@.take(i as int));
            assert(v@.take(i as int + 1).last() == x);
            assert(out@ =~= spec_marshal_f32s(v@.take(i as int)) + spec_le_bytes32(x));
        }
        i = i + 1;
    }
    proof {
        assert(v@.take(n as int) =~= v@);
    }
    out
}

/// Decodes little-endian bytes to 32-bit patterns; the byte count must be a
/// whole number of four-byte groups.
pub fn unmarshal_f32s(bytes: &Vec<u8>) -> (r: Result<Vec<u32>, Error>)
    ensures
        r matches Ok(l) ==> spec_unmarshal_f32s(bytes@) == Some(l@),
        r matches Err(e) ==> spec_unmarshal_f32s(bytes@) is None && e
            == Error::SerializationFailure,
{
    let n = bytes.len();
    if n % 4 != 0 {
        return Err(Error::SerializationFailure);
    }
    let count = n / 4;
    let ghost expected = spec_unmarshal_f32s(bytes@).unwrap();
    let mut out: Vec<u32> = Vec::new();
    let mut i: usize = 0;
    while i < count
        invariant
            i <= count,
            count == n / 4,
            n == bytes@.len(),
            n % 4 == 0,
            expected == spec_unmarshal_f32s(bytes@).unwrap(),
            out@.len() == i,
            forall|j: int| 0 <= j < i ==> out@[j] == expected[j],
        decreases count - i,
    {
        let b0 = bytes[4 * i];
        let b1 = bytes[4 * i + 1];
        let b2 = bytes[4 * i + 2];
        let b3 = bytes[4 * i + 3];
        out.push((b0 as u32) | ((b1 as u32) << 8) | ((b2 as u32) << 16) | ((b3 as u32) << 24));
        i = i + 1;
    }
    proof {
        assert(out@ =~= expected);
    }
    Ok(out)
}

/// Encodes 16-bit patterns as little-endian bytes.
pub fn marshal_bf16s(v: &Vec<u16>) -> (r: Vec<u8>)
    ensures
        r@ == spec_marshal_bf16s(Seq::new(v@.len(), |i: int| (v@[i] as u32) << 16)),
{
    let ghost raw = Seq::new(v@.len(), |i: int| (v@[i] as u32) << 16);
    let mut out: Vec<u8> = Vec::new();
    let n = v.len();
    let mut i: usize = 0;
    while i < n
        invariant
            i <= n,
            n == v@.len(),
            raw == Seq::new(v@.len(), |j: int| (v@[j] as u32) << 16),
            out@ == spec_marshal_bf16s(raw.take(i as int)),
        decreases n - i,
    {
        let x = v[i];
        out.push((x & 0xFF) as u8);
        out.push(((x >> 8) & 0xFF) as u8);
        proof {
            assert(raw.take(i as int + 1).drop_last() =~= raw.take(i as int));
            assert(raw.take(i as int + 1).last() == (x as u32) << 16);
            assert((((x as u32) << 16) >> 16) as u16 == x) by (bit_vector);
            assert(out@ =~= spec_marshal_bf16s(raw.take(i as int)) + spec_le_bytes16(x));
        }
        i = i + 1;
    }
    proof {
        assert(raw.take(n as int) =~= raw);
    }
    out
}

/// Decodes little-endian bytes to 16-bit patterns; the byte count must be a
/// whole number of two-byte groups.
pub fn unmarshal_bf16s(bytes: &Vec<u8>) -> (r: Result<Vec<u16>, Error>)
    ensures
        r matches Ok(l) ==> spec_unmarshal_bf16s(bytes@) == Some(
            Seq::new(l@.len(), |i: int| (l@[i] as u32) << 16),
        ) && spec_all_bf16_shaped(Seq::new(l@.len(), |i: int| (l@[i] as u32) << 16)),
        r matches Err(e) ==> spec_unmarshal_bf16s(bytes@) is None && e
            == Error::SerializationFailure,
{
    let n = bytes.len();
    if n % 2 != 0 {
        return Err(Error::SerializationFailure);
    }
    let count = n / 2;
    let ghost expected = spec_unmarshal_bf16s(bytes@).unwrap();
    let mut out: Vec<u16> = Vec::new();
    let mut i: usize = 0;
    while i < count
        invariant
            i <= count,
            count == n / 2,
            n == bytes@.len(),
            n % 2 == 0,
            expected == spec_unmarshal_bf16s(bytes@).unwrap(),
            out@.len() == i,
            forall|j: int| 0 <= j < i ==> ((out@[j] as u32) << 16) == expected[j],
        decreases count - i,
    {
        let b0 = bytes[2 * i];
        let b1 = bytes[2 * i + 1];
        out.push((b0 as u16) | ((b1 as u16) << 8));
        i = i + 1;
    }
    proof {
        assert(Seq::new(out@.len(), |i: int| (out@[i] as u32) << 16) =~= expected);
        assert forall|i2: int| 0 <= i2 < expected.len() implies #[trigger] expected[i2] & 0xFFFF
            == 0 by {
            let b = spec_u16_of_le(bytes@[2 * i2], bytes@[2 * i2 + 1]);
            assert(((b as u32) << 16) & 0xFFFF == 0) by (bit_vector);
        }
    }
    Ok(out)
}

} // verus!
