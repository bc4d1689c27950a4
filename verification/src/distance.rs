//! The distance measures of an index. A measure is chosen once, when the
//! index is made; the arithmetic of the measures is not part of this crate,
//! which sees a distance only as the key that orders it.
//!
//! A distance is a number in the IEEE 754 single format. Its key is made
//! from its 32 bits, so that keys are ordered as the numbers are: a number
//! with the sign bit set comes before every number without, numbers without
//! it are ordered by their other 31 bits, and numbers with it the other way
//! round.

use vstd::prelude::*;

verus! {

/// The distance measure as an index descriptor names it.
#[derive(Debug, Clone, Copy, PartialEq, Eq, Structural)]
pub enum PbDistanceType {
    Unspecified,
    L1,
    L2,
    Cosine,
    InnerProduct,
}

/// The distance measure of an index.
#[derive(Debug, Clone, Copy, PartialEq, Eq, Structural)]
pub enum DistanceMeasurement {
    L1,
    L2,
    Cosine,
    InnerProduct,
}

impl DistanceMeasurement {
    /// The measure that a descriptor names.
    pub open spec fn named_by(value: PbDistanceType) -> DistanceMeasurement {
        match value {
            PbDistanceType::L1 => DistanceMeasurement::L1,
            PbDistanceType::L2 => DistanceMeasurement::L2,
            PbDistanceType::Cosine => DistanceMeasurement::Cosine,
            _ => DistanceMeasurement::InnerProduct,
        }
    }

    /// The measure that a descriptor names, which must name one.
    pub fn from_pb(value: PbDistanceType) -> (measure: DistanceMeasurement)
        requires
            !(value is Unspecified),
        ensures
            measure == Self::named_by(value),
    {
        match value {
            PbDistanceType::L1 => DistanceMeasurement::L1,
            PbDistanceType::L2 => DistanceMeasurement::L2,
            PbDistanceType::Cosine => DistanceMeasurement::Cosine,
            _ => DistanceMeasurement::InnerProduct,
        }
    }

    /// How a descriptor names the measure.
    pub fn to_pb(self) -> (value: PbDistanceType)
        ensures
            !(value is Unspecified),
            Self::named_by(value) == self,
    {
        match self {
            DistanceMeasurement::L1 => PbDistanceType::L1,
            DistanceMeasurement::L2 => PbDistanceType::L2,
            DistanceMeasurement::Cosine => PbDistanceType::Cosine,
            DistanceMeasurement::InnerProduct => PbDistanceType::InnerProduct,
        }
    }
}

/// The sum of the absolute differences of the components.
#[derive(Debug, Clone, Copy, PartialEq, Eq, Structural)]
pub struct L1Distance;

/// The sum of the squared differences of the components.
#[derive(Debug, Clone, Copy, PartialEq, Eq, Structural)]
pub struct L2Distance;

/// One minus the cosine of the angle between the vectors.
#[derive(Debug, Clone, Copy, PartialEq, Eq, Structural)]
pub struct CosineDistance;

/// The negated inner product of the vectors.
#[derive(Debug, Clone, Copy, PartialEq, Eq, Structural)]
pub struct InnerProductDistance;

impl L1Distance {
    /// The measure that this type stands for.
    pub fn measurement() -> (measure: DistanceMeasurement)
        ensures
            measure == DistanceMeasurement::L1,
    {
        DistanceMeasurement::L1
    }
}

impl L2Distance {
    /// The measure that this type stands for.
    pub fn measurement() -> (measure: DistanceMeasurement)
        ensures
            measure == DistanceMeasurement::L2,
    {
        DistanceMeasurement::L2
    }
}

impl CosineDistance {
    /// The measure that this type stands for.
    pub fn measurement() -> (measure: DistanceMeasurement)
        ensures
            measure == DistanceMeasurement::Cosine,
    {
        DistanceMeasurement::Cosine
    }
}

impl InnerProductDistance {
    /// The measure that this type stands for.
    pub fn measurement() -> (measure: DistanceMeasurement)
        ensures
            measure == DistanceMeasurement::InnerProduct,
    {
        DistanceMeasurement::InnerProduct
    }
}

/// Whether the sign bit of the number with the bits `bits` is set.
pub open spec fn sign_set(bits: u32) -> bool {
    bits & 0x8000_0000 != 0
}

/// The bits of the number without its sign bit.
pub open spec fn magnitude(bits: u32) -> u32 {
    bits & 0x7fff_ffff
}

/// The number with the bits `a` comes before the number with the bits `b`.
pub open spec fn precedes(a: u32, b: u32) -> bool {
    if sign_set(a) {
        !sign_set(b) || magnitude(a) > magnitude(b)
    } else {
        !sign_set(b) && magnitude(a) < magnitude(b)
    }
}

/// The key of the distance with the bits `bits`.
pub open spec fn key_of(bits: u32) -> u64 {
    if sign_set(bits) {
        (!bits) as u64
    } else {
        (bits | 0x8000_0000) as u64
    }
}

/// Keys are ordered as the numbers that they stand for, and different
/// numbers have different keys.
pub proof fn lemma_keys_order(a: u32, b: u32)
    ensures
        key_of(a) < key_of(b) <==> precedes(a, b),
        key_of(a) == key_of(b) <==> a == b,
{
    assert((if a & 0x8000_0000 != 0 {
        !a
    } else {
        a | 0x8000_0000
    }) < (if b & 0x8000_0000 != 0 {
        !b
    } else {
        b | 0x8000_0000
    }) <==> (if a & 0x8000_0000 != 0 {
        !(b & 0x8000_0000 != 0) || (a & 0x7fff_ffff) > (b & 0x7fff_ffff)
    } else {
        !(b & 0x8000_0000 != 0) && (a & 0x7fff_ffff) < (b & 0x7fff_ffff)
    })) by (bit_vector);
    assert((if a & 0x8000_0000 != 0 {
        !a
    } else {
        a | 0x8000_0000
    }) == (if b & 0x8000_0000 != 0 {
        !b
    } else {
        b | 0x8000_0000
    }) <==> a == b) by (bit_vector);
}

/// The key of the distance with the bits `bits`.
pub fn distance_key(bits: u32) -> (key: u64)
    ensures
        key == key_of(bits),
{
    if bits & 0x8000_0000 != 0 {
        (!bits) as u64
    } else {
        (bits | 0x8000_0000) as u64
    }
}

} // verus!
