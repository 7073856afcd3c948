//! Small bit utilities over the primitive unsigned integers.

use vstd::prelude::*;

verus! {

broadcast use vstd::std_specs::bits::group_bits_axioms;

/// A primitive unsigned integer with a known width.
pub trait PrimBits: Sized {
    /// The width in bits.
    spec fn spec_bits() -> usize;

    fn bits() -> (r: usize)
        ensures
            r == Self::spec_bits(),
            r >= 1,
    ;

    /// How many leading zero bits the value has; the whole width exactly
    /// when the value is zero.
    fn lz(self) -> (r: usize)
        ensures
            r <= Self::spec_bits(),
    ;
}

impl PrimBits for u8 {
    open spec fn spec_bits() -> usize {
        8
    }

    fn bits() -> usize {
        8
    }

    fn lz(self) -> (r: usize)
        ensures
            r <= 8,
    {
        self.leading_zeros() as usize
    }
}

impl PrimBits for u16 {
    open spec fn spec_bits() -> usize {
        16
    }

    fn bits() -> usize {
        16
    }

    fn lz(self) -> (r: usize)
        ensures
            r <= 16,
    {
        self.leading_zeros() as usize
    }
}

impl PrimBits for u32 {
    open spec fn spec_bits() -> usize {
        32
    }

    fn bits() -> usize {
        32
    }

    fn lz(self) -> (r: usize)
        ensures
            r <= 32,
    {
        self.leading_zeros() as usize
    }
}

impl PrimBits for u64 {
    open spec fn spec_bits() -> usize {
        64
    }

    fn bits() -> usize {
        64
    }

    fn lz(self) -> (r: usize)
        ensures
            r <= 64,
    {
        self.leading_zeros() as usize
    }
}

impl PrimBits for u128 {
    open spec fn spec_bits() -> usize {
        128
    }

    fn bits() -> usize {
        128
    }

    fn lz(self) -> (r: usize)
        ensures
            r <= 128,
    {
        let hi = (self >> 64u128) as u64;
        let lo = self as u64;
        if hi != 0 {
            hi.leading_zeros() as usize
        } else {
            64 + lo.leading_zeros() as usize
        }
    }
}

/// The width in bits of the given primitive unsigned integer type.
pub fn get_num_of_bits<T: PrimBits>() -> (r: usize)
    ensures
        r == T::spec_bits(),
        r >= 1,
{
    T::bits()
}

/// The index of the highest set bit of `v`, counted from bit zero; nothing
/// when `v` has no set bit.
pub fn get_highest_bit<T: PrimBits>(v: T) -> (r: Option<usize>)
    ensures
        r matches Some(b) ==> b < T::spec_bits(),
{
    let nb = get_num_of_bits::<T>();
    let lz = v.lz();
    if lz != nb {
        Some(nb - (lz + 1))
    } else {
        None
    }
}

} // verus!
