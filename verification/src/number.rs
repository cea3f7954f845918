//! Reading a double by its bits: the whole part of a number as a count.

use vstd::arithmetic::power2::pow2;
use vstd::prelude::*;

use crate::ast::Scalar;

verus! {

/// Whether the sign bit of a double is set.
pub open spec fn is_negative(bits: u64) -> bool {
    bits >= 0x8000_0000_0000_0000
}

/// The biased exponent of a double: eleven bits.
pub open spec fn exponent(bits: u64) -> int {
    (bits as int / 0x10_0000_0000_0000) % 0x800
}

/// The fraction of a double: the low fifty-two bits.
pub open spec fn fraction(bits: u64) -> int {
    bits as int % 0x10_0000_0000_0000
}

/// The number with the given bits, cut to a whole number and brought into
/// the range from 0 to `max`: what is not a number and what is negative gives
/// 0, what is too large gives `max`, and every other number loses what
/// stands behind the point. A double with the exponent `e` and the fraction
/// `f` is `(2^52 + f) * 2^(e - 1075)`, so with `max` below `2^52` every
/// double with an exponent of 1075 or more is too large.
pub open spec fn whole(bits: u64, max: nat) -> nat {
    let e = exponent(bits);
    let f = fraction(bits);
    if is_negative(bits) {
        0
    } else if e == 0x7ff {
        if f != 0 {
            0
        } else {
            max
        }
    } else if e < 1023 {
        0
    } else if e >= 1075 {
        max
    } else {
        let floor = (0x10_0000_0000_0000 + f) as nat / pow2((1075 - e) as nat);
        if floor > max {
            max
        } else {
            floor
        }
    }
}

/// The whole part of a number as a `u32`.
pub open spec fn whole_u32(bits: u64) -> u32 {
    whole(bits, 0xffff_ffff) as u32
}

/// The whole part of a number as a `u8`.
pub open spec fn whole_u8(bits: u64) -> u8 {
    whole(bits, 0xff) as u8
}

fn whole_capped(bits: u64, max: u64) -> (count: u64)
    requires
        max < 0x10_0000_0000_0000,
    ensures
        count == whole(bits, max as nat),
        count <= max,
{
    if bits >= 0x8000_0000_0000_0000 {
        return 0;
    }
    let e: u64 = bits >> 52;
    let f: u64 = bits & 0xf_ffff_ffff_ffff;
    assert(e == bits / 0x10_0000_0000_0000 && f == bits % 0x10_0000_0000_0000 && e < 0x800)
        by (bit_vector)
        requires
            e == bits >> 52,
            f == bits & 0xf_ffff_ffff_ffff,
            bits < 0x8000_0000_0000_0000,
    ;
    if e == 0x7ff {
        if f != 0 {
            0
        } else {
            max
        }
    } else if e < 1023 {
        0
    } else if e >= 1075 {
        max
    } else {
        let m: u64 = 0x10_0000_0000_0000 + f;
        let shift: u64 = 1075 - e;
        let floor: u64 = m >> shift;
        proof {
            vstd::bits::lemma_u64_shr_is_div(m, shift);
        }
        if floor > max {
            max
        } else {
            floor
        }
    }
}

impl Scalar {
    /// The whole part of the number as a `u32`: 0 for what is negative or no
    /// number, the largest `u32` for what is too large.
    pub fn to_u32(&self) -> (count: u32)
        ensures
            count == whole_u32(self.bits),
    {
        whole_capped(self.bits, 0xffff_ffff) as u32
    }

    /// The whole part of the number as a `u8`: 0 for what is negative or no
    /// number, 255 for what is too large.
    pub fn to_u8(&self) -> (count: u8)
        ensures
            count == whole_u8(self.bits),
    {
        whole_capped(self.bits, 0xff) as u8
    }
}

} // verus!
