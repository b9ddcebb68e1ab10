//! Comparisons of IEEE-754 single-precision values held as their bit patterns.
//!
//! Header quantities such as the difficulty target are single-precision
//! numbers; the chain compares them here by their bits, exactly as the
//! hardware comparison does.
use vstd::prelude::*;

verus! {

pub open spec fn is_nan_bits(b: u32) -> bool {
    (b & 0x7f80_0000u32) == 0x7f80_0000u32 && (b & 0x007f_ffffu32) != 0
}

/// The position of a non-NaN value on the number line, as an integer that
/// orders like the value (both zeros map to 0).
pub open spec fn order_key(b: u32) -> int {
    if b & 0x8000_0000u32 != 0 {
        -((b & 0x7fff_ffffu32) as int)
    } else {
        (b & 0x7fff_ffffu32) as int
    }
}

/// IEEE equality: NaN equals nothing, and the two zeros are equal.
pub open spec fn float_eq(a: u32, b: u32) -> bool {
    !is_nan_bits(a) && !is_nan_bits(b) && order_key(a) == order_key(b)
}

/// IEEE less-than: false whenever either side is NaN.
pub open spec fn float_lt(a: u32, b: u32) -> bool {
    !is_nan_bits(a) && !is_nan_bits(b) && order_key(a) < order_key(b)
}

pub fn is_nan(b: u32) -> (r: bool)
    ensures
        r == is_nan_bits(b),
{
    (b & 0x7f80_0000u32) == 0x7f80_0000u32 && (b & 0x007f_ffffu32) != 0
}

/// `a == b` on the values that the bits stand for.
pub fn f32_eq(a: u32, b: u32) -> (r: bool)
    ensures
        r == float_eq(a, b),
{
    if is_nan(a) || is_nan(b) {
        return false;
    }
    let sa = a & 0x8000_0000u32 != 0;
    let sb = b & 0x8000_0000u32 != 0;
    let ma = a & 0x7fff_ffffu32;
    let mb = b & 0x7fff_ffffu32;
    if ma == 0 && mb == 0 {
        return true;
    }
    sa == sb && ma == mb
}

/// `a < b` on the values that the bits stand for.
pub fn f32_lt(a: u32, b: u32) -> (r: bool)
    ensures
        r == float_lt(a, b),
{
    if is_nan(a) || is_nan(b) {
        return false;
    }
    let sa = a & 0x8000_0000u32 != 0;
    let sb = b & 0x8000_0000u32 != 0;
    let ma = a & 0x7fff_ffffu32;
    let mb = b & 0x7fff_ffffu32;
    if sa && sb {
        mb < ma
    } else if sa && !sb {
        !(ma == 0 && mb == 0)
    } else if !sa && sb {
        false
    } else {
        ma < mb
    }
}

} // verus!
