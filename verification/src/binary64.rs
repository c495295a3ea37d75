//! Real-valued quantities of the engine (parameter values, note positions,
//! tempo, ...) are IEEE 754 binary64 numbers. The library carries them as
//! their 64-bit patterns (`u64`, as given by `f64::to_bits`) and decides the
//! comparisons the domain rules need directly on those patterns.
//!
//! For a pattern `b`, the low 63 bits are the magnitude and the top bit the
//! sign. Non-NaN values are ordered like the signed integers
//! `sign ? -magnitude : magnitude`; both zeros map to 0 and so compare equal.
//! A pattern whose magnitude is above that of +infinity is a NaN, which is
//! unordered: every comparison with it is false.
use vstd::prelude::*;

verus! {

/// The sign bit of a binary64 pattern.
pub const SIGN_BIT: u64 = 0x8000_0000_0000_0000;

/// The pattern of +infinity; larger magnitudes are NaNs.
pub const INFINITY_BITS: u64 = 0x7ff0_0000_0000_0000;

/// 0.0
pub const ZERO: u64 = 0x0;

/// One thousandth.
pub const ONE_THOUSANDTH: u64 = 0x3f50_624d_d2f1_a9fc;

/// One hundredth.
pub const ONE_HUNDREDTH: u64 = 0x3f84_7ae1_47ae_147b;

/// One tenth.
pub const ONE_TENTH: u64 = 0x3fb9_9999_9999_999a;

/// Three tenths.
pub const THREE_TENTHS: u64 = 0x3fd3_3333_3333_3333;

/// One half.
pub const ONE_HALF: u64 = 0x3fe0_0000_0000_0000;

/// Seven tenths.
pub const SEVEN_TENTHS: u64 = 0x3fe6_6666_6666_6666;

/// Eight tenths.
pub const EIGHT_TENTHS: u64 = 0x3fe9_9999_9999_999a;

/// 1.0
pub const ONE: u64 = 0x3ff0_0000_0000_0000;

/// -1.0
pub const MINUS_ONE: u64 = 0xbff0_0000_0000_0000;

/// 2.0
pub const TWO: u64 = 0x4000_0000_0000_0000;

/// 3.0
pub const THREE: u64 = 0x4008_0000_0000_0000;

/// 4.0
pub const FOUR: u64 = 0x4010_0000_0000_0000;

/// 5.0
pub const FIVE: u64 = 0x4014_0000_0000_0000;

/// 10.0
pub const TEN: u64 = 0x4024_0000_0000_0000;

/// 20.0
pub const TWENTY: u64 = 0x4034_0000_0000_0000;

/// 120.0
pub const ONE_HUNDRED_TWENTY: u64 = 0x405e_0000_0000_0000;

/// 440.0
pub const FOUR_HUNDRED_FORTY: u64 = 0x407b_8000_0000_0000;

/// 1000.0
pub const ONE_THOUSAND: u64 = 0x408f_4000_0000_0000;

/// 20000.0
pub const TWENTY_THOUSAND: u64 = 0x40d3_8800_0000_0000;

/// 44100.0
pub const FORTY_FOUR_THOUSAND_ONE_HUNDRED: u64 = 0x40e5_8880_0000_0000;

/// The magnitude of a pattern: its low 63 bits.
pub open spec fn magnitude(b: u64) -> int {
    if b >= SIGN_BIT {
        b - SIGN_BIT
    } else {
        b as int
    }
}

/// Whether the pattern encodes a NaN.
pub open spec fn is_nan(b: u64) -> bool {
    magnitude(b) > INFINITY_BITS
}

/// The position of a non-NaN value on the number line, as an integer that
/// orders values as the reals they encode are ordered.
pub open spec fn ordinal(b: u64) -> int {
    if b >= SIGN_BIT {
        -magnitude(b)
    } else {
        magnitude(b)
    }
}

/// `a < b` on the values encoded by `a` and `b`.
pub open spec fn lt_spec(a: u64, b: u64) -> bool {
    !is_nan(a) && !is_nan(b) && ordinal(a) < ordinal(b)
}

/// `a <= b` on the values encoded by `a` and `b`.
pub open spec fn le_spec(a: u64, b: u64) -> bool {
    !is_nan(a) && !is_nan(b) && ordinal(a) <= ordinal(b)
}

/// `x.clamp(lo, hi)`: `lo` below the range, `hi` above it, `x` otherwise
/// (a NaN stays a NaN).
pub open spec fn clamp_spec(x: u64, lo: u64, hi: u64) -> u64 {
    if lt_spec(x, lo) {
        lo
    } else if lt_spec(hi, x) {
        hi
    } else {
        x
    }
}

/// Whether `b` encodes a NaN.
pub fn is_nan_bits(b: u64) -> (r: bool)
    ensures
        r == is_nan(b),
{
    let m = if b >= SIGN_BIT {
        b - SIGN_BIT
    } else {
        b
    };
    m > INFINITY_BITS
}

/// The ordinal of `b` (see `ordinal`).
fn ordinal_of(b: u64) -> (r: i128)
    ensures
        r == ordinal(b),
{
    if b >= SIGN_BIT {
        let m = b - SIGN_BIT;
        -(m as i128)
    } else {
        b as i128
    }
}

/// `a < b` on binary64 values.
pub fn lt(a: u64, b: u64) -> (r: bool)
    ensures
        r == lt_spec(a, b),
{
    if is_nan_bits(a) || is_nan_bits(b) {
        false
    } else {
        ordinal_of(a) < ordinal_of(b)
    }
}

/// `a <= b` on binary64 values.
pub fn le(a: u64, b: u64) -> (r: bool)
    ensures
        r == le_spec(a, b),
{
    if is_nan_bits(a) || is_nan_bits(b) {
        false
    } else {
        ordinal_of(a) <= ordinal_of(b)
    }
}

/// `x.clamp(lo, hi)` on binary64 values; `lo <= hi` as `f64::clamp` asks.
pub fn clamp(x: u64, lo: u64, hi: u64) -> (r: u64)
    requires
        le_spec(lo, hi),
    ensures
        r == clamp_spec(x, lo, hi),
{
    if lt(x, lo) {
        lo
    } else if lt(hi, x) {
        hi
    } else {
        x
    }
}

/// Clamping keeps a value that is not a NaN inside the range.
pub proof fn lemma_clamp_in_range(x: u64, lo: u64, hi: u64)
    requires
        le_spec(lo, hi),
        !is_nan(x),
    ensures
        le_spec(lo, clamp_spec(x, lo, hi)),
        le_spec(clamp_spec(x, lo, hi), hi),
{
}

} // verus!
