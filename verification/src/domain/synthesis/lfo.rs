//! The choices of the low-frequency oscillator: its wave shape and the
//! parameter it modulates, as selected by a numeric control value.
use vstd::prelude::*;

use crate::binary64::{le, le_spec, lt, lt_spec, FOUR, ONE, THREE, TWO};

verus! {

// 0=sine, 1=square, 2=triangle, 3=saw
#[derive(Debug, Clone, Copy, PartialEq, Eq, Structural)]
pub enum LfoShape {
    Sine,
    Square,
    Triangle,
    Saw,
}

/// The integer part of `v` (a binary64 pattern) is `k`, for `lo` = k and
/// `hi` = k + 1: `v as u8` gives `k` exactly on `[lo, hi)`, since the cast
/// truncates toward zero, saturates, and maps NaN to zero.
pub open spec fn in_unit(v: u64, lo: u64, hi: u64) -> bool {
    le_spec(lo, v) && lt_spec(v, hi)
}

/// Whether `v` lies in `[lo, hi)`.
fn in_unit_exec(v: u64, lo: u64, hi: u64) -> (r: bool)
    ensures
        r == in_unit(v, lo, hi),
{
    le(lo, v) && lt(v, hi)
}

/// The shape selected by a control value: 1 square, 2 triangle, 3 saw,
/// anything else sine (by the integer part of the value).
pub open spec fn shape_of(v: u64) -> LfoShape {
    if in_unit(v, ONE, TWO) {
        LfoShape::Square
    } else if in_unit(v, TWO, THREE) {
        LfoShape::Triangle
    } else if in_unit(v, THREE, FOUR) {
        LfoShape::Saw
    } else {
        LfoShape::Sine
    }
}

impl LfoShape {
    /// The shape selected by the control value `v` (a binary64 pattern).
    pub fn from_f64(v: u64) -> (r: Self)
        ensures
            r == shape_of(v),
    {
        if in_unit_exec(v, ONE, TWO) {
            LfoShape::Square
        } else if in_unit_exec(v, TWO, THREE) {
            LfoShape::Triangle
        } else if in_unit_exec(v, THREE, FOUR) {
            LfoShape::Saw
        } else {
            LfoShape::Sine
        }
    }
}

// 0=cutoff, 1=pitch, 2=volume
#[derive(Debug, Clone, Copy, PartialEq, Eq, Structural)]
pub enum LfoTarget {
    Cutoff,
    Pitch,
    Volume,
}

/// The target selected by a control value: 1 pitch, 2 volume, anything else
/// cutoff (by the integer part of the value).
pub open spec fn target_of(v: u64) -> LfoTarget {
    if in_unit(v, ONE, TWO) {
        LfoTarget::Pitch
    } else if in_unit(v, TWO, THREE) {
        LfoTarget::Volume
    } else {
        LfoTarget::Cutoff
    }
}

impl LfoTarget {
    /// The target selected by the control value `v` (a binary64 pattern).
    pub fn from_f64(v: u64) -> (r: Self)
        ensures
            r == target_of(v),
    {
        if in_unit_exec(v, ONE, TWO) {
            LfoTarget::Pitch
        } else if in_unit_exec(v, TWO, THREE) {
            LfoTarget::Volume
        } else {
            LfoTarget::Cutoff
        }
    }
}

} // verus!
