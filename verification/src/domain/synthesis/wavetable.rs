//! The wavetable: one cycle of the oscillator's waveform as samples
//! (binary64 patterns).
use vstd::prelude::*;

use crate::binary64::{MINUS_ONE, ONE};

verus! {

#[derive(Debug, Clone)]
pub struct Wavetable {
    samples: Vec<u64>,
}

impl View for Wavetable {
    type V = Seq<u64>;

    closed spec fn view(&self) -> Seq<u64> {
        self.samples@
    }
}

/// A square cycle: `1` for the first half of the samples, `-1` after.
pub open spec fn square_samples(size: nat) -> Seq<u64> {
    Seq::new(size, |i: int| if i < size / 2 { ONE } else { MINUS_ONE })
}

impl Wavetable {
    pub const DEFAULT_SIZE: usize = 2048;

    fn new(samples: Vec<u64>) -> (r: Self)
        ensures
            r@ == samples@,
    {
        Self { samples }
    }

    pub fn samples(&self) -> (r: &[u64])
        ensures
            r@ == self@,
    {
        self.samples.as_slice()
    }

    /// A square wave of `size` samples.
    pub fn square(size: usize) -> (r: Self)
        ensures
            r@ == square_samples(size as nat),
    {
        let mut samples: Vec<u64> = Vec::new();
        let mut i: usize = 0;
        while i < size
            invariant
                i <= size,
                samples@ =~= square_samples(size as nat).take(i as int),
            decreases size - i,
        {
            if i < size / 2 {
                samples.push(ONE);
            } else {
                samples.push(MINUS_ONE);
            }
            i = i + 1;
        }
        Self::new(samples)
    }

    /// A wavetable holding the given samples, as the user sent them.
    pub fn from_samples(samples: Vec<u64>) -> (r: Self)
        ensures
            r@ == samples@,
    {
        Self::new(samples)
    }
}

} // verus!
