//! Output gain, adjustable while a session is running.

use vstd::prelude::*;

verus! {

/// The bit pattern of the single-precision number one.
pub const UNITY_BITS: u32 = 0x3f80_0000;

/// A gain, as the bit pattern of its linear factor.
#[derive(Debug, Clone, Copy, PartialEq, Eq, Structural)]
pub struct Gain {
    factor: u32,
}

impl Default for Gain {
    fn default() -> (gain: Self)
        ensures
            gain@ == UNITY_BITS,
    {
        Self::unity()
    }
}

impl View for Gain {
    type V = u32;

    closed spec fn view(&self) -> u32 {
        self.factor
    }
}

impl Gain {
    pub fn unity() -> (gain: Self)
        ensures
            gain@ == UNITY_BITS,
    {
        Self { factor: UNITY_BITS }
    }

    /// A gain by a factor with this bit pattern.
    pub fn with_factor(factor_bits: u32) -> (gain: Self)
        ensures
            gain@ == factor_bits,
    {
        Self { factor: factor_bits }
    }

    /// The bit pattern of the linear multiplier.
    pub fn factor(&self) -> (bits: u32)
        ensures
            bits == self@,
    {
        self.factor
    }

    /// True when the gain would not change a sample.
    pub fn is_unity(&self) -> (yes: bool)
        ensures
            yes == (self@ == UNITY_BITS),
    {
        self.factor == UNITY_BITS
    }

    /// Puts a buffer through `scale` in place, unless the gain is unity, which
    /// leaves every sample exactly alone. `scale` takes a sample and the factor.
    pub fn apply<F: Fn(u32, u32) -> u32>(&self, samples: &mut [u32], scale: F)
        requires
            forall|x: u32, f: u32| call_requires(scale, (x, f)),
        ensures
            final(samples)@.len() == old(samples)@.len(),
            self@ == UNITY_BITS ==> final(samples)@ == old(samples)@,
            self@ != UNITY_BITS ==> forall|i: int|
                0 <= i < old(samples)@.len() ==> call_ensures(
                    scale,
                    (old(samples)@[i], self@),
                    #[trigger] final(samples)@[i],
                ),
    {
        if self.is_unity() {
            return;
        }
        let ghost before = samples@;
        let mut i: usize = 0;
        while i < samples.len()
            invariant
                i <= samples@.len(),
                samples@.len() == before.len(),
                forall|x: u32, f: u32| call_requires(scale, (x, f)),
                forall|j: int| i <= j < before.len() ==> samples@[j] == before[j],
                forall|j: int|
                    0 <= j < i ==> call_ensures(
                        scale,
                        (before[j], self@),
                        #[trigger] samples@[j],
                    ),
            decreases samples@.len() - i,
        {
            let scaled: u32 = scale(samples[i], self.factor);
            samples[i] = scaled;
            i = i + 1;
        }
    }
}

} // verus!
