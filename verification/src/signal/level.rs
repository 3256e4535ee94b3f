//! A peak level meter that an audio callback can write to.
//!
//! Peak-hold with reset-on-read. Samples are the bit patterns of
//! single-precision floats: the finite non-negative ones are ordered as the
//! integers their bits spell.

use vstd::prelude::*;

verus! {

/// The bit pattern of positive infinity. Larger magnitudes are not numbers.
pub const INFINITE: u32 = 0x7f80_0000;

/// The bit pattern without its sign bit: the magnitude of a sample.
pub open spec fn magnitude(bits: u32) -> u32 {
    if bits >= 0x8000_0000 {
        (bits - 0x8000_0000) as u32
    } else {
        bits
    }
}

/// The sample is a number, if perhaps an infinite one.
pub open spec fn is_number(bits: u32) -> bool {
    magnitude(bits) <= INFINITE
}

/// `peak` is the largest magnitude among the numbers in a block, zero where it
/// has none.
pub open spec fn is_block_peak(samples: Seq<u32>, peak: u32) -> bool {
    &&& forall|i: int|
        0 <= i < samples.len() && is_number(#[trigger] samples[i]) ==> magnitude(samples[i])
            <= peak
    &&& peak == 0 || exists|i: int|
        0 <= i < samples.len() && is_number(#[trigger] samples[i]) && magnitude(samples[i]) == peak
}

/// What is held after a magnitude: the larger, where the new one is finite and
/// above zero.
pub open spec fn held_after(held: u32, peak: u32) -> u32 {
    if 0 < peak < INFINITE && peak > held {
        peak
    } else {
        held
    }
}

/// The largest magnitude in a block of interleaved samples.
pub fn block_peak(samples: &[u32]) -> (peak: u32)
    ensures
        is_block_peak(samples@, peak),
{
    let mut peak: u32 = 0;
    let mut i: usize = 0;
    while i < samples.len()
        invariant
            i <= samples@.len(),
            is_block_peak(samples@.take(i as int), peak),
        decreases samples@.len() - i,
    {
        let bits: u32 = samples[i];
        let size: u32 = if bits >= 0x8000_0000 {
            bits - 0x8000_0000
        } else {
            bits
        };
        let ghost before = samples@.take(i as int);
        let ghost after = samples@.take(i + 1);
        let ghost was = peak;
        assert(after[i as int] == bits);
        assert(forall|j: int| 0 <= j < i ==> #[trigger] after[j] == before[j]);
        if size <= INFINITE && size > peak {
            peak = size;
        }
        proof {
            if was != 0 && peak == was {
                let j = choose|j: int|
                    0 <= j < before.len() && is_number(#[trigger] before[j]) && magnitude(before[j])
                        == was;
                assert(after[j] == before[j]);
            }
        }
        i = i + 1;
    }
    assert(samples@.take(i as int) =~= samples@);
    peak
}

/// The peak seen since it was last taken.
#[derive(Debug, Clone, Copy, PartialEq, Eq, Structural)]
pub struct LevelMeter {
    peak: u32,
}

impl Default for LevelMeter {
    fn default() -> (meter: Self)
        ensures
            meter@ == 0,
    {
        Self::new()
    }
}

impl View for LevelMeter {
    type V = u32;

    /// The bit pattern of the held peak.
    closed spec fn view(&self) -> u32 {
        self.peak
    }
}

impl LevelMeter {
    pub fn new() -> (meter: Self)
        ensures
            meter@ == 0,
    {
        Self { peak: 0 }
    }

    /// A meter that holds the peak with this bit pattern.
    pub fn holding(bits: u32) -> (meter: Self)
        ensures
            meter@ == bits,
    {
        Self { peak: bits }
    }

    /// Folds a block of interleaved samples into the held peak.
    pub fn record(&mut self, samples: &[u32])
        ensures
            exists|peak: u32|
                is_block_peak(samples@, peak) && final(self)@ == #[trigger] held_after(
                    old(self)@,
                    peak,
                ),
    {
        let peak: u32 = block_peak(samples);
        self.record_peak(peak);
    }

    /// [`LevelMeter::record`] for a block whose peak is put through `scale`, as
    /// the samples are about to be.
    pub fn record_scaled<F: Fn(u32) -> u32>(&mut self, samples: &[u32], scale: F)
        requires
            forall|x: u32| call_requires(scale, (x,)),
        ensures
            exists|peak: u32, scaled: u32|
                is_block_peak(samples@, peak) && #[trigger] call_ensures(scale, (peak,), scaled)
                    && final(self)@ == held_after(old(self)@, scaled),
    {
        let peak: u32 = block_peak(samples);
        let scaled: u32 = scale(peak);
        self.record_peak(scaled);
    }

    /// Folds a single magnitude into the held peak. One that is negative, not
    /// finite or not a number is dropped.
    pub fn record_peak(&mut self, peak: u32)
        ensures
            final(self)@ == held_after(old(self)@, peak),
    {
        if peak == 0 || peak >= INFINITE {
            return;
        }
        if peak > self.peak {
            self.peak = peak;
        }
    }

    /// Returns the peak since the last call and resets the hold.
    pub fn take(&mut self) -> (bits: u32)
        ensures
            bits == old(self)@,
            final(self)@ == 0,
    {
        let bits: u32 = self.peak;
        self.peak = 0;
        bits
    }

    /// Reads the held peak without clearing it.
    pub fn peek(&self) -> (bits: u32)
        ensures
            bits == self@,
    {
        self.peak
    }
}

/// A block has one peak only.
pub proof fn block_peak_is_unique(samples: Seq<u32>, a: u32, b: u32)
    requires
        is_block_peak(samples, a),
        is_block_peak(samples, b),
    ensures
        a == b,
{
}

/// The meter never holds anything but a finite magnitude, so one bad sample
/// cannot freeze it.
pub proof fn the_meter_stays_finite(held: u32, peak: u32)
    requires
        held < INFINITE,
    ensures
        held_after(held, peak) < INFINITE,
        held_after(held, peak) >= held,
{
}

/// The order in which magnitudes arrive makes no difference to the peak held.
pub proof fn the_largest_magnitude_is_held(held: u32, first: u32, second: u32)
    ensures
        held_after(held_after(held, first), second) == held_after(held_after(held, second), first),
{
}

/// The peak of a block is the largest magnitude in it, signs left aside and what is
/// not a number left out: no number in it is larger, and one is as large.
pub proof fn the_peak_is_the_largest_number(samples: Seq<u32>, peak: u32)
    requires
        is_block_peak(samples, peak),
    ensures
        forall|i: int|
            0 <= i < samples.len() && #[trigger] samples[i] % 0x8000_0000 <= 0x7f80_0000
                ==> samples[i] % 0x8000_0000 <= peak,
        peak == 0 || exists|i: int|
            0 <= i < samples.len() && #[trigger] samples[i] % 0x8000_0000 == peak,
        peak <= 0x7f80_0000,
{
    assert forall|i: int|
        0 <= i < samples.len() && #[trigger] samples[i] % 0x8000_0000
            <= 0x7f80_0000 implies samples[i] % 0x8000_0000 <= peak by {
        assert(is_number(samples[i]));
    }
    if peak != 0 {
        let i = choose|i: int|
            0 <= i < samples.len() && is_number(#[trigger] samples[i]) && magnitude(samples[i])
                == peak;
        assert(samples[i] % 0x8000_0000 == peak);
    }
}

/// The meter holds the larger of what it held and a finite magnitude, and keeps what
/// it held over anything else.
pub proof fn the_meter_holds_the_larger(held: u32, peak: u32)
    ensures
        peak < 0x7f80_0000 ==> held_after(held, peak) >= peak,
        held_after(held, peak) >= held,
        held_after(held, peak) == held || held_after(held, peak) == peak,
        peak >= 0x7f80_0000 ==> held_after(held, peak) == held,
{
}

} // verus!
