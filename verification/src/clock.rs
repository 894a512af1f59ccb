//! Audio sample clock: the time axis follows the samples; wall-clock time only
//! measures elapsed work.
use vstd::prelude::*;

verus! {

/// `samples * 1000 / sample_rate`, the multiplication saturating at `u64::MAX`
/// and a zero rate counted as one.
pub open spec fn samples_to_ms_spec(sample_rate: u32, samples: u64) -> u64 {
    let sr: int = if sample_rate == 0 { 1 } else { sample_rate as int };
    let prod: int = if samples * 1000 > u64::MAX { u64::MAX as int } else { samples * 1000 };
    (prod / sr) as u64
}

/// Per-stream audio clock; `accepted` counts samples from the stream's first block.
pub struct AudioClock {
    sample_rate: u32,
    accepted_samples: u64,
}

impl AudioClock {
    pub closed spec fn rate(&self) -> u32 {
        self.sample_rate
    }

    pub closed spec fn samples(&self) -> u64 {
        self.accepted_samples
    }

    /// A clock at `sample_rate` (at least 1) with nothing accepted yet.
    pub fn new(sample_rate: u32) -> (c: Self)
        ensures
            c.rate() == if sample_rate == 0 { 1 } else { sample_rate },
            c.samples() == 0,
    {
        AudioClock { sample_rate: if sample_rate > 1 { sample_rate } else { 1 }, accepted_samples: 0 }
    }

    pub fn sample_rate(&self) -> (r: u32)
        ensures
            r == self.rate(),
    {
        self.sample_rate
    }

    /// Samples accepted so far.
    pub fn accepted(&self) -> (r: u64)
        ensures
            r == self.samples(),
    {
        self.accepted_samples
    }

    /// Adds a block of `n` samples (wrapping like an atomic add) and returns the
    /// position at which the block starts.
    pub fn accept(&mut self, n: u64) -> (start: u64)
        ensures
            start == old(self).samples(),
            final(self).rate() == old(self).rate(),
            final(self).samples() == (old(self).samples() as int + n as int) % 0x1_0000_0000_0000_0000,
    {
        let start = self.accepted_samples;
        self.accepted_samples = start.wrapping_add(n);
        start
    }

    /// Milliseconds of audio accepted so far (from the stream start).
    pub fn ms(&self) -> (r: u64)
        ensures
            r == samples_to_ms_spec(self.rate(), self.samples()),
    {
        Self::samples_to_ms(self.sample_rate, self.accepted_samples)
    }

    /// Converts a sample count to milliseconds at `sample_rate`.
    pub fn samples_to_ms(sample_rate: u32, samples: u64) -> (r: u64)
        ensures
            r == samples_to_ms_spec(sample_rate, samples),
    {
        let sr: u64 = if sample_rate > 1 { sample_rate as u64 } else { 1 };
        let prod: u64 = match samples.checked_mul(1000) {
            Some(p) => p,
            None => u64::MAX,
        };
        prod / sr
    }
}

/// Law: a clock's time never runs backwards while the sample counter does not wrap.
pub proof fn lemma_clock_monotonic(rate: u32, a: u64, b: u64)
    requires
        a <= b,
    ensures
        samples_to_ms_spec(rate, a) <= samples_to_ms_spec(rate, b),
{
    let sr: int = if rate == 0 { 1 } else { rate as int };
    let pa: int = if a * 1000 > u64::MAX { u64::MAX as int } else { a * 1000 };
    let pb: int = if b * 1000 > u64::MAX { u64::MAX as int } else { b * 1000 };
    assert(pa <= pb) by (nonlinear_arith)
        requires
            a <= b,
            pa == if a * 1000 > u64::MAX { u64::MAX as int } else { a * 1000 },
            pb == if b * 1000 > u64::MAX { u64::MAX as int } else { b * 1000 },
    ;
    assert(pa / sr <= pb / sr) by (nonlinear_arith)
        requires
            pa <= pb,
            sr >= 1,
            pa >= 0,
    ;
}

} // verus!
