use vstd::prelude::*;

verus! {

/// Fixed-point amplitude that stands for full scale (1.0).
pub const UNIT: i32 = 65536;

/// Microseconds in one second.
pub const MICROS_PER_SECOND: u64 = 1_000_000;

/// One instant of a multi-channel signal: one amplitude per channel.
///
/// An empty sample is the end-of-stream sentinel, distinct from silence.
pub struct PolySample(pub Vec<i32>);

impl View for PolySample {
    type V = Seq<i32>;

    open spec fn view(&self) -> Seq<i32> {
        self.0@
    }
}

impl Clone for PolySample {
    fn clone(&self) -> (r: PolySample)
        ensures
            r@ == self@,
    {
        PolySample(self.0.clone())
    }
}

impl PolySample {
    /// The sample that signals the end of the stream.
    pub fn end() -> (r: PolySample)
        ensures
            r@ == Seq::<i32>::empty(),
    {
        PolySample(Vec::new())
    }

    /// Whether this is the end-of-stream sentinel.
    pub fn is_end(&self) -> (r: bool)
        ensures
            r == (self@.len() == 0),
    {
        self.0.len() == 0
    }

    /// Amplitude of channel `c`, silence for a channel the sample lacks.
    pub fn channel_or_silence(&self, c: usize) -> (r: i32)
        ensures
            r == channel_value(self@, c as int),
    {
        if c < self.0.len() {
            self.0[c]
        } else {
            0
        }
    }
}

/// Amplitude of channel `c` of `s`, with silence for a missing channel.
pub open spec fn channel_value(s: Seq<i32>, c: int) -> i32 {
    if 0 <= c < s.len() {
        s[c]
    } else {
        0i32
    }
}

/// A span of time in whole microseconds.
#[derive(Clone, Copy, PartialEq, Eq, Debug)]
pub struct TimeSpan {
    pub micros: u32,
}

impl TimeSpan {
    pub fn from_micros(micros: u32) -> (r: TimeSpan)
        ensures
            r.micros == micros,
    {
        TimeSpan { micros }
    }
}

/// Number of whole samples that fit in `micros` microseconds at `rate` samples
/// per second; a partial sample does not count (the product is floored).
pub open spec fn samples_in(micros: int, rate: int) -> int {
    (micros * rate) / (MICROS_PER_SECOND as int)
}

/// The shared clock: a sample rate and the number of samples elapsed.
#[derive(Clone, Copy, PartialEq, Eq, Debug)]
pub struct SampleTiming {
    /// Samples per second.
    pub sample_rate: u32,
    /// Samples elapsed since the clock started.
    pub sample_counter: u64,
}

impl SampleTiming {
    pub fn new(sample_rate: u32) -> (r: SampleTiming)
        ensures
            r.sample_rate == sample_rate,
            r.sample_counter == 0,
    {
        SampleTiming { sample_rate, sample_counter: 0 }
    }

    /// Advances the clock by one sample.
    pub fn tick(&mut self)
        requires
            old(self).sample_counter < u64::MAX,
        ensures
            final(self).sample_rate == old(self).sample_rate,
            final(self).sample_counter == old(self).sample_counter + 1,
    {
        self.sample_counter = self.sample_counter + 1;
    }

    /// Elapsed time as a sample count; in seconds it is this over the rate.
    pub fn sample_clock(&self) -> (r: u64)
        ensures
            r == self.sample_counter,
    {
        self.sample_counter
    }

    /// Whole samples that fit in `span` at the current rate.
    pub fn duration_to_sample_count(&self, span: TimeSpan) -> (r: u64)
        ensures
            r as int == samples_in(span.micros as int, self.sample_rate as int),
    {
        let m: u64 = span.micros as u64;
        let rate: u64 = self.sample_rate as u64;
        proof {
            assert(m * rate <= u32::MAX as int * u32::MAX as int) by (nonlinear_arith)
                requires
                    m <= u32::MAX,
                    rate <= u32::MAX,
            ;
        }
        let product: u64 = m * rate;
        product / MICROS_PER_SECOND
    }
}

} // verus!
