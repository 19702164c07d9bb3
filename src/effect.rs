use vstd::prelude::*;
use crate::signal::{PolySample, SampleTiming};

verus! {

/// An inline signal processor: it sees each sample as it passes, may keep
/// state across calls, and hands a sample on. It never ticks the clock.
pub trait Effect {
    fn process(&mut self, sample_timing: &SampleTiming, poly_sample: PolySample) -> PolySample;
}

} // verus!
