use vstd::prelude::*;
use crate::buffer::SampleBuffer;
use crate::filter::highest_cutoff;

verus! {

/// Samples per second that the sensor delivers.
pub const SAMPLE_RATE: u32 = 8000;

/// Mid-rail voltage around which the sensor's signal swings, in microvolts.
pub const SIGNAL_CENTER: i64 = 2_500_000;

/// A chunk whose peak rises above this many microvolts is part of a beat.
pub const BEAT_THRESHOLD: i64 = 100_000;

/// Seconds of signal over which beats are counted.
pub const BPM_WINDOW_SECS: u32 = 5;

/// Full-scale voltage of the converter, in microvolts.
pub const ADC_REFERENCE: u64 = 5_000_000;

/// Number of steps of the ten-bit converter.
pub const ADC_STEPS: u64 = 1024;

/// One hertz, in hundredths of a hertz.
pub const ONE_HERTZ: u64 = 100;

/// Samples kept for drawing the live waveform.
pub const VISUAL_CAPACITY: usize = 300;

/// Samples kept for analysis: the beat window at the sensor's rate.
pub const ANALYSIS_CAPACITY: usize = 40_000;

/// The state that the acquisition loop and the command handlers share. The
/// caller keeps it behind one lock and holds the lock only for a single call.
pub struct Shared {
    /// The latest raw samples, for drawing.
    pub visual: SampleBuffer<i32>,
    /// The raw samples of the analysis window.
    pub audio_data: SampleBuffer<i32>,
    /// The filtered samples of the analysis window.
    pub filtered_data: SampleBuffer<i64>,
    /// Low cutoff in force, in hundredths of a hertz. Whoever designs a filter
    /// from the cutoffs resolves them first.
    pub low_cutoff: u64,
    /// High cutoff in force, in hundredths of a hertz.
    pub high_cutoff: u64,
}

impl Shared {
    /// Empty buffers of the standard capacities, and the full band from one
    /// hertz to one hertz under Nyquist.
    pub fn new() -> (shared: Shared)
        ensures
            shared.visual@ == Seq::<i32>::empty(),
            shared.visual.spec_capacity() == VISUAL_CAPACITY,
            shared.audio_data@ == Seq::<i32>::empty(),
            shared.audio_data.spec_capacity() == ANALYSIS_CAPACITY,
            shared.filtered_data@ == Seq::<i64>::empty(),
            shared.filtered_data.spec_capacity() == ANALYSIS_CAPACITY,
            shared.low_cutoff == ONE_HERTZ,
            shared.high_cutoff == highest_cutoff(SAMPLE_RATE),
    {
        Shared {
            visual: SampleBuffer::new(VISUAL_CAPACITY),
            audio_data: SampleBuffer::new(ANALYSIS_CAPACITY),
            filtered_data: SampleBuffer::new(ANALYSIS_CAPACITY),
            low_cutoff: ONE_HERTZ,
            high_cutoff: SAMPLE_RATE as u64 * 50 - ONE_HERTZ,
        }
    }
}

} // verus!
