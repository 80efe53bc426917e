use vstd::prelude::*;
use crate::buffer::pushed;
use crate::filter::{center, centered, FilterSpec, DEFAULT_ORDER};
use crate::globals::{Shared, ADC_REFERENCE, ADC_STEPS, SAMPLE_RATE};
use crate::utils::{nearest, nearest_quotient};

verus! {

/// Nanoseconds in a second.
pub const NANOS_PER_SECOND: u64 = 1_000_000_000;

/// Ticks from one analysis of the window to the next: the spectra and the heart
/// rate are worked out once a second, not on every tick.
pub const ANALYSIS_INTERVAL: u32 = 8000;

/// The voltage that a converter reading stands for, in microvolts: the
/// reading's share of the full scale, rounded to the nearest microvolt.
pub open spec fn reading_microvolts(reading: u16) -> int {
    nearest(reading * ADC_REFERENCE, ADC_STEPS as int)
}

/// Scales a converter reading to microvolts.
pub fn to_microvolts(reading: u16) -> (v: i32)
    ensures
        v == reading_microvolts(reading),
{
    assert(reading * ADC_REFERENCE == reading * 5_000_000);
    let scaled: u128 = reading as u128 * ADC_REFERENCE as u128;
    let v: u128 = nearest_quotient(scaled, ADC_STEPS as u128);
    assert(v == (2 * (reading * 5_000_000) + 1024) / 2048);
    v as i32
}

/// Time between two samples at `sample_rate`, to the nearest nanosecond.
pub fn sample_period_nanos(sample_rate: u32) -> (period: u64)
    requires
        sample_rate > 0,
    ensures
        period == nearest(NANOS_PER_SECOND as int, sample_rate as int),
{
    let period: u128 = nearest_quotient(NANOS_PER_SECOND as u128, sample_rate as u128);
    assert(period <= (2 * 1_000_000_000 + sample_rate) / 2) by {
        vstd::arithmetic::div_mod::lemma_div_is_ordered_by_denominator(
            2 * 1_000_000_000 + sample_rate,
            2,
            2 * sample_rate,
        );
    }
    period as u64
}

/// What the loop has to do with the sample it just read.
#[derive(Clone, Copy, Debug, PartialEq, Eq)]
pub struct TickPlan {
    /// The sample, in microvolts.
    pub raw: i32,
    /// The sample re-referenced to zero: what goes into the filter.
    pub input: i64,
    /// `Some` when the filter must first be built anew, with empty delay
    /// lines, from this specification.
    pub rebuild: Option<FilterSpec>,
}

/// The acquisition loop's own state: which specification the running filter
/// was built from, and how many ticks have passed since the window was last
/// analysed. Only the loop writes it.
pub struct Acquisition {
    live: Option<FilterSpec>,
    ticks: u32,
}

impl Acquisition {
    #[verifier::type_invariant]
    spec fn inv(self) -> bool {
        self.ticks < ANALYSIS_INTERVAL
    }

    /// The specification of the running filter, `None` before the first sample.
    pub closed spec fn live(&self) -> Option<FilterSpec> {
        self.live
    }

    /// Ticks completed since the window was last analysed.
    pub closed spec fn ticks(&self) -> u32 {
        self.ticks
    }

    /// The specification that the shared cutoffs ask for.
    pub open spec fn wanted(shared: Shared) -> FilterSpec {
        FilterSpec::resolved(shared.low_cutoff, shared.high_cutoff, DEFAULT_ORDER, SAMPLE_RATE)
    }

    /// A loop that has not built a filter yet.
    pub fn new() -> (a: Acquisition)
        ensures
            a.live() == None::<FilterSpec>,
            a.ticks() == 0,
    {
        Acquisition { live: None, ticks: 0 }
    }

    /// Takes one converter reading at the start of a tick. The sample enters
    /// both raw buffers. The plan orders a rebuild of the filter exactly when
    /// the cutoffs in force differ from those the running filter was built
    /// from, so that no sample meets delay lines left by other coefficients;
    /// after the call the running filter counts as built from the cutoffs in
    /// force.
    pub fn on_sample(&mut self, shared: &mut Shared, reading: u16) -> (plan: TickPlan)
        ensures
            plan.raw == reading_microvolts(reading),
            plan.input == centered(plan.raw),
            plan.rebuild == if old(self).live() == Some(Self::wanted(*old(shared))) {
                None
            } else {
                Some(Self::wanted(*old(shared)))
            },
            final(self).live() == Some(Self::wanted(*old(shared))),
            final(self).ticks() == old(self).ticks(),
            final(shared).visual@ == pushed(
                old(shared).visual@,
                old(shared).visual.spec_capacity() as nat,
                plan.raw,
            ),
            final(shared).visual.spec_capacity() == old(shared).visual.spec_capacity(),
            final(shared).audio_data@ == pushed(
                old(shared).audio_data@,
                old(shared).audio_data.spec_capacity() as nat,
                plan.raw,
            ),
            final(shared).audio_data.spec_capacity() == old(shared).audio_data.spec_capacity(),
            final(shared).filtered_data == old(shared).filtered_data,
            final(shared).low_cutoff == old(shared).low_cutoff,
            final(shared).high_cutoff == old(shared).high_cutoff,
    {
        proof {
            use_type_invariant(&*self);
        }
        let raw: i32 = to_microvolts(reading);
        shared.visual.push(raw);
        shared.audio_data.push(raw);
        let (wanted, _) = FilterSpec::resolve(
            shared.low_cutoff,
            shared.high_cutoff,
            DEFAULT_ORDER,
            SAMPLE_RATE,
        );
        let rebuild: Option<FilterSpec> = match self.live {
            Some(running) => if running == wanted {
                None
            } else {
                Some(wanted)
            },
            None => Some(wanted),
        };
        self.live = Some(wanted);
        TickPlan { raw, input: center(raw), rebuild }
    }

    /// Takes the filter's output for the sample of this tick and ends the
    /// tick: the output enters the filtered buffer. Returns whether the window
    /// is due for analysis, which it is on every `ANALYSIS_INTERVAL`-th tick.
    pub fn on_filtered(&mut self, shared: &mut Shared, output: i64) -> (due: bool)
        ensures
            due == (old(self).ticks() + 1 == ANALYSIS_INTERVAL),
            final(self).ticks() == if due {
                0
            } else {
                old(self).ticks() + 1
            },
            final(self).live() == old(self).live(),
            final(shared).filtered_data@ == pushed(
                old(shared).filtered_data@,
                old(shared).filtered_data.spec_capacity() as nat,
                output,
            ),
            final(shared).filtered_data.spec_capacity() == old(shared).filtered_data.spec_capacity(),
            final(shared).visual == old(shared).visual,
            final(shared).audio_data == old(shared).audio_data,
            final(shared).low_cutoff == old(shared).low_cutoff,
            final(shared).high_cutoff == old(shared).high_cutoff,
    {
        proof {
            use_type_invariant(&*self);
        }
        shared.filtered_data.push(output);
        let due: bool = self.ticks + 1 == ANALYSIS_INTERVAL;
        self.ticks = if due {
            0
        } else {
            self.ticks + 1
        };
        due
    }
}

} // verus!
