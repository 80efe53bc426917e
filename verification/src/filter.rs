use vstd::prelude::*;
use crate::buffer::last_n;
use crate::globals::{Shared, ONE_HERTZ, SAMPLE_RATE, SIGNAL_CENTER};

verus! {

/// Lowest sample rate for which a pass band exists: below it no frequency lies
/// strictly between one hertz and one hertz under Nyquist.
pub const MIN_SAMPLE_RATE: u32 = 5;

/// Filter order used where none is asked for.
pub const DEFAULT_ORDER: u32 = 2;

/// Half the sample rate, in hundredths of a hertz.
pub open spec fn nyquist(sample_rate: u32) -> int {
    sample_rate * 50
}

/// The highest cutoff that is accepted: one hertz under Nyquist.
pub open spec fn highest_cutoff(sample_rate: u32) -> int {
    nyquist(sample_rate) - ONE_HERTZ
}

/// `frequency` moved into the range from one hertz to `highest_cutoff`.
pub open spec fn clamped(frequency: int, sample_rate: u32) -> int {
    if frequency < ONE_HERTZ {
        ONE_HERTZ as int
    } else if frequency > highest_cutoff(sample_rate) {
        highest_cutoff(sample_rate)
    } else {
        frequency
    }
}

/// Whether the requested cutoffs, once clamped, leave a pass band.
pub open spec fn band_accepted(low: int, high: int, sample_rate: u32) -> bool {
    clamped(low, sample_rate) < clamped(high, sample_rate)
}

/// The band that is applied for a request: both cutoffs clamped, or the full
/// band from one hertz to `highest_cutoff` where that leaves no pass band.
pub open spec fn effective_band(low: int, high: int, sample_rate: u32) -> (int, int) {
    if band_accepted(low, high, sample_rate) {
        (clamped(low, sample_rate), clamped(high, sample_rate))
    } else {
        (ONE_HERTZ as int, highest_cutoff(sample_rate))
    }
}

/// The order that is applied for a request: at least one.
pub open spec fn effective_order(order: u32) -> u32 {
    if order < 1 {
        1
    } else {
        order
    }
}

/// A request whose low cutoff is not below its high cutoff is answered with
/// the full band, whatever the two values are.
pub proof fn lemma_inverted_band_falls_back(low: int, high: int, sample_rate: u32)
    requires
        sample_rate >= MIN_SAMPLE_RATE,
        low >= high,
    ensures
        !band_accepted(low, high, sample_rate),
        effective_band(low, high, sample_rate) == (ONE_HERTZ as int, highest_cutoff(sample_rate)),
{
}

/// The applied band always satisfies `0 < low < high < Nyquist`, and a request
/// that already does so with a margin of one hertz at both ends is applied
/// unchanged.
pub proof fn lemma_effective_band_is_valid(low: int, high: int, sample_rate: u32)
    requires
        sample_rate >= MIN_SAMPLE_RATE,
    ensures
        0 < effective_band(low, high, sample_rate).0 < effective_band(low, high, sample_rate).1
            < nyquist(sample_rate),
        ONE_HERTZ <= low < high <= highest_cutoff(sample_rate) ==> effective_band(
            low,
            high,
            sample_rate,
        ) == (low, high),
{
}

/// Asking for the band that was applied changes nothing.
pub proof fn lemma_effective_band_is_stable(low: int, high: int, sample_rate: u32)
    requires
        sample_rate >= MIN_SAMPLE_RATE,
    ensures
        effective_band(
            effective_band(low, high, sample_rate).0,
            effective_band(low, high, sample_rate).1,
            sample_rate,
        ) == effective_band(low, high, sample_rate),
{
}

/// What a band-pass filter is designed from. Cutoffs are in hundredths of a
/// hertz, the sample rate in hertz.
#[derive(Clone, Copy, Debug, PartialEq, Eq, Structural)]
pub struct FilterSpec {
    pub low_cutoff: u64,
    pub high_cutoff: u64,
    pub order: u32,
    pub sample_rate: u32,
}

impl FilterSpec {
    /// `0 < low < high < Nyquist`, with an order of at least one.
    pub open spec fn valid(self) -> bool {
        &&& 0 < self.low_cutoff < self.high_cutoff < nyquist(self.sample_rate)
        &&& self.order >= 1
    }

    /// The specification that `resolve` answers a request with.
    pub open spec fn resolved(low: u64, high: u64, order: u32, sample_rate: u32) -> FilterSpec {
        FilterSpec {
            low_cutoff: effective_band(low as int, high as int, sample_rate).0 as u64,
            high_cutoff: effective_band(low as int, high as int, sample_rate).1 as u64,
            order: effective_order(order),
            sample_rate,
        }
    }

    /// The widest band at `sample_rate`: one hertz up to one hertz under Nyquist.
    pub fn full_band(order: u32, sample_rate: u32) -> (spec: FilterSpec)
        requires
            sample_rate >= MIN_SAMPLE_RATE,
        ensures
            spec.low_cutoff == ONE_HERTZ,
            spec.high_cutoff == highest_cutoff(sample_rate),
            spec.order == effective_order(order),
            spec.sample_rate == sample_rate,
            spec.valid(),
    {
        FilterSpec {
            low_cutoff: ONE_HERTZ,
            high_cutoff: sample_rate as u64 * 50 - ONE_HERTZ,
            order: if order < 1 {
                1
            } else {
                order
            },
            sample_rate,
        }
    }

    /// Turns requested cutoffs into a specification that a filter can be
    /// designed from. Each cutoff is clamped to the range from one hertz to one
    /// hertz under Nyquist; where the clamped low cutoff is not below the
    /// clamped high one, the full band takes the request's place. The flag
    /// tells whether that happened, so that the caller can report it.
    pub fn resolve(low: u64, high: u64, order: u32, sample_rate: u32) -> (r: (FilterSpec, bool))
        requires
            sample_rate >= MIN_SAMPLE_RATE,
        ensures
            r.0 == FilterSpec::resolved(low, high, order, sample_rate),
            r.1 == !band_accepted(low as int, high as int, sample_rate),
            r.0.valid(),
    {
        let top: u64 = sample_rate as u64 * 50 - ONE_HERTZ;
        let lo: u64 = clamp_to(low, top);
        let hi: u64 = clamp_to(high, top);
        if lo < hi {
            let spec = FilterSpec {
                low_cutoff: lo,
                high_cutoff: hi,
                order: if order < 1 {
                    1
                } else {
                    order
                },
                sample_rate,
            };
            (spec, false)
        } else {
            (FilterSpec::full_band(order, sample_rate), true)
        }
    }
}

fn clamp_to(frequency: u64, top: u64) -> (c: u64)
    requires
        ONE_HERTZ <= top,
    ensures
        c == if frequency < ONE_HERTZ {
            ONE_HERTZ
        } else if frequency > top {
            top
        } else {
            frequency
        },
{
    if frequency < ONE_HERTZ {
        ONE_HERTZ
    } else if frequency > top {
        top
    } else {
        frequency
    }
}

/// A sample's excursion from the mid-rail voltage, in microvolts.
pub open spec fn centered(sample: i32) -> int {
    sample - SIGNAL_CENTER
}

/// Re-references a sample to zero, as the filter cascade and the beat counter
/// expect it.
pub fn center(sample: i32) -> (c: i64)
    ensures
        c == centered(sample),
{
    sample as i64 - SIGNAL_CENTER
}

/// What has to be filtered, and with which filter: the work that is left to
/// the floating-point cascade.
#[derive(Debug, PartialEq, Eq)]
pub struct FilterJob {
    /// The specification to design the filter from.
    pub spec: FilterSpec,
    /// Whether the requested cutoffs left no pass band, so that `spec` holds
    /// the full band in their place.
    pub corrected: bool,
    /// The raw analysis window, each sample re-referenced to zero.
    pub signal: Vec<i64>,
}

/// The analysis window after filtering, in microvolts.
#[derive(Debug, PartialEq, Eq)]
pub struct FilterResult {
    pub filtered_signal: Vec<i64>,
}

/// Prepares the filtering of the whole raw analysis window: resolves the
/// cutoffs in force into a specification, and re-references every sample to
/// zero.
pub fn plan_filter(shared: &Shared) -> (job: FilterJob)
    ensures
        job.spec == FilterSpec::resolved(
            shared.low_cutoff,
            shared.high_cutoff,
            DEFAULT_ORDER,
            SAMPLE_RATE,
        ),
        job.spec.valid(),
        job.corrected == !band_accepted(
            shared.low_cutoff as int,
            shared.high_cutoff as int,
            SAMPLE_RATE,
        ),
        job.signal@.len() == shared.audio_data@.len(),
        forall|i: int|
            0 <= i < job.signal@.len() ==> #[trigger] job.signal@[i] == centered(
                shared.audio_data@[i],
            ),
{
    let (spec, corrected) = FilterSpec::resolve(
        shared.low_cutoff,
        shared.high_cutoff,
        DEFAULT_ORDER,
        SAMPLE_RATE,
    );
    let raw: Vec<i32> = shared.audio_data.snapshot();
    let mut signal: Vec<i64> = Vec::with_capacity(raw.len());
    let mut i: usize = 0;
    while i < raw.len()
        invariant
            i <= raw.len(),
            signal@.len() == i,
            forall|k: int| 0 <= k < i ==> #[trigger] signal@[k] == centered(raw@[k]),
        decreases raw.len() - i,
    {
        signal.push(center(raw[i]));
        i = i + 1;
    }
    FilterJob { spec, corrected, signal }
}

/// Takes the output of filtering the analysis window: it replaces the filtered
/// buffer's contents and is handed back as the result. Where the output is
/// longer than the buffer's capacity, the buffer keeps its tail.
pub fn apply_filter(shared: &mut Shared, filtered: Vec<i64>) -> (r: FilterResult)
    ensures
        r.filtered_signal@ == filtered@,
        final(shared).filtered_data@ == last_n(
            filtered@,
            old(shared).filtered_data.spec_capacity() as nat,
        ),
        final(shared).filtered_data.spec_capacity() == old(shared).filtered_data.spec_capacity(),
        final(shared).visual == old(shared).visual,
        final(shared).audio_data == old(shared).audio_data,
        final(shared).low_cutoff == old(shared).low_cutoff,
        final(shared).high_cutoff == old(shared).high_cutoff,
{
    shared.filtered_data.refill(&filtered);
    FilterResult { filtered_signal: filtered }
}

} // verus!
