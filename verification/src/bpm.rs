use vstd::prelude::*;
use vstd::arithmetic::div_mod::{
    lemma_div_denominator, lemma_div_multiples_vanish, lemma_fundamental_div_mod,
    lemma_multiply_divide_lt,
};
use crate::filter::{center, centered};
use crate::globals::{BEAT_THRESHOLD, BPM_WINDOW_SECS, SAMPLE_RATE};
use crate::utils::{lemma_rounded_to_hundredths, nearest, nearest_quotient, rounded};

verus! {

/// Samples per chunk: a hundredth of a second's worth, to the nearest sample.
pub open spec fn chunk_step(sample_rate: u32) -> nat {
    nearest(sample_rate as int, 100) as nat
}

/// Samples that are looked at: the window, or its first `window_seconds` where
/// it is longer.
pub open spec fn observed_samples(len: nat, sample_rate: u32, window_seconds: u32) -> nat {
    if len <= sample_rate * window_seconds {
        len
    } else {
        (sample_rate * window_seconds) as nat
    }
}

/// Whole chunks among the observed samples.
pub open spec fn chunk_count(len: nat, sample_rate: u32, window_seconds: u32) -> nat {
    if chunk_step(sample_rate) == 0 {
        0
    } else {
        observed_samples(len, sample_rate, window_seconds) / chunk_step(sample_rate)
    }
}

/// The highest excursion above the mid-rail voltage among `samples`, in
/// microvolts; zero where none rises above it.
pub open spec fn chunk_peak(samples: Seq<i32>) -> int
    decreases samples.len(),
{
    if samples.len() == 0 {
        0
    } else {
        let rest = chunk_peak(samples.drop_last());
        if centered(samples.last()) > rest {
            centered(samples.last())
        } else {
            rest
        }
    }
}

/// Whether chunk `j` of `window` peaks above the beat threshold.
pub open spec fn loud(window: Seq<i32>, j: int, step: nat) -> bool {
    chunk_peak(window.subrange(j * step, (j + 1) * step)) > BEAT_THRESHOLD
}

/// For each of the first `n` chunks of `window`, whether it is loud.
pub open spec fn loud_chunks(window: Seq<i32>, n: nat, step: nat) -> Seq<bool> {
    Seq::new(n, |j: int| loud(window, j, step))
}

/// Number of positions at which `flags` turns from false, or from the start,
/// to true: one for each run of loud chunks.
pub open spec fn rising_edges(flags: Seq<bool>) -> nat
    decreases flags.len(),
{
    if flags.len() == 0 {
        0
    } else if flags.last() && (flags.len() == 1 || !flags[flags.len() - 2]) {
        rising_edges(flags.drop_last()) + 1
    } else {
        rising_edges(flags.drop_last())
    }
}

/// Beats in `window`: the runs of loud chunks among its observed chunks. A
/// run counts once however long it lasts.
pub open spec fn beat_count(window: Seq<i32>, sample_rate: u32, window_seconds: u32) -> nat {
    rising_edges(
        loud_chunks(
            window,
            chunk_count(window.len(), sample_rate, window_seconds),
            chunk_step(sample_rate),
        ),
    )
}

/// Heart rate over `window` in hundredths of a beat per minute: sixty times
/// the beats per observed second, rounded to two decimals; zero where nothing
/// is observed.
pub open spec fn bpm_of(window: Seq<i32>, sample_rate: u32, window_seconds: u32) -> int {
    let observed = observed_samples(window.len(), sample_rate, window_seconds);
    if chunk_step(sample_rate) == 0 || observed == 0 {
        0
    } else {
        rounded(
            60 * beat_count(window, sample_rate, window_seconds) * sample_rate,
            observed as int,
            2,
        )
    }
}

/// The peak of a chunk is never negative, no sample of the chunk rises above
/// it, and unless it is zero one of the samples reaches it.
pub proof fn lemma_chunk_peak_is_highest(samples: Seq<i32>)
    ensures
        chunk_peak(samples) >= 0,
        forall|i: int|
            0 <= i < samples.len() ==> centered(#[trigger] samples[i]) <= chunk_peak(samples),
        chunk_peak(samples) == 0 || exists|i: int|
            0 <= i < samples.len() && centered(#[trigger] samples[i]) == chunk_peak(samples),
    decreases samples.len(),
{
    if samples.len() > 0 {
        let front = samples.drop_last();
        lemma_chunk_peak_is_highest(front);
        assert forall|i: int| 0 <= i < samples.len() implies centered(#[trigger] samples[i])
            <= chunk_peak(samples) by {
            if i < front.len() {
                assert(front[i] == samples[i]);
            }
        }
        if chunk_peak(samples) != 0 {
            if centered(samples.last()) > chunk_peak(front) {
                assert(centered(samples[samples.len() - 1]) == chunk_peak(samples));
            } else {
                let i = choose|i: int|
                    0 <= i < front.len() && centered(#[trigger] front[i]) == chunk_peak(front);
                assert(centered(samples[i]) == chunk_peak(samples));
            }
        }
    }
}

/// A chunk is loud exactly when one of its samples lies more than the beat
/// threshold above the mid-rail voltage.
pub proof fn lemma_loud_means_a_sample_exceeds(window: Seq<i32>, j: int, step: nat)
    requires
        0 <= j,
        (j + 1) * step <= window.len(),
    ensures
        loud(window, j, step) <==> exists|i: int|
            j * step <= i < (j + 1) * step && centered(#[trigger] window[i]) > BEAT_THRESHOLD,
{
    let from = j * step;
    let to = (j + 1) * step;
    assert(0 <= from <= to) by (nonlinear_arith)
        requires
            0 <= j,
            from == j * step,
            to == (j + 1) * step,
    ;
    let chunk = window.subrange(from, to);
    lemma_chunk_peak_is_highest(chunk);
    if loud(window, j, step) {
        let i = choose|i: int|
            0 <= i < chunk.len() && centered(#[trigger] chunk[i]) == chunk_peak(chunk);
        assert(centered(window[from + i]) > BEAT_THRESHOLD);
    }
    if exists|i: int| from <= i < to && centered(#[trigger] window[i]) > BEAT_THRESHOLD {
        let i = choose|i: int| from <= i < to && centered(#[trigger] window[i]) > BEAT_THRESHOLD;
        assert(chunk[i - from] == window[i]);
    }
}

/// Whether chunk `j` lies within one of the pulses that `starts` and `ends`
/// mark: pulse `i` covers the chunks from `starts[i]` up to, not including,
/// `ends[i]`.
pub open spec fn in_pulse(j: int, starts: Seq<int>, ends: Seq<int>) -> bool {
    exists|i: int| 0 <= i < starts.len() && #[trigger] starts[i] <= j && j < ends[i]
}

/// `flags` consists of well-separated pulses: each pulse spans at least one
/// chunk, the pulses come in order with at least one quiet chunk between any
/// two, and a chunk is loud exactly when it lies within a pulse.
pub open spec fn separated_pulses(flags: Seq<bool>, starts: Seq<int>, ends: Seq<int>) -> bool {
    &&& starts.len() == ends.len()
    &&& forall|i: int|
        0 <= i < starts.len() ==> 0 <= #[trigger] starts[i] < ends[i] <= flags.len()
    &&& forall|i: int, k: int|
        0 <= i < k < starts.len() ==> #[trigger] ends[i] < #[trigger] starts[k]
    &&& forall|j: int| 0 <= j < flags.len() ==> (#[trigger] flags[j] <==> in_pulse(j, starts, ends))
}

proof fn lemma_quiet_has_no_edges(flags: Seq<bool>)
    requires
        forall|j: int| 0 <= j < flags.len() ==> !flags[j],
    ensures
        rising_edges(flags) == 0,
    decreases flags.len(),
{
    if flags.len() > 0 {
        lemma_quiet_has_no_edges(flags.drop_last());
    }
}

proof fn lemma_one_run_adds_one_edge(flags: Seq<bool>, s: int, e: int, m: int)
    requires
        0 <= s < e <= flags.len(),
        s <= m <= flags.len(),
        forall|j: int| s <= j < e ==> flags[j],
        forall|j: int| e <= j < flags.len() ==> !flags[j],
        s == 0 || !flags[s - 1],
    ensures
        rising_edges(flags.take(m)) == rising_edges(flags.take(s)) + if m > s {
            1nat
        } else {
            0nat
        },
    decreases m - s,
{
    if m > s {
        lemma_one_run_adds_one_edge(flags, s, e, m - 1);
        assert(flags.take(m).drop_last() =~= flags.take(m - 1));
        assert(flags.take(m).last() == flags[m - 1]);
        if m >= 2 {
            assert(flags.take(m)[m - 2] == flags[m - 2]);
        }
    }
}

/// Well-separated pulses are counted one beat each.
pub proof fn lemma_separated_pulses_are_counted(
    flags: Seq<bool>,
    starts: Seq<int>,
    ends: Seq<int>,
)
    requires
        separated_pulses(flags, starts, ends),
    ensures
        rising_edges(flags) == starts.len(),
    decreases starts.len(),
{
    if starts.len() == 0 {
        assert forall|j: int| 0 <= j < flags.len() implies !flags[j] by {
            assert(!in_pulse(j, starts, ends));
        }
        lemma_quiet_has_no_edges(flags);
    } else {
        let k = starts.len() - 1;
        let s = starts[k];
        let e = ends[k];
        let front = flags.take(s);
        let front_starts = starts.drop_last();
        let front_ends = ends.drop_last();
        assert forall|j: int| 0 <= j < front.len() implies (#[trigger] front[j] <==> in_pulse(
            j,
            front_starts,
            front_ends,
        )) by {
            assert(front[j] == flags[j]);
            if in_pulse(j, starts, ends) {
                let i = choose|i: int| 0 <= i < starts.len() && #[trigger] starts[i] <= j && j < ends[i];
                assert(i < k);
                assert(front_starts[i] <= j && j < front_ends[i]);
            }
            if in_pulse(j, front_starts, front_ends) {
                let i = choose|i: int|
                    0 <= i < front_starts.len() && #[trigger] front_starts[i] <= j && j
                        < front_ends[i];
                assert(starts[i] <= j && j < ends[i]);
            }
        }
        assert forall|i: int| 0 <= i < front_starts.len() implies 0 <= #[trigger] front_starts[i]
            < front_ends[i] <= front.len() by {
            assert(ends[i] < starts[k]);
        }
        assert(separated_pulses(front, front_starts, front_ends));
        lemma_separated_pulses_are_counted(front, front_starts, front_ends);
        assert forall|j: int| s <= j < e implies flags[j] by {
            assert(starts[k] <= j && j < ends[k]);
            assert(in_pulse(j, starts, ends));
        }
        assert forall|j: int| e <= j < flags.len() implies !flags[j] by {
            if in_pulse(j, starts, ends) {
                let i = choose|i: int| 0 <= i < starts.len() && #[trigger] starts[i] <= j && j < ends[i];
                if i < k {
                    assert(ends[i] < starts[k]);
                }
            }
        }
        if s > 0 {
            if in_pulse(s - 1, starts, ends) {
                let i = choose|i: int|
                    0 <= i < starts.len() && #[trigger] starts[i] <= s - 1 && s - 1 < ends[i];
                if i < k {
                    assert(ends[i] < starts[k]);
                }
            }
            assert(!flags[s - 1]);
        }
        lemma_one_run_adds_one_edge(flags, s, e, flags.len() as int);
        assert(flags.take(flags.len() as int) =~= flags);
    }
}

proof fn lemma_step_needs_rate(sample_rate: u32)
    requires
        chunk_step(sample_rate) > 0,
    ensures
        sample_rate >= 50,
{
    assert(chunk_step(sample_rate) == (2 * sample_rate + 100) / 200);
}

/// A window of exactly `window_seconds` that holds `k` well-separated pulses
/// has a heart rate of `60 * k / window_seconds` beats per minute, rounded to
/// two decimals.
pub proof fn lemma_full_window_rate(
    window: Seq<i32>,
    sample_rate: u32,
    window_seconds: u32,
    starts: Seq<int>,
    ends: Seq<int>,
)
    requires
        chunk_step(sample_rate) > 0,
        window_seconds > 0,
        window.len() == sample_rate * window_seconds,
        separated_pulses(
            loud_chunks(
                window,
                chunk_count(window.len(), sample_rate, window_seconds),
                chunk_step(sample_rate),
            ),
            starts,
            ends,
        ),
    ensures
        beat_count(window, sample_rate, window_seconds) == starts.len(),
        bpm_of(window, sample_rate, window_seconds) == rounded(
            60 * starts.len() as int,
            window_seconds as int,
            2,
        ),
{
    let flags = loud_chunks(
        window,
        chunk_count(window.len(), sample_rate, window_seconds),
        chunk_step(sample_rate),
    );
    lemma_separated_pulses_are_counted(flags, starts, ends);
    lemma_step_needs_rate(sample_rate);
    let k = starts.len() as int;
    let r = sample_rate as int;
    let w = window_seconds as int;
    lemma_rounded_to_hundredths(60 * k * r, r * w);
    lemma_rounded_to_hundredths(60 * k, w);
    assert(r * w > 0) by (nonlinear_arith)
        requires
            r > 0,
            w > 0,
    ;
    let a = 2 * (60 * k * 100) + w;
    assert(2 * (60 * k * r * 100) + r * w == r * a) by (nonlinear_arith)
        requires
            a == 2 * (60 * k * 100) + w,
    ;
    assert(2 * (r * w) == r * (2 * w)) by (nonlinear_arith);
    lemma_div_multiples_vanish(a, r);
    lemma_div_denominator(r * a, r, 2 * w);
}

fn samples_per_chunk(sample_rate: u32) -> (step: usize)
    ensures
        step == chunk_step(sample_rate),
{
    ((2 * (sample_rate as u64) + 100) / 200) as usize
}

fn peak_between(window: &Vec<i32>, start: usize, end: usize) -> (peak: i64)
    requires
        start <= end <= window.len(),
    ensures
        peak == chunk_peak(window@.subrange(start as int, end as int)),
{
    let mut peak: i64 = 0;
    let mut i: usize = start;
    while i < end
        invariant
            start <= i <= end <= window.len(),
            peak == chunk_peak(window@.subrange(start as int, i as int)),
            0 <= peak <= 0x1_0000_0000,
        decreases end - i,
    {
        let value: i64 = center(window[i]);
        assert(window@.subrange(start as int, i + 1).drop_last() =~= window@.subrange(
            start as int,
            i as int,
        ));
        if value > peak {
            peak = value;
        }
        i = i + 1;
    }
    peak
}

/// Counts the beats in `window`, sampled at `sample_rate`, and returns the
/// heart rate in hundredths of a beat per minute.
///
/// The samples are re-referenced to the mid-rail voltage and cut into chunks
/// of a hundredth of a second. A chunk is loud when its peak lies above the
/// beat threshold. A beat is counted where a loud chunk follows a quiet one or
/// opens the window, so a sustained excursion counts once. Only the whole
/// chunks within the first `window_seconds` are looked at; a shorter window is
/// taken as it is. An empty window, or a rate too low to form a chunk, gives
/// zero.
pub fn recompute_bpm(window: &Vec<i32>, sample_rate: u32, window_seconds: u32) -> (bpm: u64)
    ensures
        bpm == bpm_of(window@, sample_rate, window_seconds),
{
    let step: usize = samples_per_chunk(sample_rate);
    let len: usize = window.len();
    assert(sample_rate * window_seconds <= 0xffff_ffff * 0xffff_ffff) by (nonlinear_arith)
        requires
            sample_rate <= 0xffff_ffff,
            window_seconds <= 0xffff_ffff,
    ;
    let limit: u64 = sample_rate as u64 * window_seconds as u64;
    let observed: usize = if len as u64 <= limit {
        len
    } else {
        limit as usize
    };
    if step == 0 || observed == 0 {
        return 0;
    }
    let chunks: usize = observed / step;
    let ghost flags = loud_chunks(window@, chunks as nat, step as nat);
    proof {
        lemma_fundamental_div_mod(observed as int, step as int);
        assert(chunks * step <= observed) by (nonlinear_arith)
            requires
                observed == step * chunks + observed % step,
                observed % step >= 0,
        ;
    }
    let mut count: usize = 0;
    let mut active: bool = false;
    let mut j: usize = 0;
    let mut start: usize = 0;
    while j < chunks
        invariant
            j <= chunks,
            step > 0,
            start == j * step,
            chunks * step <= observed <= window.len(),
            flags == loud_chunks(window@, chunks as nat, step as nat),
            count == rising_edges(flags.take(j as int)),
            count <= j,
            active == (j > 0 && flags[j - 1]),
        decreases chunks - j,
    {
        assert((j + 1) * step <= chunks * step && (j + 1) * step == j * step + step)
            by (nonlinear_arith)
            requires
                j < chunks,
        ;
        let peak: i64 = peak_between(window, start, start + step);
        let is_loud: bool = peak > BEAT_THRESHOLD;
        proof {
            assert(is_loud == flags[j as int]);
            assert(flags.take(j + 1).drop_last() =~= flags.take(j as int));
        }
        if !active && is_loud {
            count = count + 1;
            active = true;
        } else if active && !is_loud {
            active = false;
        }
        j = j + 1;
        start = start + step;
    }
    proof {
        assert(flags.take(chunks as int) =~= flags);
    }
    assert(60 * count * sample_rate * 100 <= 60 * 0xffff_ffff_ffff_ffff * 0xffff_ffff * 100)
        by (nonlinear_arith)
        requires
            count <= 0xffff_ffff_ffff_ffff,
            sample_rate <= 0xffff_ffff,
    ;
    let numer: u128 = 60 * (count as u128) * (sample_rate as u128) * 100;
    let q: u128 = nearest_quotient(numer, observed as u128);
    proof {
        lemma_rounded_to_hundredths(60 * count * sample_rate, observed as int);
        assert(count <= observed) by (nonlinear_arith)
            requires
                count <= chunks,
                chunks * step <= observed,
                step > 0,
        ;
        assert(2 * numer + observed < (2 * observed) * (6000 * sample_rate + 1))
            by (nonlinear_arith)
            requires
                numer == 60 * count * sample_rate * 100,
                count <= observed,
                observed > 0,
        ;
        lemma_multiply_divide_lt(
            (2 * numer + observed) as int,
            (2 * observed) as int,
            6000 * sample_rate + 1,
        );
    }
    q as u64
}

/// Heart rate over `signal`, sampled at the sensor's rate, counted over the
/// standard window; in hundredths of a beat per minute.
pub fn bpm(signal: Vec<i32>) -> (rate: u64)
    ensures
        rate == bpm_of(signal@, SAMPLE_RATE, BPM_WINDOW_SECS),
{
    recompute_bpm(&signal, SAMPLE_RATE, BPM_WINDOW_SECS)
}

} // verus!
