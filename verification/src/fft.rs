use vstd::prelude::*;
use vstd::arithmetic::div_mod::{
    lemma_div_is_ordered, lemma_div_multiples_vanish, lemma_fundamental_div_mod,
    lemma_multiply_divide_lt,
};
use crate::filter::nyquist;
use crate::globals::SAMPLE_RATE;
use crate::utils::{lemma_rounded_to_hundredths, nearest_quotient, rounded};

verus! {

/// A spectrum: for each bin that is reported, its frequency in hundredths of a
/// hertz and, at the same position, its magnitude in hundredths.
#[derive(Debug, PartialEq, Eq)]
pub struct FFTResult {
    pub frequencies: Vec<u64>,
    pub magnitudes: Vec<u64>,
}

/// Frequency of bin `i` of a transform over `len` samples taken at
/// `sample_rate`: `i * sample_rate / len` hertz, rounded to two decimals.
pub open spec fn bin_frequency(i: nat, len: nat, sample_rate: u32) -> int {
    rounded(i * sample_rate, len as int, 2)
}

/// Whether bin `i` is reported: its frequency is above zero and not above
/// Nyquist.
pub open spec fn bin_kept(i: nat, len: nat, sample_rate: u32) -> bool {
    0 < bin_frequency(i, len, sample_rate) <= nyquist(sample_rate)
}

/// The bins below `n` that are reported, in rising order.
pub open spec fn kept_below(n: nat, len: nat, sample_rate: u32) -> Seq<nat>
    decreases n,
{
    if n == 0 {
        Seq::empty()
    } else if bin_kept((n - 1) as nat, len, sample_rate) {
        kept_below((n - 1) as nat, len, sample_rate).push((n - 1) as nat)
    } else {
        kept_below((n - 1) as nat, len, sample_rate)
    }
}

/// The bins of a transform over `len` samples that are reported.
pub open spec fn kept_bins(len: nat, sample_rate: u32) -> Seq<nat> {
    kept_below(len, len, sample_rate)
}

impl FFTResult {
    /// Both sequences have one length, every frequency lies above zero and not
    /// above Nyquist, and the frequencies never fall from one bin to the next.
    pub open spec fn well_formed(&self, sample_rate: u32) -> bool {
        &&& self.frequencies@.len() == self.magnitudes@.len()
        &&& forall|k: int|
            0 <= k < self.frequencies@.len() ==> 0 < #[trigger] self.frequencies@[k] <= nyquist(
                sample_rate,
            )
        &&& forall|j: int, k: int|
            0 <= j <= k < self.frequencies@.len() ==> self.frequencies@[j] <= self.frequencies@[k]
    }

    /// The spectrum reports exactly the kept bins of `magnitudes`, in rising
    /// order, each with its frequency and its magnitude.
    pub open spec fn reports(&self, magnitudes: Seq<u64>, sample_rate: u32) -> bool {
        let kept = kept_bins(magnitudes.len(), sample_rate);
        &&& self.frequencies@.len() == kept.len()
        &&& self.magnitudes@.len() == kept.len()
        &&& forall|k: int|
            #![trigger kept[k]]
            #![trigger self.frequencies@[k]]
            #![trigger self.magnitudes@[k]]
            0 <= k < kept.len() ==> {
                &&& 0 <= kept[k] < magnitudes.len()
                &&& self.frequencies@[k] == bin_frequency(kept[k], magnitudes.len(), sample_rate)
                &&& self.magnitudes@[k] == magnitudes[kept[k] as int]
            }
    }
}

/// `kept_below` is a filter: it lists, in rising order and each once, exactly
/// the bins below `n` that are reported.
pub proof fn lemma_kept_below_is_the_filter(n: nat, len: nat, sample_rate: u32)
    ensures
        forall|k: int|
            0 <= k < kept_below(n, len, sample_rate).len() ==> {
                &&& #[trigger] kept_below(n, len, sample_rate)[k] < n
                &&& bin_kept(kept_below(n, len, sample_rate)[k], len, sample_rate)
            },
        forall|j: int, k: int|
            0 <= j < k < kept_below(n, len, sample_rate).len() ==> kept_below(
                n,
                len,
                sample_rate,
            )[j] < kept_below(n, len, sample_rate)[k],
        forall|i: nat|
            i < n && bin_kept(i, len, sample_rate) ==> #[trigger] kept_below(
                n,
                len,
                sample_rate,
            ).contains(i),
    decreases n,
{
    if n > 0 {
        let m = (n - 1) as nat;
        let front = kept_below(m, len, sample_rate);
        let all = kept_below(n, len, sample_rate);
        lemma_kept_below_is_the_filter(m, len, sample_rate);
        assert forall|i: nat| i < n && bin_kept(i, len, sample_rate) implies #[trigger] all.contains(
            i,
        ) by {
            if i < m {
                assert(front.contains(i));
                let k = choose|k: int| 0 <= k < front.len() && front[k] == i;
                assert(all[k] == i);
            } else {
                assert(all[all.len() - 1] == i);
            }
        }
    }
}

/// While the window is short enough for neighbouring bins to lie at least a
/// hundredth of a hertz apart, the bins reported are the lower half of the
/// transform without its first bin: bin `i` is kept exactly when
/// `0 < i <= len / 2`.
pub proof fn lemma_lower_half_is_kept(i: nat, len: nat, sample_rate: u32)
    requires
        i < len <= 100 * sample_rate,
    ensures
        bin_kept(i, len, sample_rate) <==> 0 < i && 2 * i <= len,
{
    let r = sample_rate as int;
    let top = nyquist(sample_rate);
    lemma_rounded_to_hundredths(i * r, len as int);
    let x = 2 * (i * r * 100) + len;
    let d = 2 * (len as int);
    assert(x / d == bin_frequency(i, len, sample_rate));
    lemma_fundamental_div_mod(x, d);
    if i == 0 {
        assert(x == len) by (nonlinear_arith)
            requires
                x == 2 * (i * r * 100) + len,
                i == 0,
        ;
        lemma_multiply_divide_lt(x, d, 1);
    } else {
        assert(x >= d * 1) by (nonlinear_arith)
            requires
                x == 2 * (i * r * 100) + len,
                d == 2 * len,
                i >= 1,
                len <= 100 * r,
        ;
        lemma_div_is_ordered(d * 1, x, d);
        lemma_div_multiples_vanish(1, d);
        if 2 * i <= len {
            assert(x < d * (top + 1)) by (nonlinear_arith)
                requires
                    x == 2 * (i * r * 100) + len,
                    d == 2 * len,
                    top == r * 50,
                    2 * i <= len,
                    len > 0,
                    r >= 0,
            ;
            lemma_multiply_divide_lt(x, d, top + 1);
        } else {
            assert(x >= d * (top + 1)) by (nonlinear_arith)
                requires
                    x == 2 * (i * r * 100) + len,
                    d == 2 * len,
                    top == r * 50,
                    2 * i >= len + 1,
                    len <= 100 * r,
            ;
            lemma_div_is_ordered(d * (top + 1), x, d);
            lemma_div_multiples_vanish(top + 1, d);
        }
    }
}

/// A higher bin never has a lower frequency.
pub proof fn lemma_bin_frequency_rises(i: nat, j: nat, len: nat, sample_rate: u32)
    requires
        i <= j,
        len > 0,
    ensures
        bin_frequency(i, len, sample_rate) <= bin_frequency(j, len, sample_rate),
{
    let r = sample_rate as int;
    lemma_rounded_to_hundredths(i * r, len as int);
    lemma_rounded_to_hundredths(j * r, len as int);
    assert(i * r * 100 <= j * r * 100) by (nonlinear_arith)
        requires
            i <= j,
            r >= 0,
    ;
    lemma_div_is_ordered(2 * (i * r * 100) + len, 2 * (j * r * 100) + len, 2 * (len as int));
}

/// No bin of a transform lies more than half a hundredth above the sample rate.
pub proof fn lemma_bin_frequency_bounded(i: nat, len: nat, sample_rate: u32)
    requires
        i < len,
    ensures
        bin_frequency(i, len, sample_rate) <= sample_rate * 100,
{
    let r = sample_rate as int;
    lemma_rounded_to_hundredths(i * r, len as int);
    assert(2 * (i * r * 100) + len < (2 * len) * (r * 100 + 1)) by (nonlinear_arith)
        requires
            i < len,
            r >= 0,
    ;
    lemma_multiply_divide_lt(2 * (i * r * 100) + len, 2 * (len as int), r * 100 + 1);
}

fn frequency_of_bin(i: usize, len: usize, sample_rate: u32) -> (f: u64)
    requires
        i < len,
    ensures
        f == bin_frequency(i as nat, len as nat, sample_rate),
{
    assert(i * sample_rate * 100 <= 0xffff_ffff_ffff_ffff * 0xffff_ffff * 100) by (nonlinear_arith)
        requires
            i <= 0xffff_ffff_ffff_ffff,
            sample_rate <= 0xffff_ffff,
    ;
    let q: u128 = nearest_quotient(i as u128 * sample_rate as u128 * 100, len as u128);
    proof {
        lemma_rounded_to_hundredths(i * sample_rate, len as int);
        lemma_bin_frequency_bounded(i as nat, len as nat, sample_rate);
    }
    q as u64
}

/// Builds the spectrum from the magnitudes of a forward transform's bins, one
/// per input sample, taken at `sample_rate`. Bin `i` of `len` has the frequency
/// `i * sample_rate / len`. The bin at frequency zero and the bins above
/// Nyquist are left out; the others are reported in rising order. No
/// magnitudes give an empty spectrum.
pub fn spectrum(magnitudes: &Vec<u64>, sample_rate: u32) -> (r: FFTResult)
    ensures
        r.reports(magnitudes@, sample_rate),
        r.well_formed(sample_rate),
{
    let len: usize = magnitudes.len();
    let top: u64 = sample_rate as u64 * 50;
    let mut frequencies: Vec<u64> = Vec::new();
    let mut kept_magnitudes: Vec<u64> = Vec::new();
    let mut i: usize = 0;
    while i < len
        invariant
            i <= len,
            len == magnitudes.len(),
            top == nyquist(sample_rate),
            frequencies@.len() == kept_below(i as nat, len as nat, sample_rate).len(),
            kept_magnitudes@.len() == frequencies@.len(),
            forall|k: int|
                0 <= k < frequencies@.len() ==> {
                    &&& 0 <= #[trigger] kept_below(i as nat, len as nat, sample_rate)[k] < i
                    &&& frequencies@[k] == bin_frequency(
                        kept_below(i as nat, len as nat, sample_rate)[k],
                        len as nat,
                        sample_rate,
                    )
                    &&& kept_magnitudes@[k] == magnitudes@[kept_below(
                        i as nat,
                        len as nat,
                        sample_rate,
                    )[k] as int]
                },
            forall|k: int|
                0 <= k < frequencies@.len() ==> 0 < #[trigger] frequencies@[k] <= top,
            forall|j: int, k: int|
                0 <= j <= k < frequencies@.len() ==> frequencies@[j] <= frequencies@[k],
        decreases len - i,
    {
        let f: u64 = frequency_of_bin(i, len, sample_rate);
        let ghost before = kept_below(i as nat, len as nat, sample_rate);
        let ghost old_frequencies = frequencies@;
        if 0 < f && f <= top {
            proof {
                assert forall|j: int| 0 <= j < old_frequencies.len() implies old_frequencies[j]
                    <= f by {
                    lemma_bin_frequency_rises(before[j], i as nat, len as nat, sample_rate);
                }
            }
            frequencies.push(f);
            kept_magnitudes.push(magnitudes[i]);
        }
        i = i + 1;
    }
    FFTResult { frequencies, magnitudes: kept_magnitudes }
}

/// Builds the spectrum of a window sampled at the sensor's rate from the
/// magnitudes of its transform's bins.
pub fn apply_fft(magnitudes: Vec<u64>) -> (r: FFTResult)
    ensures
        r.reports(magnitudes@, SAMPLE_RATE),
        r.well_formed(SAMPLE_RATE),
{
    spectrum(&magnitudes, SAMPLE_RATE)
}

} // verus!
