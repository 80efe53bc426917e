use vstd::prelude::*;
use vstd::arithmetic::div_mod::{lemma_fundamental_div_mod, lemma_fundamental_div_mod_converse};
use vstd::arithmetic::power::{lemma_pow_increases, pow};
use crate::filter::{effective_band, FilterSpec, DEFAULT_ORDER};
use crate::globals::{Shared, SAMPLE_RATE};

verus! {

/// Decimal places that `round` keeps when none are asked for.
pub const DEFAULT_PLACES: u32 = 2;

/// Most decimal places that `round` can keep.
pub const MAX_PLACES: u32 = 18;

/// The integer nearest to `numer / denom`; a tie goes to the larger one.
pub open spec fn nearest(numer: int, denom: int) -> int
    recommends
        numer >= 0,
        denom > 0,
{
    (2 * numer + denom) / (2 * denom)
}

/// `numer / denom` rounded to `places` decimals, as a count of units of
/// `10^-places`.
pub open spec fn rounded(numer: int, denom: int, places: nat) -> int
    recommends
        numer >= 0,
        denom > 0,
{
    nearest(numer * pow(10, places), denom)
}

/// What `round` returns: the rounded quotient where it exists and fits.
pub open spec fn round_spec(numer: u64, denom: u64, places: Option<u32>) -> Option<u64> {
    let p = match places {
        Some(p) => p,
        None => DEFAULT_PLACES,
    };
    if denom == 0 || p > MAX_PLACES {
        None
    } else if rounded(numer as int, denom as int, p as nat) > u64::MAX {
        None
    } else {
        Some(rounded(numer as int, denom as int, p as nat) as u64)
    }
}

/// `q` is the rounded quotient exactly when the exact quotient lies within
/// half a unit of it, the upper end left out: of two integers equally near, the
/// larger is taken.
pub proof fn lemma_nearest_is_closest(numer: int, denom: int, q: int)
    requires
        denom > 0,
    ensures
        nearest(numer, denom) == q <==> 2 * q * denom - denom <= 2 * numer < 2 * q * denom + denom,
{
    let x = 2 * numer + denom;
    let d = 2 * denom;
    let n = nearest(numer, denom);
    lemma_fundamental_div_mod(x, d);
    assert(d * (x / d) == 2 * n * denom) by (nonlinear_arith)
        requires
            d == 2 * denom,
            n == x / d,
    ;
    if 2 * q * denom - denom <= 2 * numer < 2 * q * denom + denom {
        assert(q * d == 2 * q * denom) by (nonlinear_arith)
            requires
                d == 2 * denom,
        ;
        lemma_fundamental_div_mod_converse(x, d, q, x - 2 * q * denom);
    }
}

/// Rounding to two decimals counts hundredths.
pub proof fn lemma_rounded_to_hundredths(numer: int, denom: int)
    ensures
        rounded(numer, denom, 2) == nearest(numer * 100, denom),
{
    assert(pow(10, 2) == 100) by {
        reveal_with_fuel(pow, 3);
    }
}

/// The rounded quotient of two integers wide enough for every caller here.
pub(crate) fn nearest_quotient(numer: u128, denom: u128) -> (q: u128)
    requires
        denom > 0,
        2 * numer + 2 * denom <= u128::MAX,
    ensures
        q == nearest(numer as int, denom as int),
{
    (2 * numer + denom) / (2 * denom)
}

fn pow10(places: u32) -> (scale: u64)
    requires
        places <= MAX_PLACES,
    ensures
        scale == pow(10, places as nat),
        1 <= scale <= 1_000_000_000_000_000_000,
{
    let mut scale: u64 = 1;
    let mut i: u32 = 0;
    assert(pow(10, 0) == 1) by {
        reveal_with_fuel(pow, 1);
    }
    assert(pow(10, 18) == 1_000_000_000_000_000_000) by {
        reveal_with_fuel(pow, 19);
    }
    while i < places
        invariant
            i <= places <= MAX_PLACES,
            scale == pow(10, i as nat),
            1 <= scale,
            pow(10, 18) == 1_000_000_000_000_000_000,
        decreases places - i,
    {
        proof {
            reveal_with_fuel(pow, 2);
            lemma_pow_increases(10, (i + 1) as nat, 18);
        }
        scale = scale * 10;
        i = i + 1;
    }
    proof {
        lemma_pow_increases(10, places as nat, 18);
    }
    scale
}

/// Rounds the quotient `numer / denom` to `places` decimals (two when `places`
/// is `None`) and returns it as a count of units of `10^-places`; a tie is
/// rounded away from zero. Returns `None` when `denom` is zero, when more than
/// `MAX_PLACES` decimals are asked for, or when the count does not fit.
pub fn round(numer: u64, denom: u64, places: Option<u32>) -> (r: Option<u64>)
    ensures
        r == round_spec(numer, denom, places),
{
    let p: u32 = match places {
        Some(p) => p,
        None => DEFAULT_PLACES,
    };
    if denom == 0 || p > MAX_PLACES {
        return None;
    }
    let scale: u64 = pow10(p);
    assert(numer * scale <= 0xffff_ffff_ffff_ffff * 1_000_000_000_000_000_000) by (nonlinear_arith)
        requires
            numer <= 0xffff_ffff_ffff_ffff,
            scale <= 1_000_000_000_000_000_000,
    ;
    let q: u128 = nearest_quotient((numer as u128) * (scale as u128), denom as u128);
    if q > u64::MAX as u128 {
        None
    } else {
        Some(q as u64)
    }
}

/// Takes new cutoffs for the band-pass filter, in hundredths of a hertz, and
/// returns the pair that was applied, low cutoff first. Each value is clamped
/// to the range from one hertz to one hertz under Nyquist; where the clamped
/// low cutoff is not below the clamped high one, the full band is applied.
/// The buffers are left as they are.
pub fn set_bandpass(shared: &mut Shared, low_pass: u64, high_pass: u64) -> (applied: (u64, u64))
    ensures
        applied.0 == effective_band(low_pass as int, high_pass as int, SAMPLE_RATE).0,
        applied.1 == effective_band(low_pass as int, high_pass as int, SAMPLE_RATE).1,
        final(shared).low_cutoff == applied.0,
        final(shared).high_cutoff == applied.1,
        final(shared).visual == old(shared).visual,
        final(shared).audio_data == old(shared).audio_data,
        final(shared).filtered_data == old(shared).filtered_data,
{
    let (spec, _) = FilterSpec::resolve(low_pass, high_pass, DEFAULT_ORDER, SAMPLE_RATE);
    shared.low_cutoff = spec.low_cutoff;
    shared.high_cutoff = spec.high_cutoff;
    (spec.low_cutoff, spec.high_cutoff)
}

} // verus!
