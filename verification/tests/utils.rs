use heartsound::globals::Shared;
use heartsound::utils::{round, set_bandpass, DEFAULT_PLACES, MAX_PLACES};

#[test]
fn round_defaults_to_two_places() {
    assert_eq!(DEFAULT_PLACES, 2);
    assert_eq!(round(1, 3, None), Some(33));
    assert_eq!(round(2, 3, None), Some(67));
    assert_eq!(round(1, 3, None), round(1, 3, Some(2)));
}

#[test]
fn round_keeps_the_places_asked_for() {
    assert_eq!(round(1, 3, Some(0)), Some(0));
    assert_eq!(round(2, 3, Some(0)), Some(1));
    assert_eq!(round(1, 3, Some(3)), Some(333));
    assert_eq!(round(22, 7, Some(4)), Some(31429));
    assert_eq!(round(8000, 3, Some(2)), Some(266667));
}

#[test]
fn round_takes_a_tie_away_from_zero() {
    assert_eq!(round(1, 2, Some(0)), Some(1));
    assert_eq!(round(3, 2, Some(0)), Some(2));
    assert_eq!(round(1, 8, Some(2)), Some(13));
    assert_eq!(round(5, 1000, Some(2)), Some(1));
    assert_eq!(round(4, 1000, Some(2)), Some(0));
}

#[test]
fn round_leaves_whole_quotients_alone() {
    assert_eq!(round(12, 4, Some(0)), Some(3));
    assert_eq!(round(12, 4, None), Some(300));
    assert_eq!(round(0, 9, None), Some(0));
}

#[test]
fn round_rejects_a_zero_denominator() {
    assert_eq!(round(5, 0, None), None);
    assert_eq!(round(0, 0, Some(0)), None);
}

#[test]
fn round_rejects_too_many_places() {
    assert_eq!(MAX_PLACES, 18);
    assert_eq!(round(1, 3, Some(19)), None);
    assert_eq!(round(1, 3, Some(18)), Some(333_333_333_333_333_333));
}

#[test]
fn round_rejects_a_count_that_does_not_fit() {
    assert_eq!(round(u64::MAX, 1, Some(1)), None);
    assert_eq!(round(u64::MAX, 1, Some(0)), Some(u64::MAX));
    assert_eq!(round(u64::MAX, 2, Some(0)), Some(9_223_372_036_854_775_808));
    assert_eq!(round(u64::MAX, u64::MAX, Some(18)), Some(1_000_000_000_000_000_000));
}

#[test]
fn set_bandpass_applies_a_valid_band() {
    let mut shared = Shared::new();
    assert_eq!(set_bandpass(&mut shared, 2_000, 40_000), (2_000, 40_000));
    assert_eq!(shared.low_cutoff, 2_000);
    assert_eq!(shared.high_cutoff, 40_000);
}

#[test]
fn set_bandpass_clamps_both_ends() {
    let mut shared = Shared::new();
    assert_eq!(set_bandpass(&mut shared, 0, 1_000_000), (100, 399_900));
    assert_eq!(set_bandpass(&mut shared, 50, 30_000), (100, 30_000));
    assert_eq!(set_bandpass(&mut shared, 30_000, 400_000), (30_000, 399_900));
    assert_eq!(set_bandpass(&mut shared, 100, 399_900), (100, 399_900));
}

#[test]
fn set_bandpass_falls_back_on_an_inverted_band() {
    let mut shared = Shared::new();
    assert_eq!(set_bandpass(&mut shared, 40_000, 2_000), (100, 399_900));
    assert_eq!(shared.low_cutoff, 100);
    assert_eq!(shared.high_cutoff, 399_900);
}

#[test]
fn set_bandpass_falls_back_on_an_empty_band() {
    let mut shared = Shared::new();
    assert_eq!(set_bandpass(&mut shared, 5_000, 5_000), (100, 399_900));
    assert_eq!(set_bandpass(&mut shared, 500_000, 600_000), (100, 399_900));
    assert_eq!(set_bandpass(&mut shared, 10, 20), (100, 399_900));
}

#[test]
fn set_bandpass_is_deterministic_and_stable() {
    let mut a = Shared::new();
    let mut b = Shared::new();
    for (low, high) in [(0u64, 0u64), (7, 3), (2_000, 40_000), (399_900, 100), (u64::MAX, 1)] {
        let first = set_bandpass(&mut a, low, high);
        let second = set_bandpass(&mut b, low, high);
        assert_eq!(first, second);
        assert_eq!(set_bandpass(&mut a, first.0, first.1), first);
        assert!(0 < first.0 && first.0 < first.1 && first.1 < 400_000);
    }
}

#[test]
fn set_bandpass_leaves_the_buffers_alone() {
    let mut shared = Shared::new();
    shared.audio_data.push(1);
    shared.visual.push(2);
    shared.filtered_data.push(3);
    set_bandpass(&mut shared, 2_000, 40_000);
    assert_eq!(shared.audio_data.snapshot(), vec![1]);
    assert_eq!(shared.visual.snapshot(), vec![2]);
    assert_eq!(shared.filtered_data.snapshot(), vec![3]);
}
