use heartsound::bpm::{bpm, recompute_bpm};

const CENTER: i32 = 2_500_000;
const CHUNK: usize = 80;

fn quiet(samples: usize) -> Vec<i32> {
    vec![CENTER; samples]
}

fn with_pulses(samples: usize, pulses: &[(usize, usize)], height: i32) -> Vec<i32> {
    let mut signal = quiet(samples);
    for (first_chunk, chunks) in pulses {
        for i in first_chunk * CHUNK..(first_chunk + chunks) * CHUNK {
            signal[i] = CENTER + height;
        }
    }
    signal
}

#[test]
fn empty_window_has_no_rate() {
    assert_eq!(bpm(Vec::new()), 0);
    assert_eq!(recompute_bpm(&Vec::new(), 8000, 5), 0);
}

#[test]
fn quiet_window_has_no_rate() {
    assert_eq!(bpm(quiet(40_000)), 0);
}

#[test]
fn five_seconds_with_k_pulses_give_twelve_k() {
    for k in 0..=20usize {
        let pulses: Vec<(usize, usize)> = (0..k).map(|p| (5 + 20 * p, 3)).collect();
        let signal = with_pulses(40_000, &pulses, 200_000);
        assert_eq!(bpm(signal), 1_200 * k as u64);
    }
}

#[test]
fn six_pulses_in_five_seconds_are_seventy_two() {
    let signal = with_pulses(40_000, &[(10, 2), (90, 2), (170, 2), (250, 2), (330, 2), (410, 2)], 150_000);
    assert_eq!(bpm(signal.clone()), 7_200);
    assert_ne!(bpm(signal), 720);
}

#[test]
fn sustained_excursion_counts_once() {
    let signal = with_pulses(40_000, &[(0, 500)], 300_000);
    assert_eq!(bpm(signal), 1_200);
    let long = with_pulses(40_000, &[(100, 250)], 300_000);
    assert_eq!(bpm(long), 1_200);
}

#[test]
fn one_sample_above_threshold_makes_its_chunk_loud() {
    let mut signal = quiet(40_000);
    signal[1_234] = CENTER + 100_001;
    assert_eq!(bpm(signal), 1_200);
}

#[test]
fn threshold_itself_is_not_a_beat() {
    let signal = with_pulses(40_000, &[(10, 3), (50, 3)], 100_000);
    assert_eq!(bpm(signal), 0);
    let just_above = with_pulses(40_000, &[(10, 3), (50, 3)], 100_001);
    assert_eq!(bpm(just_above), 2_400);
}

#[test]
fn negative_excursions_never_count() {
    let signal = with_pulses(40_000, &[(10, 3), (50, 3), (90, 3)], -2_000_000);
    assert_eq!(bpm(signal), 0);
    let lowest = vec![i32::MIN; 40_000];
    assert_eq!(bpm(lowest), 0);
}

#[test]
fn adjacent_loud_chunks_are_one_beat_and_a_gap_re_arms() {
    let touching = with_pulses(40_000, &[(10, 1), (11, 1)], 200_000);
    assert_eq!(bpm(touching), 1_200);
    let gapped = with_pulses(40_000, &[(10, 1), (12, 1)], 200_000);
    assert_eq!(bpm(gapped), 2_400);
}

#[test]
fn only_the_first_window_seconds_are_counted() {
    let signal = with_pulses(80_000, &[(10, 2), (100, 2), (600, 2), (700, 2)], 200_000);
    assert_eq!(bpm(signal), 2_400);
}

#[test]
fn shorter_window_shrinks_the_duration() {
    let signal = with_pulses(16_000, &[(10, 2), (100, 2)], 200_000);
    assert_eq!(bpm(signal), 6_000);
    let one_second = with_pulses(8_000, &[(10, 2)], 200_000);
    assert_eq!(bpm(one_second), 6_000);
}

#[test]
fn rate_is_rounded_to_two_decimals() {
    let signal = with_pulses(24_000, &[(10, 2)], 200_000);
    assert_eq!(bpm(signal), 2_000);
    let odd = with_pulses(56_000 / 2 + 40, &[(10, 2)], 200_000);
    assert_eq!(odd.len(), 28_040);
    assert_eq!(bpm(odd), 1_712);
}

#[test]
fn trailing_partial_chunk_is_ignored() {
    let mut signal = quiet(8 * CHUNK + 40);
    for s in signal.iter_mut().skip(8 * CHUNK) {
        *s = CENTER + 500_000;
    }
    assert_eq!(bpm(signal), 0);
}

#[test]
fn window_shorter_than_a_chunk_has_no_rate() {
    assert_eq!(bpm(vec![CENTER + 900_000; 79]), 0);
    assert_eq!(bpm(vec![CENTER + 900_000; 80]), 600_000);
}

#[test]
fn recompute_follows_rate_and_window() {
    let mut signal = vec![CENTER; 1_000];
    for p in [100usize, 300, 500, 700] {
        for s in signal.iter_mut().skip(p).take(5) {
            *s = CENTER + 250_000;
        }
    }
    assert_eq!(recompute_bpm(&signal, 100, 10), 2_400);
    assert_eq!(recompute_bpm(&signal, 100, 5), 2_400);
    assert_eq!(recompute_bpm(&signal, 100, 2), 3_000);
    assert_eq!(recompute_bpm(&signal, 100, 0), 0);
}

#[test]
fn rate_too_low_for_a_chunk_gives_zero() {
    let signal = vec![CENTER + 900_000; 500];
    assert_eq!(recompute_bpm(&signal, 49, 5), 0);
    assert_eq!(recompute_bpm(&signal, 0, 5), 0);
    assert_eq!(recompute_bpm(&signal, 50, 5), 1_200);
}

#[test]
fn maxima_do_not_overflow() {
    let signal = vec![i32::MAX; 40_000];
    assert_eq!(bpm(signal), 1_200);
    assert_eq!(recompute_bpm(&vec![i32::MAX; 10], u32::MAX, u32::MAX), 0);
}
