use audio_utils::peaks::{
    bin_frequency, bin_is_detectable, bins_too_close, candidate_at, count_candidates, exceeds,
    falls_short, find_peaks, spectrum_peak, Peak, Ratio,
};

const TWENTIETH: Ratio = Ratio { num: 5, den: 100 };

fn spectrum(len: usize, spikes: &[(usize, u64)]) -> Vec<u64> {
    let mut power = vec![0u64; len];
    for &(bin, magnitude) in spikes {
        power[bin] = magnitude;
    }
    power
}

fn p(freq_mhz: u64, magnitude: u64) -> Peak {
    Peak { freq_mhz, magnitude }
}

#[test]
fn three_clear_peaks_come_out_in_ascending_frequency() {
    let power = spectrum(1000, &[(300, 100), (100, 30), (200, 50)]);
    let peaks = find_peaks(&power, 1000, TWENTIETH, 5, 70_000, None);
    assert_eq!(peaks, vec![p(100_000, 30), p(200_000, 50), p(300_000, 100)]);
}

#[test]
fn weaker_peak_too_close_to_a_stronger_one_is_dropped() {
    let power = spectrum(1000, &[(100, 100), (150, 90)]);
    assert_eq!(find_peaks(&power, 1000, TWENTIETH, 5, 70_000, None), vec![p(100_000, 100)]);
    let power = spectrum(1000, &[(100, 90), (150, 100)]);
    assert_eq!(find_peaks(&power, 1000, TWENTIETH, 5, 70_000, None), vec![p(150_000, 100)]);
}

#[test]
fn peaks_exactly_the_minimum_distance_apart_are_both_kept() {
    let power = spectrum(1000, &[(100, 100), (170, 90)]);
    let peaks = find_peaks(&power, 1000, TWENTIETH, 5, 70_000, None);
    assert_eq!(peaks, vec![p(100_000, 100), p(170_000, 90)]);
    let power = spectrum(1000, &[(100, 100), (169, 90)]);
    assert_eq!(find_peaks(&power, 1000, TWENTIETH, 5, 70_000, None), vec![p(100_000, 100)]);
}

#[test]
fn rejected_peak_does_not_block_its_neighbour() {
    // 150 is too close to 100 and dropped; 200 is far enough from 100.
    let power = spectrum(1000, &[(100, 100), (150, 90), (200, 80)]);
    let peaks = find_peaks(&power, 1000, TWENTIETH, 5, 70_000, None);
    assert_eq!(peaks, vec![p(100_000, 100), p(200_000, 80)]);
}

#[test]
fn of_equal_peaks_too_close_the_lower_bin_is_kept() {
    let power = spectrum(1000, &[(100, 100), (150, 100)]);
    assert_eq!(find_peaks(&power, 1000, TWENTIETH, 5, 70_000, None), vec![p(100_000, 100)]);
}

#[test]
fn no_more_than_max_peaks_and_the_strongest_of_them() {
    let power = spectrum(1000, &[(100, 30), (200, 100), (300, 50), (400, 20)]);
    let peaks = find_peaks(&power, 1000, TWENTIETH, 2, 70_000, None);
    assert_eq!(peaks, vec![p(200_000, 100), p(300_000, 50)]);
    let peaks = find_peaks(&power, 1000, TWENTIETH, 1, 70_000, None);
    assert_eq!(peaks, vec![p(200_000, 100)]);
    let peaks = find_peaks(&power, 1000, TWENTIETH, 0, 70_000, None);
    assert_eq!(peaks, vec![]);
}

#[test]
fn quality_veto_refuses_when_too_few_candidates_are_accepted() {
    // Two candidates, one accepted: a share of one half.
    let power = spectrum(1000, &[(100, 100), (150, 90)]);
    let strict = Some(Ratio { num: 60, den: 100 });
    assert_eq!(find_peaks(&power, 1000, TWENTIETH, 5, 70_000, strict), vec![]);
    let exact = Some(Ratio { num: 50, den: 100 });
    assert_eq!(find_peaks(&power, 1000, TWENTIETH, 5, 70_000, exact), vec![p(100_000, 100)]);
    let loose = Some(Ratio { num: 40, den: 100 });
    assert_eq!(find_peaks(&power, 1000, TWENTIETH, 5, 70_000, loose), vec![p(100_000, 100)]);
}

#[test]
fn quality_veto_counts_candidates_left_over_by_max_peaks() {
    let power = spectrum(
        1000,
        &[(100, 100), (200, 90), (300, 80), (400, 70), (500, 60), (600, 50), (700, 40), (800, 30)],
    );
    let veto = Some(Ratio { num: 40, den: 100 });
    // Three of eight is less than two fifths.
    assert_eq!(find_peaks(&power, 1000, TWENTIETH, 3, 70_000, veto), vec![]);
    // Four of eight is not.
    assert_eq!(
        find_peaks(&power, 1000, TWENTIETH, 4, 70_000, veto),
        vec![p(100_000, 100), p(200_000, 90), p(300_000, 80), p(400_000, 70)]
    );
    assert_eq!(
        find_peaks(&power, 1000, TWENTIETH, 3, 70_000, None),
        vec![p(100_000, 100), p(200_000, 90), p(300_000, 80)]
    );
}

#[test]
fn quality_veto_counts_accepted_peaks_outside_the_window() {
    // Both candidates are accepted; only one of them is detectable.
    let power = spectrum(1000, &[(50, 100), (500, 90)]);
    let veto = Some(Ratio { num: 1, den: 1 });
    assert_eq!(find_peaks(&power, 1000, TWENTIETH, 5, 70_000, veto), vec![p(500_000, 90)]);
}

#[test]
fn threshold_is_strict() {
    let power = spectrum(1000, &[(100, 100), (200, 5)]);
    assert_eq!(find_peaks(&power, 1000, TWENTIETH, 5, 70_000, None), vec![p(100_000, 100)]);
    let power = spectrum(1000, &[(100, 100), (200, 6)]);
    let peaks = find_peaks(&power, 1000, TWENTIETH, 5, 70_000, None);
    assert_eq!(peaks, vec![p(100_000, 100), p(200_000, 6)]);
}

#[test]
fn bins_under_the_threshold_are_no_candidates_for_the_veto() {
    let power = spectrum(1000, &[(100, 100), (200, 5), (300, 4), (400, 3)]);
    let veto = Some(Ratio { num: 1, den: 1 });
    assert_eq!(find_peaks(&power, 1000, TWENTIETH, 5, 70_000, veto), vec![p(100_000, 100)]);
}

#[test]
fn window_edges_are_inside() {
    // 2000 bins at 2000 samples per second: one bin per hertz.
    let power = spectrum(2000, &[(68, 10), (70, 10), (1000, 10), (1002, 10)]);
    let peaks = find_peaks(&power, 2000, TWENTIETH, 5, 1_000, None);
    assert_eq!(peaks, vec![p(70_000, 10), p(1_000_000, 10)]);
}

#[test]
fn window_is_exact_where_the_frequency_is_rounded() {
    // Bin 1001 of 2003 at 2001 samples per second lies a little above 1000
    // hertz, and its frequency rounds down to 1000 hertz.
    assert_eq!(bin_frequency(1001, 2003, 2001), 1_000_000);
    assert!(!bin_is_detectable(1001, 2003, 2001));
    let power = spectrum(2003, &[(1001, 10)]);
    assert_eq!(find_peaks(&power, 2001, TWENTIETH, 5, 1, None), vec![]);
    // Bin 3000 of 9001 at 3000 samples per second lies a little below.
    let power = spectrum(9001, &[(3000, 10), (3002, 10)]);
    assert_eq!(find_peaks(&power, 3000, TWENTIETH, 5, 1, None), vec![p(999_888, 10)]);
}

#[test]
fn short_spectra_have_no_peaks() {
    assert_eq!(find_peaks(&vec![], 1000, TWENTIETH, 5, 70_000, None), vec![]);
    assert_eq!(find_peaks(&vec![5], 1000, TWENTIETH, 5, 70_000, None), vec![]);
    assert_eq!(find_peaks(&vec![1, 5], 1000, TWENTIETH, 5, 70_000, None), vec![]);
}

#[test]
fn shortest_spectrum_with_a_peak() {
    assert_eq!(find_peaks(&vec![0, 5, 0], 1000, TWENTIETH, 5, 70_000, None), vec![p(333_333, 5)]);
}

#[test]
fn flat_spectra_have_no_peaks() {
    assert_eq!(find_peaks(&vec![0; 1000], 1000, TWENTIETH, 5, 70_000, None), vec![]);
    assert_eq!(find_peaks(&vec![7; 1000], 1000, TWENTIETH, 5, 70_000, None), vec![]);
    assert_eq!(find_peaks(&vec![u64::MAX; 1000], 1000, TWENTIETH, 5, 70_000, None), vec![]);
}

#[test]
fn plateau_is_no_peak() {
    let power = spectrum(1000, &[(100, 50), (101, 50)]);
    assert_eq!(find_peaks(&power, 1000, TWENTIETH, 5, 70_000, None), vec![]);
}

#[test]
fn first_and_last_bin_are_no_candidates_but_count_for_the_maximum() {
    let power = spectrum(1000, &[(0, 100), (500, 50), (999, 100)]);
    assert_eq!(find_peaks(&power, 1000, TWENTIETH, 5, 70_000, None), vec![p(500_000, 50)]);
    let power = spectrum(1000, &[(0, 1000), (500, 50)]);
    assert_eq!(find_peaks(&power, 1000, TWENTIETH, 5, 70_000, None), vec![]);
}

#[test]
fn largest_magnitudes_do_not_overflow() {
    let power = spectrum(1000, &[(100, u64::MAX), (200, u64::MAX - 1)]);
    let all = Ratio { num: u32::MAX, den: u32::MAX };
    assert_eq!(find_peaks(&power, 1000, all, 5, 70_000, None), vec![]);
    let nearly = Ratio { num: u32::MAX - 1, den: u32::MAX };
    let peaks = find_peaks(&power, u32::MAX, nearly, usize::MAX, u32::MAX, Some(all));
    assert_eq!(peaks, vec![]);
    let peaks = find_peaks(&power, 1000, nearly, usize::MAX, 70_000, Some(all));
    assert_eq!(peaks, vec![p(100_000, u64::MAX), p(200_000, u64::MAX - 1)]);
}

#[test]
fn sample_rate_zero_puts_every_bin_at_zero_hertz() {
    let power = spectrum(1000, &[(100, 100), (500, 90)]);
    assert_eq!(find_peaks(&power, 0, TWENTIETH, 5, 70_000, None), vec![]);
}

#[test]
fn spectrum_peak_is_the_largest_magnitude() {
    assert_eq!(spectrum_peak(&vec![]), 0);
    assert_eq!(spectrum_peak(&vec![3, 9, 2, 9, 1]), 9);
    assert_eq!(spectrum_peak(&vec![0, 0]), 0);
    assert_eq!(spectrum_peak(&vec![u64::MAX, 1]), u64::MAX);
}

#[test]
fn shares_are_compared_by_cross_multiplication() {
    assert!(exceeds(6, TWENTIETH, 100));
    assert!(!exceeds(5, TWENTIETH, 100));
    assert!(!exceeds(0, TWENTIETH, 0));
    assert!(exceeds(u64::MAX, Ratio { num: u32::MAX, den: u32::MAX }, u64::MAX - 1));
    assert!(falls_short(1, Ratio { num: 60, den: 100 }, 2));
    assert!(!falls_short(1, Ratio { num: 50, den: 100 }, 2));
    assert!(!falls_short(0, Ratio { num: 40, den: 100 }, 0));
    assert!(falls_short(0, Ratio { num: 40, den: 100 }, 1));
}

#[test]
fn candidates_are_counted() {
    let power = spectrum(1000, &[(0, 100), (100, 100), (150, 90), (200, 5), (300, 6)]);
    let max = spectrum_peak(&power);
    assert_eq!(max, 100);
    assert!(!candidate_at(&power, TWENTIETH, max, 0));
    assert!(candidate_at(&power, TWENTIETH, max, 100));
    assert!(!candidate_at(&power, TWENTIETH, max, 101));
    assert!(!candidate_at(&power, TWENTIETH, max, 200));
    assert!(candidate_at(&power, TWENTIETH, max, 300));
    assert!(!candidate_at(&power, TWENTIETH, max, 999));
    assert!(!candidate_at(&power, TWENTIETH, max, 5000));
    assert_eq!(count_candidates(&power, TWENTIETH, max), 3);
}

#[test]
fn distance_between_bins() {
    // 4096 bins at 44100 samples per second: 70 hertz are 6.5 bins.
    assert!(bins_too_close(41, 47, 4096, 44_100, 70_000));
    assert!(bins_too_close(47, 41, 4096, 44_100, 70_000));
    assert!(!bins_too_close(41, 48, 4096, 44_100, 70_000));
    assert!(bins_too_close(41, 41, 4096, 44_100, 70_000));
    assert!(!bins_too_close(41, 41, 4096, 44_100, 0));
}

#[test]
fn frequency_of_a_bin_is_rounded_down() {
    assert_eq!(bin_frequency(41, 4096, 44_100), 441_430);
    assert_eq!(bin_frequency(1, 3, 1000), 333_333);
    assert_eq!(bin_frequency(2, 3, 1000), 666_666);
    assert_eq!(bin_frequency(0, 1, u32::MAX), 0);
    assert_eq!(bin_frequency(usize::MAX - 1, usize::MAX, u32::MAX), 4_294_967_294_999);
}

#[test]
fn detectable_bins() {
    assert!(bin_is_detectable(7, 100, 1000));
    assert!(!bin_is_detectable(6, 100, 1000));
    assert!(bin_is_detectable(100, 100, 1000));
    assert!(!bin_is_detectable(101, 100, 1000));
    assert!(!bin_is_detectable(3001, 9001, 3000));
}
