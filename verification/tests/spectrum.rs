use audio_utils::spectrum::{bin_in_band, coefficient_power, get_power_spectrum, Coefficient};

fn c(re: i32, im: i32) -> Coefficient {
    Coefficient { re, im }
}

#[test]
fn power_is_squared_magnitude() {
    assert_eq!(coefficient_power(c(3, 4)), 25);
    assert_eq!(coefficient_power(c(-3, 4)), 25);
    assert_eq!(coefficient_power(c(0, -7)), 49);
    assert_eq!(coefficient_power(c(0, 0)), 0);
}

#[test]
fn power_of_the_largest_coefficient_fits() {
    assert_eq!(coefficient_power(c(i32::MIN, i32::MIN)), 1u64 << 63);
    assert_eq!(coefficient_power(c(i32::MAX, i32::MAX)), 2 * 2_147_483_647u64 * 2_147_483_647u64);
}

#[test]
fn band_edges_are_inside() {
    // 4 bins at 400 samples per second: bins at 0, 100, 200 and 300 hertz.
    assert!(!bin_in_band(0, 4, 400, 100_000, 200_000));
    assert!(bin_in_band(1, 4, 400, 100_000, 200_000));
    assert!(bin_in_band(2, 4, 400, 100_000, 200_000));
    assert!(!bin_in_band(3, 4, 400, 100_000, 200_000));
    assert!(!bin_in_band(1, 4, 400, 100_001, 200_000));
    assert!(!bin_in_band(2, 4, 400, 100_000, 199_999));
}

#[test]
fn band_is_exact_where_the_bin_frequency_is_no_whole_number() {
    // Bin 1 of 3 at 1000 samples per second lies at 333.333... hertz.
    assert!(bin_in_band(1, 3, 1000, 333_333, 333_334));
    assert!(!bin_in_band(1, 3, 1000, 333_334, 400_000));
    assert!(!bin_in_band(1, 3, 1000, 300_000, 333_333));
}

#[test]
fn spectrum_zeroes_outside_the_band() {
    let coefficients = vec![c(9, 9), c(3, 4), c(-5, 12), c(1, 1)];
    assert_eq!(get_power_spectrum(&coefficients, 400, 100_000, 200_000), vec![0, 25, 169, 0]);
}

#[test]
fn spectrum_of_nothing_is_empty() {
    assert_eq!(get_power_spectrum(&vec![], 44_100, 20_000, 5_000_000), Vec::<u64>::new());
}

#[test]
fn spectrum_with_the_whole_band() {
    let coefficients = vec![c(1, 0), c(0, 2), c(2, 2)];
    assert_eq!(get_power_spectrum(&coefficients, 3, 0, u32::MAX), vec![1, 4, 8]);
}

#[test]
fn spectrum_with_an_empty_band() {
    let coefficients = vec![c(1, 0), c(0, 2), c(2, 2)];
    assert_eq!(get_power_spectrum(&coefficients, 3, 2_000, 1_000), vec![0, 0, 0]);
}

#[test]
fn spectrum_at_rate_zero_keeps_what_a_zero_frequency_keeps() {
    let coefficients = vec![c(1, 0), c(0, 2)];
    assert_eq!(get_power_spectrum(&coefficients, 0, 0, 10), vec![1, 4]);
    assert_eq!(get_power_spectrum(&coefficients, 0, 1, 10), vec![0, 0]);
}
