//! Band-passed power spectrum of a transformed buffer.
//!
//! The discrete Fourier transform itself is computed elsewhere; this module
//! receives its complex coefficients in fixed point and turns them into
//! magnitudes.

use vstd::prelude::*;

verus! {

/// One complex coefficient of a transformed buffer, in fixed point.
#[derive(Clone, Copy, Debug, PartialEq, Eq, Structural)]
pub struct Coefficient {
    pub re: i32,
    pub im: i32,
}

/// Squared magnitude of a coefficient.
pub open spec fn norm_sqr(c: Coefficient) -> int {
    c.re * c.re + c.im * c.im
}

/// Whether the frequency of bin `bin`, which is `bin * sample_rate / len`
/// hertz, lies in the closed band from `low_mhz` to `high_mhz` millihertz.
/// Both sides are multiplied by `len`, so nothing is rounded.
pub open spec fn in_band(
    bin: int,
    len: int,
    sample_rate: int,
    low_mhz: int,
    high_mhz: int,
) -> bool {
    low_mhz * len <= bin * sample_rate * 1000 <= high_mhz * len
}

/// Magnitude that bin `bin` of the power spectrum holds: the squared
/// magnitude of its coefficient inside the band, zero outside.
pub open spec fn band_power(
    coefficients: Seq<Coefficient>,
    sample_rate: int,
    low_mhz: int,
    high_mhz: int,
    bin: int,
) -> int {
    if in_band(bin, coefficients.len() as int, sample_rate, low_mhz, high_mhz) {
        norm_sqr(coefficients[bin])
    } else {
        0
    }
}

/// The power spectrum of a transformed buffer: one magnitude for each
/// coefficient, in the same order.
pub open spec fn power_spectrum(
    coefficients: Seq<Coefficient>,
    sample_rate: int,
    low_mhz: int,
    high_mhz: int,
) -> Seq<u64> {
    Seq::new(
        coefficients.len(),
        |bin: int| band_power(coefficients, sample_rate, low_mhz, high_mhz, bin) as u64,
    )
}

/// Computes the squared magnitude of one coefficient.
pub fn coefficient_power(c: Coefficient) -> (power: u64)
    ensures
        power == norm_sqr(c),
{
    let re: i64 = c.re as i64;
    let im: i64 = c.im as i64;
    assert(0 <= re * re <= 0x4000_0000_0000_0000) by (nonlinear_arith)
        requires
            -0x8000_0000 <= re <= 0x7fff_ffff,
    ;
    assert(0 <= im * im <= 0x4000_0000_0000_0000) by (nonlinear_arith)
        requires
            -0x8000_0000 <= im <= 0x7fff_ffff,
    ;
    let re_sq: u64 = (re * re) as u64;
    let im_sq: u64 = (im * im) as u64;
    re_sq + im_sq
}

/// Tests whether a bin's frequency lies in the band.
pub fn bin_in_band(
    bin: usize,
    len: usize,
    sample_rate: u32,
    low_mhz: u32,
    high_mhz: u32,
) -> (inside: bool)
    ensures
        inside == in_band(
            bin as int,
            len as int,
            sample_rate as int,
            low_mhz as int,
            high_mhz as int,
        ),
{
    let scaled_rate: u128 = sample_rate as u128 * 1000;
    assert(bin * scaled_rate <= 0xffff_ffff_ffff_ffff * 0xffff_ffff * 1000) by (nonlinear_arith)
        requires
            0 <= bin <= 0xffff_ffff_ffff_ffff,
            0 <= scaled_rate <= 0xffff_ffff * 1000,
    ;
    assert(low_mhz * len <= 0xffff_ffff * 0xffff_ffff_ffff_ffff) by (nonlinear_arith)
        requires
            0 <= len <= 0xffff_ffff_ffff_ffff,
            0 <= low_mhz <= 0xffff_ffff,
    ;
    assert(high_mhz * len <= 0xffff_ffff * 0xffff_ffff_ffff_ffff) by (nonlinear_arith)
        requires
            0 <= len <= 0xffff_ffff_ffff_ffff,
            0 <= high_mhz <= 0xffff_ffff,
    ;
    assert(bin * sample_rate * 1000 == bin * (sample_rate * 1000)) by (nonlinear_arith);
    let position: u128 = bin as u128 * scaled_rate;
    let low: u128 = low_mhz as u128 * (len as u128);
    let high: u128 = high_mhz as u128 * (len as u128);
    low <= position && position <= high
}

/// Turns the coefficients of a transformed buffer into a power spectrum,
/// with every bin outside the band set to zero.
///
/// The result has one magnitude for each coefficient, in the same order.
pub fn get_power_spectrum(
    coefficients: &Vec<Coefficient>,
    sample_rate: u32,
    low_cutoff_mhz: u32,
    high_cutoff_mhz: u32,
) -> (power: Vec<u64>)
    ensures
        power@ == power_spectrum(
            coefficients@,
            sample_rate as int,
            low_cutoff_mhz as int,
            high_cutoff_mhz as int,
        ),
        power@.len() == coefficients@.len(),
        forall|bin: int|
            0 <= bin < power@.len() ==> #[trigger] power@[bin] == band_power(
                coefficients@,
                sample_rate as int,
                low_cutoff_mhz as int,
                high_cutoff_mhz as int,
                bin,
            ),
{
    let len: usize = coefficients.len();
    let mut power: Vec<u64> = Vec::new();
    let mut bin: usize = 0;
    while bin < len
        invariant
            len == coefficients@.len(),
            bin <= len,
            power@.len() == bin,
            forall|b: int|
                0 <= b < bin ==> #[trigger] power@[b] == band_power(
                    coefficients@,
                    sample_rate as int,
                    low_cutoff_mhz as int,
                    high_cutoff_mhz as int,
                    b,
                ),
        decreases len - bin,
    {
        let value: u64 = if bin_in_band(bin, len, sample_rate, low_cutoff_mhz, high_cutoff_mhz) {
            coefficient_power(coefficients[bin])
        } else {
            0
        };
        power.push(value);
        bin += 1;
    }
    assert(power@ =~= power_spectrum(
        coefficients@,
        sample_rate as int,
        low_cutoff_mhz as int,
        high_cutoff_mhz as int,
    ));
    power
}

} // verus!
