//! The whole analysis: from the coefficients of a transformed buffer to its
//! fundamental frequency, and to the name of the nearest note.

use vstd::prelude::*;
use crate::estimator::{analyse_peaks, frequency_view, fundamental_of};
use crate::notes::{frequency_to_note, note_of};
use crate::estimator_laws::lemma_estimate_detectable;
use crate::peak_laws::{
    lemma_detectable_bin_frequency, lemma_flat_spectrum_has_no_peak,
    lemma_peaks_bounded_detectable_spaced, lemma_single_candidate,
};
use crate::units::detectable;
use crate::peaks::{
    bin_detectable, bin_frequency_mhz, detected_peaks, find_peaks, is_candidate, Detector, Peak,
    Ratio,
};
use crate::spectrum::{get_power_spectrum, power_spectrum, Coefficient};

verus! {

/// Lower edge of the band that is analysed, in millihertz.
pub const LOW_CUTOFF_MHZ: u32 = 20_000;

/// Upper edge of the band that is analysed, in millihertz.
pub const HIGH_CUTOFF_MHZ: u32 = 5_000_000;

/// Largest number of peaks taken from a spectrum.
pub const MAX_PEAKS: usize = 5;

/// Smallest distance between two peaks, in millihertz.
pub const MIN_PEAK_DISTANCE_MHZ: u32 = 70_000;

/// The detector that the analysis uses: a candidate must exceed a twentieth
/// of the global maximum, and at least two fifths of the candidates must be
/// taken.
pub open spec fn standard_detector(sample_rate: u32) -> Detector {
    Detector {
        sample_rate,
        threshold_ratio: Ratio { num: 5, den: 100 },
        max_peaks: MAX_PEAKS,
        min_distance_mhz: MIN_PEAK_DISTANCE_MHZ,
        min_peak_ratio: Some(Ratio { num: 40, den: 100 }),
    }
}

/// The peaks that the analysis finds in a transformed buffer.
pub open spec fn buffer_peaks(coefficients: Seq<Coefficient>, sample_rate: u32) -> Seq<Peak> {
    detected_peaks(
        power_spectrum(
            coefficients,
            sample_rate as int,
            LOW_CUTOFF_MHZ as int,
            HIGH_CUTOFF_MHZ as int,
        ),
        standard_detector(sample_rate),
    )
}

/// The fundamental frequency of a transformed buffer, in millihertz, if one
/// is found.
pub open spec fn fundamental(coefficients: Seq<Coefficient>, sample_rate: u32) -> Option<int> {
    fundamental_of(buffer_peaks(coefficients, sample_rate))
}

/// The name of the note of a transformed buffer, if a fundamental frequency
/// is found and has a name.
pub open spec fn buffer_note(
    coefficients: Seq<Coefficient>,
    sample_rate: u32,
) -> Option<Seq<char>> {
    match fundamental(coefficients, sample_rate) {
        Some(freq_mhz) => note_of(freq_mhz),
        None => None,
    }
}

/// Estimates the fundamental frequency of a buffer from the coefficients of
/// its discrete Fourier transform.
///
/// `coefficients` holds one coefficient for each sample of the buffer, and
/// `sample_rate` is the number of samples per second. The result is in
/// millihertz.
pub fn fundamental_frequency(
    coefficients: &Vec<Coefficient>,
    sample_rate: u32,
) -> (freq_mhz: Option<u64>)
    ensures
        frequency_view(freq_mhz) == fundamental(coefficients@, sample_rate),
        freq_mhz is Some ==> detectable(freq_mhz->0 as int),
{
    proof {
        lemma_fundamental_detectable(coefficients@, sample_rate);
    }
    let power: Vec<u64> = get_power_spectrum(
        coefficients,
        sample_rate,
        LOW_CUTOFF_MHZ,
        HIGH_CUTOFF_MHZ,
    );
    let peaks: Vec<Peak> = find_peaks(
        &power,
        sample_rate,
        Ratio { num: 5, den: 100 },
        MAX_PEAKS,
        MIN_PEAK_DISTANCE_MHZ,
        Some(Ratio { num: 40, den: 100 }),
    );
    analyse_peaks(&peaks)
}

/// Names the note of a buffer from the coefficients of its discrete Fourier
/// transform.
pub fn detect_note(coefficients: &Vec<Coefficient>, sample_rate: u32) -> (note: Option<String>)
    ensures
        match note {
            Some(name) => buffer_note(coefficients@, sample_rate) == Some(name@),
            None => buffer_note(coefficients@, sample_rate) is None,
        },
{
    match fundamental_frequency(coefficients, sample_rate) {
        Some(freq_mhz) => frequency_to_note(freq_mhz),
        None => None,
    }
}

/// A fundamental frequency, where one is found, lies inside the detectable
/// window.
pub proof fn lemma_fundamental_detectable(coefficients: Seq<Coefficient>, sample_rate: u32)
    ensures
        fundamental(coefficients, sample_rate) is Some ==> detectable(
            fundamental(coefficients, sample_rate)->0,
        ),
{
    let peaks = buffer_peaks(coefficients, sample_rate);
    let power = power_spectrum(
        coefficients,
        sample_rate as int,
        LOW_CUTOFF_MHZ as int,
        HIGH_CUTOFF_MHZ as int,
    );
    lemma_peaks_bounded_detectable_spaced(power, standard_detector(sample_rate));
    if peaks.len() == 1 {
        assert(detectable(peaks[0].freq_mhz as int));
    } else if peaks.len() >= 2 && fundamental_of(peaks) is Some {
        lemma_estimate_detectable(peaks);
    }
}

/// A buffer whose coefficients are all zero, as those of a silent buffer
/// are, has no fundamental frequency and no note.
pub proof fn lemma_silence_has_no_fundamental(coefficients: Seq<Coefficient>, sample_rate: u32)
    requires
        forall|bin: int|
            0 <= bin < coefficients.len() ==> (#[trigger] coefficients[bin]).re == 0
                && coefficients[bin].im == 0,
    ensures
        fundamental(coefficients, sample_rate) is None,
        buffer_note(coefficients, sample_rate) is None,
{
    let power = power_spectrum(
        coefficients,
        sample_rate as int,
        LOW_CUTOFF_MHZ as int,
        HIGH_CUTOFF_MHZ as int,
    );
    assert forall|bin: int| 0 < bin < power.len() implies #[trigger] power[bin] <= power[bin
        - 1] by {
        assert(coefficients[bin].re == 0 && coefficients[bin].im == 0);
        assert(power[bin] == 0);
    }
    lemma_flat_spectrum_has_no_peak(power, standard_detector(sample_rate));
}

/// The result depends on nothing but the coefficients and the sample rate:
/// two buffers with the same coefficients have the same peaks, the same
/// fundamental frequency and the same note.
pub proof fn lemma_same_buffer_same_result(
    first: Seq<Coefficient>,
    second: Seq<Coefficient>,
    sample_rate: u32,
)
    requires
        first.len() == second.len(),
        forall|bin: int| 0 <= bin < first.len() ==> first[bin] == second[bin],
    ensures
        buffer_peaks(first, sample_rate) == buffer_peaks(second, sample_rate),
        fundamental(first, sample_rate) == fundamental(second, sample_rate),
        buffer_note(first, sample_rate) == buffer_note(second, sample_rate),
{
    assert(first =~= second);
}

/// A buffer whose power spectrum has a single candidate, at a detectable
/// bin, has the frequency of that bin as its fundamental frequency: the
/// result, in millihertz, is `bin * sample_rate * 1000 / len` rounded down,
/// where `len` is the number of coefficients.
pub proof fn lemma_single_peak_is_fundamental(
    coefficients: Seq<Coefficient>,
    sample_rate: u32,
    bin: int,
)
    requires
        is_candidate(
            power_spectrum(
                coefficients,
                sample_rate as int,
                LOW_CUTOFF_MHZ as int,
                HIGH_CUTOFF_MHZ as int,
            ),
            standard_detector(sample_rate).threshold_ratio,
            bin,
        ),
        forall|other: int|
            other != bin ==> !is_candidate(
                power_spectrum(
                    coefficients,
                    sample_rate as int,
                    LOW_CUTOFF_MHZ as int,
                    HIGH_CUTOFF_MHZ as int,
                ),
                standard_detector(sample_rate).threshold_ratio,
                other,
            ),
        bin_detectable(bin, coefficients.len() as int, sample_rate as int),
    ensures
        fundamental(coefficients, sample_rate) == Some(
            bin_frequency_mhz(bin, coefficients.len() as int, sample_rate as int),
        ),
        fundamental(coefficients, sample_rate)->0 * coefficients.len() <= bin * sample_rate * 1000
            < (fundamental(coefficients, sample_rate)->0 + 1) * coefficients.len(),
{
    let power = power_spectrum(
        coefficients,
        sample_rate as int,
        LOW_CUTOFF_MHZ as int,
        HIGH_CUTOFF_MHZ as int,
    );
    let len = coefficients.len() as int;
    lemma_single_candidate(power, standard_detector(sample_rate), bin);
    lemma_detectable_bin_frequency(bin, len, sample_rate as int);
    let exact = bin * sample_rate * 1000;
    assert((exact / len) * len <= exact < (exact / len + 1) * len) by (nonlinear_arith)
        requires
            len > 0,
    ;
}

} // verus!
