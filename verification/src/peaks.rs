//! Peak picking on a power spectrum.
//!
//! A bin is a candidate when it is a strict local maximum that rises above a
//! share of the global maximum. Candidates are then taken strongest first,
//! each one only if it keeps a minimum distance to those already taken, up to
//! a maximum number. A quality veto may strike the whole result when too few
//! of the candidates were taken.

use vstd::prelude::*;
use crate::peak_laws::{
    lemma_no_candidate_no_peak, lemma_peaks_bounded_detectable_spaced, lemma_taken_settles,
};
use crate::units::{detectable, HIGHEST_DETECTABLE_HZ, LOWEST_DETECTABLE_HZ};

verus! {

/// A share `num / den`, compared by cross-multiplication.
#[derive(Clone, Copy, Debug, PartialEq, Eq, Structural)]
pub struct Ratio {
    pub num: u32,
    pub den: u32,
}

/// A spectral peak: its frequency in millihertz, rounded down, and the
/// magnitude of its bin.
#[derive(Clone, Copy, Debug, PartialEq, Eq, Structural)]
pub struct Peak {
    pub freq_mhz: u64,
    pub magnitude: u64,
}

/// The parameters of the peak detector.
#[derive(Clone, Copy, Debug, PartialEq, Eq, Structural)]
pub struct Detector {
    /// Samples per second of the analysed buffer.
    pub sample_rate: u32,
    /// Share of the global maximum that a candidate must exceed.
    pub threshold_ratio: Ratio,
    /// Largest number of peaks taken.
    pub max_peaks: usize,
    /// Smallest distance between two taken peaks, in millihertz.
    pub min_distance_mhz: u32,
    /// Smallest share of the candidates that must be taken, if the quality
    /// veto is in use.
    pub min_peak_ratio: Option<Ratio>,
}

/// Largest magnitude among the first `upto` bins; zero when there is none.
pub open spec fn spectrum_max(power: Seq<u64>, upto: int) -> int
    decreases upto,
{
    if upto <= 0 {
        0
    } else {
        let rest = spectrum_max(power, upto - 1);
        if power[upto - 1] > rest {
            power[upto - 1] as int
        } else {
            rest
        }
    }
}

/// Whether `value` is more than the share `ratio` of `whole`.
pub open spec fn exceeds_share(value: int, ratio: Ratio, whole: int) -> bool {
    value * ratio.den > ratio.num * whole
}

/// Whether `part` is less than the share `ratio` of `whole`.
pub open spec fn below_share(part: int, ratio: Ratio, whole: int) -> bool {
    part * ratio.den < ratio.num * whole
}

/// Whether `bin` is a candidate: an inner bin that is greater than both
/// neighbours and exceeds the threshold share of the global maximum.
pub open spec fn is_candidate(power: Seq<u64>, threshold: Ratio, bin: int) -> bool {
    &&& 0 < bin < power.len() - 1
    &&& power[bin] > power[bin - 1]
    &&& power[bin] > power[bin + 1]
    &&& exceeds_share(power[bin] as int, threshold, spectrum_max(power, power.len() as int))
}

/// Number of candidates among the first `upto` bins.
pub open spec fn candidate_count(power: Seq<u64>, threshold: Ratio, upto: int) -> int
    decreases upto,
{
    if upto <= 0 {
        0
    } else {
        candidate_count(power, threshold, upto - 1) + if is_candidate(power, threshold, upto - 1) {
            1int
        } else {
            0int
        }
    }
}

/// Distance between two bins.
pub open spec fn bin_distance(a: int, b: int) -> int {
    if a <= b {
        b - a
    } else {
        a - b
    }
}

/// Whether two bins of a spectrum of `len` bins are closer than
/// `min_distance_mhz`: their distance in bins is less than
/// `min_distance_mhz * len / (1000 * sample_rate)`, stated without division.
pub open spec fn too_close(
    a: int,
    b: int,
    len: int,
    sample_rate: int,
    min_distance_mhz: int,
) -> bool {
    bin_distance(a, b) * sample_rate * 1000 < min_distance_mhz * len
}

/// Whether `bin` keeps the minimum distance to every bin of `taken`.
pub open spec fn clear_of(
    power: Seq<u64>,
    detector: Detector,
    taken: Seq<int>,
    bin: int,
) -> bool {
    forall|k: int|
        0 <= k < taken.len() ==> !too_close(
            #[trigger] taken[k],
            bin,
            power.len() as int,
            detector.sample_rate as int,
            detector.min_distance_mhz as int,
        )
}

/// Whether `bin` can be taken next: a candidate that is not taken yet and
/// keeps the minimum distance to every taken bin.
pub open spec fn eligible(
    power: Seq<u64>,
    detector: Detector,
    taken: Seq<int>,
    bin: int,
) -> bool {
    &&& is_candidate(power, detector.threshold_ratio, bin)
    &&& !taken.contains(bin)
    &&& clear_of(power, detector, taken, bin)
}

/// Whether bin `a` comes before bin `b` when the bins are taken strongest
/// first: the greater magnitude first, and of two equal ones the lower bin.
pub open spec fn outranks(power: Seq<u64>, a: int, b: int) -> bool {
    power[a] > power[b] || (power[a] == power[b] && a < b)
}

/// The eligible bin among the first `upto` bins that outranks every other
/// eligible one there, if there is any.
pub open spec fn strongest_eligible(
    power: Seq<u64>,
    detector: Detector,
    taken: Seq<int>,
    upto: int,
) -> Option<int>
    decreases upto,
{
    if upto <= 0 {
        None
    } else {
        let rest = strongest_eligible(power, detector, taken, upto - 1);
        if eligible(power, detector, taken, upto - 1) && (rest is None || power[upto - 1]
            > power[rest->0]) {
            Some(upto - 1)
        } else {
            rest
        }
    }
}

/// The bins taken after `rounds` rounds, in the order in which they were
/// taken. Each round takes the strongest eligible bin; once there is none,
/// nothing more is taken.
pub open spec fn taken_bins(power: Seq<u64>, detector: Detector, rounds: nat) -> Seq<int>
    decreases rounds,
{
    if rounds == 0 {
        Seq::empty()
    } else {
        let before = taken_bins(power, detector, (rounds - 1) as nat);
        match strongest_eligible(power, detector, before, power.len() as int) {
            Some(bin) => before.push(bin),
            None => before,
        }
    }
}

/// The bins that the detector accepts: those taken in `max_peaks` rounds.
pub open spec fn accepted_bins(power: Seq<u64>, detector: Detector) -> Seq<int> {
    taken_bins(power, detector, detector.max_peaks as nat)
}

/// Whether the quality veto strikes: a smallest share is set, and the
/// accepted bins are less than that share of the candidates.
pub open spec fn veto_strikes(power: Seq<u64>, detector: Detector) -> bool {
    match detector.min_peak_ratio {
        Some(ratio) => below_share(
            accepted_bins(power, detector).len() as int,
            ratio,
            candidate_count(power, detector.threshold_ratio, power.len() as int),
        ),
        None => false,
    }
}

/// Whether the frequency of `bin`, which is `bin * sample_rate / len` hertz,
/// lies inside the detectable window. Nothing is rounded.
pub open spec fn bin_detectable(bin: int, len: int, sample_rate: int) -> bool {
    LOWEST_DETECTABLE_HZ * len <= bin * sample_rate <= HIGHEST_DETECTABLE_HZ * len
}

/// Frequency of `bin` in millihertz, rounded down.
pub open spec fn bin_frequency_mhz(bin: int, len: int, sample_rate: int) -> int {
    bin * sample_rate * 1000 / len
}

/// The peak that stands for `bin`.
pub open spec fn peak_at(power: Seq<u64>, sample_rate: u32, bin: int) -> Peak {
    Peak {
        freq_mhz: bin_frequency_mhz(bin, power.len() as int, sample_rate as int) as u64,
        magnitude: power[bin],
    }
}

/// Whether `bin` is reported: it was accepted and is detectable.
pub open spec fn reported(
    power: Seq<u64>,
    sample_rate: u32,
    accepted: Seq<int>,
    bin: int,
) -> bool {
    accepted.contains(bin) && bin_detectable(bin, power.len() as int, sample_rate as int)
}

/// The peaks of the reported bins among the first `upto` bins, in ascending
/// order of their bins.
pub open spec fn report(
    power: Seq<u64>,
    sample_rate: u32,
    accepted: Seq<int>,
    upto: int,
) -> Seq<Peak>
    decreases upto,
{
    if upto <= 0 {
        Seq::empty()
    } else {
        let rest = report(power, sample_rate, accepted, upto - 1);
        if reported(power, sample_rate, accepted, upto - 1) {
            rest.push(peak_at(power, sample_rate, upto - 1))
        } else {
            rest
        }
    }
}

/// The peaks that the detector finds in a power spectrum: none if the quality
/// veto strikes, else the accepted bins that are detectable, in ascending
/// order of frequency.
pub open spec fn detected_peaks(power: Seq<u64>, detector: Detector) -> Seq<Peak> {
    if veto_strikes(power, detector) {
        Seq::empty()
    } else {
        report(power, detector.sample_rate, accepted_bins(power, detector), power.len() as int)
    }
}

/// The bins of a list as mathematical integers.
pub open spec fn bins_of(bins: Seq<usize>) -> Seq<int> {
    bins.map_values(|bin: usize| bin as int)
}

/// Finds the largest magnitude of a spectrum; zero for an empty one.
pub fn spectrum_peak(power: &Vec<u64>) -> (max: u64)
    ensures
        max == spectrum_max(power@, power@.len() as int),
{
    let mut max: u64 = 0;
    let mut bin: usize = 0;
    while bin < power.len()
        invariant
            bin <= power@.len(),
            max == spectrum_max(power@, bin as int),
        decreases power@.len() - bin,
    {
        if power[bin] > max {
            max = power[bin];
        }
        bin += 1;
    }
    max
}

/// Tests whether `value` is more than the share `ratio` of `whole`.
pub fn exceeds(value: u64, ratio: Ratio, whole: u64) -> (more: bool)
    ensures
        more == exceeds_share(value as int, ratio, whole as int),
{
    assert(value * ratio.den <= 0xffff_ffff_ffff_ffff * 0xffff_ffff) by (nonlinear_arith)
        requires
            0 <= value <= 0xffff_ffff_ffff_ffff,
            0 <= ratio.den <= 0xffff_ffff,
    ;
    assert(ratio.num * whole <= 0xffff_ffff * 0xffff_ffff_ffff_ffff) by (nonlinear_arith)
        requires
            0 <= whole <= 0xffff_ffff_ffff_ffff,
            0 <= ratio.num <= 0xffff_ffff,
    ;
    value as u128 * (ratio.den as u128) > ratio.num as u128 * (whole as u128)
}

/// Tests whether `part` is less than the share `ratio` of `whole`.
pub fn falls_short(part: usize, ratio: Ratio, whole: usize) -> (less: bool)
    ensures
        less == below_share(part as int, ratio, whole as int),
{
    assert(part * ratio.den <= 0xffff_ffff_ffff_ffff * 0xffff_ffff) by (nonlinear_arith)
        requires
            0 <= part <= 0xffff_ffff_ffff_ffff,
            0 <= ratio.den <= 0xffff_ffff,
    ;
    assert(ratio.num * whole <= 0xffff_ffff * 0xffff_ffff_ffff_ffff) by (nonlinear_arith)
        requires
            0 <= whole <= 0xffff_ffff_ffff_ffff,
            0 <= ratio.num <= 0xffff_ffff,
    ;
    (part as u128) * (ratio.den as u128) < ratio.num as u128 * (whole as u128)
}

/// Tests whether `bin` is a candidate, given the global maximum.
pub fn candidate_at(power: &Vec<u64>, threshold: Ratio, max: u64, bin: usize) -> (yes: bool)
    requires
        max == spectrum_max(power@, power@.len() as int),
    ensures
        yes == is_candidate(power@, threshold, bin as int),
{
    let len: usize = power.len();
    if bin == 0 || len < 3 || bin >= len - 1 {
        return false;
    }
    power[bin] > power[bin - 1] && power[bin] > power[bin + 1] && exceeds(
        power[bin],
        threshold,
        max,
    )
}

/// Counts the candidates of a spectrum, given its global maximum.
pub fn count_candidates(power: &Vec<u64>, threshold: Ratio, max: u64) -> (count: usize)
    requires
        max == spectrum_max(power@, power@.len() as int),
    ensures
        count == candidate_count(power@, threshold, power@.len() as int),
{
    let len: usize = power.len();
    let mut count: usize = 0;
    let mut bin: usize = 0;
    while bin < len
        invariant
            len == power@.len(),
            max == spectrum_max(power@, power@.len() as int),
            bin <= len,
            count <= bin,
            count == candidate_count(power@, threshold, bin as int),
        decreases len - bin,
    {
        if candidate_at(power, threshold, max, bin) {
            count += 1;
        }
        bin += 1;
    }
    count
}

/// Tests whether two bins are closer than the minimum distance.
pub fn bins_too_close(
    a: usize,
    b: usize,
    len: usize,
    sample_rate: u32,
    min_distance_mhz: u32,
) -> (close: bool)
    ensures
        close == too_close(
            a as int,
            b as int,
            len as int,
            sample_rate as int,
            min_distance_mhz as int,
        ),
{
    let distance: usize = if a <= b {
        b - a
    } else {
        a - b
    };
    let scaled_rate: u128 = sample_rate as u128 * 1000;
    assert(distance * scaled_rate <= 0xffff_ffff_ffff_ffff * 0xffff_ffff * 1000)
        by (nonlinear_arith)
        requires
            0 <= distance <= 0xffff_ffff_ffff_ffff,
            0 <= scaled_rate <= 0xffff_ffff * 1000,
    ;
    assert(min_distance_mhz * len <= 0xffff_ffff * 0xffff_ffff_ffff_ffff) by (nonlinear_arith)
        requires
            0 <= len <= 0xffff_ffff_ffff_ffff,
            0 <= min_distance_mhz <= 0xffff_ffff,
    ;
    assert(distance * sample_rate * 1000 == distance * (sample_rate * 1000))
        by (nonlinear_arith);
    (distance as u128) * scaled_rate < min_distance_mhz as u128 * (len as u128)
}

/// Tests whether `bin` can be taken next, given the bins taken so far and
/// the global maximum.
pub fn eligible_at(
    power: &Vec<u64>,
    detector: &Detector,
    max: u64,
    taken: &Vec<usize>,
    bin: usize,
) -> (yes: bool)
    requires
        max == spectrum_max(power@, power@.len() as int),
    ensures
        yes == eligible(power@, *detector, bins_of(taken@), bin as int),
{
    if !candidate_at(power, detector.threshold_ratio, max, bin) {
        return false;
    }
    let ghost bins = bins_of(taken@);
    let mut k: usize = 0;
    while k < taken.len()
        invariant
            k <= taken@.len(),
            bins == bins_of(taken@),
            forall|j: int| 0 <= j < k ==> #[trigger] bins[j] != bin as int,
            forall|j: int|
                0 <= j < k ==> !too_close(
                    #[trigger] bins[j],
                    bin as int,
                    power@.len() as int,
                    detector.sample_rate as int,
                    detector.min_distance_mhz as int,
                ),
        decreases taken@.len() - k,
    {
        assert(bins[k as int] == taken@[k as int] as int);
        if taken[k] == bin || bins_too_close(
            taken[k],
            bin,
            power.len(),
            detector.sample_rate,
            detector.min_distance_mhz,
        ) {
            assert(bins.contains(bin as int) || !clear_of(power@, *detector, bins, bin as int));
            return false;
        }
        k += 1;
    }
    true
}

/// Finds the strongest bin that can be taken next, if there is one.
pub fn next_peak(
    power: &Vec<u64>,
    detector: &Detector,
    max: u64,
    taken: &Vec<usize>,
) -> (next: Option<usize>)
    requires
        max == spectrum_max(power@, power@.len() as int),
    ensures
        match next {
            Some(bin) => bin < power@.len() && strongest_eligible(
                power@,
                *detector,
                bins_of(taken@),
                power@.len() as int,
            ) == Some(bin as int),
            None => strongest_eligible(power@, *detector, bins_of(taken@), power@.len() as int)
                is None,
        },
{
    let len: usize = power.len();
    let mut best: Option<usize> = None;
    let mut bin: usize = 0;
    while bin < len
        invariant
            len == power@.len(),
            max == spectrum_max(power@, power@.len() as int),
            bin <= len,
            match best {
                Some(b) => b < bin && strongest_eligible(
                    power@,
                    *detector,
                    bins_of(taken@),
                    bin as int,
                ) == Some(b as int),
                None => strongest_eligible(power@, *detector, bins_of(taken@), bin as int) is None,
            },
        decreases len - bin,
    {
        let stronger: bool = match best {
            Some(b) => power[bin] > power[b],
            None => true,
        };
        if stronger && eligible_at(power, detector, max, taken, bin) {
            best = Some(bin);
        }
        bin += 1;
    }
    best
}

/// Tests whether a bin is among the taken ones.
pub fn is_taken(taken: &Vec<usize>, bin: usize) -> (yes: bool)
    ensures
        yes == bins_of(taken@).contains(bin as int),
{
    let ghost bins = bins_of(taken@);
    let mut k: usize = 0;
    while k < taken.len()
        invariant
            k <= taken@.len(),
            bins == bins_of(taken@),
            forall|j: int| 0 <= j < k ==> #[trigger] bins[j] != bin as int,
        decreases taken@.len() - k,
    {
        assert(bins[k as int] == taken@[k as int] as int);
        if taken[k] == bin {
            return true;
        }
        k += 1;
    }
    false
}

/// Tests whether the frequency of a bin lies inside the detectable window.
pub fn bin_is_detectable(bin: usize, len: usize, sample_rate: u32) -> (inside: bool)
    ensures
        inside == bin_detectable(bin as int, len as int, sample_rate as int),
{
    assert(bin * sample_rate <= 0xffff_ffff_ffff_ffff * 0xffff_ffff) by (nonlinear_arith)
        requires
            0 <= bin <= 0xffff_ffff_ffff_ffff,
            0 <= sample_rate <= 0xffff_ffff,
    ;
    assert(LOWEST_DETECTABLE_HZ * len <= HIGHEST_DETECTABLE_HZ * len <= 1000
        * 0xffff_ffff_ffff_ffff) by (nonlinear_arith)
        requires
            0 <= len <= 0xffff_ffff_ffff_ffff,
            LOWEST_DETECTABLE_HZ == 70,
            HIGHEST_DETECTABLE_HZ == 1000,
    ;
    let position: u128 = bin as u128 * (sample_rate as u128);
    let low: u128 = LOWEST_DETECTABLE_HZ as u128 * (len as u128);
    let high: u128 = HIGHEST_DETECTABLE_HZ as u128 * (len as u128);
    low <= position && position <= high
}

/// Computes the frequency of a bin in millihertz, rounded down.
pub fn bin_frequency(bin: usize, len: usize, sample_rate: u32) -> (freq_mhz: u64)
    requires
        bin < len,
    ensures
        freq_mhz == bin_frequency_mhz(bin as int, len as int, sample_rate as int),
{
    let scaled_rate: u128 = sample_rate as u128 * 1000;
    assert(bin * scaled_rate <= 0xffff_ffff_ffff_ffff * 0xffff_ffff * 1000) by (nonlinear_arith)
        requires
            0 <= bin <= 0xffff_ffff_ffff_ffff,
            0 <= scaled_rate <= 0xffff_ffff * 1000,
    ;
    assert(bin * sample_rate * 1000 == bin * scaled_rate) by (nonlinear_arith)
        requires
            scaled_rate == sample_rate * 1000,
    ;
    assert(bin * scaled_rate / (len as int) <= scaled_rate) by (nonlinear_arith)
        requires
            0 <= bin < len,
            0 <= scaled_rate,
    ;
    let position: u128 = bin as u128 * scaled_rate;
    (position / (len as u128)) as u64
}

/// Finds the peaks of a power spectrum.
///
/// Candidates are the strict local maxima above `threshold_ratio` of the
/// global maximum. They are accepted strongest first, each only if it is at
/// least `min_distance_mhz` away from every accepted one, until `max_peaks`
/// are accepted. If `min_peak_ratio` is given and the accepted bins are less
/// than that share of the candidates, nothing is returned. Otherwise the
/// accepted bins inside the detectable window are returned in ascending
/// order of frequency.
pub fn find_peaks(
    power: &Vec<u64>,
    sample_rate: u32,
    threshold_ratio: Ratio,
    max_peaks: usize,
    min_distance_mhz: u32,
    min_peak_ratio: Option<Ratio>,
) -> (peaks: Vec<Peak>)
    ensures
        peaks@ == detected_peaks(
            power@,
            (Detector {
                sample_rate,
                threshold_ratio,
                max_peaks,
                min_distance_mhz,
                min_peak_ratio,
            }),
        ),
        peaks@.len() <= max_peaks,
        forall|k: int|
            0 <= k < peaks@.len() ==> detectable((#[trigger] peaks@[k]).freq_mhz as int),
        forall|i: int, j: int|
            0 <= i < j < peaks@.len() ==> (#[trigger] peaks@[i]).freq_mhz + min_distance_mhz <= (
            #[trigger] peaks@[j]).freq_mhz,
        veto_strikes(
            power@,
            (Detector {
                sample_rate,
                threshold_ratio,
                max_peaks,
                min_distance_mhz,
                min_peak_ratio,
            }),
        ) ==> peaks@.len() == 0,
{
    let detector = Detector {
        sample_rate,
        threshold_ratio,
        max_peaks,
        min_distance_mhz,
        min_peak_ratio,
    };
    proof {
        lemma_peaks_bounded_detectable_spaced(power@, detector);
    }
    let len: usize = power.len();
    if len < 3 {
        proof {
            lemma_no_candidate_no_peak(power@, detector);
        }
        return Vec::new();
    }
    let max: u64 = spectrum_peak(power);
    let original_count: usize = count_candidates(power, threshold_ratio, max);

    let mut taken: Vec<usize> = Vec::new();
    let mut rounds: usize = 0;
    let mut settled: bool = false;
    assert(bins_of(taken@) =~= taken_bins(power@, detector, 0));
    while !settled && rounds < max_peaks
        invariant
            len == power@.len(),
            max == spectrum_max(power@, power@.len() as int),
            detector.max_peaks == max_peaks,
            rounds <= max_peaks,
            settled ==> bins_of(taken@) == accepted_bins(power@, detector),
            !settled ==> bins_of(taken@) == taken_bins(power@, detector, rounds as nat),
        decreases (max_peaks - rounds) + (if settled { 0int } else { 1int }),
    {
        match next_peak(power, &detector, max, &taken) {
            Some(bin) => {
                let ghost before = bins_of(taken@);
                taken.push(bin);
                rounds += 1;
                assert(bins_of(taken@) =~= before.push(bin as int));
            },
            None => {
                proof {
                    lemma_taken_settles(power@, detector, rounds as nat, max_peaks as nat);
                }
                settled = true;
            },
        }
    }

    let refused: bool = match min_peak_ratio {
        Some(ratio) => falls_short(taken.len(), ratio, original_count),
        None => false,
    };
    if refused {
        return Vec::new();
    }
    let mut peaks: Vec<Peak> = Vec::new();
    let mut bin: usize = 0;
    while bin < len
        invariant
            len == power@.len(),
            bin <= len,
            peaks@ == report(power@, sample_rate, bins_of(taken@), bin as int),
        decreases len - bin,
    {
        if is_taken(&taken, bin) && bin_is_detectable(bin, len, sample_rate) {
            let freq_mhz: u64 = bin_frequency(bin, len, sample_rate);
            peaks.push(Peak { freq_mhz, magnitude: power[bin] });
        }
        bin += 1;
    }
    peaks
}

} // verus!
