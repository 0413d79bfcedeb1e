//! What holds of the peaks that the detector finds.

use vstd::prelude::*;
use vstd::seq_lib::seq_to_set_is_finite;
use vstd::set_lib::lemma_len_subset;
use crate::peaks::{
    accepted_bins, bin_detectable, bin_distance, bin_frequency_mhz, candidate_count, clear_of,
    detected_peaks, eligible, veto_strikes, is_candidate, outranks, peak_at, report, reported,
    spectrum_max, strongest_eligible, taken_bins, too_close, Detector, Peak, Ratio,
};
use crate::units::detectable;

verus! {

/// Once a round finds no eligible bin, later rounds take nothing more.
pub proof fn lemma_taken_settles(power: Seq<u64>, detector: Detector, settled: nat, rounds: nat)
    requires
        settled <= rounds,
        strongest_eligible(
            power,
            detector,
            taken_bins(power, detector, settled),
            power.len() as int,
        ) is None,
    ensures
        taken_bins(power, detector, rounds) == taken_bins(power, detector, settled),
    decreases rounds,
{
    if rounds > settled {
        lemma_taken_settles(power, detector, settled, (rounds - 1) as nat);
    }
}

/// Nothing is reported when no bin was accepted.
pub proof fn lemma_report_of_none(power: Seq<u64>, sample_rate: u32, upto: int)
    ensures
        report(power, sample_rate, Seq::empty(), upto) == Seq::<Peak>::empty(),
    decreases upto,
{
    if upto > 0 {
        lemma_report_of_none(power, sample_rate, upto - 1);
    }
}

/// No bin is eligible where there is no candidate.
pub proof fn lemma_no_candidate_none_eligible(
    power: Seq<u64>,
    detector: Detector,
    taken: Seq<int>,
    upto: int,
)
    requires
        forall|bin: int| !is_candidate(power, detector.threshold_ratio, bin),
    ensures
        strongest_eligible(power, detector, taken, upto) is None,
    decreases upto,
{
    if upto > 0 {
        lemma_no_candidate_none_eligible(power, detector, taken, upto - 1);
    }
}

/// A spectrum without candidates has no peaks.
pub proof fn lemma_no_candidate_no_peak(power: Seq<u64>, detector: Detector)
    requires
        forall|bin: int| !is_candidate(power, detector.threshold_ratio, bin),
    ensures
        accepted_bins(power, detector) == Seq::<int>::empty(),
        detected_peaks(power, detector) == Seq::<Peak>::empty(),
{
    lemma_no_candidate_none_eligible(power, detector, Seq::empty(), power.len() as int);
    lemma_taken_settles(power, detector, 0, detector.max_peaks as nat);
    lemma_report_of_none(power, detector.sample_rate, power.len() as int);
}

/// The strongest eligible bin is eligible, and outranks every other eligible
/// bin; where there is none, no bin is eligible.
pub proof fn lemma_strongest_eligible(
    power: Seq<u64>,
    detector: Detector,
    taken: Seq<int>,
    upto: int,
)
    ensures
        match strongest_eligible(power, detector, taken, upto) {
            Some(bin) => {
                &&& 0 <= bin < upto
                &&& eligible(power, detector, taken, bin)
                &&& forall|other: int|
                    0 <= other < upto && other != bin && #[trigger] eligible(
                        power,
                        detector,
                        taken,
                        other,
                    ) ==> outranks(power, bin, other)
            },
            None => forall|other: int|
                0 <= other < upto ==> !#[trigger] eligible(power, detector, taken, other),
        },
    decreases upto,
{
    if upto > 0 {
        lemma_strongest_eligible(power, detector, taken, upto - 1);
    }
}

/// Whether every bin of `taken` was the strongest eligible one when the bins
/// before it had been taken.
pub open spec fn taken_in_turn(power: Seq<u64>, detector: Detector, taken: Seq<int>) -> bool {
    forall|k: int|
        0 <= k < taken.len() ==> strongest_eligible(
            power,
            detector,
            #[trigger] taken.subrange(0, k),
            power.len() as int,
        ) == Some(taken[k])
}

/// The bins taken in any number of rounds were taken in turn, and there are
/// no more of them than rounds.
pub proof fn lemma_taken_in_turn(power: Seq<u64>, detector: Detector, rounds: nat)
    ensures
        taken_in_turn(power, detector, taken_bins(power, detector, rounds)),
        taken_bins(power, detector, rounds).len() <= rounds,
    decreases rounds,
{
    let taken = taken_bins(power, detector, rounds);
    if rounds > 0 {
        let before = taken_bins(power, detector, (rounds - 1) as nat);
        lemma_taken_in_turn(power, detector, (rounds - 1) as nat);
        assert forall|k: int| 0 <= k < taken.len() implies strongest_eligible(
            power,
            detector,
            #[trigger] taken.subrange(0, k),
            power.len() as int,
        ) == Some(taken[k]) by {
            if k < before.len() {
                assert(taken.subrange(0, k) =~= before.subrange(0, k));
            } else {
                assert(taken.subrange(0, k) =~= before);
            }
        }
    }
}

/// Of two bins taken in turn, the earlier outranks the later, they are not
/// the same bin, and they keep the minimum distance.
pub proof fn lemma_turns_ranked_and_spaced(
    power: Seq<u64>,
    detector: Detector,
    taken: Seq<int>,
    i: int,
    j: int,
)
    requires
        taken_in_turn(power, detector, taken),
        0 <= i < j < taken.len(),
    ensures
        taken[i] != taken[j],
        outranks(power, taken[i], taken[j]),
        !too_close(
            taken[i],
            taken[j],
            power.len() as int,
            detector.sample_rate as int,
            detector.min_distance_mhz as int,
        ),
{
    let upto = power.len() as int;
    let until_i = taken.subrange(0, i);
    let until_j = taken.subrange(0, j);
    lemma_strongest_eligible(power, detector, until_i, upto);
    lemma_strongest_eligible(power, detector, until_j, upto);
    assert(strongest_eligible(power, detector, until_j, upto) == Some(taken[j]));
    assert(strongest_eligible(power, detector, until_i, upto) == Some(taken[i]));
    assert(until_j[i] == taken[i]);
    assert(until_j.contains(taken[i]));
    assert(eligible(power, detector, until_i, taken[j])) by {
        assert forall|k: int| 0 <= k < until_i.len() implies !too_close(
            #[trigger] until_i[k],
            taken[j],
            upto,
            detector.sample_rate as int,
            detector.min_distance_mhz as int,
        ) by {
            assert(until_i[k] == until_j[k]);
        }
        if until_i.contains(taken[j]) {
            let k = choose|k: int| 0 <= k < until_i.len() && until_i[k] == taken[j];
            assert(until_j[k] == taken[j]);
        }
    }
}

/// Every accepted bin is a candidate.
pub proof fn lemma_accepted_are_candidates(power: Seq<u64>, detector: Detector, k: int)
    requires
        0 <= k < accepted_bins(power, detector).len(),
    ensures
        is_candidate(power, detector.threshold_ratio, accepted_bins(power, detector)[k]),
        0 < accepted_bins(power, detector)[k] < power.len() - 1,
{
    let accepted = accepted_bins(power, detector);
    lemma_taken_in_turn(power, detector, detector.max_peaks as nat);
    lemma_strongest_eligible(power, detector, accepted.subrange(0, k), power.len() as int);
}

/// No more than `max_peaks` bins are accepted, and any two of them keep the
/// minimum distance: their distance in bins, times the sample rate, is at
/// least the minimum distance times the number of bins.
pub proof fn lemma_accepted_bounded_and_spaced(power: Seq<u64>, detector: Detector)
    ensures
        accepted_bins(power, detector).len() <= detector.max_peaks,
        accepted_bins(power, detector).no_duplicates(),
        forall|i: int, j: int|
            0 <= i < accepted_bins(power, detector).len() && 0 <= j < accepted_bins(
                power,
                detector,
            ).len() && i != j ==> bin_distance(
                #[trigger] accepted_bins(power, detector)[i],
                #[trigger] accepted_bins(power, detector)[j],
            ) * detector.sample_rate * 1000 >= detector.min_distance_mhz * power.len(),
{
    let accepted = accepted_bins(power, detector);
    lemma_taken_in_turn(power, detector, detector.max_peaks as nat);
    assert forall|i: int, j: int|
        0 <= i < accepted.len() && 0 <= j < accepted.len() && i != j implies
        accepted[i] != accepted[j] && bin_distance(#[trigger] accepted[i], #[trigger] accepted[j])
        * detector.sample_rate * 1000 >= detector.min_distance_mhz * power.len() by {
        if i < j {
            lemma_turns_ranked_and_spaced(power, detector, accepted, i, j);
        } else {
            lemma_turns_ranked_and_spaced(power, detector, accepted, j, i);
        }
    }
}

/// The reported bins among the first `upto` bins, in ascending order.
pub open spec fn reported_bins(
    power: Seq<u64>,
    sample_rate: u32,
    accepted: Seq<int>,
    upto: int,
) -> Seq<int>
    decreases upto,
{
    if upto <= 0 {
        Seq::empty()
    } else {
        let rest = reported_bins(power, sample_rate, accepted, upto - 1);
        if reported(power, sample_rate, accepted, upto - 1) {
            rest.push(upto - 1)
        } else {
            rest
        }
    }
}

/// The report holds the peaks of the reported bins, one for each and in the
/// same order; the reported bins ascend.
pub proof fn lemma_report_follows_bins(
    power: Seq<u64>,
    sample_rate: u32,
    accepted: Seq<int>,
    upto: int,
)
    ensures
        report(power, sample_rate, accepted, upto).len() == reported_bins(
            power,
            sample_rate,
            accepted,
            upto,
        ).len(),
        forall|k: int|
            0 <= k < reported_bins(power, sample_rate, accepted, upto).len() ==> {
                let bin = #[trigger] reported_bins(power, sample_rate, accepted, upto)[k];
                &&& 0 <= bin < upto
                &&& reported(power, sample_rate, accepted, bin)
                &&& report(power, sample_rate, accepted, upto)[k] == peak_at(
                    power,
                    sample_rate,
                    bin,
                )
            },
        forall|i: int, j: int|
            0 <= i < j < reported_bins(power, sample_rate, accepted, upto).len()
                ==> #[trigger] reported_bins(power, sample_rate, accepted, upto)[i]
                < #[trigger] reported_bins(power, sample_rate, accepted, upto)[j],
    decreases upto,
{
    if upto > 0 {
        lemma_report_follows_bins(power, sample_rate, accepted, upto - 1);
    }
}

/// A quotient lies between two bounds when the dividend lies between their
/// multiples of the divisor.
pub proof fn lemma_quotient_between(low: int, x: int, high: int, divisor: int)
    requires
        divisor > 0,
        low * divisor <= x <= high * divisor,
    ensures
        low <= x / divisor <= high,
{
    assert(low <= x / divisor) by (nonlinear_arith)
        requires
            divisor > 0,
            low * divisor <= x,
    ;
    assert(x / divisor <= high) by (nonlinear_arith)
        requires
            divisor > 0,
            x <= high * divisor,
    ;
}

/// Two quotients are at least `gap` apart when the dividends are at least
/// `gap` times the divisor apart.
pub proof fn lemma_quotients_apart(x: int, y: int, gap: int, divisor: int)
    requires
        divisor > 0,
        x + gap * divisor <= y,
    ensures
        x / divisor + gap <= y / divisor,
{
    assert(x / divisor + gap <= y / divisor) by (nonlinear_arith)
        requires
            divisor > 0,
            x + gap * divisor <= y,
    ;
}

/// The frequency of a detectable bin lies inside the detectable window.
pub proof fn lemma_detectable_bin_frequency(bin: int, len: int, sample_rate: int)
    requires
        len > 0,
        bin_detectable(bin, len, sample_rate),
    ensures
        detectable(bin_frequency_mhz(bin, len, sample_rate)),
{
    assert(70000 * len <= bin * sample_rate * 1000 <= 1000000 * len) by (nonlinear_arith)
        requires
            70 * len <= bin * sample_rate <= 1000 * len,
    ;
    lemma_quotient_between(70000, bin * sample_rate * 1000, 1000000, len);
}

/// What holds of the peaks that the detector finds, whatever the spectrum
/// and the parameters:
/// there are no more than `max_peaks` of them;
/// the frequency of each lies inside the detectable window;
/// and of any two, the later one is at least `min_distance_mhz` above the
/// earlier one, so that they ascend in frequency.
pub proof fn lemma_peaks_bounded_detectable_spaced(power: Seq<u64>, detector: Detector)
    ensures
        detected_peaks(power, detector).len() <= detector.max_peaks,
        forall|k: int|
            0 <= k < detected_peaks(power, detector).len() ==> detectable(
                (#[trigger] detected_peaks(power, detector)[k]).freq_mhz as int,
            ),
        forall|i: int, j: int|
            0 <= i < j < detected_peaks(power, detector).len() ==> (#[trigger] detected_peaks(
                power,
                detector,
            )[i]).freq_mhz + detector.min_distance_mhz <= (#[trigger] detected_peaks(
                power,
                detector,
            )[j]).freq_mhz,
{
    let peaks = detected_peaks(power, detector);
    if !veto_strikes(power, detector) {
        let len = power.len() as int;
        let rate = detector.sample_rate;
        let accepted = accepted_bins(power, detector);
        let bins = reported_bins(power, rate, accepted, len);
        lemma_report_follows_bins(power, rate, accepted, len);
        lemma_accepted_bounded_and_spaced(power, detector);
        assert(peaks.len() <= detector.max_peaks) by {
            assert(bins.no_duplicates());
            bins.unique_seq_to_set();
            accepted.lemma_cardinality_of_set();
            seq_to_set_is_finite(accepted);
            assert(bins.to_set().subset_of(accepted.to_set())) by {
                assert forall|bin: int| bins.to_set().contains(bin) implies accepted.to_set()
                    .contains(bin) by {
                    let k = choose|k: int| 0 <= k < bins.len() && bins[k] == bin;
                    assert(reported(power, rate, accepted, bins[k]));
                }
            }
            lemma_len_subset(bins.to_set(), accepted.to_set());
        }
        assert forall|k: int| 0 <= k < peaks.len() implies detectable(
            (#[trigger] peaks[k]).freq_mhz as int,
        ) by {
            let bin = bins[k];
            lemma_detectable_bin_frequency(bin, len, rate as int);
        }
        assert forall|i: int, j: int|
            0 <= i < j < peaks.len() implies (#[trigger] peaks[i]).freq_mhz
            + detector.min_distance_mhz <= (#[trigger] peaks[j]).freq_mhz by {
            let low = bins[i];
            let high = bins[j];
            lemma_detectable_bin_frequency(low, len, rate as int);
            lemma_detectable_bin_frequency(high, len, rate as int);
            assert(accepted.contains(low) && accepted.contains(high));
            let a = choose|a: int| 0 <= a < accepted.len() && accepted[a] == low;
            let b = choose|b: int| 0 <= b < accepted.len() && accepted[b] == high;
            assert(bin_distance(accepted[a], accepted[b]) * rate * 1000
                >= detector.min_distance_mhz * len);
            assert(low * rate * 1000 + detector.min_distance_mhz * len <= high * rate * 1000)
                by (nonlinear_arith)
                requires
                    low < high,
                    (high - low) * rate * 1000 >= detector.min_distance_mhz * len,
            ;
            lemma_quotients_apart(
                low * rate * 1000,
                high * rate * 1000,
                detector.min_distance_mhz as int,
                len,
            );
        }
    }
}

/// Where the quality veto is in use and the accepted bins are less than its
/// share of the candidates, the detector finds no peak, whatever the
/// spectrum holds otherwise.
pub proof fn lemma_veto_leaves_no_peak(power: Seq<u64>, detector: Detector, ratio: Ratio)
    requires
        detector.min_peak_ratio == Some(ratio),
        accepted_bins(power, detector).len() * ratio.den < ratio.num * candidate_count(
            power,
            detector.threshold_ratio,
            power.len() as int,
        ),
    ensures
        detected_peaks(power, detector).len() == 0,
{
}

/// Where fewer bins were taken than there were rounds, no bin is eligible
/// any more.
pub proof fn lemma_short_of_rounds_settled(power: Seq<u64>, detector: Detector, rounds: nat)
    requires
        taken_bins(power, detector, rounds).len() < rounds,
    ensures
        strongest_eligible(
            power,
            detector,
            taken_bins(power, detector, rounds),
            power.len() as int,
        ) is None,
    decreases rounds,
{
    if rounds > 0 {
        let before = taken_bins(power, detector, (rounds - 1) as nat);
        lemma_taken_in_turn(power, detector, (rounds - 1) as nat);
        if strongest_eligible(power, detector, before, power.len() as int) is Some {
            lemma_short_of_rounds_settled(power, detector, (rounds - 1) as nat);
        }
    }
}

/// Among the first `upto` bins of `taken`, if any is too close to `bin`,
/// there is a first one.
pub proof fn lemma_first_too_close(
    power: Seq<u64>,
    detector: Detector,
    taken: Seq<int>,
    bin: int,
    upto: int,
) -> (first: int)
    requires
        0 <= upto <= taken.len(),
        !clear_of(power, detector, taken.subrange(0, upto), bin),
    ensures
        0 <= first < upto,
        too_close(
            taken[first],
            bin,
            power.len() as int,
            detector.sample_rate as int,
            detector.min_distance_mhz as int,
        ),
        clear_of(power, detector, taken.subrange(0, first), bin),
    decreases upto,
{
    let prefix = taken.subrange(0, upto);
    let k = choose|k: int|
        0 <= k < prefix.len() && too_close(
            #[trigger] prefix[k],
            bin,
            power.len() as int,
            detector.sample_rate as int,
            detector.min_distance_mhz as int,
        );
    assert(prefix[k] == taken[k]);
    if clear_of(power, detector, taken.subrange(0, k), bin) {
        k
    } else {
        lemma_first_too_close(power, detector, taken, bin, k)
    }
}

/// The accepted bins are those that a walk through the candidates, the
/// strongest first, accepts: a candidate that was not accepted is too close
/// to an accepted bin that outranks it, or `max_peaks` bins that all outrank
/// it were accepted.
pub proof fn lemma_rejected_candidate(power: Seq<u64>, detector: Detector, bin: int)
    requires
        is_candidate(power, detector.threshold_ratio, bin),
        !accepted_bins(power, detector).contains(bin),
    ensures
        ({
            ||| exists|k: int|
                0 <= k < accepted_bins(power, detector).len() && outranks(
                    power,
                    #[trigger] accepted_bins(power, detector)[k],
                    bin,
                ) && too_close(
                    accepted_bins(power, detector)[k],
                    bin,
                    power.len() as int,
                    detector.sample_rate as int,
                    detector.min_distance_mhz as int,
                )
            ||| accepted_bins(power, detector).len() == detector.max_peaks && forall|k: int|
                0 <= k < accepted_bins(power, detector).len() ==> outranks(
                    power,
                    #[trigger] accepted_bins(power, detector)[k],
                    bin,
                )
        }),
{
    let accepted = accepted_bins(power, detector);
    let upto = power.len() as int;
    lemma_taken_in_turn(power, detector, detector.max_peaks as nat);
    assert(accepted.subrange(0, accepted.len() as int) =~= accepted);
    if !clear_of(power, detector, accepted, bin) {
        let first = lemma_first_too_close(power, detector, accepted, bin, accepted.len() as int);
        let earlier = accepted.subrange(0, first);
        lemma_strongest_eligible(power, detector, earlier, upto);
        assert(!earlier.contains(bin)) by {
            if earlier.contains(bin) {
                let k = choose|k: int| 0 <= k < earlier.len() && earlier[k] == bin;
                assert(accepted[k] == bin);
            }
        }
        assert(eligible(power, detector, earlier, bin));
        assert(accepted[first] != bin);
        assert(outranks(power, accepted[first], bin));
    } else {
        assert(eligible(power, detector, accepted, bin));
        lemma_strongest_eligible(power, detector, accepted, upto);
        if accepted.len() < detector.max_peaks {
            lemma_short_of_rounds_settled(power, detector, detector.max_peaks as nat);
        }
        assert forall|k: int| 0 <= k < accepted.len() implies outranks(
            power,
            #[trigger] accepted[k],
            bin,
        ) by {
            let earlier = accepted.subrange(0, k);
            lemma_strongest_eligible(power, detector, earlier, upto);
            assert(!earlier.contains(bin)) by {
                if earlier.contains(bin) {
                    let j = choose|j: int| 0 <= j < earlier.len() && earlier[j] == bin;
                    assert(accepted[j] == bin);
                }
            }
            assert(clear_of(power, detector, earlier, bin)) by {
                assert forall|j: int| 0 <= j < earlier.len() implies !too_close(
                    #[trigger] earlier[j],
                    bin,
                    upto,
                    detector.sample_rate as int,
                    detector.min_distance_mhz as int,
                ) by {
                    assert(earlier[j] == accepted[j]);
                }
            }
            assert(eligible(power, detector, earlier, bin));
            assert(strongest_eligible(power, detector, earlier, upto) == Some(accepted[k]));
            assert(accepted[k] != bin);
        }
    }
}

/// The accepted bins stand strongest first: of two of them, the earlier one
/// outranks the later one.
pub proof fn lemma_accepted_strongest_first(power: Seq<u64>, detector: Detector, i: int, j: int)
    requires
        0 <= i < j < accepted_bins(power, detector).len(),
    ensures
        outranks(power, accepted_bins(power, detector)[i], accepted_bins(power, detector)[j]),
{
    lemma_taken_in_turn(power, detector, detector.max_peaks as nat);
    lemma_turns_ranked_and_spaced(power, detector, accepted_bins(power, detector), i, j);
}

/// The global maximum is at least every magnitude among the first `upto`
/// bins, and is one of them unless there is none.
pub proof fn lemma_spectrum_max_is_largest(power: Seq<u64>, upto: int)
    requires
        0 <= upto <= power.len(),
    ensures
        forall|bin: int| 0 <= bin < upto ==> #[trigger] power[bin] <= spectrum_max(power, upto),
        upto > 0 ==> exists|bin: int|
            0 <= bin < upto && #[trigger] power[bin] == spectrum_max(power, upto),
        upto == 0 ==> spectrum_max(power, upto) == 0,
    decreases upto,
{
    if upto > 0 {
        lemma_spectrum_max_is_largest(power, upto - 1);
        if upto == 1 {
            assert(power[0] == spectrum_max(power, upto));
        } else {
            let before = choose|bin: int|
                0 <= bin < upto - 1 && #[trigger] power[bin] == spectrum_max(power, upto - 1);
            if power[upto - 1] > spectrum_max(power, upto - 1) {
                assert(power[upto - 1] == spectrum_max(power, upto));
            } else {
                assert(power[before] == spectrum_max(power, upto));
            }
        }
    }
}

/// The candidates among the first `upto` bins, as a set.
pub open spec fn candidate_set(power: Seq<u64>, threshold: Ratio, upto: int) -> Set<int> {
    Set::new(|bin: int| 0 <= bin < upto && is_candidate(power, threshold, bin))
}

/// The count of the candidates among the first `upto` bins is the size of
/// their set, and no more than `upto`.
pub proof fn lemma_candidate_count_is_set_size(power: Seq<u64>, threshold: Ratio, upto: int)
    requires
        upto >= 0,
    ensures
        candidate_set(power, threshold, upto).finite(),
        candidate_set(power, threshold, upto).len() == candidate_count(power, threshold, upto),
        0 <= candidate_count(power, threshold, upto) <= upto,
    decreases upto,
{
    if upto > 0 {
        lemma_candidate_count_is_set_size(power, threshold, upto - 1);
        let before = candidate_set(power, threshold, upto - 1);
        if is_candidate(power, threshold, upto - 1) {
            assert(candidate_set(power, threshold, upto) =~= before.insert(upto - 1));
        } else {
            assert(candidate_set(power, threshold, upto) =~= before);
        }
    } else {
        assert(candidate_set(power, threshold, upto) =~= Set::<int>::empty());
    }
}

/// No more bins are accepted than there are candidates, so that the share
/// which the quality veto looks at is never more than the whole.
pub proof fn lemma_accepted_no_more_than_candidates(power: Seq<u64>, detector: Detector)
    ensures
        accepted_bins(power, detector).len() <= candidate_count(
            power,
            detector.threshold_ratio,
            power.len() as int,
        ),
{
    let accepted = accepted_bins(power, detector);
    let candidates = candidate_set(power, detector.threshold_ratio, power.len() as int);
    lemma_candidate_count_is_set_size(power, detector.threshold_ratio, power.len() as int);
    lemma_accepted_bounded_and_spaced(power, detector);
    accepted.unique_seq_to_set();
    assert(accepted.to_set().subset_of(candidates)) by {
        assert forall|bin: int| accepted.to_set().contains(bin) implies candidates.contains(
            bin,
        ) by {
            let k = choose|k: int| 0 <= k < accepted.len() && accepted[k] == bin;
            lemma_accepted_are_candidates(power, detector, k);
        }
    }
    lemma_len_subset(accepted.to_set(), candidates);
}

/// A spectrum of fewer than three bins has no peaks.
pub proof fn lemma_short_spectrum_has_no_peak(power: Seq<u64>, detector: Detector)
    requires
        power.len() < 3,
    ensures
        detected_peaks(power, detector).len() == 0,
{
    lemma_no_candidate_no_peak(power, detector);
}

/// A spectrum in which no bin is greater than the bin before it has no
/// peaks; so has one in which all magnitudes are equal.
pub proof fn lemma_flat_spectrum_has_no_peak(power: Seq<u64>, detector: Detector)
    requires
        forall|bin: int| 0 < bin < power.len() ==> #[trigger] power[bin] <= power[bin - 1],
    ensures
        detected_peaks(power, detector).len() == 0,
{
    lemma_no_candidate_no_peak(power, detector);
}

/// Where `bin` is the only candidate, it is counted once the count has
/// passed it.
pub proof fn lemma_count_of_single_candidate(
    power: Seq<u64>,
    threshold: Ratio,
    bin: int,
    upto: int,
)
    requires
        is_candidate(power, threshold, bin),
        forall|other: int| other != bin ==> !is_candidate(power, threshold, other),
    ensures
        candidate_count(power, threshold, upto) == if upto > bin {
            1int
        } else {
            0int
        },
    decreases upto,
{
    if upto > 0 {
        lemma_count_of_single_candidate(power, threshold, bin, upto - 1);
    }
}

/// Where `bin` is the only accepted bin, the report holds its peak once it
/// has passed the bin, if the bin is detectable, and nothing else.
pub proof fn lemma_report_of_single_bin(power: Seq<u64>, sample_rate: u32, bin: int, upto: int)
    ensures
        report(power, sample_rate, seq![bin], upto) == if upto > bin && bin >= 0 && bin_detectable(
            bin,
            power.len() as int,
            sample_rate as int,
        ) {
            seq![peak_at(power, sample_rate, bin)]
        } else {
            Seq::<Peak>::empty()
        },
    decreases upto,
{
    let accepted = seq![bin];
    if upto > 0 {
        lemma_report_of_single_bin(power, sample_rate, bin, upto - 1);
        assert(accepted[0] == bin);
        assert(accepted.contains(bin));
        assert(forall|other: int| accepted.contains(other) ==> other == bin);
        assert(reported(power, sample_rate, accepted, upto - 1) <==> (upto - 1 == bin
            && bin_detectable(bin, power.len() as int, sample_rate as int)));
        if upto - 1 == bin && bin_detectable(bin, power.len() as int, sample_rate as int) {
            assert(report(power, sample_rate, accepted, upto) =~= seq![
                peak_at(power, sample_rate, bin),
            ]);
        }
    }
}

/// A spectrum with a single candidate: where at least one peak may be taken
/// and the quality veto, if in use, asks for no more than all candidates,
/// the candidate is the one accepted bin, and its peak is the one peak
/// found if it is detectable.
pub proof fn lemma_single_candidate(power: Seq<u64>, detector: Detector, bin: int)
    requires
        is_candidate(power, detector.threshold_ratio, bin),
        forall|other: int| other != bin ==> !is_candidate(power, detector.threshold_ratio, other),
        detector.max_peaks >= 1,
        match detector.min_peak_ratio {
            Some(ratio) => ratio.num <= ratio.den,
            None => true,
        },
    ensures
        accepted_bins(power, detector) == seq![bin],
        detected_peaks(power, detector) == if bin_detectable(
            bin,
            power.len() as int,
            detector.sample_rate as int,
        ) {
            seq![peak_at(power, detector.sample_rate, bin)]
        } else {
            Seq::<Peak>::empty()
        },
{
    let upto = power.len() as int;
    let none = Seq::<int>::empty();
    let one = seq![bin];
    lemma_strongest_eligible(power, detector, none, upto);
    assert(eligible(power, detector, none, bin));
    assert(strongest_eligible(power, detector, none, upto) == Some(bin));
    assert(taken_bins(power, detector, 0) == none);
    assert(taken_bins(power, detector, 1) =~= one);
    lemma_strongest_eligible(power, detector, one, upto);
    assert(one[0] == bin);
    assert(one.contains(bin));
    assert(strongest_eligible(power, detector, one, upto) is None);
    lemma_taken_settles(power, detector, 1, detector.max_peaks as nat);
    lemma_count_of_single_candidate(power, detector.threshold_ratio, bin, upto);
    lemma_report_of_single_bin(power, detector.sample_rate, bin, upto);
    assert(!veto_strikes(power, detector));
}

} // verus!
