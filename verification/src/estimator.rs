//! Estimate of the fundamental frequency from a list of peaks.
//!
//! Every peak may be the fundamental itself or one of its first harmonics,
//! so each peak frequency is divided by 1, 2, ... up to the highest harmonic
//! considered. The quotients that are detectable form a pool; the largest
//! group of pool values that lie close to one of them gives the estimate,
//! provided it has at least one value for every peak.
//!
//! Pool values are held in sixtieths of a millihertz, the unit in which all
//! the quotients are whole numbers.

use vstd::prelude::*;
use crate::peaks::Peak;
use crate::estimator_laws::lemma_estimate_detectable;
use crate::units::{detectable, HIGHEST_DETECTABLE_HZ, LOWEST_DETECTABLE_HZ, MILLI};

verus! {

/// Highest harmonic considered.
pub const MAX_HARMONIC: u64 = 5;

/// Pool units in one millihertz: the least common multiple of the divisors
/// from one to the highest harmonic.
pub const POOL_SCALE: u64 = 60;

/// Largest distance, in millihertz, between a pool value and the centre of
/// a group that it belongs to.
pub const GROUP_THRESHOLD_MHZ: u64 = 2500;

/// The frequency `freq_mhz` divided by `divisor`, in pool units. For a
/// divisor from one to the highest harmonic nothing is rounded.
pub open spec fn subharmonic(freq_mhz: int, divisor: int) -> int {
    freq_mhz * (POOL_SCALE as int / divisor)
}

/// Whether a value in pool units lies inside the detectable window.
pub open spec fn pool_detectable(value: int) -> bool {
    LOWEST_DETECTABLE_HZ * MILLI * POOL_SCALE <= value <= HIGHEST_DETECTABLE_HZ * MILLI
        * POOL_SCALE
}

/// Whether two values in pool units are within the group threshold of each
/// other.
pub open spec fn near(a: int, b: int) -> bool {
    -(GROUP_THRESHOLD_MHZ * POOL_SCALE) <= a - b <= GROUP_THRESHOLD_MHZ * POOL_SCALE
}

/// The detectable quotients of one frequency by the divisors from one to
/// `upto`, in that order.
pub open spec fn subharmonics(freq_mhz: int, upto: int) -> Seq<int>
    decreases upto,
{
    if upto <= 0 {
        Seq::empty()
    } else {
        let rest = subharmonics(freq_mhz, upto - 1);
        if pool_detectable(subharmonic(freq_mhz, upto)) {
            rest.push(subharmonic(freq_mhz, upto))
        } else {
            rest
        }
    }
}

/// The pool of the first `upto` peaks: the detectable quotients of each, peak
/// by peak.
pub open spec fn pool_of(peaks: Seq<Peak>, upto: int) -> Seq<int>
    decreases upto,
{
    if upto <= 0 {
        Seq::empty()
    } else {
        pool_of(peaks, upto - 1) + subharmonics(
            peaks[upto - 1].freq_mhz as int,
            MAX_HARMONIC as int,
        )
    }
}

/// Number of values among the first `upto` of the pool that are near
/// `centre`.
pub open spec fn group_size(pool: Seq<int>, centre: int, upto: int) -> int
    decreases upto,
{
    if upto <= 0 {
        0
    } else {
        group_size(pool, centre, upto - 1) + if near(pool[upto - 1], centre) {
            1int
        } else {
            0int
        }
    }
}

/// Sum of the values among the first `upto` of the pool that are near
/// `centre`.
pub open spec fn group_sum(pool: Seq<int>, centre: int, upto: int) -> int
    decreases upto,
{
    if upto <= 0 {
        0
    } else {
        group_sum(pool, centre, upto - 1) + if near(pool[upto - 1], centre) {
            pool[upto - 1]
        } else {
            0int
        }
    }
}

/// Size of the group around the pool value at `index`.
pub open spec fn group_size_at(pool: Seq<int>, index: int) -> int {
    group_size(pool, pool[index], pool.len() as int)
}

/// Index, among the first `upto` pool values, of the one with the largest
/// group around it; of several such, the first.
pub open spec fn best_centre(pool: Seq<int>, upto: int) -> int
    decreases upto,
{
    if upto <= 1 {
        0
    } else {
        let rest = best_centre(pool, upto - 1);
        if group_size_at(pool, upto - 1) > group_size_at(pool, rest) {
            upto - 1
        } else {
            rest
        }
    }
}

/// The estimate for a pool and a number of peaks: the mean of the largest
/// group, in millihertz and rounded down, if that group has at least one
/// value for every peak.
pub open spec fn pool_estimate(pool: Seq<int>, peak_count: int) -> Option<int> {
    if pool.len() == 0 {
        None
    } else {
        let centre = pool[best_centre(pool, pool.len() as int)];
        let size = group_size(pool, centre, pool.len() as int);
        if size < peak_count {
            None
        } else {
            Some(group_sum(pool, centre, pool.len() as int) / (POOL_SCALE * size))
        }
    }
}

/// The fundamental frequency that a list of peaks stands for, in millihertz:
/// none for no peak, the peak's own frequency for a single peak, and the
/// estimate of the pool for more.
pub open spec fn fundamental_of(peaks: Seq<Peak>) -> Option<int> {
    if peaks.len() == 0 {
        None
    } else if peaks.len() == 1 {
        Some(peaks[0].freq_mhz as int)
    } else {
        pool_estimate(pool_of(peaks, peaks.len() as int), peaks.len() as int)
    }
}

/// What an optional frequency holds, as a mathematical integer.
pub open spec fn frequency_view(freq: Option<u64>) -> Option<int> {
    match freq {
        Some(f) => Some(f as int),
        None => None,
    }
}

/// The values of a pool as mathematical integers.
pub open spec fn pool_view(pool: Seq<u64>) -> Seq<int> {
    pool.map_values(|value: u64| value as int)
}

/// Divides a frequency by a divisor, in pool units.
pub fn pool_value(freq_mhz: u64, divisor: u64) -> (value: u128)
    requires
        1 <= divisor <= MAX_HARMONIC,
    ensures
        value == subharmonic(freq_mhz as int, divisor as int),
{
    let factor: u64 = POOL_SCALE / divisor;
    assert(freq_mhz * factor <= 0xffff_ffff_ffff_ffff * 60) by (nonlinear_arith)
        requires
            0 <= freq_mhz <= 0xffff_ffff_ffff_ffff,
            0 <= factor <= 60,
    ;
    freq_mhz as u128 * (factor as u128)
}

/// Tests whether a value in pool units lies inside the detectable window.
pub fn is_pool_detectable(value: u128) -> (inside: bool)
    ensures
        inside == pool_detectable(value as int),
{
    let low: u128 = (LOWEST_DETECTABLE_HZ * MILLI * POOL_SCALE) as u128;
    let high: u128 = (HIGHEST_DETECTABLE_HZ * MILLI * POOL_SCALE) as u128;
    low <= value && value <= high
}

/// Tests whether two pool values are within the group threshold of each
/// other.
pub fn is_near(a: u64, b: u64) -> (yes: bool)
    ensures
        yes == near(a as int, b as int),
{
    let distance: u64 = if a <= b {
        b - a
    } else {
        a - b
    };
    distance <= GROUP_THRESHOLD_MHZ * POOL_SCALE
}

/// Builds the pool of a list of peaks.
pub fn candidate_pool(peaks: &Vec<Peak>) -> (pool: Vec<u64>)
    ensures
        pool_view(pool@) == pool_of(peaks@, peaks@.len() as int),
        forall|k: int| 0 <= k < pool@.len() ==> pool_detectable(#[trigger] pool@[k] as int),
{
    let mut pool: Vec<u64> = Vec::new();
    let mut index: usize = 0;
    assert(pool_view(pool@) =~= pool_of(peaks@, 0));
    while index < peaks.len()
        invariant
            index <= peaks@.len(),
            pool_view(pool@) == pool_of(peaks@, index as int),
            forall|k: int| 0 <= k < pool@.len() ==> pool_detectable(#[trigger] pool@[k] as int),
        decreases peaks@.len() - index,
    {
        let freq_mhz: u64 = peaks[index].freq_mhz;
        let ghost before = pool_view(pool@);
        let mut divisor: u64 = 1;
        assert(pool_view(pool@) =~= before + subharmonics(freq_mhz as int, 0));
        while divisor <= MAX_HARMONIC
            invariant
                1 <= divisor <= MAX_HARMONIC + 1,
                pool_view(pool@) == before + subharmonics(freq_mhz as int, divisor - 1),
                forall|k: int|
                    0 <= k < pool@.len() ==> pool_detectable(#[trigger] pool@[k] as int),
            decreases MAX_HARMONIC + 1 - divisor,
        {
            let value: u128 = pool_value(freq_mhz, divisor);
            if is_pool_detectable(value) {
                let ghost earlier = pool_view(pool@);
                pool.push(value as u64);
                assert(pool_view(pool@) =~= earlier.push(value as int));
                assert(pool_view(pool@) =~= before + subharmonics(
                    freq_mhz as int,
                    divisor as int,
                ));
            }
            divisor += 1;
        }
        index += 1;
    }
    pool
}

/// Measures the group around `centre`: the number of pool values near it,
/// and their sum.
pub fn measure_group(pool: &Vec<u64>, centre: u64) -> (group: (usize, u128))
    requires
        forall|k: int| 0 <= k < pool@.len() ==> pool_detectable(#[trigger] pool@[k] as int),
    ensures
        group.0 == group_size(pool_view(pool@), centre as int, pool@.len() as int),
        group.1 == group_sum(pool_view(pool@), centre as int, pool@.len() as int),
        group.1 <= group.0 * (HIGHEST_DETECTABLE_HZ * MILLI * POOL_SCALE),
{
    let mut size: usize = 0;
    let mut sum: u128 = 0;
    let mut index: usize = 0;
    while index < pool.len()
        invariant
            index <= pool@.len(),
            forall|k: int| 0 <= k < pool@.len() ==> pool_detectable(#[trigger] pool@[k] as int),
            size <= index,
            size == group_size(pool_view(pool@), centre as int, index as int),
            sum == group_sum(pool_view(pool@), centre as int, index as int),
            sum <= size * 60_000_000,
        decreases pool@.len() - index,
    {
        assert(pool_view(pool@)[index as int] == pool@[index as int] as int);
        assert(pool_detectable(pool@[index as int] as int));
        if is_near(pool[index], centre) {
            size += 1;
            sum += pool[index] as u128;
        }
        index += 1;
    }
    assert(HIGHEST_DETECTABLE_HZ * MILLI * POOL_SCALE == 60_000_000) by (nonlinear_arith)
        requires
            HIGHEST_DETECTABLE_HZ == 1000,
            MILLI == 1000,
            POOL_SCALE == 60,
    ;
    (size, sum)
}

/// Estimates the fundamental frequency that a list of peaks stands for.
///
/// No peak gives no estimate, and a single peak gives its own frequency.
/// For more peaks, the estimate is the mean of the largest group of pool
/// values near one of them, in millihertz and rounded down; there is none
/// when that group has fewer values than there are peaks.
pub fn analyse_peaks(peaks: &Vec<Peak>) -> (fundamental: Option<u64>)
    ensures
        frequency_view(fundamental) == fundamental_of(peaks@),
        peaks@.len() == 0 ==> fundamental is None,
        peaks@.len() == 1 ==> fundamental == Some(peaks@[0].freq_mhz),
        peaks@.len() >= 2 && fundamental is Some ==> detectable(fundamental->0 as int),
{
    proof {
        if peaks@.len() >= 2 && fundamental_of(peaks@) is Some {
            lemma_estimate_detectable(peaks@);
        }
    }
    if peaks.len() == 0 {
        return None;
    }
    if peaks.len() == 1 {
        return Some(peaks[0].freq_mhz);
    }
    let pool: Vec<u64> = candidate_pool(peaks);
    if pool.len() == 0 {
        return None;
    }
    let ghost values = pool_view(pool@);
    let mut best: usize = 0;
    let mut best_group: (usize, u128) = measure_group(&pool, pool[0]);
    let mut index: usize = 1;
    while index < pool.len()
        invariant
            1 <= index <= pool@.len(),
            values == pool_view(pool@),
            forall|k: int| 0 <= k < pool@.len() ==> pool_detectable(#[trigger] pool@[k] as int),
            best < index,
            best == best_centre(values, index as int),
            best_group.0 == group_size_at(values, best as int),
            best_group.1 == group_sum(values, values[best as int], pool@.len() as int),
            best_group.1 <= best_group.0 * (HIGHEST_DETECTABLE_HZ * MILLI * POOL_SCALE),
        decreases pool@.len() - index,
    {
        let group: (usize, u128) = measure_group(&pool, pool[index]);
        if group.0 > best_group.0 {
            best = index;
            best_group = group;
        }
        index += 1;
    }
    if best_group.0 < peaks.len() {
        return None;
    }
    let size: u128 = best_group.0 as u128;
    let divisor: u128 = POOL_SCALE as u128 * size;
    assert(best_group.1 as int / (divisor as int) <= HIGHEST_DETECTABLE_HZ * MILLI)
        by (nonlinear_arith)
        requires
            best_group.1 <= size * (HIGHEST_DETECTABLE_HZ * MILLI * POOL_SCALE),
            divisor == POOL_SCALE * size,
            size > 0,
            POOL_SCALE == 60,
    ;
    Some((best_group.1 / divisor) as u64)
}

} // verus!
