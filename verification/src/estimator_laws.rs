//! What holds of the estimate of the fundamental frequency.

use vstd::prelude::*;
use crate::estimator::{
    best_centre, fundamental_of, group_size, group_size_at, group_sum, near, pool_detectable,
    pool_of, subharmonics, GROUP_THRESHOLD_MHZ, MAX_HARMONIC, POOL_SCALE,
};
use crate::peak_laws::lemma_quotient_between;
use crate::peaks::Peak;
use crate::units::{detectable, HIGHEST_DETECTABLE_HZ, LOWEST_DETECTABLE_HZ, MILLI};

verus! {

/// Every quotient kept for one frequency is detectable, and there are no
/// more of them than divisors.
pub proof fn lemma_subharmonics_detectable(freq_mhz: int, upto: int)
    ensures
        subharmonics(freq_mhz, upto).len() <= if upto >= 0 {
            upto
        } else {
            0
        },
        forall|k: int|
            0 <= k < subharmonics(freq_mhz, upto).len() ==> pool_detectable(
                #[trigger] subharmonics(freq_mhz, upto)[k],
            ),
    decreases upto,
{
    if upto > 0 {
        lemma_subharmonics_detectable(freq_mhz, upto - 1);
    }
}

/// Every value of a pool is detectable, and a pool holds no more values
/// than the highest harmonic times the number of peaks.
pub proof fn lemma_pool_detectable(peaks: Seq<Peak>, upto: int)
    ensures
        pool_of(peaks, upto).len() <= if upto >= 0 {
            MAX_HARMONIC * upto
        } else {
            0
        },
        forall|k: int|
            0 <= k < pool_of(peaks, upto).len() ==> pool_detectable(
                #[trigger] pool_of(peaks, upto)[k],
            ),
    decreases upto,
{
    if upto > 0 {
        lemma_pool_detectable(peaks, upto - 1);
        lemma_subharmonics_detectable(peaks[upto - 1].freq_mhz as int, MAX_HARMONIC as int);
    }
}

/// A group has no more values than the part of the pool it is taken from,
/// and the sum of a group of detectable values lies between the edges of
/// the window, each times the size of the group.
pub proof fn lemma_group_bounds(pool: Seq<int>, centre: int, upto: int)
    requires
        0 <= upto <= pool.len(),
        forall|k: int| 0 <= k < pool.len() ==> pool_detectable(#[trigger] pool[k]),
    ensures
        0 <= group_size(pool, centre, upto) <= upto,
        LOWEST_DETECTABLE_HZ * MILLI * POOL_SCALE * group_size(pool, centre, upto) <= group_sum(
            pool,
            centre,
            upto,
        ) <= HIGHEST_DETECTABLE_HZ * MILLI * POOL_SCALE * group_size(pool, centre, upto),
    decreases upto,
{
    let low = LOWEST_DETECTABLE_HZ * MILLI * POOL_SCALE;
    let high = HIGHEST_DETECTABLE_HZ * MILLI * POOL_SCALE;
    if upto > 0 {
        lemma_group_bounds(pool, centre, upto - 1);
        assert(pool_detectable(pool[upto - 1]));
        let size = group_size(pool, centre, upto - 1);
        assert(low * (size + 1) == low * size + low) by (nonlinear_arith);
        assert(high * (size + 1) == high * size + high) by (nonlinear_arith);
    } else {
        assert(low * 0 == 0 && high * 0 == 0);
    }
}

/// The group around a pool value holds that value.
pub proof fn lemma_group_holds_centre(pool: Seq<int>, index: int, upto: int)
    requires
        0 <= index < upto <= pool.len(),
    ensures
        group_size(pool, pool[index], upto) >= 1,
    decreases upto,
{
    if upto - 1 > index {
        lemma_group_holds_centre(pool, index, upto - 1);
    } else {
        lemma_group_size_nonnegative(pool, pool[index], upto - 1);
    }
}

/// A group has no fewer than zero values.
pub proof fn lemma_group_size_nonnegative(pool: Seq<int>, centre: int, upto: int)
    ensures
        group_size(pool, centre, upto) >= 0,
    decreases upto,
{
    if upto > 0 {
        lemma_group_size_nonnegative(pool, centre, upto - 1);
    }
}

/// The best centre has the largest group, and is the first with a group of
/// that size.
pub proof fn lemma_best_centre_is_first_largest(pool: Seq<int>, upto: int)
    requires
        1 <= upto <= pool.len(),
    ensures
        0 <= best_centre(pool, upto) < upto,
        forall|index: int|
            0 <= index < upto ==> #[trigger] group_size_at(pool, index) <= group_size_at(
                pool,
                best_centre(pool, upto),
            ),
        forall|index: int|
            0 <= index < best_centre(pool, upto) ==> #[trigger] group_size_at(pool, index)
                < group_size_at(pool, best_centre(pool, upto)),
    decreases upto,
{
    if upto > 1 {
        lemma_best_centre_is_first_largest(pool, upto - 1);
    }
}

/// An estimate made from two or more peaks lies inside the detectable
/// window.
pub proof fn lemma_estimate_detectable(peaks: Seq<Peak>)
    requires
        peaks.len() >= 2,
        fundamental_of(peaks) is Some,
    ensures
        detectable(fundamental_of(peaks)->0),
{
    let pool = pool_of(peaks, peaks.len() as int);
    lemma_pool_detectable(peaks, peaks.len() as int);
    let best = best_centre(pool, pool.len() as int);
    lemma_best_centre_is_first_largest(pool, pool.len() as int);
    let centre = pool[best];
    let size = group_size(pool, centre, pool.len() as int);
    let sum = group_sum(pool, centre, pool.len() as int);
    lemma_group_bounds(pool, centre, pool.len() as int);
    assert(size >= 2);
    assert(LOWEST_DETECTABLE_HZ * MILLI * (POOL_SCALE * size) <= sum <= HIGHEST_DETECTABLE_HZ
        * MILLI * (POOL_SCALE * size)) by (nonlinear_arith)
        requires
            LOWEST_DETECTABLE_HZ * MILLI * POOL_SCALE * size <= sum <= HIGHEST_DETECTABLE_HZ
                * MILLI * POOL_SCALE * size,
    ;
    lemma_quotient_between(
        LOWEST_DETECTABLE_HZ * MILLI,
        sum,
        HIGHEST_DETECTABLE_HZ * MILLI,
        POOL_SCALE * size,
    );
}

/// An estimate made from two or more peaks rests on a group that has a
/// value for every peak, and lies within the group threshold of the centre
/// of that group.
pub proof fn lemma_estimate_near_centre(peaks: Seq<Peak>)
    requires
        peaks.len() >= 2,
        fundamental_of(peaks) is Some,
    ensures
        ({
            let pool = pool_of(peaks, peaks.len() as int);
            let centre = pool[best_centre(pool, pool.len() as int)];
            &&& pool.len() > 0
            &&& group_size(pool, centre, pool.len() as int) >= peaks.len()
            &&& near(fundamental_of(peaks)->0 * POOL_SCALE, centre) || near(
                (fundamental_of(peaks)->0 + 1) * POOL_SCALE,
                centre,
            )
        }),
{
    let pool = pool_of(peaks, peaks.len() as int);
    let centre = pool[best_centre(pool, pool.len() as int)];
    let size = group_size(pool, centre, pool.len() as int);
    let sum = group_sum(pool, centre, pool.len() as int);
    lemma_group_sum_near_centre(pool, centre, pool.len() as int);
    let mean = sum / (POOL_SCALE * size);
    let threshold = GROUP_THRESHOLD_MHZ * POOL_SCALE;
    assert(mean * POOL_SCALE * size <= sum < (mean + 1) * POOL_SCALE * size) by (nonlinear_arith)
        requires
            mean == sum / (POOL_SCALE * size),
            size >= 2,
            POOL_SCALE == 60,
    ;
    assert((centre - threshold) * size <= sum <= (centre + threshold) * size);
    assert(mean * POOL_SCALE <= centre + threshold) by (nonlinear_arith)
        requires
            mean * POOL_SCALE * size <= sum,
            sum <= (centre + threshold) * size,
            size >= 2,
    ;
    assert((mean + 1) * POOL_SCALE >= centre - threshold) by (nonlinear_arith)
        requires
            sum < (mean + 1) * POOL_SCALE * size,
            (centre - threshold) * size <= sum,
            size >= 2,
    ;
}

/// The sum of a group lies within the group threshold, times the size of
/// the group, of the centre times that size.
pub proof fn lemma_group_sum_near_centre(pool: Seq<int>, centre: int, upto: int)
    ensures
        (centre - GROUP_THRESHOLD_MHZ * POOL_SCALE) * group_size(
            pool,
            centre,
            upto,
        ) <= group_sum(pool, centre, upto) <= (centre + GROUP_THRESHOLD_MHZ
            * POOL_SCALE) * group_size(pool, centre, upto),
    decreases upto,
{
    if upto > 0 {
        lemma_group_sum_near_centre(pool, centre, upto - 1);
        let threshold = GROUP_THRESHOLD_MHZ * POOL_SCALE;
        let size = group_size(pool, centre, upto - 1);
        assert((centre - threshold) * (size + 1) == (centre - threshold) * size + (centre
            - threshold)) by (nonlinear_arith);
        assert((centre + threshold) * (size + 1) == (centre + threshold) * size + (centre
            + threshold)) by (nonlinear_arith);
    }
}

} // verus!
