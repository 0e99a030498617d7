//! Spike detection: classifying one step of a metric series as an abnormal
//! jump. Stateless and pure; a renderer consumes the boolean flags.

use vstd::prelude::*;

verus! {

/// Default spike threshold: a step is a spike when the magnitude of its
/// relative change exceeds 20 % (stated in hundredths of a percent).
pub const SPIKE_THRESHOLD_CENTIPERCENT: u64 = 2000;

/// Magnitude of the difference between two samples.
pub open spec fn abs_diff(previous: int, current: int) -> int {
    if current >= previous {
        current - previous
    } else {
        previous - current
    }
}

/// A step from `previous` to `current` is a spike when `previous` is
/// nonzero and the relative change `|current - previous| / previous`
/// strictly exceeds the threshold. Relative change from zero is undefined
/// and is never reported as a spike. The comparison
/// `|c - p| * 10000 > t * p` states `|c - p| / p * 100 > t / 100` without
/// division, so a change exactly at the threshold is not a spike.
pub open spec fn spec_is_spike(previous: int, current: int, threshold_centipercent: int) -> bool {
    previous > 0 && abs_diff(previous, current) * 10000 > threshold_centipercent * previous
}

/// Classifies one consecutive pair of samples.
pub fn is_spike(previous: u64, current: u64, threshold_centipercent: u64) -> (r: bool)
    ensures
        r == spec_is_spike(previous as int, current as int, threshold_centipercent as int),
{
    if previous == 0 {
        return false;
    }
    let diff: u64 = if current >= previous {
        current - previous
    } else {
        previous - current
    };
    let scaled: u128 = (diff as u128) * 10000;
    proof {
        assert((threshold_centipercent as int) * (previous as int) <= (u64::MAX as int) * (
        u64::MAX as int)) by (nonlinear_arith)
            requires
                threshold_centipercent <= u64::MAX,
                previous <= u64::MAX,
                previous > 0,
        ;
    }
    let bar: u128 = (threshold_centipercent as u128) * (previous as u128);
    scaled > bar
}

/// Spike flags for a whole series: one boolean per consecutive pair,
/// aligned with the series (one fewer flag than samples). A series with
/// fewer than two samples yields no flags.
pub fn spike_flags(series: &Vec<u64>, threshold_centipercent: u64) -> (r: Vec<bool>)
    ensures
        r@.len() == if series@.len() == 0 { 0int } else { series@.len() - 1 },
        forall|i: int|
            0 <= i < r@.len() ==> r@[i] == spec_is_spike(
                series@[i] as int,
                series@[i + 1] as int,
                threshold_centipercent as int,
            ),
{
    let mut r: Vec<bool> = Vec::new();
    if series.len() == 0 {
        return r;
    }
    let mut i: usize = 0;
    while i + 1 < series.len()
        invariant
            i + 1 <= series@.len(),
            series@.len() >= 1,
            series@.len() <= usize::MAX,
            r@.len() == i,
            forall|k: int|
                0 <= k < i ==> r@[k] == spec_is_spike(
                    series@[k] as int,
                    series@[k + 1] as int,
                    threshold_centipercent as int,
                ),
        decreases series@.len() - i,
    {
        r.push(is_spike(series[i], series[i + 1], threshold_centipercent));
        i = i + 1;
    }
    r
}

} // verus!
