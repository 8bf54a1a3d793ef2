use vstd::prelude::*;
use vstd::arithmetic::mul::lemma_mul_inequality;
use crate::sample::{Sample, MAX_SCALED};
use crate::geo::{distance_mm, spec_distance_mm};

verus! {

/// Elapsed seconds from the first sample to the last: negative if the
/// sequence is not time-ordered, reported as-is.
pub open spec fn spec_duration_seconds(s: Seq<Sample>) -> int
    recommends
        s.len() > 0,
{
    s.last().time.spec_epoch_seconds() - s[0].time.spec_epoch_seconds()
}

/// Cumulative positive elevation gain in millimeters. The accumulator
/// starts at the first sample's raw elevation — a deliberate, unusual
/// accounting choice: the gain includes the first point's elevation as
/// a baseline offset — and each later sample adds its rise over its
/// immediate predecessor; descents add nothing.
pub open spec fn spec_elevation_gain_mm(s: Seq<Sample>) -> int
    decreases s.len(),
{
    if s.len() == 0 {
        0
    } else if s.len() == 1 {
        s[0].ele_mm as int
    } else {
        let prev = s[s.len() - 2].ele_mm as int;
        let last = s[s.len() - 1].ele_mm as int;
        spec_elevation_gain_mm(s.drop_last()) + if last > prev {
            last - prev
        } else {
            0
        }
    }
}

/// Sum of the great-circle distances of consecutive samples, in
/// millimeters; zero when fewer than two samples exist.
pub open spec fn spec_total_distance_mm(s: Seq<Sample>) -> int
    decreases s.len(),
{
    if s.len() <= 1 {
        0
    } else {
        spec_total_distance_mm(s.drop_last()) + spec_distance_mm(s[s.len() - 2], s[s.len() - 1])
    }
}

/// Last sample's timestamp minus the first sample's, in seconds.
pub fn get_duration(samples: &Vec<Sample>) -> (r: i64)
    requires
        samples@.len() > 0,
        forall|i: int| 0 <= i < samples@.len() ==> samples@[i].wf(),
    ensures
        r == spec_duration_seconds(samples@),
{
    let first = samples[0].time.epoch_seconds();
    let last = samples[samples.len() - 1].time.epoch_seconds();
    last - first
}

/// Single pass over the samples accumulating the elevation gain.
pub fn get_elevation(samples: &Vec<Sample>) -> (r: i128)
    requires
        forall|i: int| 0 <= i < samples@.len() ==> samples@[i].wf(),
    ensures
        r == spec_elevation_gain_mm(samples@),
{
    let mut ele: i128 = 0;
    let mut idx: usize = 0;
    let n = samples.len();
    while idx < n
        invariant
            n == samples@.len(),
            0 <= idx <= n,
            forall|i: int| 0 <= i < samples@.len() ==> samples@[i].wf(),
            ele == spec_elevation_gain_mm(samples@.subrange(0, idx as int)),
            -1_000_000_000_000_000 <= ele,
            ele <= 1_000_000_000_000_000 + 2_000_000_000_000_000 * (idx as int),
        decreases n - idx,
    {
        proof {
            assert(samples@.subrange(0, idx + 1).drop_last() =~= samples@.subrange(0, idx as int));
            lemma_mul_inequality(idx as int, usize::MAX as int, 2 * (MAX_SCALED as int));
            assert(samples@[idx as int].wf());
            if idx > 0 {
                assert(samples@[idx - 1].wf());
            }
        }
        if idx == 0 {
            ele = samples[0].ele_mm as i128;
        } else {
            let prev = samples[idx - 1].ele_mm;
            let here = samples[idx].ele_mm;
            if here > prev {
                proof {
                    assert(here - prev <= 2_000_000_000_000_000);
                }
                ele = ele + (here as i128 - prev as i128);
            }
        }
        idx = idx + 1;
    }
    proof {
        assert(samples@.subrange(0, n as int) =~= samples@);
    }
    ele
}

/// Single pass over the samples summing consecutive distances.
pub fn get_distance(samples: &Vec<Sample>) -> (r: u128)
    ensures
        r == spec_total_distance_mm(samples@),
{
    let mut acc: u128 = 0;
    let mut idx: usize = 0;
    let n = samples.len();
    while idx < n
        invariant
            n == samples@.len(),
            0 <= idx <= n,
            acc == spec_total_distance_mm(samples@.subrange(0, idx as int)),
            acc <= 50_000_000_000 * (idx as int),
        decreases n - idx,
    {
        proof {
            assert(samples@.subrange(0, idx + 1).drop_last() =~= samples@.subrange(0, idx as int));
            lemma_mul_inequality(idx as int, usize::MAX as int, 50_000_000_000);
        }
        if idx > 0 {
            let d = distance_mm(&samples[idx], &samples[idx - 1]);
            proof {
                crate::geo::lemma_distance_symmetric(samples@[idx as int], samples@[idx - 1]);
            }
            acc = acc + d as u128;
        }
        idx = idx + 1;
    }
    proof {
        assert(samples@.subrange(0, n as int) =~= samples@);
    }
    acc
}

/// A distance total over a single sample is zero.
pub proof fn lemma_single_sample_distance(s: Seq<Sample>)
    requires
        s.len() == 1,
    ensures
        spec_total_distance_mm(s) == 0,
{
}

/// Two samples ninety seconds apart have a duration of exactly ninety
/// seconds, wherever the first one lies in time.
pub proof fn lemma_duration_offset(s: Seq<Sample>, gap: int)
    requires
        s.len() == 2,
        s[1].time.spec_epoch_seconds() == s[0].time.spec_epoch_seconds() + gap,
    ensures
        spec_duration_seconds(s) == gap,
{
}

/// Sum of the positive forward elevation deltas of consecutive
/// samples, in millimeters; descents contribute nothing.
pub open spec fn spec_positive_deltas_mm(s: Seq<Sample>) -> int
    decreases s.len(),
{
    if s.len() <= 1 {
        0
    } else {
        let prev = s[s.len() - 2].ele_mm as int;
        let last = s[s.len() - 1].ele_mm as int;
        spec_positive_deltas_mm(s.drop_last()) + if last > prev {
            last - prev
        } else {
            0
        }
    }
}

/// The elevation gain is the first sample's raw elevation as a
/// baseline, plus the sum of the positive forward deltas.
pub proof fn lemma_gain_is_baseline_plus_rises(s: Seq<Sample>)
    requires
        s.len() > 0,
    ensures
        spec_elevation_gain_mm(s) == s[0].ele_mm + spec_positive_deltas_mm(s),
    decreases s.len(),
{
    if s.len() > 1 {
        lemma_gain_is_baseline_plus_rises(s.drop_last());
    }
}

/// On a descent-free prefix-to-suffix rise the gain is the baseline
/// elevation plus every positive forward delta; on a strict descent it
/// is the baseline alone.
pub proof fn lemma_gain_monotone_descent(s: Seq<Sample>)
    requires
        s.len() > 0,
        forall|i: int| 0 < i < s.len() ==> #[trigger] s[i].ele_mm <= s[i - 1].ele_mm,
    ensures
        spec_elevation_gain_mm(s) == s[0].ele_mm,
    decreases s.len(),
{
    if s.len() > 1 {
        lemma_gain_monotone_descent(s.drop_last());
    }
}

} // verus!
