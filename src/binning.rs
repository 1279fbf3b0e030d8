//! Phase bins: the index of each folded sample and the number of samples
//! that fall in each bin.
use vstd::prelude::*;

verus! {

/// The bin of a sample whose folded phase, scaled by the bin count and
/// truncated, is `raw`. A phase that rounds up to `1.0` would give
/// `n_bins`: it is folded into the last bin.
pub open spec fn bin_of(raw: u64, n_bins: u64) -> u64 {
    if raw < n_bins {
        raw
    } else {
        (n_bins - 1) as u64
    }
}

/// How many entries of `bins` equal `k`.
pub open spec fn occupancy(bins: Seq<u64>, k: u64) -> nat
    decreases bins.len(),
{
    if bins.len() == 0 {
        0
    } else {
        occupancy(bins.drop_last(), k) + if bins.last() == k {
            1nat
        } else {
            0nat
        }
    }
}

/// Keeps a scaled phase inside `[0, n_bins)`.
pub fn clamp_bin(raw: u64, n_bins: u64) -> (r: u64)
    requires
        n_bins >= 1,
    ensures
        r == bin_of(raw, n_bins),
        r < n_bins,
{
    if raw < n_bins {
        raw
    } else {
        n_bins - 1
    }
}

/// The bin of every sample, from the scaled phases.
pub fn assign_bins(raw: &Vec<u64>, n_bins: u64) -> (r: Vec<u64>)
    requires
        n_bins >= 1,
    ensures
        r@.len() == raw@.len(),
        forall|i: int| 0 <= i < raw@.len() ==> r@[i] == bin_of(#[trigger] raw@[i], n_bins),
        forall|i: int| 0 <= i < r@.len() ==> #[trigger] r@[i] < n_bins,
{
    let mut out: Vec<u64> = Vec::with_capacity(raw.len());
    let mut i: usize = 0;
    while i < raw.len()
        invariant
            n_bins >= 1,
            i <= raw@.len(),
            out@.len() == i,
            forall|j: int| 0 <= j < i ==> out@[j] == bin_of(#[trigger] raw@[j], n_bins),
            forall|j: int| 0 <= j < i ==> #[trigger] out@[j] < n_bins,
        decreases raw@.len() - i,
    {
        out.push(clamp_bin(raw[i], n_bins));
        i += 1;
    }
    out
}

/// The number of samples in each of the `n_bins` bins.
pub fn bin_counts(bins: &Vec<u64>, n_bins: u64) -> (r: Vec<u64>)
    requires
        n_bins <= usize::MAX,
        forall|i: int| 0 <= i < bins@.len() ==> #[trigger] bins@[i] < n_bins,
    ensures
        r@.len() == n_bins,
        forall|k: int| 0 <= k < n_bins ==> #[trigger] r@[k] == occupancy(bins@, k as u64),
{
    let nb: usize = n_bins as usize;
    let mut counts: Vec<u64> = Vec::with_capacity(nb);
    let mut k: usize = 0;
    while k < nb
        invariant
            k <= nb,
            nb == n_bins,
            counts@.len() == k,
            forall|j: int| 0 <= j < k ==> #[trigger] counts@[j] == 0,
        decreases nb - k,
    {
        counts.push(0);
        k += 1;
    }
    let mut i: usize = 0;
    while i < bins.len()
        invariant
            nb == n_bins,
            i <= bins@.len(),
            counts@.len() == nb,
            forall|j: int| 0 <= j < bins@.len() ==> #[trigger] bins@[j] < n_bins,
            forall|k: int|
                0 <= k < nb ==> #[trigger] counts@[k] == occupancy(bins@.subrange(0, i as int), k as u64),
            forall|k: int| 0 <= k < nb ==> #[trigger] counts@[k] <= i,
        decreases bins@.len() - i,
    {
        let b: usize = bins[i] as usize;
        proof {
            assert(bins@.subrange(0, i + 1).drop_last() =~= bins@.subrange(0, i as int));
            assert forall|k: int| 0 <= k < nb implies #[trigger] occupancy(bins@.subrange(0, i + 1), k as u64)
                == occupancy(bins@.subrange(0, i as int), k as u64) + if k == b {
                1nat
            } else {
                0nat
            } by {}
        }
        let c: u64 = counts[b];
        counts.set(b, c + 1);
        i += 1;
    }
    proof {
        assert(bins@.subrange(0, bins@.len() as int) =~= bins@);
    }
    counts
}

/// Samples in the bins `0 .. n`, all together.
pub open spec fn occupancy_below(bins: Seq<u64>, n: nat) -> nat
    decreases n,
{
    if n == 0 {
        0
    } else {
        occupancy_below(bins, (n - 1) as nat) + occupancy(bins, (n - 1) as u64)
    }
}

proof fn lemma_occupancy_below_empty(bins: Seq<u64>, n: nat)
    requires
        bins.len() == 0,
    ensures
        occupancy_below(bins, n) == 0,
    decreases n,
{
    if n > 0 {
        lemma_occupancy_below_empty(bins, (n - 1) as nat);
    }
}

proof fn lemma_occupancy_below_step(bins: Seq<u64>, n: nat)
    requires
        bins.len() > 0,
        n <= u64::MAX + 1,
    ensures
        occupancy_below(bins, n) == occupancy_below(bins.drop_last(), n) + if bins.last() < n {
            1nat
        } else {
            0nat
        },
    decreases n,
{
    if n > 0 {
        lemma_occupancy_below_step(bins, (n - 1) as nat);
    }
}

/// Every sample lies in exactly one bin: when all bin indices are below
/// `n_bins`, the bin counts add up to the number of samples.
pub proof fn lemma_counts_cover_samples(bins: Seq<u64>, n_bins: u64)
    requires
        forall|i: int| 0 <= i < bins.len() ==> #[trigger] bins[i] < n_bins,
    ensures
        occupancy_below(bins, n_bins as nat) == bins.len(),
    decreases bins.len(),
{
    if bins.len() > 0 {
        let rest = bins.drop_last();
        assert forall|i: int| 0 <= i < rest.len() implies #[trigger] rest[i] < n_bins by {
            assert(rest[i] == bins[i]);
        }
        lemma_counts_cover_samples(rest, n_bins);
        lemma_occupancy_below_step(bins, n_bins as nat);
        assert(bins.last() < n_bins);
    } else {
        lemma_occupancy_below_empty(bins, n_bins as nat);
    }
}

} // verus!
