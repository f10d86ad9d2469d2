//! Aggregation of the phase-domain onset novelty functions. The per-bin
//! prediction distances |X[n,k] − X̂[n,k]| and the energy-increase mask
//! come from the spectral kernel as plain fixed-point values; this module
//! turns them into the Complex-Domain novelty (the sum of all distances)
//! and the Rectified Complex-Domain novelty (the sum over the masked bins
//! only). Since the rectified sum drops some nonnegative terms, it can
//! never exceed the full sum.

use vstd::prelude::*;

use crate::arith::sum;
use crate::errors::AnalysisError;
use crate::shared::INPUT_LIMIT;

verus! {

/// Sum of the masked entries of `s`: a bin contributes only where the
/// mask holds.
pub open spec fn masked_sum(s: Seq<i64>, m: Seq<bool>) -> int
    decreases s.len(),
{
    if s.len() == 0 {
        0
    } else {
        masked_sum(s.drop_last(), m.drop_last()) + (if m.last() {
            s.last() as int
        } else {
            0
        })
    }
}

/// Dropping terms from a sum of nonnegative values can only shrink it:
/// the rectified novelty never exceeds the unrectified one, and neither
/// is negative.
pub proof fn lemma_masked_sum_le_sum(s: Seq<i64>, m: Seq<bool>)
    requires
        m.len() == s.len(),
        forall|i: int| 0 <= i < s.len() ==> #[trigger] s[i] >= 0,
    ensures
        0 <= masked_sum(s, m) <= sum(s),
    decreases s.len(),
{
    if s.len() > 0 {
        lemma_masked_sum_le_sum(s.drop_last(), m.drop_last());
        assert(s[s.len() - 1] >= 0);
    }
}

/// Number of eligible frames of a phase-domain novelty function: the
/// first two frames of a spectrum sequence are consumed as prediction
/// history, so fewer than three frames leave nothing to report — an empty
/// novelty function, not an error.
pub fn phase_novelty_frames(num_frames: usize) -> (r: usize)
    ensures
        r == if num_frames >= 3 {
            num_frames - 2
        } else {
            0
        },
{
    if num_frames >= 3 {
        num_frames - 2
    } else {
        0
    }
}

/// A distance row and its mask row fit the summation: same width, every
/// distance nonnegative and within the fixed-point input bound.
pub open spec fn row_ok(d: Seq<i64>, m: Seq<bool>) -> bool {
    &&& m.len() == d.len()
    &&& forall|k: int| 0 <= k < d.len() ==> 0 <= #[trigger] d[k] <= INPUT_LIMIT
}

/// Computes the Complex-Domain and Rectified Complex-Domain novelty
/// values from the per-bin prediction distances and the energy-increase
/// mask, one row per eligible frame: the first element of the pair sums
/// every bin of a row, the second only the masked bins, so the rectified
/// value never exceeds the full one. The call fails, as an invalid
/// parameter, exactly when some mask row differs in width from its
/// distance row or some distance is negative or oversized.
pub fn novelty_from_bins(dist: &Vec<Vec<i64>>, mask: &Vec<Vec<bool>>) -> (r: Result<
    (Vec<i64>, Vec<i64>),
    AnalysisError,
>)
    requires
        dist@.len() == mask@.len(),
        forall|n: int| 0 <= n < dist@.len() ==> (#[trigger] dist@[n])@.len() <= 0x10000,
    ensures
        match r {
            Ok(cds) => {
                &&& cds.0@.len() == dist@.len()
                &&& cds.1@.len() == dist@.len()
                &&& forall|n: int|
                    0 <= n < dist@.len() ==> #[trigger] cds.0@[n] == sum(dist@[n]@)
                &&& forall|n: int|
                    0 <= n < dist@.len() ==> #[trigger] cds.1@[n] == masked_sum(
                        dist@[n]@,
                        mask@[n]@,
                    )
                &&& forall|n: int| 0 <= n < dist@.len() ==> 0 <= #[trigger] cds.1@[n] <= cds.0@[n]
            },
            Err(e) => e == AnalysisError::InvalidParameter,
        },
        r is Err <==> exists|n: int|
            0 <= n < dist@.len() && !(#[trigger] row_ok(dist@[n]@, mask@[n]@)),
{
    let frames = dist.len();
    let mut cd: Vec<i64> = Vec::new();
    let mut rcd: Vec<i64> = Vec::new();
    let mut n: usize = 0;
    while n < frames
        invariant
            frames == dist@.len(),
            dist@.len() == mask@.len(),
            forall|a: int| 0 <= a < dist@.len() ==> (#[trigger] dist@[a])@.len() <= 0x10000,
            n <= frames,
            cd@.len() == n,
            rcd@.len() == n,
            forall|a: int| 0 <= a < n ==> #[trigger] cd@[a] == sum(dist@[a]@),
            forall|a: int| 0 <= a < n ==> #[trigger] rcd@[a] == masked_sum(dist@[a]@, mask@[a]@),
            forall|a: int| 0 <= a < n ==> 0 <= #[trigger] rcd@[a] <= cd@[a],
            forall|a: int| 0 <= a < n ==> #[trigger] row_ok(dist@[a]@, mask@[a]@),
        decreases frames - n,
    {
        let row = &dist[n];
        let row_mask = &mask[n];
        if row_mask.len() != row.len() {
            proof {
                assert(!row_ok(dist@[n as int]@, mask@[n as int]@));
            }
            return Err(AnalysisError::InvalidParameter);
        }
        let bins = row.len();
        let mut full: i64 = 0;
        let mut masked: i64 = 0;
        let mut k: usize = 0;
        while k < bins
            invariant
                bins == row@.len(),
                row@ == dist@[n as int]@,
                row_mask@ == mask@[n as int]@,
                row_mask@.len() == row@.len(),
                bins <= 0x10000,
                n < dist@.len(),
                forall|j: int| 0 <= j < k ==> 0 <= #[trigger] row@[j] <= INPUT_LIMIT,
                k <= bins,
                full == sum(row@.subrange(0, k as int)),
                masked == masked_sum(row@.subrange(0, k as int), row_mask@.subrange(0, k as int)),
                0 <= masked <= full <= 0x100_0000_0000int * (k as int),
            decreases bins - k,
        {
            let d = row[k];
            if d < 0 || d > INPUT_LIMIT {
                proof {
                    assert(!row_ok(dist@[n as int]@, mask@[n as int]@));
                }
                return Err(AnalysisError::InvalidParameter);
            }
            proof {
                assert(row@.subrange(0, k + 1).drop_last() =~= row@.subrange(0, k as int));
                assert(row_mask@.subrange(0, k + 1).drop_last() =~= row_mask@.subrange(
                    0,
                    k as int,
                ));
            }
            full = full + d;
            if row_mask[k] {
                masked = masked + d;
            }
            k += 1;
        }
        proof {
            assert(row@.subrange(0, bins as int) =~= row@);
            assert(row_mask@.subrange(0, bins as int) =~= row_mask@);
            assert(row_ok(dist@[n as int]@, mask@[n as int]@));
        }
        cd.push(full);
        rcd.push(masked);
        n += 1;
    }
    Ok((cd, rcd))
}

} // verus!
