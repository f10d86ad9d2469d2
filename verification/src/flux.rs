//! Flux-domain novelty over a log-frequency magnitude spectrogram: per-bin
//! half-wave-rectified squared differences between consecutive frames,
//! weighted by caller-supplied log-scale bin weights, plus the
//! moving-average onset rule, the first-onset position, and the dominant
//! bin of every frame.
//!
//! Magnitudes and weights are fixed-point integers; the weights compensate
//! for the geometric spacing of the bins so low and high registers
//! contribute comparably.

use vstd::prelude::*;

use crate::arith::div_trunc;
use crate::arith::lemma_div_trunc_bounds;
use crate::arith::lemma_sum_extend_window;
use crate::arith::sum;
use crate::errors::AnalysisError;

verus! {

/// The flux contribution of bins `0 .. k` between row `prev` and row
/// `cur`: the squared positive part of each bin's increase, weighted.
pub open spec fn flux_prefix(prev: Seq<i64>, cur: Seq<i64>, weights: Seq<i64>, k: int) -> int
    decreases k,
{
    if k <= 0 {
        0
    } else {
        let d = if cur[k - 1] > prev[k - 1] {
            cur[k - 1] - prev[k - 1]
        } else {
            0
        };
        flux_prefix(prev, cur, weights, k - 1) + weights[k - 1] * d * d
    }
}

/// The novelty value of row `n` of a spectrogram: zero for the first row,
/// which has no predecessor, and the weighted rectified flux against the
/// previous row otherwise.
pub open spec fn spec_flux_at(rows: Seq<Seq<i64>>, weights: Seq<i64>, n: int) -> int {
    if n <= 0 {
        0
    } else {
        flux_prefix(rows[n - 1], rows[n], weights, weights.len() as int)
    }
}

/// The novelty value of row `n` as stored: saturated at the largest
/// representable fixed-point value when the exact sum is too large.
pub open spec fn spec_flux_value(rows: Seq<Seq<i64>>, weights: Seq<i64>, n: int) -> int {
    let v = spec_flux_at(rows, weights, n);
    if v > i64::MAX {
        i64::MAX as int
    } else {
        v
    }
}

/// A time × frequency-bin magnitude matrix, one row per frame, every row
/// the same width. Produced outside from a log-frequency transform and
/// handed in as plain fixed-point values.
#[derive(Debug)]
pub struct Spectrogram {
    rows: Vec<Vec<i64>>,
    bins: usize,
}

impl View for Spectrogram {
    type V = Seq<Seq<i64>>;

    closed spec fn view(&self) -> Seq<Seq<i64>> {
        self.rows@.map_values(|r: Vec<i64>| r@)
    }
}

/// Every magnitude `spectral_flux` accepts fits in this bound, which keeps
/// each squared difference within the machine integers used below.
pub const MAGNITUDE_LIMIT: i64 = 0x100_0000_0000;

/// Every bin weight fits in this bound.
pub const WEIGHT_LIMIT: i64 = 0x10_0000;

/// A magnitude row fits a spectrogram of the given width: the right
/// number of bins, every entry within `MAGNITUDE_LIMIT`.
pub open spec fn row_fits(r: Seq<i64>, bins: int) -> bool {
    &&& r.len() == bins
    &&& forall|k: int| 0 <= k < r.len() ==> -MAGNITUDE_LIMIT <= #[trigger] r[k] <= MAGNITUDE_LIMIT
}

impl Spectrogram {
    /// A well-formed spectrogram has rows of one common width.
    pub open spec fn wf(&self) -> bool {
        forall|n: int| 0 <= n < self@.len() ==> (#[trigger] self@[n]).len() == self.spec_bins()
    }

    /// The common row width.
    pub closed spec fn spec_bins(&self) -> int {
        self.bins as int
    }

    /// All magnitudes lie within `MAGNITUDE_LIMIT`.
    pub open spec fn magnitudes_bounded(&self) -> bool {
        forall|n: int, k: int|
            0 <= n < self@.len() && 0 <= k < self@[n].len() ==> -MAGNITUDE_LIMIT
                <= #[trigger] self@[n][k] <= MAGNITUDE_LIMIT
    }

    /// Validates and adopts a magnitude matrix. The call fails, as an
    /// invalid parameter, exactly when some row differs in width from
    /// `bins` or some entry lies outside `MAGNITUDE_LIMIT`.
    pub fn new(rows: Vec<Vec<i64>>, bins: usize) -> (r: Result<Spectrogram, AnalysisError>)
        ensures
            match r {
                Ok(s) => {
                    &&& s.wf()
                    &&& s.magnitudes_bounded()
                    &&& s.spec_bins() == bins
                    &&& s@ == rows@.map_values(|v: Vec<i64>| v@)
                },
                Err(e) => e == AnalysisError::InvalidParameter,
            },
            r is Err <==> exists|n: int|
                0 <= n < rows@.len() && !(#[trigger] row_fits(rows@[n]@, bins as int)),
    {
        let mut n: usize = 0;
        while n < rows.len()
            invariant
                n <= rows@.len(),
                forall|a: int| 0 <= a < n ==> (#[trigger] rows@[a])@.len() == bins,
                forall|a: int, k: int|
                    0 <= a < n && 0 <= k < rows@[a]@.len() ==> -MAGNITUDE_LIMIT
                        <= #[trigger] rows@[a]@[k] <= MAGNITUDE_LIMIT,
                forall|a: int| 0 <= a < n ==> #[trigger] row_fits(rows@[a]@, bins as int),
            decreases rows@.len() - n,
        {
            if rows[n].len() != bins {
                proof {
                    assert(!row_fits(rows@[n as int]@, bins as int));
                }
                return Err(AnalysisError::InvalidParameter);
            }
            let mut k: usize = 0;
            while k < rows[n].len()
                invariant
                    n < rows@.len(),
                    rows@[n as int]@.len() == bins,
                    k <= rows@[n as int]@.len(),
                    forall|j: int|
                        0 <= j < k ==> -MAGNITUDE_LIMIT <= #[trigger] rows@[n as int]@[j]
                            <= MAGNITUDE_LIMIT,
                decreases rows@[n as int]@.len() - k,
            {
                let v = rows[n][k];
                if v < -MAGNITUDE_LIMIT || v > MAGNITUDE_LIMIT {
                    proof {
                        assert(!row_fits(rows@[n as int]@, bins as int));
                    }
                    return Err(AnalysisError::InvalidParameter);
                }
                k += 1;
            }
            proof {
                assert(row_fits(rows@[n as int]@, bins as int));
            }
            n += 1;
        }
        let r = Spectrogram { rows, bins };
        proof {
            assert(forall|a: int| 0 <= a < r@.len() ==> r@[a] == (#[trigger] r.rows@[a])@);
        }
        Ok(r)
    }

    /// Number of frames.
    pub fn num_frames(&self) -> (r: usize)
        ensures
            r == self@.len(),
    {
        self.rows.len()
    }

    /// Number of frequency bins per frame.
    pub fn num_bins(&self) -> (r: usize)
        ensures
            r == self.spec_bins(),
    {
        self.bins
    }

    /// The log-weighted spectral-flux novelty function of the spectrogram:
    /// one value per frame, the first zero by convention, each later one
    /// the sum over bins of `weight[k] · max(0, X[n][k] − X[n-1][k])²`,
    /// saturated at the largest representable value.
    pub fn spectral_flux(&self, weights: &Vec<i64>) -> (r: Vec<i64>)
        requires
            self.wf(),
            self.magnitudes_bounded(),
            weights@.len() == self.spec_bins(),
            self.spec_bins() <= 0x10000,
            forall|k: int| 0 <= k < weights@.len() ==> 0 <= #[trigger] weights@[k] <= WEIGHT_LIMIT,
        ensures
            r@.len() == self@.len(),
            forall|n: int|
                0 <= n < r@.len() ==> #[trigger] r@[n] == spec_flux_value(self@, weights@, n),
    {
        let mut r: Vec<i64> = Vec::new();
        let frames = self.rows.len();
        if frames == 0 {
            return r;
        }
        r.push(0);
        let mut n: usize = 1;
        while n < frames
            invariant
                frames == self@.len(),
                self.wf(),
                self.magnitudes_bounded(),
                weights@.len() == self.spec_bins(),
                self.spec_bins() <= 0x10000,
                forall|k: int|
                    0 <= k < weights@.len() ==> 0 <= #[trigger] weights@[k] <= WEIGHT_LIMIT,
                1 <= n <= frames,
                r@.len() == n,
                forall|a: int|
                    0 <= a < n ==> #[trigger] r@[a] == spec_flux_value(self@, weights@, a),
            decreases frames - n,
        {
            let bins = self.bins;
            let mut acc: i128 = 0;
            let mut k: usize = 0;
            while k < bins
                invariant
                    frames == self@.len(),
                    self.wf(),
                    self.magnitudes_bounded(),
                    weights@.len() == self.spec_bins(),
                    bins == self.spec_bins(),
                    bins <= 0x10000,
                    forall|j: int|
                        0 <= j < weights@.len() ==> 0 <= #[trigger] weights@[j] <= WEIGHT_LIMIT,
                    1 <= n < frames,
                    k <= bins,
                    acc == flux_prefix(self@[n - 1], self@[n as int], weights@, k as int),
                    0 <= acc <= 0x40_0000_0000_0000_0000_0000_0000int * (k as int),
                decreases bins - k,
            {
                proof {
                    assert(self@[n - 1] == self.rows@[n - 1]@);
                    assert(self@[n as int] == self.rows@[n as int]@);
                    assert(-MAGNITUDE_LIMIT <= self@[n as int][k as int] <= MAGNITUDE_LIMIT);
                    assert(-MAGNITUDE_LIMIT <= self@[n - 1][k as int] <= MAGNITUDE_LIMIT);
                }
                let prev = self.rows[n - 1][k];
                let cur = self.rows[n][k];
                let d: i64 = if cur > prev {
                    cur - prev
                } else {
                    0
                };
                let w = weights[k];
                proof {
                    let wi = w as int;
                    let di = d as int;
                    vstd::arithmetic::mul::lemma_mul_nonnegative(wi, di);
                    vstd::arithmetic::mul::lemma_mul_nonnegative(wi * di, di);
                    vstd::arithmetic::mul::lemma_mul_upper_bound(
                        wi,
                        0x10_0000int,
                        di,
                        0x200_0000_0000int,
                    );
                    vstd::arithmetic::mul::lemma_mul_upper_bound(
                        wi * di,
                        0x2000_0000_0000_0000int,
                        di,
                        0x200_0000_0000int,
                    );
                    assert(0x10_0000int * 0x200_0000_0000int == 0x2000_0000_0000_0000int)
                        by (nonlinear_arith);
                    assert(0x2000_0000_0000_0000int * 0x200_0000_0000int
                        == 0x40_0000_0000_0000_0000_0000_0000int) by (nonlinear_arith);
                }
                acc = acc + (w as i128) * (d as i128) * (d as i128);
                k += 1;
            }
            let clamped: i64 = if acc > (i64::MAX as i128) {
                i64::MAX
            } else {
                acc as i64
            };
            r.push(clamped);
            n += 1;
        }
        r
    }
}

/// Moving-average onset flags of a novelty function: frame `i` is flagged
/// exactly when its value strictly exceeds the truncated mean of the
/// window of half-width `window_size / 2` around it, clamped to the
/// sequence.
pub open spec fn spec_flux_onset(flux: Seq<i64>, window_size: int, i: int) -> bool {
    let half = window_size / 2;
    let lo = if i - half >= 0 {
        i - half
    } else {
        0
    };
    let hi = if i + half + 1 <= flux.len() {
        i + half + 1
    } else {
        flux.len() as int
    };
    flux[i] > div_trunc(sum(flux.subrange(lo, hi)), hi - lo)
}

/// Flags the frames of a novelty function whose value strictly exceeds
/// the local moving average.
pub fn flux_onsets(flux: &Vec<i64>, window_size: usize) -> (r: Vec<bool>)
    requires
        flux@.len() <= 0x8000_0000,
    ensures
        r@.len() == flux@.len(),
        forall|i: int|
            0 <= i < r@.len() ==> #[trigger] r@[i] == spec_flux_onset(
                flux@,
                window_size as int,
                i,
            ),
{
    let n = flux.len();
    let half = window_size / 2;
    let mut r: Vec<bool> = Vec::new();
    let mut i: usize = 0;
    while i < n
        invariant
            n == flux@.len(),
            half == window_size as int / 2,
            i <= n,
            r@.len() == i,
            forall|a: int|
                0 <= a < i ==> #[trigger] r@[a] == spec_flux_onset(flux@, window_size as int, a),
        decreases n - i,
    {
        let lo: usize = if i >= half {
            i - half
        } else {
            0
        };
        let hi: usize = if half < n - i {
            i + half + 1
        } else {
            n
        };
        let mut acc: i128 = 0;
        let mut j: usize = lo;
        proof {
            assert(flux@.subrange(lo as int, lo as int) =~= Seq::<i64>::empty());
        }
        while j < hi
            invariant
                n == flux@.len(),
                lo <= j <= hi <= n,
                acc == sum(flux@.subrange(lo as int, j as int)),
                -0x8000_0000_0000_0000int * ((j - lo) as int) <= acc <= 0x8000_0000_0000_0000int
                    * ((j - lo) as int),
            decreases hi - j,
        {
            proof {
                lemma_sum_extend_window(flux@, lo as int, j as int);
            }
            acc = acc + (flux[j] as i128);
            j += 1;
        }
        proof {
            lemma_div_trunc_bounds(
                acc as int,
                (hi - lo) as int,
                -0x8000_0000_0000_0000int,
                0x8000_0000_0000_0000int,
            );
        }
        let avg: i128 = acc / ((hi - lo) as i128);
        r.push((flux[i] as i128) > avg);
        i += 1;
    }
    r
}

/// The position of the first flagged frame, or the length of the sequence
/// when nothing is flagged — the start-of-activity report.
pub fn first_onset_index(onsets: &Vec<bool>) -> (r: usize)
    ensures
        r <= onsets@.len(),
        r < onsets@.len() ==> onsets@[r as int],
        forall|j: int| 0 <= j < r ==> !(#[trigger] onsets@[j]),
{
    let mut i: usize = 0;
    while i < onsets.len()
        invariant
            i <= onsets@.len(),
            forall|j: int| 0 <= j < i ==> !(#[trigger] onsets@[j]),
        decreases onsets@.len() - i,
    {
        if onsets[i] {
            return i;
        }
        i += 1;
    }
    i
}

/// Index `b` holds the last maximal value of the row.
pub open spec fn is_dominant_bin(row: Seq<i64>, b: int) -> bool {
    &&& 0 <= b < row.len()
    &&& forall|k: int| 0 <= k < row.len() ==> #[trigger] row[k] <= row[b]
    &&& forall|k: int| b < k < row.len() ==> #[trigger] row[k] < row[b]
}

/// The strongest frequency bin of every frame: the bin with the greatest
/// magnitude, the last one on a tie. The per-frame dominant bin is what a
/// bin-to-frequency mapping turns into a pitch track.
pub fn dominant_bins(s: &Spectrogram) -> (r: Vec<usize>)
    requires
        s.wf(),
        s.spec_bins() >= 1,
    ensures
        r@.len() == s@.len(),
        forall|n: int| 0 <= n < r@.len() ==> is_dominant_bin(s@[n], #[trigger] r@[n] as int),
{
    let frames = s.num_frames();
    let bins = s.num_bins();
    let mut r: Vec<usize> = Vec::new();
    let mut n: usize = 0;
    while n < frames
        invariant
            frames == s@.len(),
            s.wf(),
            bins == s.spec_bins(),
            bins >= 1,
            n <= frames,
            r@.len() == n,
            forall|a: int| 0 <= a < n ==> is_dominant_bin(s@[a], #[trigger] r@[a] as int),
        decreases frames - n,
    {
        proof {
            assert(s@[n as int] == s.rows@[n as int]@);
        }
        let mut best: usize = 0;
        let mut k: usize = 1;
        while k < bins
            invariant
                frames == s@.len(),
                s.wf(),
                bins == s.spec_bins(),
                n < frames,
                best < k <= bins,
                forall|j: int| 0 <= j < k ==> #[trigger] s@[n as int][j] <= s@[n as int][best as int],
                forall|j: int|
                    best < j < k ==> #[trigger] s@[n as int][j] < s@[n as int][best as int],
            decreases bins - k,
        {
            proof {
                assert(s@[n as int] == s.rows@[n as int]@);
            }
            if s.rows[n][k] >= s.rows[n][best] {
                best = k;
            }
            k += 1;
        }
        r.push(best);
        n += 1;
    }
    r
}

} // verus!
