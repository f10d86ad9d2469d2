//! Adaptive multi-criterion peak-picking over a standardized novelty
//! function, and the helpers that turn the resulting onset flags into
//! frame indices or aligned note guesses.
//!
//! A frame is flagged as an onset only if it is a strict local maximum,
//! clears the local mean by a margin, and clears a recursively smoothed
//! adaptive threshold. Frames within the half-window of either boundary
//! are never flagged: they lack the context the rule needs, by design.

use vstd::prelude::*;

use crate::arith::div_trunc;
use crate::arith::lemma_div_trunc_bounds;
use crate::arith::sum;
use crate::arith::lemma_sum_extend_window;
use crate::errors::AnalysisError;
use crate::framing::frame_to_frames;
use crate::notes::Note;
use crate::shared::standardize;
use crate::shared::spec_standardize_seq;
use crate::shared::spec_variance;
use crate::shared::INPUT_LIMIT;
use crate::shared::LEN_LIMIT;
use crate::shared::SCALE;
use crate::shared::VALUE_LIMIT;

verus! {

/// The adaptive threshold at index `i`: the novelty value itself, or the
/// exponentially smoothed mix of the previous threshold and the current
/// value, whichever is larger. `alpha` is the smoothing weight in `SCALE`
/// units, so `alpha == SCALE` means "all history" and `alpha == 0` none.
pub open spec fn g_at(s: Seq<i64>, alpha: int, i: int) -> int
    decreases i,
{
    if i <= 0 {
        s[0] as int
    } else {
        let c = div_trunc(alpha * g_at(s, alpha, i - 1) + (SCALE - alpha) * s[i], SCALE as int);
        if s[i] >= c {
            s[i] as int
        } else {
            c
        }
    }
}

/// Computes the adaptive threshold sequence `g` of a standardized novelty
/// function: `g[0] = f[0]`, and each later entry is
/// `max(f[i], (alpha·g[i-1] + (SCALE-alpha)·f[i]) / SCALE)`. The result
/// never falls below the smoothed mix — the invariant the peak rule needs.
pub fn adaptive_threshold(f: &Vec<i64>, alpha: i64) -> (r: Vec<i64>)
    requires
        1 <= f@.len() <= LEN_LIMIT,
        0 <= alpha <= SCALE,
        forall|k: int| 0 <= k < f@.len() ==> -VALUE_LIMIT <= #[trigger] f@[k] <= VALUE_LIMIT,
    ensures
        r@.len() == f@.len(),
        forall|i: int| 0 <= i < r@.len() ==> #[trigger] r@[i] == g_at(f@, alpha as int, i),
        forall|i: int|
            1 <= i < r@.len() ==> #[trigger] r@[i] >= div_trunc(
                alpha * r@[i - 1] + (SCALE - alpha) * f@[i],
                SCALE as int,
            ),
{
    let n = f.len();
    let mut g: Vec<i64> = Vec::new();
    g.push(f[0]);
    let mut i: usize = 1;
    while i < n
        invariant
            n == f@.len(),
            1 <= n <= LEN_LIMIT,
            0 <= alpha <= SCALE,
            forall|k: int| 0 <= k < f@.len() ==> -VALUE_LIMIT <= #[trigger] f@[k] <= VALUE_LIMIT,
            1 <= i <= n,
            g@.len() == i,
            forall|k: int| 0 <= k < i ==> #[trigger] g@[k] == g_at(f@, alpha as int, k),
            forall|k: int| 0 <= k < i ==> -VALUE_LIMIT <= #[trigger] g@[k] <= VALUE_LIMIT,
        decreases n - i,
    {
        let gp: i64 = g[i - 1];
        let fi: i64 = f[i];
        proof {
            assert(-0x2_0000_0000_0000_0000_0000int <= (alpha as int) * (gp as int)
                <= 0x2_0000_0000_0000_0000_0000int && -0x2_0000_0000_0000_0000_0000int <= ((SCALE
                - alpha) as int) * (fi as int) <= 0x2_0000_0000_0000_0000_0000int && (
            -0x2000_0000_0000_0000int) * 1048576 <= (alpha as int) * (gp as int) + ((SCALE
                - alpha) as int) * (fi as int) <= 0x2000_0000_0000_0000int * 1048576)
                by (nonlinear_arith)
                requires
                    0 <= alpha as int <= 1048576,
                    SCALE == 1048576,
                    -0x2000_0000_0000_0000int <= gp as int <= 0x2000_0000_0000_0000int,
                    -0x2000_0000_0000_0000int <= fi as int <= 0x2000_0000_0000_0000int,
            ;
        }
        let num: i128 = (alpha as i128) * (gp as i128) + ((SCALE - alpha) as i128) * (fi as i128);
        proof {
            lemma_div_trunc_bounds(
                num as int,
                SCALE as int,
                -0x2000_0000_0000_0000int,
                0x2000_0000_0000_0000int,
            );
        }
        let c: i128 = num / (SCALE as i128);
        let ci: i64 = c as i64;
        let gi: i64 = if fi >= ci {
            fi
        } else {
            ci
        };
        g.push(gi);
        i += 1;
    }
    g
}

/// The truncated mean of the window `s[a ..= b]`.
pub open spec fn spec_local_mean(s: Seq<i64>, a: int, b: int) -> int {
    div_trunc(sum(s.subrange(a, b + 1)), b + 1 - a)
}

/// Computes the truncated mean of the inclusive window `f[a ..= b]`.
fn local_mean(f: &Vec<i64>, a: usize, b: usize) -> (r: i64)
    requires
        a <= b < f@.len(),
        f@.len() <= LEN_LIMIT,
        forall|k: int| 0 <= k < f@.len() ==> -VALUE_LIMIT <= #[trigger] f@[k] <= VALUE_LIMIT,
    ensures
        r == spec_local_mean(f@, a as int, b as int),
        -VALUE_LIMIT <= r <= VALUE_LIMIT,
{
    let mut acc: i128 = 0;
    let mut j: usize = a;
    proof {
        assert(f@.subrange(a as int, a as int) =~= Seq::<i64>::empty());
    }
    while j <= b
        invariant
            a <= j <= b + 1,
            b < f@.len(),
            f@.len() <= LEN_LIMIT,
            forall|k: int| 0 <= k < f@.len() ==> -VALUE_LIMIT <= #[trigger] f@[k] <= VALUE_LIMIT,
            acc == sum(f@.subrange(a as int, j as int)),
            -0x2000_0000_0000_0000int * ((j - a) as int) <= acc <= 0x2000_0000_0000_0000int * ((j
                - a) as int),
        decreases b + 1 - j,
    {
        proof {
            lemma_sum_extend_window(f@, a as int, j as int);
        }
        acc = acc + (f[j] as i128);
        j += 1;
    }
    let count: i128 = (b - a + 1) as i128;
    proof {
        lemma_div_trunc_bounds(
            acc as int,
            count as int,
            -0x2000_0000_0000_0000int,
            0x2000_0000_0000_0000int,
        );
    }
    let q: i128 = acc / count;
    q as i64
}

/// The peak-picking decision at index `i` of the standardized novelty
/// sequence `s`: inside the admissible range, a strict two-neighbor local
/// maximum, at least `delta` above the truncated mean of the window of
/// half-width `w·m` around `i` (clamped to the sequence), and at or above
/// the adaptive threshold.
pub open spec fn spec_is_peak(s: Seq<i64>, w: int, m: int, delta: int, alpha: int, i: int) -> bool {
    let n = s.len() as int;
    let lo = if i - w * m >= 0 {
        i - w * m
    } else {
        0
    };
    let hi = if i + w * m <= n - 1 {
        i + w * m
    } else {
        n - 1
    };
    &&& w <= i
    &&& i + w < n
    &&& s[i] > s[i - 1]
    &&& s[i] > s[i + 1]
    &&& s[i] >= spec_local_mean(s, lo, hi) + delta
    &&& s[i] >= g_at(s, alpha, i)
}

/// Standardizes a novelty function and flags its onset frames.
///
/// `w` is the local-maximum half-window, `m` the mean-window multiplier,
/// `delta` the margin over the local mean (in `SCALE` units of the
/// standardized sequence), and `alpha` the adaptive-threshold smoothing
/// weight in `SCALE` units.
///
/// A frame is flagged exactly when `spec_is_peak` holds of it on the
/// standardized sequence; frames within `w` of either boundary are never
/// flagged. Zero `w` or `m`, or `alpha` outside `[0, SCALE]`, is an
/// invalid parameter; an empty or zero-variance input is degenerate.
pub fn peak_picking(f: &Vec<i64>, w: usize, m: usize, delta: i64, alpha: i64) -> (r: Result<
    Vec<bool>,
    AnalysisError,
>)
    requires
        f@.len() <= LEN_LIMIT,
        forall|i: int| 0 <= i < f@.len() ==> -INPUT_LIMIT <= #[trigger] f@[i] <= INPUT_LIMIT,
        w * m <= LEN_LIMIT,
    ensures
        match r {
            Ok(flags) => {
                &&& w >= 1 && m >= 1 && 0 <= alpha <= SCALE
                &&& f@.len() >= 1 && spec_variance(f@) > 0
                &&& flags@.len() == f@.len()
                &&& forall|i: int|
                    0 <= i < flags@.len() ==> #[trigger] flags@[i] == spec_is_peak(
                        spec_standardize_seq(f@),
                        w as int,
                        m as int,
                        delta as int,
                        alpha as int,
                        i,
                    )
                &&& forall|i: int|
                    0 <= i < flags@.len() && (i < w || i + w >= flags@.len())
                        ==> !(#[trigger] flags@[i])
            },
            Err(e) => {
                &&& (e == AnalysisError::InvalidParameter <==> (w == 0 || m == 0 || alpha < 0
                    || alpha > SCALE))
                &&& (e == AnalysisError::DegenerateInput ==> f@.len() == 0 || spec_variance(f@)
                    == 0)
            },
        },
        r is Err <==> (w == 0 || m == 0 || alpha < 0 || alpha > SCALE || f@.len() == 0
            || spec_variance(f@) == 0),
{
    if w == 0 || m == 0 || alpha < 0 || alpha > SCALE {
        return Err(AnalysisError::InvalidParameter);
    }
    let s = match standardize(f) {
        Ok(s) => s,
        Err(e) => {
            return Err(e);
        },
    };
    let ghost sseq = spec_standardize_seq(f@);
    let n = s.len();
    let g = adaptive_threshold(&s, alpha);
    let wm: usize = w * m;
    let mut flags: Vec<bool> = Vec::new();
    let mut i: usize = 0;
    while i < n
        invariant
            n == s@.len(),
            s@ == sseq,
            sseq == spec_standardize_seq(f@),
            n == f@.len(),
            1 <= n <= LEN_LIMIT,
            1 <= w,
            1 <= m,
            wm == w * m,
            wm <= LEN_LIMIT,
            0 <= alpha <= SCALE,
            forall|k: int| 0 <= k < s@.len() ==> -VALUE_LIMIT <= #[trigger] s@[k] <= VALUE_LIMIT,
            g@.len() == n,
            forall|k: int| 0 <= k < n ==> #[trigger] g@[k] == g_at(s@, alpha as int, k),
            i <= n,
            flags@.len() == i,
            forall|k: int|
                0 <= k < i ==> #[trigger] flags@[k] == spec_is_peak(
                    sseq,
                    w as int,
                    m as int,
                    delta as int,
                    alpha as int,
                    k,
                ),
        decreases n - i,
    {
        if i < w || i + w >= n {
            flags.push(false);
        } else {
            let a: usize = if i >= wm {
                i - wm
            } else {
                0
            };
            let b: usize = if i + wm <= n - 1 {
                i + wm
            } else {
                n - 1
            };
            let lm = local_mean(&s, a, b);
            let is_local_max = s[i] > s[i - 1] && s[i] > s[i + 1];
            let is_above_mean = (s[i] as i128) >= (lm as i128) + (delta as i128);
            let is_above_threshold = s[i] >= g[i];
            flags.push(is_local_max && is_above_mean && is_above_threshold);
        }
        i += 1;
    }
    Ok(flags)
}

/// The indices of the flagged frames, in increasing order — the frame-level
/// onset report that callers convert to times or align with pitch
/// estimates.
pub fn onset_frames(pp: &Vec<bool>) -> (r: Vec<usize>)
    ensures
        forall|a: int, b: int| 0 <= a < b < r@.len() ==> r@[a] < r@[b],
        forall|k: int| 0 <= k < r@.len() ==> r@[k] < pp@.len() && pp@[#[trigger] r@[k] as int],
        forall|i: int|
            0 <= i < pp@.len() && #[trigger] pp@[i] ==> exists|k: int|
                0 <= k < r@.len() && #[trigger] r@[k] == i,
{
    let mut r: Vec<usize> = Vec::new();
    let mut i: usize = 0;
    while i < pp.len()
        invariant
            i <= pp@.len(),
            forall|a: int, b: int| 0 <= a < b < r@.len() ==> r@[a] < r@[b],
            forall|k: int| 0 <= k < r@.len() ==> r@[k] < i && pp@[#[trigger] r@[k] as int],
            forall|j: int|
                0 <= j < i && #[trigger] pp@[j] ==> exists|k: int|
                    0 <= k < r@.len() && #[trigger] r@[k] == j,
        decreases pp@.len() - i,
    {
        if pp[i] {
            let ghost old_r = r@;
            r.push(i);
            proof {
                assert forall|j: int| 0 <= j < i + 1 && #[trigger] pp@[j] implies exists|k: int|
                    0 <= k < r@.len() && #[trigger] r@[k] == j by {
                    if j == i {
                        assert(r@[r@.len() - 1] == j);
                    } else {
                        let k0 = choose|k: int| 0 <= k < old_r.len() && #[trigger] old_r[k] == j;
                        assert(r@[k0] == j);
                    }
                }
            }
        }
        i += 1;
    }
    r
}

/// How far around the rescaled onset frame the note alignment may look for
/// a pitch estimate.
pub const GUESS_WINDOW: usize = 3;

/// Distance between an estimate position and the rescaled onset frame.
pub open spec fn frame_dist(j: int, frame: int) -> int {
    if j >= frame {
        j - frame
    } else {
        frame - j
    }
}

/// Position `j` holds the pitch estimate nearest to `frame` within the
/// window `[lo, hi)`: an estimate is present there, no estimate in the
/// window is strictly closer, and on a tie of distances the preceding
/// (lower) position wins, so `j` is the least position at minimal
/// distance.
pub open spec fn is_nearest_estimate(
    notes: Seq<Option<Note>>,
    lo: int,
    hi: int,
    frame: int,
    j: int,
) -> bool {
    &&& lo <= j < hi <= notes.len()
    &&& notes[j] is Some
    &&& forall|k: int|
        lo <= k < hi && (#[trigger] notes[k]) is Some ==> frame_dist(k, frame) >= frame_dist(
            j,
            frame,
        )
    &&& forall|k: int|
        lo <= k < j && (#[trigger] notes[k]) is Some ==> frame_dist(k, frame) > frame_dist(
            j,
            frame,
        )
}

/// Some estimate is present in the window `[lo, hi)`.
pub open spec fn has_estimate(notes: Seq<Option<Note>>, lo: int, hi: int) -> bool {
    exists|j: int| lo <= j < hi && (#[trigger] notes[j]) is Some
}

/// The estimate in `[lo, hi)` nearest to `frame`, ties to the preceding
/// position; nothing when the window holds no estimate.
pub open spec fn pick_estimate(notes: Seq<Option<Note>>, lo: int, hi: int, frame: int) -> Option<
    Note,
> {
    if hi <= notes.len() && has_estimate(notes, lo, hi) {
        notes[choose|j: int| is_nearest_estimate(notes, lo, hi, frame, j)]
    } else {
        None
    }
}

/// At most one position is the nearest estimate of a window.
pub proof fn lemma_nearest_estimate_unique(
    notes: Seq<Option<Note>>,
    lo: int,
    hi: int,
    frame: int,
    i: int,
    j: int,
)
    requires
        is_nearest_estimate(notes, lo, hi, frame, i),
        is_nearest_estimate(notes, lo, hi, frame, j),
    ensures
        i == j,
{
    if i < j {
        assert(frame_dist(i, frame) > frame_dist(j, frame));
        assert(frame_dist(i, frame) >= frame_dist(j, frame));
    }
    if j < i {
        assert(frame_dist(j, frame) > frame_dist(i, frame));
        assert(frame_dist(j, frame) >= frame_dist(i, frame));
    }
}

/// The aligned notes of the first `k` frames: for each flagged frame, in
/// order, the pitch estimate nearest to the frame's position rescaled
/// onto the pitch-estimate grid, looking no further than `GUESS_WINDOW`;
/// flagged frames with no estimate nearby contribute nothing.
pub open spec fn spec_aligned_notes(pp: Seq<bool>, notes: Seq<Option<Note>>, k: int) -> Seq<
    Option<Note>,
>
    decreases k,
{
    if k <= 0 {
        Seq::empty()
    } else {
        let rest = spec_aligned_notes(pp, notes, k - 1);
        if pp[k - 1] {
            let frame = notes.len() * (k - 1) / (pp.len() as int);
            let lo = if frame - (GUESS_WINDOW - 1) >= 0 {
                frame - (GUESS_WINDOW - 1)
            } else {
                0
            };
            let hi = if frame + GUESS_WINDOW <= notes.len() {
                frame + GUESS_WINDOW
            } else {
                notes.len() as int
            };
            match pick_estimate(notes, lo, hi, frame) {
                Some(nt) => rest.push(Some(nt)),
                None => rest,
            }
        } else {
            rest
        }
    }
}

/// Distance between an estimate position and the rescaled onset frame.
fn frame_distance(j: usize, frame: usize) -> (r: usize)
    ensures
        r == frame_dist(j as int, frame as int),
{
    if j >= frame {
        j - frame
    } else {
        frame - j
    }
}

/// Aligns each flagged onset frame with the nearest pitch estimate: the
/// frame index is rescaled onto the grid of the estimates, and among the
/// estimates within `GUESS_WINDOW` of that position the closest one is
/// taken, the preceding one on a tie. Onsets with no estimate nearby are
/// dropped.
pub fn peak_picking_to_notes(pp: &Vec<bool>, notes: &Vec<Option<Note>>) -> (r: Vec<Option<Note>>)
    requires
        notes@.len() * pp@.len() <= usize::MAX,
    ensures
        r@ == spec_aligned_notes(pp@, notes@, pp@.len() as int),
{
    let mut r: Vec<Option<Note>> = Vec::new();
    let mut i: usize = 0;
    while i < pp.len()
        invariant
            notes@.len() * pp@.len() <= usize::MAX,
            i <= pp@.len(),
            r@ == spec_aligned_notes(pp@, notes@, i as int),
        decreases pp@.len() - i,
    {
        if pp[i] {
            proof {
                vstd::arithmetic::mul::lemma_mul_inequality(
                    i as int,
                    pp@.len() as int,
                    notes@.len() as int,
                );
                vstd::arithmetic::mul::lemma_mul_is_commutative(i as int, notes@.len() as int);
                vstd::arithmetic::mul::lemma_mul_is_commutative(
                    pp@.len() as int,
                    notes@.len() as int,
                );
            }
            let frame = frame_to_frames(pp.len(), notes.len(), i);
            let lo: usize = if frame >= GUESS_WINDOW - 1 {
                frame - (GUESS_WINDOW - 1)
            } else {
                0
            };
            let hi: usize = if notes.len() >= GUESS_WINDOW && frame <= notes.len() - GUESS_WINDOW {
                frame + GUESS_WINDOW
            } else {
                notes.len()
            };
            let mut found: Option<Note> = None;
            let mut best: usize = 0;
            let mut j: usize = lo;
            while j < hi
                invariant
                    lo <= j,
                    j <= hi || j == lo,
                    hi <= notes@.len(),
                    match found {
                        Option::None => forall|k: int|
                            lo <= k < j ==> !((#[trigger] notes@[k]) is Some),
                        Option::Some(nt) => {
                            &&& lo <= best < j
                            &&& notes@[best as int] == Option::Some(nt)
                            &&& forall|k: int|
                                lo <= k < j && (#[trigger] notes@[k]) is Some ==> frame_dist(
                                    k,
                                    frame as int,
                                ) >= frame_dist(best as int, frame as int)
                            &&& forall|k: int|
                                lo <= k < best && (#[trigger] notes@[k]) is Some ==> frame_dist(
                                    k,
                                    frame as int,
                                ) > frame_dist(best as int, frame as int)
                        },
                    },
                decreases hi - j,
            {
                match notes[j] {
                    Some(nt) => {
                        let closer = match found {
                            None => true,
                            Some(_) => frame_distance(j, frame) < frame_distance(best, frame),
                        };
                        if closer {
                            best = j;
                            found = Some(nt);
                        }
                    },
                    None => {},
                }
                j += 1;
            }
            proof {
                match found {
                    Option::None => {
                        assert(!has_estimate(notes@, lo as int, hi as int));
                    },
                    Option::Some(nt) => {
                        assert(is_nearest_estimate(
                            notes@,
                            lo as int,
                            hi as int,
                            frame as int,
                            best as int,
                        ));
                        assert(has_estimate(notes@, lo as int, hi as int));
                        let c = choose|w: int|
                            is_nearest_estimate(notes@, lo as int, hi as int, frame as int, w);
                        lemma_nearest_estimate_unique(
                            notes@,
                            lo as int,
                            hi as int,
                            frame as int,
                            c,
                            best as int,
                        );
                        assert(pick_estimate(notes@, lo as int, hi as int, frame as int)
                            == Option::Some(nt));
                    },
                }
            }
            match found {
                Some(nt) => {
                    r.push(Some(nt));
                },
                None => {},
            }
        }
        i += 1;
    }
    r
}

} // verus!
