//! Frame geometry: how a sample sequence is cut into fixed-size,
//! overlapping analysis frames, and how indices convert between frame
//! grids of different resolutions.

use vstd::prelude::*;

verus! {

/// Number of full frames of `frame_size` samples that fit in a sequence of
/// `len` samples when consecutive frames start `hop_size` samples apart.
/// Frames that would run past the end are dropped, so a sequence shorter
/// than one frame yields no frames at all.
pub open spec fn spec_num_frames(len: int, frame_size: int, hop_size: int) -> int {
    if frame_size > len {
        0
    } else {
        (len - frame_size) / hop_size + 1
    }
}

/// Computes how many full frames a sequence of `len` samples yields.
pub fn num_frames(len: usize, frame_size: usize, hop_size: usize) -> (r: usize)
    requires
        frame_size >= 1,
        hop_size >= 1,
    ensures
        r == spec_num_frames(len as int, frame_size as int, hop_size as int),
{
    if frame_size > len {
        0
    } else {
        (len - frame_size) / hop_size + 1
    }
}

/// Slices a sample sequence into the ordered set of full, overlapping
/// frames: frame `k` is the `frame_size` samples starting at `k·hop_size`.
/// An input shorter than one frame yields an empty result rather than an
/// error, so downstream stages can handle "no frames" uniformly.
pub fn make_frames<T: Copy>(samples: &Vec<T>, frame_size: usize, hop_size: usize) -> (r: Vec<
    Vec<T>,
>)
    requires
        frame_size >= 1,
        hop_size >= 1,
    ensures
        r@.len() == spec_num_frames(samples@.len() as int, frame_size as int, hop_size as int),
        forall|k: int|
            0 <= k < r@.len() ==> #[trigger] r@[k]@ == samples@.subrange(
                k * hop_size,
                k * hop_size + frame_size,
            ),
{
    let mut r: Vec<Vec<T>> = Vec::new();
    let n = samples.len();
    let total = num_frames(n, frame_size, hop_size);
    proof {
        if frame_size <= n {
            vstd::arithmetic::div_mod::lemma_div_pos_is_pos(n - frame_size, hop_size as int);
            vstd::arithmetic::div_mod::lemma_fundamental_div_mod(n - frame_size, hop_size as int);
            vstd::arithmetic::div_mod::lemma_mod_bound(n - frame_size, hop_size as int);
            vstd::arithmetic::mul::lemma_mul_is_commutative(
                hop_size as int,
                (n - frame_size) / (hop_size as int),
            );
        }
    }
    let mut k: usize = 0;
    while k < total
        invariant
            total == spec_num_frames(n as int, frame_size as int, hop_size as int),
            n == samples@.len(),
            frame_size >= 1,
            hop_size >= 1,
            k <= total,
            total >= 1 ==> (total - 1) * hop_size + frame_size <= n,
            r@.len() == k,
            forall|j: int|
                0 <= j < k ==> #[trigger] r@[j]@ == samples@.subrange(
                    j * hop_size,
                    j * hop_size + frame_size,
                ),
        decreases total - k,
    {
        proof {
            assert(k * hop_size <= (total - 1) * hop_size) by (nonlinear_arith)
                requires
                    k <= total - 1,
                    hop_size >= 1,
            ;
        }
        let start = k * hop_size;
        let mut frame: Vec<T> = Vec::new();
        let mut j: usize = 0;
        while j < frame_size
            invariant
                start == k * hop_size,
                start + frame_size <= n,
                n == samples@.len(),
                j <= frame_size,
                frame@.len() == j,
                forall|t: int| 0 <= t < j ==> frame@[t] == samples@[start + t],
            decreases frame_size - j,
        {
            frame.push(samples[start + j]);
            j += 1;
        }
        proof {
            assert(frame@ =~= samples@.subrange(
                k * hop_size,
                k * hop_size + frame_size,
            ));
        }
        r.push(frame);
        k += 1;
    }
    r
}

/// Rescales a frame index from a grid of `frames_a` frames onto a grid of
/// `frames_b` frames, keeping the relative position.
pub fn frame_to_frames(frames_a: usize, frames_b: usize, frame: usize) -> (r: usize)
    requires
        frames_a > 0,
        frames_b * frame <= usize::MAX,
    ensures
        r == frames_b * frame / (frames_a as int),
{
    frames_b * frame / frames_a
}

} // verus!
