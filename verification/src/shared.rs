//! Standardization of a novelty function: shift to zero mean and rescale to
//! unit variance before peak-picking. Real values are modeled in fixed
//! point: an `i64` counts units of `1/SCALE`, so one standard deviation of
//! the output is `SCALE`. A constant (zero-variance) or empty input has no
//! standardization and is reported as degenerate instead of propagating an
//! undefined value.

use vstd::prelude::*;

use crate::arith::div_trunc;
use crate::arith::is_sqrt_floor;
use crate::arith::isqrt;
use crate::arith::lemma_div_trunc_abs_le;
use crate::arith::lemma_div_trunc_bounds;
use crate::arith::lemma_div_trunc_exact;
use crate::arith::lemma_sqrt_floor_is_sqrt;
use crate::arith::lemma_sqrt_floor_unique;
use crate::arith::lemma_sum_constant;
use crate::arith::lemma_sum_extend;
use crate::arith::sqrt_floor;
use crate::arith::sum;
use crate::errors::AnalysisError;

verus! {

/// The fixed-point unit: one whole unit of a modeled real value.
pub const SCALE: i64 = 1048576;

/// Largest magnitude a raw novelty value may have, and the input bound of
/// `standardize`: it keeps every intermediate sum and product within the
/// machine integers used below.
pub const INPUT_LIMIT: i64 = 0x100_0000_0000;

/// Largest magnitude a standardized value can have: a deviation of at most
/// `2·INPUT_LIMIT` times `SCALE`, over a standard deviation of at least 1.
pub const VALUE_LIMIT: i64 = 0x2000_0000_0000_0000;

/// Largest length `standardize` accepts, so that sums of squared
/// deviations stay within 128-bit arithmetic.
pub const LEN_LIMIT: usize = 0x8000_0000;

/// The truncated mean of a fixed-point sequence.
pub open spec fn spec_mean(s: Seq<i64>) -> int {
    div_trunc(sum(s), s.len() as int)
}

/// Sum of squared deviations from `mu`.
pub open spec fn sum_sq_dev(s: Seq<i64>, mu: int) -> int
    decreases s.len(),
{
    if s.len() == 0 {
        0
    } else {
        sum_sq_dev(s.drop_last(), mu) + (s.last() - mu) * (s.last() - mu)
    }
}

/// The truncated variance of a fixed-point sequence.
pub open spec fn spec_variance(s: Seq<i64>) -> int {
    div_trunc(sum_sq_dev(s, spec_mean(s)), s.len() as int)
}

/// The integer standard deviation of a fixed-point sequence.
pub open spec fn spec_std(s: Seq<i64>) -> int {
    sqrt_floor(spec_variance(s))
}

/// Element `k` of the standardized sequence: the deviation from the mean,
/// brought to `SCALE` units per standard deviation.
pub open spec fn spec_standardized_at(s: Seq<i64>, k: int) -> int {
    div_trunc((s[k] - spec_mean(s)) * (SCALE as int), spec_std(s))
}

/// The standardized sequence as a whole.
pub open spec fn spec_standardize_seq(s: Seq<i64>) -> Seq<i64> {
    Seq::new(s.len(), |k: int| spec_standardized_at(s, k) as i64)
}

/// A sum of squared deviations is never negative.
pub proof fn lemma_sum_sq_dev_nonneg(s: Seq<i64>, mu: int)
    ensures
        sum_sq_dev(s, mu) >= 0,
    decreases s.len(),
{
    if s.len() > 0 {
        lemma_sum_sq_dev_nonneg(s.drop_last(), mu);
        let d = s.last() - mu;
        assert(d * d >= 0) by (nonlinear_arith);
    }
}

/// Extending a prefix by one element grows the squared-deviation sum by
/// that element's squared deviation.
pub proof fn lemma_sum_sq_dev_extend(s: Seq<i64>, mu: int, i: int)
    requires
        0 <= i < s.len(),
    ensures
        sum_sq_dev(s.subrange(0, i + 1), mu) == sum_sq_dev(s.subrange(0, i), mu) + (s[i] - mu) * (
        s[i] - mu),
{
    let t = s.subrange(0, i + 1);
    assert(t.drop_last() =~= s.subrange(0, i));
}

/// A constant sequence standardizes to nothing: its variance is zero, so
/// `standardize` must reject it as degenerate rather than divide by zero.
pub proof fn lemma_constant_sequence_is_degenerate(s: Seq<i64>)
    requires
        s.len() >= 1,
        forall|i: int| 0 <= i < s.len() ==> #[trigger] s[i] == s[0],
    ensures
        spec_variance(s) == 0,
{
    let n = s.len() as int;
    let v = s[0] as int;
    lemma_sum_constant(s);
    vstd::arithmetic::mul::lemma_mul_is_commutative(n, v);
    lemma_div_trunc_exact(v, n);
    assert(spec_mean(s) == v);
    lemma_sum_sq_dev_constant(s, v);
    assert(spec_variance(s) == div_trunc(0, n));
    vstd::arithmetic::div_mod::lemma_div_basics_1(n);
}

/// Squared deviations of a constant sequence from its own value sum to
/// zero.
proof fn lemma_sum_sq_dev_constant(s: Seq<i64>, v: int)
    requires
        forall|i: int| 0 <= i < s.len() ==> #[trigger] s[i] == v,
    ensures
        sum_sq_dev(s, v) == 0,
    decreases s.len(),
{
    if s.len() > 0 {
        lemma_sum_sq_dev_constant(s.drop_last(), v);
        assert(s[s.len() - 1] == v);
        assert(s.last() - v == 0);
        assert(0int * 0int == 0) by (nonlinear_arith);
    }
}

/// Standardizes a fixed-point sequence: subtracts the truncated mean from
/// every element and rescales so one standard deviation becomes `SCALE`.
/// An empty or constant-variance input is reported as degenerate — exactly
/// when the integer variance of the input is zero.
pub fn standardize(f: &Vec<i64>) -> (r: Result<Vec<i64>, AnalysisError>)
    requires
        f@.len() <= LEN_LIMIT,
        forall|i: int| 0 <= i < f@.len() ==> -INPUT_LIMIT <= #[trigger] f@[i] <= INPUT_LIMIT,
    ensures
        match r {
            Ok(out) => {
                &&& f@.len() >= 1
                &&& spec_variance(f@) > 0
                &&& out@.len() == f@.len()
                &&& forall|k: int|
                    0 <= k < out@.len() ==> #[trigger] out@[k] == spec_standardized_at(f@, k)
                &&& forall|k: int|
                    0 <= k < out@.len() ==> -VALUE_LIMIT <= #[trigger] out@[k] <= VALUE_LIMIT
                &&& out@ == spec_standardize_seq(f@)
            },
            Err(e) => {
                &&& e == AnalysisError::DegenerateInput
                &&& (f@.len() == 0 || spec_variance(f@) == 0)
            },
        },
{
    let n = f.len();
    if n == 0 {
        return Err(AnalysisError::DegenerateInput);
    }
    // truncated mean
    let mut acc: i128 = 0;
    let mut i: usize = 0;
    while i < n
        invariant
            n == f@.len(),
            1 <= n <= LEN_LIMIT,
            forall|k: int| 0 <= k < f@.len() ==> -INPUT_LIMIT <= #[trigger] f@[k] <= INPUT_LIMIT,
            i <= n,
            acc == sum(f@.subrange(0, i as int)),
            -0x100_0000_0000int * (i as int) <= acc <= 0x100_0000_0000int * (i as int),
        decreases n - i,
    {
        proof {
            lemma_sum_extend(f@, i as int);
        }
        acc = acc + (f[i] as i128);
        i += 1;
    }
    proof {
        assert(f@.subrange(0, n as int) =~= f@);
        lemma_div_trunc_bounds(acc as int, n as int, -0x100_0000_0000int, 0x100_0000_0000int);
    }
    let mean: i128 = acc / (n as i128);
    proof {
        assert(mean == spec_mean(f@));
    }
    // truncated variance
    let mut acc2: i128 = 0;
    i = 0;
    while i < n
        invariant
            n == f@.len(),
            1 <= n <= LEN_LIMIT,
            forall|k: int| 0 <= k < f@.len() ==> -INPUT_LIMIT <= #[trigger] f@[k] <= INPUT_LIMIT,
            -INPUT_LIMIT <= mean <= INPUT_LIMIT,
            i <= n,
            acc2 == sum_sq_dev(f@.subrange(0, i as int), mean as int),
            0 <= acc2 <= 0x40000_0000_0000_0000_0000int * (i as int),
        decreases n - i,
    {
        proof {
            lemma_sum_sq_dev_extend(f@, mean as int, i as int);
        }
        let d: i128 = (f[i] as i128) - mean;
        proof {
            assert(0 <= d * d <= 0x40000_0000_0000_0000_0000int) by (nonlinear_arith)
                requires
                    -0x200_0000_0000int <= d <= 0x200_0000_0000int,
            ;
        }
        acc2 = acc2 + d * d;
        i += 1;
    }
    proof {
        assert(f@.subrange(0, n as int) =~= f@);
        assert(acc2 == sum_sq_dev(f@, spec_mean(f@)));
        vstd::arithmetic::div_mod::lemma_div_pos_is_pos(acc2 as int, n as int);
        lemma_div_trunc_bounds(acc2 as int, n as int, 0, 0x40000_0000_0000_0000_0000int);
    }
    let variance: i128 = acc2 / (n as i128);
    proof {
        assert(variance == spec_variance(f@));
    }
    let std: u128 = isqrt(variance as u128);
    proof {
        assert(std as int == spec_std(f@));
    }
    if std == 0 {
        proof {
            assert(is_sqrt_floor(variance as int, 0));
            assert(variance < 1);
        }
        return Err(AnalysisError::DegenerateInput);
    }
    proof {
        assert(spec_std(f@) >= 1);
        assert(spec_variance(f@) >= 1 * 1) by (nonlinear_arith)
            requires
                is_sqrt_floor(spec_variance(f@), spec_std(f@)),
                spec_std(f@) >= 1,
        ;
    }
    // rescale deviations to SCALE units per standard deviation
    let std_i: i128 = std as i128;
    let mut out: Vec<i64> = Vec::new();
    i = 0;
    while i < n
        invariant
            n == f@.len(),
            1 <= n <= LEN_LIMIT,
            forall|k: int| 0 <= k < f@.len() ==> -INPUT_LIMIT <= #[trigger] f@[k] <= INPUT_LIMIT,
            -INPUT_LIMIT <= mean <= INPUT_LIMIT,
            mean == spec_mean(f@),
            1 <= std_i,
            std_i == spec_std(f@),
            i <= n,
            out@.len() == i,
            forall|k: int| 0 <= k < i ==> #[trigger] out@[k] == spec_standardized_at(f@, k),
            forall|k: int| 0 <= k < i ==> -VALUE_LIMIT <= #[trigger] out@[k] <= VALUE_LIMIT,
        decreases n - i,
    {
        let num: i128 = ((f[i] as i128) - mean) * (SCALE as i128);
        proof {
            assert(-0x2000_0000_0000_0000int <= num <= 0x2000_0000_0000_0000int)
                by (nonlinear_arith)
                requires
                    num == ((f@[i as int] as int) - (mean as int)) * (SCALE as int),
                    -0x100_0000_0000int <= f@[i as int] as int <= 0x100_0000_0000int,
                    -0x100_0000_0000int <= mean as int <= 0x100_0000_0000int,
                    SCALE == 1048576,
            ;
            lemma_div_trunc_abs_le(num as int, std_i as int);
        }
        let q: i128 = num / std_i;
        out.push(q as i64);
        i += 1;
    }
    proof {
        assert(out@ =~= spec_standardize_seq(f@));
    }
    Ok(out)
}

} // verus!
