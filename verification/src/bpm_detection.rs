//! Tempo estimation from an autocorrelated novelty function: find the lag
//! with the strongest autocorrelation, ignoring the short lags whose peaks
//! are artifacts of the zero-lag maximum. The winning lag divided by the
//! frame rate is the dominant period; the beats-per-minute figure follows
//! outside this module.

use vstd::prelude::*;

verus! {

/// Lags below this value are never considered: they sit in the flank of
/// the zero-lag autocorrelation peak and would win spuriously.
pub const MIN_LAG: usize = 10;

/// Scans the autocorrelation for the dominant lag: the first lag at or
/// beyond `MIN_LAG` holding the maximum positive value. Returns `None`
/// when no searched lag is positive — the estimate would be unreliable and
/// the caller must treat it as absent rather than divide by a zero lag.
pub fn find_dominant_lag(autocorr: &Vec<i64>) -> (r: Option<usize>)
    ensures
        match r {
            None => forall|lag: int| MIN_LAG <= lag < autocorr@.len() ==> autocorr@[lag] <= 0,
            Some(l) => {
                &&& MIN_LAG <= l < autocorr@.len()
                &&& autocorr@[l as int] > 0
                &&& forall|lag: int|
                    MIN_LAG <= lag < autocorr@.len() ==> autocorr@[lag] <= autocorr@[l as int]
                &&& forall|lag: int| MIN_LAG <= lag < l ==> autocorr@[lag] < autocorr@[l as int]
            },
        },
{
    let n = autocorr.len();
    let mut max_lag: usize = 0;
    let mut max_value: i64 = 0;
    let mut lag: usize = MIN_LAG;
    while lag < n
        invariant
            MIN_LAG <= lag,
            lag <= n || lag == MIN_LAG,
            n == autocorr@.len(),
            max_value >= 0,
            max_lag == 0 <==> max_value == 0,
            max_lag != 0 ==> MIN_LAG <= max_lag < lag && autocorr@[max_lag as int] == max_value,
            forall|k: int| MIN_LAG <= k < lag ==> autocorr@[k] <= max_value,
            forall|k: int| max_lag != 0 && MIN_LAG <= k < max_lag ==> autocorr@[k] < max_value,
            max_lag == 0 ==> forall|k: int| MIN_LAG <= k < lag ==> autocorr@[k] <= 0,
        decreases n - lag,
    {
        if autocorr[lag] > max_value {
            max_value = autocorr[lag];
            max_lag = lag;
        }
        lag += 1;
    }
    if max_lag == 0 {
        None
    } else {
        Some(max_lag)
    }
}

} // verus!
