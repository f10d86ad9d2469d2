use transcriber::bpm_detection::find_dominant_lag;

#[test]
fn sinusoid_autocorrelation_peaks_at_its_period() {
    // a pure 5 Hz sinusoid sampled at 100 Hz has period 20 samples; the
    // dominant autocorrelation lag (short lags excluded) matches it to
    // within one sample
    let sr: f64 = 100.0;
    let freq: f64 = 5.0;
    let n: usize = 200;
    let mut x: Vec<f64> = Vec::new();
    for i in 0..n {
        x.push((2.0 * std::f64::consts::PI * freq * (i as f64) / sr).sin());
    }
    // zero-padded autocorrelation, normalized by the padded length
    let mut ac: Vec<i64> = Vec::new();
    for lag in 0..n {
        let mut s: f64 = 0.0;
        for i in 0..(n - lag) {
            s += x[i] * x[i + lag];
        }
        ac.push((s / (2.0 * n as f64) * 1_000_000.0).round() as i64);
    }
    let lag = find_dominant_lag(&ac).unwrap();
    let period = sr / freq;
    assert!((lag as f64 - period).abs() <= 1.0);
}

#[test]
fn dominant_lag_takes_the_first_maximum() {
    // lags below 10 are ignored even when they hold the largest value
    let mut ac: Vec<i64> = vec![100, 90, 80, 70, 60, 50, 40, 30, 20, 10];
    ac.extend_from_slice(&[3, 7, 2, 7, 1]);
    assert_eq!(find_dominant_lag(&ac), Some(11));
}

#[test]
fn dominant_lag_absent_when_nothing_is_positive() {
    let ac: Vec<i64> = vec![5, 5, 5, 5, 5, 5, 5, 5, 5, 5, 0, -3, -1, 0];
    assert_eq!(find_dominant_lag(&ac), None);
    // too short to hold any searched lag
    let short: Vec<i64> = vec![9, 9, 9];
    assert_eq!(find_dominant_lag(&short), None);
}
