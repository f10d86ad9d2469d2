use transcriber::errors::AnalysisError;
use transcriber::flux::dominant_bins;
use transcriber::flux::first_onset_index;
use transcriber::flux::flux_onsets;
use transcriber::flux::Spectrogram;

#[test]
fn spectral_flux_weighs_rectified_increases() {
    // two bins over three frames; only energy increases count
    let rows: Vec<Vec<i64>> = vec![vec![1, 5], vec![4, 2], vec![4, 6]];
    let s = Spectrogram::new(rows, 2).unwrap();
    let weights: Vec<i64> = vec![2, 3];
    let flux = s.spectral_flux(&weights);
    // frame 0 has no predecessor; frame 1: 2*(4-1)^2, the drop ignored;
    // frame 2: 3*(6-2)^2, the flat bin contributes nothing
    assert_eq!(flux, vec![0, 18, 48]);
}

#[test]
fn spectrogram_rejects_ragged_rows() {
    let ragged: Vec<Vec<i64>> = vec![vec![1, 2], vec![3]];
    assert_eq!(
        Spectrogram::new(ragged, 2).unwrap_err(),
        AnalysisError::InvalidParameter
    );
}

#[test]
fn flux_onsets_compare_against_moving_average() {
    // window size 4 gives half-width 2
    let flux: Vec<i64> = vec![0, 0, 12, 0, 0, 0];
    let onsets = flux_onsets(&flux, 4);
    // index 2 exceeds its window mean; its neighbors do not
    assert_eq!(onsets, vec![false, false, true, false, false, false]);
}

#[test]
fn first_onset_position() {
    let onsets: Vec<bool> = vec![false, false, true, true, false];
    assert_eq!(first_onset_index(&onsets), 2);
    let silent: Vec<bool> = vec![false, false];
    assert_eq!(first_onset_index(&silent), 2);
    let empty: Vec<bool> = Vec::new();
    assert_eq!(first_onset_index(&empty), 0);
}

#[test]
fn dominant_bin_takes_the_last_maximum() {
    let rows: Vec<Vec<i64>> = vec![vec![3, 9, 9, 1], vec![7, 2, 0, 7], vec![5, 1, 2, 3]];
    let s = Spectrogram::new(rows, 4).unwrap();
    let bins = dominant_bins(&s);
    assert_eq!(bins, vec![2, 3, 0]);
}
