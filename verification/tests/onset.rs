use transcriber::errors::AnalysisError;
use transcriber::onset_detection::novelty_from_bins;
use transcriber::onset_detection::phase_novelty_frames;

#[test]
fn fewer_than_three_frames_yield_no_novelty() {
    // the first two frames are prediction history
    assert_eq!(phase_novelty_frames(0), 0);
    assert_eq!(phase_novelty_frames(1), 0);
    assert_eq!(phase_novelty_frames(2), 0);
    assert_eq!(phase_novelty_frames(3), 1);
    assert_eq!(phase_novelty_frames(10), 8);
}

#[test]
fn rectified_novelty_never_exceeds_the_full_one() {
    // two frames of per-bin distances with mixed masks
    let dist: Vec<Vec<i64>> = vec![vec![5, 3, 7, 2], vec![10, 0, 4, 6]];
    let mask: Vec<Vec<bool>> = vec![
        vec![true, false, true, false],
        vec![false, true, true, true],
    ];
    let (cd, rcd) = novelty_from_bins(&dist, &mask).unwrap();
    assert_eq!(cd, vec![17, 20]);
    assert_eq!(rcd, vec![12, 10]);
    for (r, c) in rcd.iter().zip(cd.iter()) {
        assert!(r <= c);
    }
}

#[test]
fn empty_bin_matrix_yields_empty_novelty() {
    let dist: Vec<Vec<i64>> = Vec::new();
    let mask: Vec<Vec<bool>> = Vec::new();
    let (cd, rcd) = novelty_from_bins(&dist, &mask).unwrap();
    assert!(cd.is_empty());
    assert!(rcd.is_empty());
}

#[test]
fn ragged_or_negative_bins_are_invalid() {
    let dist: Vec<Vec<i64>> = vec![vec![1, 2]];
    let mask: Vec<Vec<bool>> = vec![vec![true]];
    assert_eq!(
        novelty_from_bins(&dist, &mask).unwrap_err(),
        AnalysisError::InvalidParameter
    );
    let neg: Vec<Vec<i64>> = vec![vec![-1, 2]];
    let m2: Vec<Vec<bool>> = vec![vec![true, true]];
    assert_eq!(
        novelty_from_bins(&neg, &m2).unwrap_err(),
        AnalysisError::InvalidParameter
    );
}
