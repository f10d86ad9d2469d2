use transcriber::errors::AnalysisError;
use transcriber::notes::Note;
use transcriber::notes::NoteName;
use transcriber::peak_picking::adaptive_threshold;
use transcriber::peak_picking::onset_frames;
use transcriber::peak_picking::peak_picking;
use transcriber::peak_picking::peak_picking_to_notes;
use transcriber::shared::standardize;
use transcriber::shared::SCALE;

#[test]
fn standardize_exact_two_point_sequence() {
    // mean SCALE, deviations of exactly one standard deviation
    let f: Vec<i64> = vec![0, 2 * SCALE];
    let out = standardize(&f).unwrap();
    assert_eq!(out, vec![-SCALE, SCALE]);
}

#[test]
fn adaptive_threshold_decays_geometrically() {
    // an impulse followed by silence, smoothing one half: the threshold
    // halves at every step while the input stays below it
    let f: Vec<i64> = vec![4 * SCALE, 0, 0, 0];
    let g = adaptive_threshold(&f, SCALE / 2);
    assert_eq!(g, vec![4 * SCALE, 2 * SCALE, SCALE, SCALE / 2]);
}

#[test]
fn standardized_sequence_has_zero_mean_unit_variance() {
    // an arithmetic ramp in fixed point
    let f: Vec<i64> = vec![SCALE, 2 * SCALE, 3 * SCALE, 4 * SCALE];
    let out = standardize(&f).unwrap();
    assert_eq!(out.len(), 4);
    let n = out.len() as f64;
    let mean: f64 = out.iter().map(|&x| x as f64).sum::<f64>() / n;
    let var: f64 = out.iter().map(|&x| (x as f64 - mean) * (x as f64 - mean)).sum::<f64>() / n;
    let unit = SCALE as f64;
    // mean within a thousandth of a standard deviation of zero
    assert!(mean.abs() < unit / 1000.0);
    // standard deviation within a tenth of a percent of one unit
    let sd = var.sqrt();
    assert!((sd - unit).abs() < unit / 1000.0);
}

#[test]
fn standardize_constant_sequence_is_degenerate() {
    let f: Vec<i64> = vec![7 * SCALE, 7 * SCALE, 7 * SCALE];
    assert_eq!(standardize(&f).unwrap_err(), AnalysisError::DegenerateInput);
    let empty: Vec<i64> = Vec::new();
    assert_eq!(
        standardize(&empty).unwrap_err(),
        AnalysisError::DegenerateInput
    );
}

#[test]
fn peak_picking_flags_an_isolated_peak() {
    let f: Vec<i64> = vec![0, 0, 10 * SCALE, 0, 0];
    let flags = peak_picking(&f, 1, 1, 0, 0).unwrap();
    assert_eq!(flags, vec![false, false, true, false, false]);
}

#[test]
fn peak_picking_never_flags_near_boundaries() {
    // noisy input with peaks everywhere; for several lengths and
    // half-windows, no flag falls within w of either boundary
    for n in [5usize, 8, 13, 20] {
        for w in 1..(n / 2) {
            let mut f: Vec<i64> = Vec::new();
            for i in 0..n {
                let v: i64 = if i % 2 == 0 { 0 } else { (i as i64) * SCALE };
                f.push(v);
            }
            let flags = peak_picking(&f, w, 1, 0, 0).unwrap();
            assert_eq!(flags.len(), n);
            for i in 0..n {
                if i < w || i + w >= n {
                    assert!(!flags[i]);
                }
            }
        }
    }
}

#[test]
fn peak_picking_rejects_bad_parameters() {
    let f: Vec<i64> = vec![0, SCALE, 0];
    assert_eq!(
        peak_picking(&f, 0, 1, 0, 0).unwrap_err(),
        AnalysisError::InvalidParameter
    );
    assert_eq!(
        peak_picking(&f, 1, 0, 0, 0).unwrap_err(),
        AnalysisError::InvalidParameter
    );
    assert_eq!(
        peak_picking(&f, 1, 1, 0, -1).unwrap_err(),
        AnalysisError::InvalidParameter
    );
    assert_eq!(
        peak_picking(&f, 1, 1, 0, SCALE + 1).unwrap_err(),
        AnalysisError::InvalidParameter
    );
    let constant: Vec<i64> = vec![SCALE, SCALE, SCALE];
    assert_eq!(
        peak_picking(&constant, 1, 1, 0, 0).unwrap_err(),
        AnalysisError::DegenerateInput
    );
}

#[test]
fn onset_frames_lists_flagged_indices() {
    let pp: Vec<bool> = vec![false, true, false, false, true, true];
    assert_eq!(onset_frames(&pp), vec![1, 4, 5]);
    let none: Vec<bool> = vec![false, false];
    assert!(onset_frames(&none).is_empty());
}

#[test]
fn onsets_align_with_nearest_pitch_estimate() {
    let a4 = Note::new(440_000_000, 4, NoteName::A);
    let c3 = Note::new(130_810_000, 3, NoteName::C);
    // six onset frames map onto six estimates one-to-one; flagged frame 2
    // rescales to estimate position 2, whose nearest estimate sits at
    // position 3 (distance 1, against distance 2 for position 0)
    let pp: Vec<bool> = vec![false, false, true, false, false, false];
    let notes: Vec<Option<Note>> = vec![Some(c3), None, None, Some(a4), None, None];
    let aligned = peak_picking_to_notes(&pp, &notes);
    assert_eq!(aligned, vec![Some(a4)]);
    // with no estimate in reach, the onset contributes nothing
    let bare: Vec<Option<Note>> = vec![None, None, None, None, None, None];
    assert!(peak_picking_to_notes(&pp, &bare).is_empty());
}

#[test]
fn note_alignment_ties_prefer_the_preceding_estimate() {
    let a4 = Note::new(440_000_000, 4, NoteName::A);
    let c3 = Note::new(130_810_000, 3, NoteName::C);
    // estimates at positions 1 and 3 are both one step from position 2:
    // the preceding one wins
    let pp: Vec<bool> = vec![false, false, true, false, false, false];
    let notes: Vec<Option<Note>> = vec![None, Some(c3), None, Some(a4), None, None];
    let aligned = peak_picking_to_notes(&pp, &notes);
    assert_eq!(aligned, vec![Some(c3)]);
    // an estimate on the rescaled position itself beats both
    let exact: Vec<Option<Note>> = vec![None, Some(c3), Some(a4), Some(c3), None, None];
    assert_eq!(peak_picking_to_notes(&pp, &exact), vec![Some(a4)]);
    // a flagged frame rescaling to position 0: the estimate there wins
    // over a later one, not the latest in the window
    let first: Vec<bool> = vec![true];
    let spread: Vec<Option<Note>> = vec![Some(c3), None, Some(a4)];
    assert_eq!(peak_picking_to_notes(&first, &spread), vec![Some(c3)]);
}

#[test]
fn note_alignment_clamps_at_the_sequence_end() {
    let c3 = Note::new(130_810_000, 3, NoteName::C);
    // the flagged last frame rescales to the last estimate; the look
    // window is clamped to the estimate sequence
    let pp: Vec<bool> = vec![false, true];
    let notes: Vec<Option<Note>> = vec![Some(c3), None];
    let aligned = peak_picking_to_notes(&pp, &notes);
    assert_eq!(aligned, vec![Some(c3)]);
}
