use transcriber::errors::AnalysisError;
use transcriber::notes::Note;
use transcriber::notes::NoteName;
use transcriber::notes::NoteTable;
use transcriber::notes::note_name_of;

/// The 108 equal-tempered frequencies in micro-hertz: twelve notes per
/// octave over nine octaves, geometrically spaced from C0 at 16.35 Hz.
fn table_frequencies() -> Vec<u64> {
    let mut freqs: Vec<u64> = Vec::new();
    let mut f: f64 = 16.35;
    let semitone: f64 = 2.0f64.powf(1.0 / 12.0);
    for _ in 0..108 {
        freqs.push((f * 1_000_000.0).round() as u64);
        f *= semitone;
    }
    freqs
}

#[test]
fn note_from_concert_pitch() {
    let table = NoteTable::new(table_frequencies()).unwrap();
    // 440 Hz resolves to pitch class A in the octave that holds it
    let note = table.nearest(440_000_000);
    assert_eq!(note.name, NoteName::A);
    assert_eq!(note.octave, 4);
}

#[test]
fn note_round_trip_is_exact() {
    let freqs = table_frequencies();
    let table = NoteTable::new(freqs.clone()).unwrap();
    // querying any entry's exact frequency returns that same entry
    for (i, &f) in freqs.iter().enumerate() {
        let note = table.nearest(f);
        assert_eq!(note.freq, f);
        assert_eq!(note.octave, i / 12);
        assert_eq!(note.name, note_name_of(i % 12));
    }
}

#[test]
fn nearest_prefers_lower_on_tie() {
    // a synthetic strictly increasing table with two entries an even
    // distance apart: the midpoint query resolves to the lower entry
    let mut freqs: Vec<u64> = Vec::new();
    for i in 0..108u64 {
        freqs.push(1000 + 10 * i);
    }
    let table = NoteTable::new(freqs).unwrap();
    let note = table.nearest(1005);
    assert_eq!(note.freq, 1000);
    let above = table.nearest(1006);
    assert_eq!(above.freq, 1010);
}

#[test]
fn queries_beyond_the_ends_clamp() {
    let freqs = table_frequencies();
    let table = NoteTable::new(freqs.clone()).unwrap();
    let low = table.nearest(1);
    assert_eq!(low.freq, freqs[0]);
    assert_eq!(low.octave, 0);
    let high = table.nearest(u64::MAX);
    assert_eq!(high.freq, freqs[107]);
    assert_eq!(high.octave, 8);
    assert_eq!(high.name, NoteName::B);
}

#[test]
fn table_validation() {
    // wrong length
    let short: Vec<u64> = vec![1, 2, 3];
    assert_eq!(
        NoteTable::new(short).unwrap_err(),
        AnalysisError::InvalidParameter
    );
    // not strictly increasing
    let mut flat: Vec<u64> = Vec::new();
    for _ in 0..108u64 {
        flat.push(42);
    }
    assert_eq!(
        NoteTable::new(flat).unwrap_err(),
        AnalysisError::InvalidParameter
    );
}

#[test]
fn note_new_packs_fields() {
    let n = Note::new(440_000_000, 4, NoteName::A);
    assert_eq!(n.freq, 440_000_000);
    assert_eq!(n.octave, 4);
    assert_eq!(n.name, NoteName::A);
}
