//! Equal-tempered note quantization: a sorted table of note frequencies and
//! a binary search that maps a query frequency to the closest table entry.
//!
//! Frequencies are modeled as integers in micro-hertz, so the closest-entry
//! rule is stated and proved exactly. The caller builds the table (twelve
//! entries per octave over nine octaves, geometrically spaced from the
//! lowest C) and hands it in once; the table is immutable afterwards.

use vstd::prelude::*;

use crate::errors::AnalysisError;

verus! {

/// The twelve pitch classes of the equal-tempered scale.
#[derive(Clone, Copy, Debug, PartialEq, Eq, Structural)]
pub enum NoteName {
    A,
    ASharp,
    B,
    C,
    CSharp,
    D,
    DSharp,
    E,
    F,
    FSharp,
    G,
    GSharp,
}

/// Pitch class of position `r` within an octave of the table, which runs
/// from C up to B.
pub open spec fn spec_note_name(r: int) -> NoteName {
    if r == 0 {
        NoteName::C
    } else if r == 1 {
        NoteName::CSharp
    } else if r == 2 {
        NoteName::D
    } else if r == 3 {
        NoteName::DSharp
    } else if r == 4 {
        NoteName::E
    } else if r == 5 {
        NoteName::F
    } else if r == 6 {
        NoteName::FSharp
    } else if r == 7 {
        NoteName::G
    } else if r == 8 {
        NoteName::GSharp
    } else if r == 9 {
        NoteName::A
    } else if r == 10 {
        NoteName::ASharp
    } else {
        NoteName::B
    }
}

/// Maps a position within an octave to its pitch class.
pub fn note_name_of(r: usize) -> (name: NoteName)
    requires
        r < 12,
    ensures
        name == spec_note_name(r as int),
{
    if r == 0 {
        NoteName::C
    } else if r == 1 {
        NoteName::CSharp
    } else if r == 2 {
        NoteName::D
    } else if r == 3 {
        NoteName::DSharp
    } else if r == 4 {
        NoteName::E
    } else if r == 5 {
        NoteName::F
    } else if r == 6 {
        NoteName::FSharp
    } else if r == 7 {
        NoteName::G
    } else if r == 8 {
        NoteName::GSharp
    } else if r == 9 {
        NoteName::A
    } else if r == 10 {
        NoteName::ASharp
    } else {
        NoteName::B
    }
}

/// One equal-tempered note: its frequency in micro-hertz, its octave
/// (0 through 8), and its pitch class.
#[derive(Clone, Copy, Debug, PartialEq, Eq, Structural)]
pub struct Note {
    pub freq: u64,
    pub octave: usize,
    pub name: NoteName,
}

impl Note {
    /// Packs the three components of a note.
    pub fn new(freq: u64, octave: usize, name: NoteName) -> (r: Note)
        ensures
            r.freq == freq,
            r.octave == octave,
            r.name == name,
    {
        Note { freq, octave, name }
    }
}

/// Number of entries in a full note table: twelve pitch classes in each of
/// nine octaves.
pub const NOTE_COUNT: usize = 108;

/// A sequence is strictly increasing.
pub open spec fn sorted_strict(s: Seq<u64>) -> bool {
    forall|i: int, j: int| 0 <= i < j < s.len() ==> s[i] < s[j]
}

/// Absolute distance between a table frequency and a query frequency.
pub open spec fn dist(a: u64, q: u64) -> int {
    if a >= q {
        a - q
    } else {
        q - a
    }
}

/// Index `i` holds the table entry closest in frequency to `q`; on a tie
/// the lower entry wins, so `i` is the least index at minimal distance.
pub open spec fn is_nearest(freqs: Seq<u64>, q: u64, i: int) -> bool {
    &&& 0 <= i < freqs.len()
    &&& forall|j: int| 0 <= j < freqs.len() ==> #[trigger] dist(freqs[j], q) >= dist(freqs[i], q)
    &&& forall|j: int| 0 <= j < i ==> #[trigger] dist(freqs[j], q) > dist(freqs[i], q)
}

/// The note the table stores at index `i`: octaves follow each other twelve
/// entries at a time, starting at C of octave 0.
pub open spec fn spec_note_at(freqs: Seq<u64>, i: int) -> Note {
    Note { freq: freqs[i], octave: (i / 12) as usize, name: spec_note_name(i % 12) }
}

/// At most one index is nearest to a query.
pub proof fn lemma_nearest_unique(freqs: Seq<u64>, q: u64, i: int, j: int)
    requires
        is_nearest(freqs, q, i),
        is_nearest(freqs, q, j),
    ensures
        i == j,
{
    if i < j {
        assert(dist(freqs[i], q) > dist(freqs[j], q));
        assert(dist(freqs[i], q) >= dist(freqs[j], q));
    }
    if j < i {
        assert(dist(freqs[j], q) > dist(freqs[i], q));
        assert(dist(freqs[j], q) >= dist(freqs[i], q));
    }
}

/// Querying a strictly sorted table with the exact frequency of one of its
/// entries designates that entry and no other: quantization is exact on
/// table frequencies, so it is idempotent under a round trip.
pub proof fn lemma_nearest_exact_frequency(freqs: Seq<u64>, q: u64, i: int)
    requires
        sorted_strict(freqs),
        0 <= i < freqs.len(),
        freqs[i] == q,
    ensures
        is_nearest(freqs, q, i),
{
    assert(dist(freqs[i], q) == 0);
    assert forall|j: int| 0 <= j < freqs.len() implies #[trigger] dist(freqs[j], q) >= dist(
        freqs[i],
        q,
    ) by {}
    assert forall|j: int| 0 <= j < i implies #[trigger] dist(freqs[j], q) > dist(freqs[i], q) by {
        assert(freqs[j] < freqs[i]);
    }
}

/// The table of the 108 equal-tempered note frequencies, strictly sorted.
/// It is built once from caller-supplied frequencies and never mutated, so
/// any number of readers can share it.
#[derive(Debug)]
pub struct NoteTable {
    freqs: Vec<u64>,
}

impl View for NoteTable {
    type V = Seq<u64>;

    closed spec fn view(&self) -> Seq<u64> {
        self.freqs@
    }
}

impl NoteTable {
    /// A well-formed table holds exactly the 108 note frequencies in
    /// strictly increasing order.
    pub open spec fn wf(&self) -> bool {
        &&& self@.len() == NOTE_COUNT
        &&& sorted_strict(self@)
    }

    /// Validates and adopts a frequency table. The input must hold exactly
    /// 108 strictly increasing frequencies; anything else is rejected as an
    /// invalid parameter.
    pub fn new(freqs: Vec<u64>) -> (r: Result<NoteTable, AnalysisError>)
        ensures
            match r {
                Ok(t) => t.wf() && t@ == freqs@,
                Err(e) => e == AnalysisError::InvalidParameter && !(freqs@.len() == NOTE_COUNT
                    && sorted_strict(freqs@)),
            },
    {
        if freqs.len() != NOTE_COUNT {
            return Err(AnalysisError::InvalidParameter);
        }
        let mut i: usize = 1;
        while i < freqs.len()
            invariant
                1 <= i <= freqs@.len(),
                forall|a: int, b: int| 0 <= a < b < i ==> freqs@[a] < freqs@[b],
            decreases freqs@.len() - i,
        {
            if freqs[i - 1] >= freqs[i] {
                return Err(AnalysisError::InvalidParameter);
            }
            proof {
                assert forall|a: int, b: int| 0 <= a < b < i + 1 implies freqs@[a] < freqs@[b] by {
                    if b == i {
                        if a < i - 1 {
                            assert(freqs@[a] < freqs@[i - 1]);
                        }
                    }
                }
            }
            i += 1;
        }
        Ok(NoteTable { freqs })
    }

    /// Returns the note whose frequency is closest to `query`, preferring
    /// the lower entry on an exact tie. Queries beyond either end of the
    /// table resolve to the nearest end entry.
    pub fn nearest(&self, query: u64) -> (r: Note)
        requires
            self.wf(),
        ensures
            exists|i: int| #[trigger] is_nearest(self@, query, i) && r == spec_note_at(self@, i),
    {
        let n = self.freqs.len();
        let mut start: usize = 0;
        let mut end: usize = n;
        while end - start > 1
            invariant
                self.wf(),
                n == self@.len(),
                0 <= start < end <= n,
                start > 0 ==> self@[start as int] < query,
                end < n ==> self@[end as int] >= query,
            decreases end - start,
        {
            let mid = (start + end) / 2;
            if self.freqs[mid] < query {
                start = mid;
            } else {
                end = mid;
            }
        }
        let idx: usize;
        if end == n {
            // every entry lies below the query, so the distance shrinks as
            // the index grows and the last entry is the unique closest one
            idx = n - 1;
            proof {
                assert forall|j: int| 0 <= j < n - 1 implies #[trigger] dist(self@[j], query)
                    > dist(self@[n - 1], query) by {
                    assert(self@[j] < self@[n - 1]);
                }
                assert(is_nearest(self@, query, n - 1));
            }
        } else {
            let fs = self.freqs[start];
            let fe = self.freqs[end];
            let ds = if fs >= query {
                fs - query
            } else {
                query - fs
            };
            let de = if fe >= query {
                fe - query
            } else {
                query - fe
            };
            proof {
                assert forall|j: int| 0 <= j < start implies #[trigger] dist(self@[j], query)
                    > dist(self@[start as int], query) by {
                    assert(self@[j] < self@[start as int]);
                }
                assert forall|j: int| end < j < n implies #[trigger] dist(self@[j], query) > dist(
                    self@[end as int],
                    query,
                ) by {
                    assert(self@[j] > self@[end as int]);
                }
            }
            if ds <= de {
                idx = start;
                proof {
                    assert(is_nearest(self@, query, start as int));
                }
            } else {
                idx = end;
                proof {
                    assert(is_nearest(self@, query, end as int));
                }
            }
        }
        let name = note_name_of(idx % 12);
        let r = Note { freq: self.freqs[idx], octave: idx / 12, name };
        proof {
            assert(r == spec_note_at(self@, idx as int));
        }
        r
    }
}

} // verus!
