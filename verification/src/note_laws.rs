//! What holds of the table of notes and of the two lookups.

use vstd::prelude::*;
use crate::notes::{
    frequency_distance, frequency_of, has_note, nearest_note, note_frequency, note_index,
    note_name, note_octave, note_of, note_semitone, octave_digit, pitch_name, HIGHEST_NOTE_MHZ,
    LOWEST_NOTE_MHZ, NOTE_COUNT, NOTE_TOLERANCE_MHZ, OCTAVE,
};

verus! {

/// Each note of the table is higher than the one before it.
pub proof fn lemma_next_note_is_higher(index: int)
    requires
        0 <= index < NOTE_COUNT - 1,
    ensures
        note_frequency(index) < note_frequency(index + 1),
{
}

/// The table ascends: of two notes, the later one is higher.
pub proof fn lemma_table_ascends(low: int, high: int)
    requires
        0 <= low < high < NOTE_COUNT,
    ensures
        note_frequency(low) < note_frequency(high),
    decreases high - low,
{
    lemma_next_note_is_higher(high - 1);
    if low < high - 1 {
        lemma_table_ascends(low, high - 1);
    }
}

/// The frequencies of the table range from that of its first note, the
/// lowest, to that of its last note, the highest.
pub proof fn lemma_table_range(index: int)
    requires
        0 <= index < NOTE_COUNT,
    ensures
        LOWEST_NOTE_MHZ <= note_frequency(index) <= HIGHEST_NOTE_MHZ,
        note_frequency(0) == LOWEST_NOTE_MHZ,
        note_frequency(NOTE_COUNT - 1) == HIGHEST_NOTE_MHZ,
{
    if index > 0 {
        lemma_table_ascends(0, index);
    }
    if index < NOTE_COUNT - 1 {
        lemma_table_ascends(index, NOTE_COUNT - 1);
    }
}

/// The nearest note is no farther from the frequency than any other note,
/// and nearer than every note before it.
pub proof fn lemma_nearest_note_is_nearest(freq_mhz: int, upto: int)
    requires
        1 <= upto <= NOTE_COUNT,
    ensures
        0 <= nearest_note(freq_mhz, upto) < upto,
        forall|index: int|
            0 <= index < upto ==> frequency_distance(
                note_frequency(nearest_note(freq_mhz, upto)),
                freq_mhz,
            ) <= frequency_distance(#[trigger] note_frequency(index), freq_mhz),
        forall|index: int|
            0 <= index < nearest_note(freq_mhz, upto) ==> frequency_distance(
                note_frequency(nearest_note(freq_mhz, upto)),
                freq_mhz,
            ) < frequency_distance(#[trigger] note_frequency(index), freq_mhz),
    decreases upto,
{
    if upto > 1 {
        lemma_nearest_note_is_nearest(freq_mhz, upto - 1);
    }
}

/// The frequency of a note of the table gets the name of that note's pitch
/// class.
pub proof fn lemma_note_names_its_frequency(index: int)
    requires
        0 <= index < NOTE_COUNT,
    ensures
        note_of(note_frequency(index)) == Some(pitch_name(note_semitone(index))),
{
    let freq_mhz = note_frequency(index);
    let nearest = nearest_note(freq_mhz, NOTE_COUNT as int);
    lemma_nearest_note_is_nearest(freq_mhz, NOTE_COUNT as int);
    lemma_table_range(index);
    assert(frequency_distance(note_frequency(index), freq_mhz) == 0);
    assert(note_frequency(nearest) == freq_mhz);
    if nearest < index {
        lemma_table_ascends(nearest, index);
    } else if index < nearest {
        lemma_table_ascends(index, nearest);
    }
}

/// Two pitch classes have two names.
pub proof fn lemma_pitch_names_differ(first: int, second: int)
    requires
        0 <= first < OCTAVE,
        0 <= second < OCTAVE,
        first != second,
    ensures
        pitch_name(first) != pitch_name(second),
{
    let a = pitch_name(first);
    let b = pitch_name(second);
    assert(a.len() != b.len() || a[0] != b[0]);
}

/// Two notes of the table have two full names.
pub proof fn lemma_note_names_differ(first: int, second: int)
    requires
        0 <= first < NOTE_COUNT,
        0 <= second < NOTE_COUNT,
        first != second,
    ensures
        note_name(first) != note_name(second),
{
    let a = note_name(first);
    let b = note_name(second);
    if a == b {
        assert(a.len() == b.len());
        assert(a.last() == b.last());
        assert(octave_digit(note_octave(first)) == octave_digit(note_octave(second)));
        assert(note_octave(first) == note_octave(second));
        assert(a.drop_last() =~= pitch_name(note_semitone(first)));
        assert(b.drop_last() =~= pitch_name(note_semitone(second)));
        if note_semitone(first) != note_semitone(second) {
            lemma_pitch_names_differ(note_semitone(first), note_semitone(second));
        }
        assert(false);
    }
}

/// A name that is found among the first notes is found in all of the table,
/// at the same place.
pub proof fn lemma_note_index_found(name: Seq<char>, index: int, upto: int)
    requires
        0 <= index < upto,
        note_index(name, index) is None,
        note_name(index) == name,
    ensures
        note_index(name, upto) == Some(index),
    decreases upto,
{
    if upto > index + 1 {
        lemma_note_index_found(name, index, upto - 1);
    }
}

/// A name is found at the first note of the table that has it, and not
/// found where no note has it.
pub proof fn lemma_note_index_is_first(name: Seq<char>, upto: int)
    ensures
        match note_index(name, upto) {
            Some(index) => {
                &&& 0 <= index < upto
                &&& note_name(index) == name
                &&& forall|earlier: int|
                    0 <= earlier < index ==> #[trigger] note_name(earlier) != name
            },
            None => forall|index: int| 0 <= index < upto ==> #[trigger] note_name(index) != name,
        },
    decreases upto,
{
    if upto > 0 {
        lemma_note_index_is_first(name, upto - 1);
    }
}

/// The full name of a note of the table is looked up to the frequency of
/// that note.
pub proof fn lemma_note_found_by_name(index: int)
    requires
        0 <= index < NOTE_COUNT,
    ensures
        frequency_of(note_name(index)) == Some(note_frequency(index)),
{
    let name = note_name(index);
    lemma_note_index_is_first(name, NOTE_COUNT as int);
    let found = note_index(name, NOTE_COUNT as int);
    assert(found is Some);
    if found->0 != index {
        lemma_note_names_differ(found->0, index);
    }
}

/// A name has a frequency exactly if it is the full name of a note of the
/// table.
pub proof fn lemma_frequency_of_known_names(name: Seq<char>)
    ensures
        frequency_of(name) is Some <==> exists|index: int|
            0 <= index < NOTE_COUNT && #[trigger] note_name(index) == name,
{
    lemma_note_index_is_first(name, NOTE_COUNT as int);
}

/// A frequency inside the range of the table always has a note; one outside
/// has a note exactly if it lies within the tolerance of the lowest or the
/// highest note.
pub proof fn lemma_notes_outside_the_table(freq_mhz: int)
    ensures
        LOWEST_NOTE_MHZ <= freq_mhz <= HIGHEST_NOTE_MHZ ==> note_of(freq_mhz) is Some,
        freq_mhz < LOWEST_NOTE_MHZ ==> (note_of(freq_mhz) is Some <==> LOWEST_NOTE_MHZ - freq_mhz
            <= NOTE_TOLERANCE_MHZ),
        freq_mhz > HIGHEST_NOTE_MHZ ==> (note_of(freq_mhz) is Some <==> freq_mhz
            - HIGHEST_NOTE_MHZ <= NOTE_TOLERANCE_MHZ),
{
    let nearest = nearest_note(freq_mhz, NOTE_COUNT as int);
    lemma_nearest_note_is_nearest(freq_mhz, NOTE_COUNT as int);
    lemma_table_range(nearest);
    if freq_mhz < LOWEST_NOTE_MHZ {
        assert(frequency_distance(note_frequency(nearest), freq_mhz) <= frequency_distance(
            note_frequency(0),
            freq_mhz,
        ));
    }
    if freq_mhz > HIGHEST_NOTE_MHZ {
        assert(frequency_distance(note_frequency(nearest), freq_mhz) <= frequency_distance(
            note_frequency(NOTE_COUNT - 1),
            freq_mhz,
        ));
    }
}

} // verus!
