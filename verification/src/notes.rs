//! The table of musical notes, and the notes nearest to a frequency.
//!
//! The table runs over the chromatic scale from D2 to B5. Each note has a
//! fixed frequency, held in millihertz.

use vstd::prelude::*;
use vstd::string::StrSliceExecFns;
use crate::note_laws::lemma_note_index_found;

verus! {

/// Number of notes in the table.
pub const NOTE_COUNT: usize = 46;

/// Semitones in one octave.
pub const OCTAVE: usize = 12;

/// Semitones from C to the first note of the table, D.
pub const FIRST_SEMITONE: usize = 2;

/// Octave of the first note of the table.
pub const FIRST_OCTAVE: usize = 2;

/// Distance in millihertz within which a frequency outside the range of the
/// table still gets the name of the nearest note.
pub const NOTE_TOLERANCE_MHZ: u64 = 3000;

/// Frequency of the lowest note of the table, in millihertz.
pub const LOWEST_NOTE_MHZ: u64 = 73420;

/// Frequency of the highest note of the table, in millihertz.
pub const HIGHEST_NOTE_MHZ: u64 = 987770;

/// Frequency of the note at `index` of the table, in millihertz.
pub open spec fn note_frequency(index: int) -> int {
    if index == 0 {
        73420
    } else if index == 1 {
        77780
    } else if index == 2 {
        82410
    } else if index == 3 {
        87310
    } else if index == 4 {
        92500
    } else if index == 5 {
        98000
    } else if index == 6 {
        103830
    } else if index == 7 {
        110000
    } else if index == 8 {
        116540
    } else if index == 9 {
        123470
    } else if index == 10 {
        130810
    } else if index == 11 {
        138590
    } else if index == 12 {
        146830
    } else if index == 13 {
        155560
    } else if index == 14 {
        164810
    } else if index == 15 {
        174610
    } else if index == 16 {
        185000
    } else if index == 17 {
        196000
    } else if index == 18 {
        207650
    } else if index == 19 {
        220000
    } else if index == 20 {
        233080
    } else if index == 21 {
        246940
    } else if index == 22 {
        261630
    } else if index == 23 {
        277180
    } else if index == 24 {
        293660
    } else if index == 25 {
        311130
    } else if index == 26 {
        329630
    } else if index == 27 {
        349230
    } else if index == 28 {
        369990
    } else if index == 29 {
        392000
    } else if index == 30 {
        415300
    } else if index == 31 {
        440000
    } else if index == 32 {
        466160
    } else if index == 33 {
        493880
    } else if index == 34 {
        523250
    } else if index == 35 {
        554370
    } else if index == 36 {
        587330
    } else if index == 37 {
        622250
    } else if index == 38 {
        659250
    } else if index == 39 {
        698460
    } else if index == 40 {
        739990
    } else if index == 41 {
        783990
    } else if index == 42 {
        830610
    } else if index == 43 {
        880000
    } else if index == 44 {
        932330
    } else {
        987770
    }
}

/// Name of the pitch class that lies `semitone` semitones above C.
pub open spec fn pitch_name(semitone: int) -> Seq<char> {
    if semitone == 0 {
        seq!['C']
    } else if semitone == 1 {
        seq!['C', '#']
    } else if semitone == 2 {
        seq!['D']
    } else if semitone == 3 {
        seq!['D', '#']
    } else if semitone == 4 {
        seq!['E']
    } else if semitone == 5 {
        seq!['F']
    } else if semitone == 6 {
        seq!['F', '#']
    } else if semitone == 7 {
        seq!['G']
    } else if semitone == 8 {
        seq!['G', '#']
    } else if semitone == 9 {
        seq!['A']
    } else if semitone == 10 {
        seq!['A', '#']
    } else {
        seq!['B']
    }
}

/// Semitones above C of the note at `index` of the table.
pub open spec fn note_semitone(index: int) -> int {
    (index + FIRST_SEMITONE) % (OCTAVE as int)
}

/// Octave of the note at `index` of the table.
pub open spec fn note_octave(index: int) -> int {
    FIRST_OCTAVE + (index + FIRST_SEMITONE) / (OCTAVE as int)
}

/// The digit that names an octave of the table.
pub open spec fn octave_digit(octave: int) -> char {
    if octave == 2 {
        '2'
    } else if octave == 3 {
        '3'
    } else if octave == 4 {
        '4'
    } else {
        '5'
    }
}

/// Full name of the note at `index` of the table: its pitch class, then its
/// octave.
pub open spec fn note_name(index: int) -> Seq<char> {
    pitch_name(note_semitone(index)).push(octave_digit(note_octave(index)))
}

/// Distance between two frequencies.
pub open spec fn frequency_distance(a: int, b: int) -> int {
    if a <= b {
        b - a
    } else {
        a - b
    }
}

/// Index of the note, among the first `upto` of the table, whose frequency
/// is nearest to `freq_mhz`; of two equally near, the lower one.
pub open spec fn nearest_note(freq_mhz: int, upto: int) -> int
    decreases upto,
{
    if upto <= 1 {
        0
    } else {
        let rest = nearest_note(freq_mhz, upto - 1);
        if frequency_distance(note_frequency(upto - 1), freq_mhz) < frequency_distance(
            note_frequency(rest),
            freq_mhz,
        ) {
            upto - 1
        } else {
            rest
        }
    }
}

/// Whether a frequency gets a name: it lies inside the range of the table,
/// or within the tolerance of the nearest note.
pub open spec fn has_note(freq_mhz: int) -> bool {
    ||| LOWEST_NOTE_MHZ <= freq_mhz <= HIGHEST_NOTE_MHZ
    ||| frequency_distance(note_frequency(nearest_note(freq_mhz, NOTE_COUNT as int)), freq_mhz)
        <= NOTE_TOLERANCE_MHZ
}

/// The name that a frequency gets, if any: the pitch class of the nearest
/// note, without its octave.
pub open spec fn note_of(freq_mhz: int) -> Option<Seq<char>> {
    if has_note(freq_mhz) {
        Some(pitch_name(note_semitone(nearest_note(freq_mhz, NOTE_COUNT as int))))
    } else {
        None
    }
}

/// Index of the first note, among the first `upto` of the table, whose full
/// name is `name`, if there is one.
pub open spec fn note_index(name: Seq<char>, upto: int) -> Option<int>
    decreases upto,
{
    if upto <= 0 {
        None
    } else {
        match note_index(name, upto - 1) {
            Some(index) => Some(index),
            None => if note_name(upto - 1) == name {
                Some(upto - 1)
            } else {
                None
            },
        }
    }
}

/// The frequency that the table holds for a full note name, if it holds the
/// name.
pub open spec fn frequency_of(name: Seq<char>) -> Option<int> {
    match note_index(name, NOTE_COUNT as int) {
        Some(index) => Some(note_frequency(index)),
        None => None,
    }
}

/// Looks up the frequency of the note at `index` of the table.
pub fn frequency_at(index: usize) -> (freq_mhz: u64)
    requires
        index < NOTE_COUNT,
    ensures
        freq_mhz == note_frequency(index as int),
{
    if index == 0 {
        73420
    } else if index == 1 {
        77780
    } else if index == 2 {
        82410
    } else if index == 3 {
        87310
    } else if index == 4 {
        92500
    } else if index == 5 {
        98000
    } else if index == 6 {
        103830
    } else if index == 7 {
        110000
    } else if index == 8 {
        116540
    } else if index == 9 {
        123470
    } else if index == 10 {
        130810
    } else if index == 11 {
        138590
    } else if index == 12 {
        146830
    } else if index == 13 {
        155560
    } else if index == 14 {
        164810
    } else if index == 15 {
        174610
    } else if index == 16 {
        185000
    } else if index == 17 {
        196000
    } else if index == 18 {
        207650
    } else if index == 19 {
        220000
    } else if index == 20 {
        233080
    } else if index == 21 {
        246940
    } else if index == 22 {
        261630
    } else if index == 23 {
        277180
    } else if index == 24 {
        293660
    } else if index == 25 {
        311130
    } else if index == 26 {
        329630
    } else if index == 27 {
        349230
    } else if index == 28 {
        369990
    } else if index == 29 {
        392000
    } else if index == 30 {
        415300
    } else if index == 31 {
        440000
    } else if index == 32 {
        466160
    } else if index == 33 {
        493880
    } else if index == 34 {
        523250
    } else if index == 35 {
        554370
    } else if index == 36 {
        587330
    } else if index == 37 {
        622250
    } else if index == 38 {
        659250
    } else if index == 39 {
        698460
    } else if index == 40 {
        739990
    } else if index == 41 {
        783990
    } else if index == 42 {
        830610
    } else if index == 43 {
        880000
    } else if index == 44 {
        932330
    } else {
        987770
    }
}

/// Gives the name of a pitch class.
pub fn pitch_at(semitone: usize) -> (name: &'static str)
    requires
        semitone < OCTAVE,
    ensures
        name@ == pitch_name(semitone as int),
{
    if semitone == 0 {
        proof {
            reveal_strlit("C");
        }
        assert("C"@ =~= pitch_name(0));
        "C"
    } else if semitone == 1 {
        proof {
            reveal_strlit("C#");
        }
        assert("C#"@ =~= pitch_name(1));
        "C#"
    } else if semitone == 2 {
        proof {
            reveal_strlit("D");
        }
        assert("D"@ =~= pitch_name(2));
        "D"
    } else if semitone == 3 {
        proof {
            reveal_strlit("D#");
        }
        assert("D#"@ =~= pitch_name(3));
        "D#"
    } else if semitone == 4 {
        proof {
            reveal_strlit("E");
        }
        assert("E"@ =~= pitch_name(4));
        "E"
    } else if semitone == 5 {
        proof {
            reveal_strlit("F");
        }
        assert("F"@ =~= pitch_name(5));
        "F"
    } else if semitone == 6 {
        proof {
            reveal_strlit("F#");
        }
        assert("F#"@ =~= pitch_name(6));
        "F#"
    } else if semitone == 7 {
        proof {
            reveal_strlit("G");
        }
        assert("G"@ =~= pitch_name(7));
        "G"
    } else if semitone == 8 {
        proof {
            reveal_strlit("G#");
        }
        assert("G#"@ =~= pitch_name(8));
        "G#"
    } else if semitone == 9 {
        proof {
            reveal_strlit("A");
        }
        assert("A"@ =~= pitch_name(9));
        "A"
    } else if semitone == 10 {
        proof {
            reveal_strlit("A#");
        }
        assert("A#"@ =~= pitch_name(10));
        "A#"
    } else {
        proof {
            reveal_strlit("B");
        }
        assert("B"@ =~= pitch_name(11));
        "B"
    }
}

/// Gives the digit that names an octave of the table.
pub fn digit_at(octave: usize) -> (digit: char)
    ensures
        digit == octave_digit(octave as int),
{
    if octave == 2 {
        '2'
    } else if octave == 3 {
        '3'
    } else if octave == 4 {
        '4'
    } else {
        '5'
    }
}

/// Measures the distance between two frequencies.
pub fn distance_between(a: u64, b: u64) -> (distance: u64)
    ensures
        distance == frequency_distance(a as int, b as int),
{
    if a <= b {
        b - a
    } else {
        a - b
    }
}

/// Tests whether `note` is the full name of the note at `index` of the
/// table.
pub fn is_note_name(note: &str, index: usize) -> (yes: bool)
    requires
        index < NOTE_COUNT,
    ensures
        yes == (note@ == note_name(index as int)),
{
    let semitone: usize = (index + FIRST_SEMITONE) % OCTAVE;
    let octave: usize = FIRST_OCTAVE + (index + FIRST_SEMITONE) / OCTAVE;
    let pitch: &str = pitch_at(semitone);
    let digit: char = digit_at(octave);
    let pitch_len: usize = pitch.unicode_len();
    assert(pitch_len <= 2);
    let ghost name = note_name(index as int);
    assert(name.len() == pitch_len + 1);
    if note.unicode_len() != pitch_len + 1 {
        return false;
    }
    let mut k: usize = 0;
    while k < pitch_len
        invariant
            k <= pitch_len,
            pitch_len == pitch@.len(),
            note@.len() == pitch_len + 1,
            name == pitch@.push(digit),
            name == note_name(index as int),
            forall|j: int| 0 <= j < k ==> note@[j] == name[j],
        decreases pitch_len - k,
    {
        assert(name[k as int] == pitch@[k as int]);
        if note.get_char(k) != pitch.get_char(k) {
            assert(note@[k as int] != name[k as int]);
            return false;
        }
        k += 1;
    }
    if note.get_char(pitch_len) != digit {
        assert(note@[pitch_len as int] != name[pitch_len as int]);
        return false;
    }
    assert(note@ =~= name);
    true
}

/// Looks up the frequency of a note by its full name, such as `A4`.
///
/// The result is in millihertz. A name that the table does not hold gives
/// nothing.
pub fn note_to_frequency(note: &str) -> (freq_mhz: Option<u64>)
    ensures
        match freq_mhz {
            Some(f) => frequency_of(note@) == Some(f as int),
            None => frequency_of(note@) is None,
        },
{
    let mut index: usize = 0;
    while index < NOTE_COUNT
        invariant
            index <= NOTE_COUNT,
            note_index(note@, index as int) is None,
        decreases NOTE_COUNT - index,
    {
        if is_note_name(note, index) {
            proof {
                lemma_note_index_found(note@, index as int, NOTE_COUNT as int);
            }
            return Some(frequency_at(index));
        }
        index += 1;
    }
    None
}

/// Names the note nearest to a frequency in millihertz.
///
/// The name is that of the pitch class, without the octave. A frequency
/// outside the range of the table is named only if it lies within the
/// tolerance of the nearest note.
pub fn frequency_to_note(freq_mhz: u64) -> (note: Option<String>)
    ensures
        match note {
            Some(name) => note_of(freq_mhz as int) == Some(name@),
            None => note_of(freq_mhz as int) is None,
        },
{
    let mut nearest: usize = 0;
    let mut nearest_distance: u64 = distance_between(frequency_at(0), freq_mhz);
    let mut index: usize = 1;
    while index < NOTE_COUNT
        invariant
            1 <= index <= NOTE_COUNT,
            nearest < index,
            nearest == nearest_note(freq_mhz as int, index as int),
            nearest_distance == frequency_distance(note_frequency(nearest as int), freq_mhz as int),
        decreases NOTE_COUNT - index,
    {
        let distance: u64 = distance_between(frequency_at(index), freq_mhz);
        if distance < nearest_distance {
            nearest = index;
            nearest_distance = distance;
        }
        index += 1;
    }
    let in_range: bool = LOWEST_NOTE_MHZ <= freq_mhz && freq_mhz <= HIGHEST_NOTE_MHZ;
    if in_range || nearest_distance <= NOTE_TOLERANCE_MHZ {
        let semitone: usize = (nearest + FIRST_SEMITONE) % OCTAVE;
        Some(pitch_at(semitone).to_owned())
    } else {
        None
    }
}

} // verus!
