use audio_utils::notes::{
    frequency_at, frequency_to_note, is_note_name, note_to_frequency, pitch_at, NOTE_COUNT,
};

#[test]
fn a4_is_440_hertz() {
    assert_eq!(note_to_frequency("A4"), Some(440_000));
}

#[test]
fn first_and_last_note_are_found() {
    assert_eq!(note_to_frequency("D2"), Some(73_420));
    assert_eq!(note_to_frequency("B5"), Some(987_770));
}

#[test]
fn sharps_are_found() {
    assert_eq!(note_to_frequency("C#3"), Some(138_590));
    assert_eq!(note_to_frequency("D#2"), Some(77_780));
    assert_eq!(note_to_frequency("A#5"), Some(932_330));
    assert_eq!(note_to_frequency("F#4"), Some(369_990));
}

#[test]
fn every_octave_of_c_and_e() {
    assert_eq!(note_to_frequency("C3"), Some(130_810));
    assert_eq!(note_to_frequency("C4"), Some(261_630));
    assert_eq!(note_to_frequency("C5"), Some(523_250));
    assert_eq!(note_to_frequency("E2"), Some(82_410));
    assert_eq!(note_to_frequency("E3"), Some(164_810));
    assert_eq!(note_to_frequency("E4"), Some(329_630));
    assert_eq!(note_to_frequency("E5"), Some(659_250));
}

#[test]
fn unknown_names_give_nothing() {
    assert_eq!(note_to_frequency(""), None);
    assert_eq!(note_to_frequency("A"), None);
    assert_eq!(note_to_frequency("4"), None);
    assert_eq!(note_to_frequency("H4"), None);
    assert_eq!(note_to_frequency("a4"), None);
    assert_eq!(note_to_frequency("A44"), None);
    assert_eq!(note_to_frequency("A4 "), None);
    assert_eq!(note_to_frequency("E#4"), None);
    assert_eq!(note_to_frequency("A#"), None);
    assert_eq!(note_to_frequency("Ab4"), None);
    assert_eq!(note_to_frequency("\u{e9}4"), None);
}

#[test]
fn notes_below_and_above_the_table_give_nothing() {
    assert_eq!(note_to_frequency("C2"), None);
    assert_eq!(note_to_frequency("C#2"), None);
    assert_eq!(note_to_frequency("A1"), None);
    assert_eq!(note_to_frequency("C6"), None);
    assert_eq!(note_to_frequency("A6"), None);
}

#[test]
fn table_ascends() {
    let mut index = 1;
    while index < NOTE_COUNT {
        assert!(frequency_at(index - 1) < frequency_at(index));
        index += 1;
    }
}

#[test]
fn names_of_the_table_are_told_apart() {
    assert!(is_note_name("D2", 0));
    assert!(!is_note_name("D3", 0));
    assert!(!is_note_name("D", 0));
    assert!(is_note_name("D#2", 1));
    assert!(!is_note_name("D2", 1));
    assert!(is_note_name("C3", 10));
    assert!(is_note_name("A4", 31));
    assert!(is_note_name("B5", 45));
}

#[test]
fn pitch_names() {
    let names = ["C", "C#", "D", "D#", "E", "F", "F#", "G", "G#", "A", "A#", "B"];
    let mut semitone = 0;
    while semitone < 12 {
        assert_eq!(pitch_at(semitone), names[semitone]);
        semitone += 1;
    }
}

#[test]
fn exact_440_is_a() {
    assert_eq!(frequency_to_note(440_000), Some("A".to_string()));
}

#[test]
fn near_440_is_a() {
    assert_eq!(frequency_to_note(441_500), Some("A".to_string()));
}

#[test]
fn far_below_the_table_is_nothing() {
    assert_eq!(frequency_to_note(10_000), None);
    assert_eq!(frequency_to_note(0), None);
}

#[test]
fn just_below_the_table_within_tolerance() {
    assert_eq!(frequency_to_note(70_420), Some("D".to_string()));
    assert_eq!(frequency_to_note(70_419), None);
}

#[test]
fn just_above_the_table_within_tolerance() {
    assert_eq!(frequency_to_note(990_770), Some("B".to_string()));
    assert_eq!(frequency_to_note(990_771), None);
    assert_eq!(frequency_to_note(u64::MAX), None);
}

#[test]
fn edges_of_the_table_are_named() {
    assert_eq!(frequency_to_note(73_420), Some("D".to_string()));
    assert_eq!(frequency_to_note(987_770), Some("B".to_string()));
}

#[test]
fn inside_the_table_the_nearest_note_always_names() {
    // Between A4 (440.00) and A#4 (466.16), more than the tolerance from both.
    assert_eq!(frequency_to_note(450_000), Some("A".to_string()));
    assert_eq!(frequency_to_note(456_000), Some("A#".to_string()));
}

#[test]
fn half_way_between_two_notes_the_lower_one_names() {
    assert_eq!(frequency_to_note(453_080), Some("A".to_string()));
    assert_eq!(frequency_to_note(453_081), Some("A#".to_string()));
}

#[test]
fn octave_is_dropped_from_the_name() {
    assert_eq!(frequency_to_note(110_000), Some("A".to_string()));
    assert_eq!(frequency_to_note(220_000), Some("A".to_string()));
    assert_eq!(frequency_to_note(880_000), Some("A".to_string()));
    assert_eq!(frequency_to_note(277_180), Some("C#".to_string()));
    assert_eq!(frequency_to_note(554_370), Some("C#".to_string()));
}

#[test]
fn every_note_names_its_own_frequency() {
    let names = ["C", "C#", "D", "D#", "E", "F", "F#", "G", "G#", "A", "A#", "B"];
    let mut index = 0;
    while index < NOTE_COUNT {
        let expected = names[(index + 2) % 12];
        assert_eq!(frequency_to_note(frequency_at(index)), Some(expected.to_string()));
        let full = format!("{}{}", expected, 2 + (index + 2) / 12);
        assert_eq!(note_to_frequency(&full), Some(frequency_at(index)));
        index += 1;
    }
}
