use audio_timeline::pitch::{parse_note_text, Note};
use audio_timeline::score::{parse_sample_columns, parse_score, track_notes};

#[test]
fn note_names_parse_to_keyboard_indices() {
    assert_eq!(parse_note_text("A4"), Some(Note::new(9, 4)));
    assert_eq!(parse_note_text("C0"), Some(Note::new(0, 0)));
    assert_eq!(parse_note_text("B9"), Some(Note::new(11, 9)));
    assert_eq!(parse_note_text("C#3"), Some(Note::new(1, 3)));
    assert_eq!(parse_note_text("Db3"), Some(Note::new(1, 3)));
    assert_eq!(parse_note_text("B#2"), Some(Note::new(0, 2)));
    assert_eq!(parse_note_text("Cb2"), Some(Note::new(11, 2)));
    assert_eq!(parse_note_text("F#5"), Some(Note::new(6, 5)));
    assert_eq!(parse_note_text("Bb7"), Some(Note::new(10, 7)));
}

#[test]
fn unrecognized_note_text_is_silence() {
    assert_eq!(parse_note_text(""), None);
    assert_eq!(parse_note_text("A"), None);
    assert_eq!(parse_note_text("H4"), None);
    assert_eq!(parse_note_text("A41"), None);
    assert_eq!(parse_note_text("Ax"), None);
    assert_eq!(parse_note_text("hello"), None);
    assert_eq!(parse_note_text("bb4"), None);
}

#[test]
fn sample_columns_come_from_even_header_cells() {
    let header: Vec<Option<String>> = vec![
        Some("kick.wav".to_string()),
        Some("ignored".to_string()),
        Some("snare.wav".to_string()),
        None,
        None,
    ];
    let cols = parse_sample_columns(&header);
    assert_eq!(cols.len(), 2);
    assert_eq!(cols[0], ("kick.wav".to_string(), 0));
    assert_eq!(cols[1], ("snare.wav".to_string(), 2));
}

#[test]
fn track_notes_walk_rows_below_the_header() {
    let grid: Vec<Vec<Option<String>>> = vec![
        vec![Some("kick.wav".to_string())],
        vec![Some("A4".to_string())],
        vec![None],
        vec![Some("oops".to_string())],
    ];
    let notes = track_notes(&grid, 0);
    // One slot per row of the grid; the final slot reads past the grid and
    // is always silent.
    assert_eq!(notes.len(), 4);
    assert_eq!(notes[0], Some(Note::new(9, 4)));
    assert_eq!(notes[1], None);
    assert_eq!(notes[2], None);
    assert_eq!(notes[3], None);
}

#[test]
fn parse_score_builds_one_track_per_sample_column() {
    let grid: Vec<Vec<Option<String>>> = vec![
        vec![Some("kick.wav".to_string()), None, Some("lead.wav".to_string())],
        vec![Some("C3".to_string()), None, Some("E3".to_string())],
        vec![None, None, Some("G3".to_string())],
    ];
    let tracks = parse_score(&grid);
    assert_eq!(tracks.len(), 2);
    assert_eq!(tracks[0].sample_path, "kick.wav");
    assert_eq!(tracks[1].sample_path, "lead.wav");
    assert_eq!(tracks[0].notes.len(), 3);
    assert_eq!(tracks[0].notes[0], Some(Note::new(0, 3)));
    assert_eq!(tracks[0].notes[1], None);
    assert_eq!(tracks[0].notes[2], None);
    assert_eq!(tracks[1].notes[0], Some(Note::new(4, 3)));
    assert_eq!(tracks[1].notes[1], Some(Note::new(7, 3)));
}

#[test]
fn parse_score_of_empty_grid_has_no_tracks() {
    let grid: Vec<Vec<Option<String>>> = vec![];
    assert_eq!(parse_score(&grid).len(), 0);
}
