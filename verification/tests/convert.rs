use famitracker2midi::convert::{allocate_melodic_channel, can_convert, convert_song, to_percussion};
use famitracker2midi::parser::{parse_module, Module, Song};

/// Microseconds per beat, computed the way the command-line tool does.
fn microseconds_per_beat(song: &Song) -> u64 {
    let speed = song.speed.max(1) as f64;
    let tempo = song.tempo.max(1) as f64;
    let row_seconds = speed * 2.5 / tempo;
    (row_seconds * 480.0 / 120.0 * 1_000_000.0) as u64
}

fn convert(module: &Module, song: &Song) -> famitracker2midi::Conversion {
    let mpb = microseconds_per_beat(song);
    assert!(can_convert(module, song, mpb));
    convert_song(module, song, mpb)
}

#[test]
fn converts_plain_song() {
    let text = "\
EXPANSION 0
TRACK 4 6 150 \"t\"
COLUMNS : 1 1 1 1 1
ORDER 00 : 00 00 00 00 00
PATTERN 00
ROW 00 : C-4 00 F ... : ... .. . ... : ... .. . ... : ... .. . ... : ... .. . ...
ROW 01 : ... .. . ... : ... .. . ... : ... .. . ... : ... .. . ... : ... .. . ...
";
    let module = parse_module(text);
    let conversion = convert(&module, &module.songs[0]);
    assert_eq!(conversion.channels_used, vec![0]);
    assert_eq!(conversion.midi.tracks.len(), 1);
    assert!(!conversion.midi.tracks[0].is_empty());
}

#[test]
fn converts_n163_channel() {
    let text = "\
MACHINE 0
EXPANSION 16
N163CHANNELS 4
TRACK 4 6 150 \"n163\"
COLUMNS : 1 1 1 1 1 1 1 1 1
ORDER 00 : 00 00 00 00 00 00 00 00 00
PATTERN 00
ROW 00 : C-4 00 F ... : ... .. . ... : ... .. . ... : ... .. . ... : ... .. . ... : E-5 00 F ... : ... .. . ... : ... .. . ... : ... .. . ... : ... .. . ...
";
    let module = parse_module(text);
    let conversion = convert(&module, &module.songs[0]);
    assert_eq!(conversion.layout.len(), 9);
    assert_eq!(conversion.channels_used, vec![0, 5]);
    assert_eq!(conversion.midi.tracks.len(), 2);
    assert_eq!(conversion.midi.to_bytes()[0..4], *b"MThd");
}

#[test]
fn noise_goes_to_percussion_channel() {
    let text = "\
EXPANSION 0
TRACK 2 6 150 \"noise\"
COLUMNS : 1 1 1 1 1
ORDER 00 : 00 00 00 00 00
PATTERN 00
ROW 00 : ... .. . ... : ... .. . ... : ... .. . ... : 1-# 00 F ... : ... .. . ...
";
    let module = parse_module(text);
    let conversion = convert(&module, &module.songs[0]);
    assert_eq!(conversion.channels_used, vec![3]);
    let track = &conversion.midi.tracks[0];
    // 0x99 = note on, MIDI channel 9.
    assert!(track.windows(3).any(|w| w == [0x99, 37, 126]));
}

#[test]
fn single_note_track_bytes() {
    let text = "\
TRACK 2 6 150 \"t\"
COLUMNS : 1 1 1 1 1
ORDER 00 : 00 00 00 00 00
PATTERN 00
ROW 00 : C-4 00 F ... : ... .. . ... : ... .. . ... : ... .. . ... : ... .. . ...
";
    let module = parse_module(text);
    let conversion = convert_song(&module, &module.songs[0], 400_000);
    let track = &conversion.midi.tracks[0];
    let data: Vec<u8> = vec![
        0x00, 0xFF, 0x03, 0x08, b'S', b'q', b'u', b'a', b'r', b'e', b' ', b'1', // name
        0x00, 0xFF, 0x51, 0x03, 0x06, 0x1A, 0x80, // tempo 400000
        0x00, 0xFF, 0x58, 0x04, 4, 2, 24, 8, // time signature
        0x00, 0xC0, 80, // program
        0x00, 0x90, 60, 126, // note on C-4
        0x81, 0x70, 0x80, 60, 0, // note off after 2 rows (240 ticks)
        0x00, 0xFF, 0x2F, 0x00, // end
    ];
    let mut expected = b"MTrk".to_vec();
    expected.extend_from_slice(&(data.len() as u32).to_be_bytes());
    expected.extend_from_slice(&data);
    assert_eq!(track, &expected);
    assert_eq!(conversion.rows_per_pattern, 2);
    assert_eq!(conversion.orders, 1);
    assert_eq!(conversion.patterns, 1);
}

#[test]
fn empty_song_gets_tempo_track() {
    let module = parse_module("TRACK 4 6 150 \"quiet\"\nCOLUMNS : 1 1 1 1 1\n");
    let conversion = convert_song(&module, &module.songs[0], 500_000);
    assert!(conversion.channels_used.is_empty());
    assert_eq!(conversion.midi.tracks.len(), 1);
    let data: Vec<u8> = vec![
        0x00, 0xFF, 0x51, 0x03, 0x07, 0xA1, 0x20, 0x00, 0xFF, 0x58, 0x04, 4, 2, 24, 8, 0x00,
        0xFF, 0x2F, 0x00,
    ];
    let mut expected = b"MTrk".to_vec();
    expected.extend_from_slice(&(data.len() as u32).to_be_bytes());
    expected.extend_from_slice(&data);
    assert_eq!(conversion.midi.tracks[0], expected);
}

#[test]
fn melodic_channels_skip_percussion() {
    let mut next = 0u8;
    let got: Vec<u8> = (0..17).map(|_| allocate_melodic_channel(&mut next)).collect();
    assert_eq!(got, vec![0, 1, 2, 3, 4, 5, 6, 7, 8, 10, 11, 12, 13, 14, 15, 0, 1]);
    assert_eq!(next, 18);
    let mut wrap = 255u8;
    assert_eq!(allocate_melodic_channel(&mut wrap), 15);
    assert_eq!(wrap, 0);
    let mut nine = 9u8;
    assert_eq!(allocate_melodic_channel(&mut nine), 10);
    assert_eq!(nine, 11);
}

#[test]
fn percussion_notes_are_clamped() {
    assert_eq!(to_percussion(0), 35);
    assert_eq!(to_percussion(60), 60);
    assert_eq!(to_percussion(100), 81);
}

#[test]
fn cut_releases_note_and_sorts_before_new_note() {
    let text = "\
TRACK 3 6 150 \"t\"
COLUMNS : 1 1 1 1 1
ORDER 00 : 00 00 00 00 00
PATTERN 00
ROW 00 : C-4 00 8 ... : ... .. . ... : ... .. . ... : ... .. . ... : ... .. . ...
ROW 01 : --- .. . ... : ... .. . ... : ... .. . ... : ... .. . ... : ... .. . ...
ROW 02 : D-4 00 . ... : ... .. . ... : ... .. . ... : ... .. . ... : ... .. . ...
";
    let module = parse_module(text);
    let conversion = convert_song(&module, &module.songs[0], 400_000);
    let track = &conversion.midi.tracks[0];
    // note on C-4 with velocity 67, cut one row later, D-4 with the default velocity.
    assert!(track.windows(4).any(|w| w == [0x00, 0x90, 60, 67]));
    assert!(track.windows(4).any(|w| w == [0x78, 0x80, 60, 0]));
    assert!(track.windows(5).any(|w| w == [0x78, 0x90, 62, 100, 0x78]));
}

#[test]
fn melodic_tracks_use_distinct_channels() {
    let text = "\
TRACK 1 6 150 \"t\"
COLUMNS : 1 1 1 1 1
ORDER 00 : 00 00 00 00 00
PATTERN 00
ROW 00 : C-4 00 F ... : C-4 00 F ... : C-4 00 F ... : 1-# 00 F ... : ... .. . ...
";
    let module = parse_module(text);
    let conversion = convert_song(&module, &module.songs[0], 400_000);
    assert_eq!(conversion.channels_used, vec![0, 1, 2, 3]);
    let status: Vec<u8> = conversion
        .midi
        .tracks
        .iter()
        .map(|t| *t.iter().find(|&&b| b & 0xF0 == 0x90).unwrap())
        .collect();
    assert_eq!(status, vec![0x90, 0x91, 0x92, 0x99]);
}

#[test]
fn channels_beyond_layout_are_skipped() {
    let text = "\
TRACK 1 6 150 \"t\"
COLUMNS : 1 1 1 1 1 1
ORDER 00 : 00 00 00 00 00 00
PATTERN 00
ROW 00 : ... .. . ... : ... .. . ... : ... .. . ... : ... .. . ... : ... .. . ... : C-4 00 F ...
";
    let module = parse_module(text);
    let conversion = convert_song(&module, &module.songs[0], 400_000);
    assert!(conversion.channels_used.is_empty());
    assert_eq!(conversion.midi.tracks.len(), 1);
    // the only track is the tempo track
    assert!(!conversion.midi.tracks[0].windows(1).any(|w| w[0] == 0x90));
}

#[test]
fn long_silence_cannot_be_written() {
    let text = "\
TRACK 2300000 6 150 \"long\"
COLUMNS : 1 1 1 1 1
ORDER 00 : 00 00 00 00 00
PATTERN 00
ROW 00 : C-4 00 F ... : ... .. . ... : ... .. . ... : ... .. . ... : ... .. . ...
";
    let module = parse_module(text);
    assert!(!can_convert(&module, &module.songs[0], 400_000));
    let short = parse_module(&text.replace("2300000", "2000000"));
    assert!(can_convert(&short, &short.songs[0], 400_000));
}

#[test]
fn cut_alone_produces_no_note() {
    let text = "\
TRACK 2 6 150 \"t\"
COLUMNS : 1 1 1 1 1
ORDER 00 : 00 00 00 00 00
PATTERN 00
ROW 00 : --- .. . ... : ... .. . ... : ... .. . ... : ... .. . ... : ... .. . ...
ROW 01 : ... .. . ... : === .. . ... : ... .. . ... : ... .. . ... : ... .. . ...
";
    let module = parse_module(text);
    let conversion = convert(&module, &module.songs[0]);
    assert!(conversion.channels_used.is_empty());
    assert_eq!(conversion.midi.tracks.len(), 1);
}

#[test]
fn rows_past_the_song_length_are_not_played() {
    let text = "\
TRACK 1 6 150 \"t\"
COLUMNS : 1 1 1 1 1
ORDER 00 : 00 00 00 00 00
PATTERN 00
ROW 00 : ... .. . ... : C-4 00 F ... : ... .. . ... : ... .. . ... : ... .. . ...
ROW 01 : E-4 00 F ... : ... .. . ... : ... .. . ... : ... .. . ... : ... .. . ...
";
    let module = parse_module(text);
    let conversion = convert(&module, &module.songs[0]);
    assert_eq!(conversion.channels_used, vec![1]);
    assert_eq!(conversion.midi.tracks.len(), 1);
}
