use famitracker2midi::parser::{parse_module, parse_note_token, volume_to_velocity, NoteToken};

const SAMPLE: &str = "\
# FamiTracker text export 0.4.2
MACHINE 0
EXPANSION 0
TRACK  64   7 150 \"New song\"
COLUMNS : 1 1 1 1 1

ORDER 00 : 00 00 00 00 00

PATTERN 00
ROW 00 : E-3 00 . ... : D-1 00 5 ... : D-4 00 . ... : ... .. . ... : ... .. . ...
ROW 01 : ... .. . ... : ... .. . ... : ... .. . ... : ... .. . ... : ... .. . ...
";

#[test]
fn parses_header_and_song() {
    let module = parse_module(SAMPLE);
    assert_eq!(module.expansion, 0);
    assert_eq!(module.machine, 0);
    assert_eq!(module.songs.len(), 1);
    let song = &module.songs[0];
    assert_eq!(song.name, "New song");
    assert_eq!(song.length, 64);
    assert_eq!(song.speed, 7);
    assert_eq!(song.tempo, 150);
    assert_eq!(song.columns, vec![1, 1, 1, 1, 1]);
    assert_eq!(song.orders, vec![vec![0, 0, 0, 0, 0]]);
    assert_eq!(song.patterns[&0][0].len(), 5);
}

#[test]
fn parses_n163_channels() {
    let text =
        "EXPANSION 16\nN163CHANNELS 4\nTRACK 64 6 150 \"x\"\nCOLUMNS : 1 1 1 1 1 1 1 1 1\n";
    let module = parse_module(text);
    assert_eq!(module.expansion, 16);
    assert_eq!(module.n163_channels, 4);
}

#[test]
fn note_tokens() {
    assert_eq!(parse_note_token("C-1"), NoteToken::Note(24));
    assert_eq!(parse_note_token("D#3"), NoteToken::Note(51));
    assert_eq!(parse_note_token("A-4"), NoteToken::Note(69));
    assert_eq!(parse_note_token("1-#"), NoteToken::Noise(1));
    assert_eq!(parse_note_token("F-#"), NoteToken::Noise(15));
    assert_eq!(parse_note_token("---"), NoteToken::Cut);
    assert_eq!(parse_note_token("==="), NoteToken::Cut);
    assert_eq!(parse_note_token("..."), NoteToken::Blank);
}

#[test]
fn volume_scale() {
    assert_eq!(volume_to_velocity("F"), 126);
    assert_eq!(volume_to_velocity("0"), 1);
    assert_eq!(volume_to_velocity("."), 100);
}

#[test]
fn velocity_matches_rounded_scale() {
    for (i, c) in "0123456789ABCDEF".chars().enumerate() {
        let expected = ((i as f64 / 15.0 * 126.0).round() as u8).max(1);
        assert_eq!(volume_to_velocity(&c.to_string()), expected);
        assert_eq!(volume_to_velocity(&c.to_ascii_lowercase().to_string()), expected);
    }
    assert_eq!(volume_to_velocity("10"), 100);
    assert_eq!(volume_to_velocity(""), 100);
    assert_eq!(volume_to_velocity("é"), 100);
}

#[test]
fn note_token_edges() {
    assert_eq!(parse_note_token("C-0"), NoteToken::Note(12));
    assert_eq!(parse_note_token("G-9"), NoteToken::Note(127));
    assert_eq!(parse_note_token("G#9"), NoteToken::Blank);
    assert_eq!(parse_note_token("B#9"), NoteToken::Blank);
    assert_eq!(parse_note_token("C-4extra"), NoteToken::Note(60));
    assert_eq!(parse_note_token("A-#"), NoteToken::Noise(10));
    assert_eq!(parse_note_token("a-#"), NoteToken::Noise(10));
    assert_eq!(parse_note_token("H-4"), NoteToken::Blank);
    assert_eq!(parse_note_token("C-"), NoteToken::Blank);
    assert_eq!(parse_note_token(""), NoteToken::Blank);
    assert_eq!(parse_note_token("C+4"), NoteToken::Blank);
    assert_eq!(parse_note_token("é-4"), NoteToken::Blank);
    assert_eq!(parse_note_token("----"), NoteToken::Blank);
}

#[test]
fn header_arguments() {
    let module = parse_module("MACHINE 300\nEXPANSION : 33\nN163CHANNELS x\n");
    assert_eq!(module.machine, 44);
    assert_eq!(module.expansion, 33);
    assert_eq!(module.n163_channels, 8);
    assert!(module.songs.is_empty());
    let module = parse_module("EXPANSION nothing\n");
    assert_eq!(module.expansion, 0);
}

#[test]
fn multiple_songs_and_line_endings() {
    let text = "# comment\r\nTRACK 32 3 120 \"one\"\r\n\r\nCOLUMNS : 1 2\r\nORDER 00 : 01 0A\r\nORDER 01 :\r\nPATTERN 0A\r\nROW 02 : C-4 00 F ... : D-4\r\nTRACK\r\nROW 00 : C-4\r\n   TRACK x y z \"three \"quoted\" name\"";
    let module = parse_module(text);
    assert_eq!(module.songs.len(), 3);
    let one = &module.songs[0];
    assert_eq!(one.name, "one");
    assert_eq!((one.length, one.speed, one.tempo), (32, 3, 120));
    assert_eq!(one.columns, vec![1, 2]);
    assert_eq!(one.orders, vec![vec![1, 10]]);
    let rows = &one.patterns[&10];
    assert_eq!(rows.len(), 3);
    assert!(rows[0].is_empty() && rows[1].is_empty());
    assert_eq!(rows[2], vec![vec!["C-4", "00", "F", "..."], vec!["D-4"]]);
    let two = &module.songs[1];
    assert_eq!(two.name, "");
    assert_eq!((two.length, two.speed, two.tempo), (64, 6, 150));
    assert!(two.patterns.is_empty());
    let three = &module.songs[2];
    assert_eq!(three.name, "three \"quoted\" name");
    assert_eq!(three.length, 64);
}

#[test]
fn rows_need_a_pattern() {
    let module = parse_module("TRACK\nPATTERN zz\nROW 00 : C-4\nPATTERN 1\nROW : C-4\nROW 1 C-4\n");
    let song = &module.songs[0];
    assert_eq!(song.patterns.len(), 1);
    assert_eq!(song.patterns[&1].len(), 1);
    assert_eq!(song.patterns[&1][0], vec![vec!["C-4"]]);
}

#[test]
fn comment_lines_change_nothing() {
    let plain = parse_module(SAMPLE);
    let with_comments = SAMPLE.replace("COLUMNS", "   # note\r\n\t\nCOLUMNS");
    let other = parse_module(&with_comments);
    assert_eq!(plain.machine, other.machine);
    assert_eq!(plain.expansion, other.expansion);
    assert_eq!(plain.n163_channels, other.n163_channels);
    assert_eq!(plain.songs.len(), other.songs.len());
    for (a, b) in plain.songs.iter().zip(other.songs.iter()) {
        assert_eq!(a.name, b.name);
        assert_eq!((a.length, a.speed, a.tempo), (b.length, b.speed, b.tempo));
        assert_eq!(a.columns, b.columns);
        assert_eq!(a.orders, b.orders);
        assert_eq!(a.patterns, b.patterns);
    }
}
