use famitracker2midi::midi::{write_vlq, MidiFile, TrackBuilder, TICKS_PER_BEAT};

#[test]
fn vlq_roundtrip_shapes() {
    let mut out = Vec::new();
    write_vlq(&mut out, 0);
    assert_eq!(out, vec![0x00]);

    out.clear();
    write_vlq(&mut out, 0x7F);
    assert_eq!(out, vec![0x7F]);

    out.clear();
    write_vlq(&mut out, 0x80);
    assert_eq!(out, vec![0x81, 0x00]);

    out.clear();
    write_vlq(&mut out, 0x0FFF_FFFF);
    assert_eq!(out, vec![0xFF, 0xFF, 0xFF, 0x7F]);
}

#[test]
fn header_is_well_formed() {
    let mut file = MidiFile::new(1, TICKS_PER_BEAT);
    let mut track = TrackBuilder::new();
    track.end(0);
    file.tracks.push(track.build());
    let bytes = file.to_bytes();
    assert_eq!(&bytes[0..4], b"MThd");
    assert_eq!(&bytes[14..18], b"MTrk");
}

#[test]
fn vlq_group_boundaries() {
    let mut out = Vec::new();
    write_vlq(&mut out, 0x3FFF);
    assert_eq!(out, vec![0xFF, 0x7F]);
    out.clear();
    write_vlq(&mut out, 0x4000);
    assert_eq!(out, vec![0x81, 0x80, 0x00]);
    out.clear();
    write_vlq(&mut out, 0x1F_FFFF);
    assert_eq!(out, vec![0xFF, 0xFF, 0x7F]);
    let mut prefixed = vec![7u8];
    write_vlq(&mut prefixed, 1);
    assert_eq!(prefixed, vec![7, 1]);
}

#[test]
fn events_sorted_by_tick_then_priority() {
    let mut track = TrackBuilder::new();
    track.note_on(10, 0, 60, 100);
    track.note_off(10, 0, 59);
    track.end(20);
    track.program_change(0, 17, 200);
    track.note_on(10, 0, 61, 90);
    let bytes = track.build();
    let data = vec![
        0x00, 0xC1, 72, // program change at 0
        0x0A, 0x80, 59, 0, // note off first at tick 10
        0x00, 0x90, 60, 100, // then the note ons, in the order added
        0x00, 0x90, 61, 90, //
        0x0A, 0xFF, 0x2F, 0x00,
    ];
    let mut expected = b"MTrk".to_vec();
    expected.extend_from_slice(&(data.len() as u32).to_be_bytes());
    expected.extend_from_slice(&data);
    assert_eq!(bytes, expected);
}

#[test]
fn meta_events() {
    let mut track = TrackBuilder::new();
    track.track_name(0, "é");
    track.tempo(0, 0x1_000_000);
    track.time_signature(0);
    let bytes = track.build();
    let data = vec![
        0x00, 0xFF, 0x03, 0x02, 0xC3, 0xA9, 0x00, 0xFF, 0x51, 0x03, 0xFF, 0xFF, 0xFF, 0x00, 0xFF,
        0x58, 0x04, 4, 2, 24, 8,
    ];
    assert_eq!(&bytes[8..], &data[..]);
    assert_eq!(&bytes[4..8], &(data.len() as u32).to_be_bytes());
}

#[test]
fn file_header_fields() {
    let mut file = MidiFile::default();
    assert_eq!((file.format, file.division), (1, TICKS_PER_BEAT));
    file.tracks.push(vec![1, 2]);
    file.tracks.push(vec![3]);
    let bytes = file.to_bytes();
    assert_eq!(
        bytes,
        vec![b'M', b'T', b'h', b'd', 0, 0, 0, 6, 0, 1, 0, 2, 0x01, 0xE0, 1, 2, 3]
    );
}

#[test]
fn vlq_is_shortest_form() {
    for value in [0x80u32, 0x3FFF, 0x4000, 0x1F_FFFF, 0x20_0000, 0x0FFF_FFFF] {
        let mut out = Vec::new();
        write_vlq(&mut out, value);
        assert!(out.len() > 1);
        assert_ne!(out[0], 0x80);
    }
}
