use std::path::PathBuf;

use famitracker2midi::paths::{default_output, indexed_file_name, indexed_path};

#[test]
fn derives_output_name() {
    assert_eq!(default_output("song.txt"), "song.mid");
    assert_eq!(default_output("/tmp/a b.txt"), "/tmp/a b.mid");
}

#[test]
fn indexed_output() {
    assert_eq!(
        PathBuf::from(indexed_path("/tmp/out.mid", 2)),
        PathBuf::from("/tmp/out.2.mid")
    );
}

#[test]
fn default_output_adds_extension() {
    assert_eq!(default_output("musica"), "musica.mid");
    assert_eq!(default_output("dir/x.tar.txt"), "dir/x.tar.mid");
}

#[test]
fn indexed_name_defaults() {
    assert_eq!(indexed_file_name(None, None, 12), "output.12.mid");
    assert_eq!(
        indexed_file_name(Some("a".to_string()), Some("midi".to_string()), 0),
        "a.0.midi"
    );
    assert_eq!(indexed_path("song", 3), "song.3.mid");
}
