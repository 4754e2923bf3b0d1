use trackfetch::select::{select, FileFormat, FileId};

fn file(n: u8) -> FileId {
    FileId { bytes: [n; 20] }
}

#[test]
fn highest_tier_is_preferred() {
    let files = vec![
        (FileFormat::OggVorbis96, file(1)),
        (FileFormat::OggVorbis320, file(3)),
        (FileFormat::OggVorbis160, file(2)),
    ];
    assert_eq!(select(&files).unwrap().bytes, [3; 20]);
}

#[test]
fn middle_tier_beats_lowest() {
    let files = vec![
        (FileFormat::OggVorbis96, file(1)),
        (FileFormat::Mp3_320, file(9)),
        (FileFormat::OggVorbis160, file(2)),
    ];
    assert_eq!(select(&files).unwrap().bytes, [2; 20]);
}

#[test]
fn lower_tier_alone_is_selected() {
    let files = vec![(FileFormat::Mp3_96, file(7)), (FileFormat::OggVorbis96, file(1))];
    assert_eq!(select(&files).unwrap().bytes, [1; 20]);
}

#[test]
fn no_vorbis_tier_fails() {
    let files = vec![(FileFormat::Mp3_320, file(7)), (FileFormat::Aac320, file(8))];
    assert!(select(&files).is_none());
    assert!(select(&Vec::new()).is_none());
}
