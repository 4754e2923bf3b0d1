use librespot_core::spotify_id::SpotifyId;
use trackfetch::extract::{extract, references, TrackRef};

#[test]
fn uri_form_is_recognised() {
    assert_eq!(extract("spotify:track:10"), Some(TrackRef { id: 62 }));
}

#[test]
fn url_form_is_recognised() {
    assert_eq!(
        extract("https://open.spotify.com/track/Z?si=abc"),
        Some(TrackRef { id: 61 })
    );
}

#[test]
fn digits_follow_the_base62_alphabet() {
    assert_eq!(extract("spotify:track:a"), Some(TrackRef { id: 10 }));
    assert_eq!(extract("spotify:track:A"), Some(TrackRef { id: 36 }));
    assert_eq!(extract("spotify:track:zZ"), Some(TrackRef { id: 35 * 62 + 61 }));
}

#[test]
fn surrounding_text_does_not_matter() {
    let plain = extract("spotify:track:4uLU6hMCjMI75M1A2tKUQC");
    assert!(plain.is_some());
    assert_eq!(extract("listen: spotify:track:4uLU6hMCjMI75M1A2tKUQC, it is good"), plain);
    assert_eq!(extract("see open.spotify.com/track/4uLU6hMCjMI75M1A2tKUQC now"), plain);
}

#[test]
fn identifier_agrees_with_the_catalogue_ids() {
    let text = "4uLU6hMCjMI75M1A2tKUQC";
    let expected = SpotifyId::from_base62(text).unwrap().id;
    assert_eq!(
        extract(&format!("spotify:track:{}", text)),
        Some(TrackRef { id: expected })
    );
}

#[test]
fn uri_form_is_tried_first() {
    assert_eq!(
        extract("open.spotify.com/track/b spotify:track:c"),
        Some(TrackRef { id: 12 })
    );
}

#[test]
fn first_uri_occurrence_wins() {
    assert_eq!(extract("spotify:track:1 spotify:track:2"), Some(TrackRef { id: 1 }));
}

#[test]
fn form_without_identifier_is_skipped() {
    assert_eq!(extract("spotify:track: spotify:track:3"), Some(TrackRef { id: 3 }));
    assert_eq!(extract("spotify:track:"), None);
    assert_eq!(extract("spotify:album:4uLU6hMCjMI75M1A2tKUQC"), None);
    assert_eq!(extract(""), None);
}

#[test]
fn identifier_too_large_is_rejected() {
    assert_eq!(extract("spotify:track:ZZZZZZZZZZZZZZZZZZZZZZZZ"), None);
    let max = "7N42dgm5tFLK9N8MT7fHC7";
    assert_eq!(
        extract(&format!("spotify:track:{}", max)),
        Some(TrackRef { id: u128::MAX })
    );
    assert_eq!(extract("spotify:track:7N42dgm5tFLK9N8MT7fHC8"), None);
}

#[test]
fn references_keep_line_order() {
    let lines = vec![
        "spotify:track:b".to_string(),
        "nothing here".to_string(),
        "open.spotify.com/track/a".to_string(),
        "".to_string(),
        "spotify:track:1".to_string(),
    ];
    assert_eq!(
        references(&lines),
        vec![TrackRef { id: 11 }, TrackRef { id: 10 }, TrackRef { id: 1 }]
    );
    assert_eq!(references(&Vec::new()), Vec::new());
}

#[test]
fn non_ascii_text_around_reference() {
    assert_eq!(extract("écoute spotify:track:é"), None);
    assert_eq!(extract("→ spotify:track:Ab→"), Some(TrackRef { id: 36 * 62 + 11 }));
}
