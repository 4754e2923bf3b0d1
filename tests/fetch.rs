use std::io::Read;

use librespot_audio::AudioDecrypt;
use librespot_core::audio_key::AudioKey;
use trackfetch::fetch::{
    decrypt_payload, poll_action, strip_preamble, FetchError, PollAction, PREAMBLE_LEN,
    POLL_INTERVAL_MS,
};

fn decrypt_directly(key: [u8; 16], data: &[u8]) -> Vec<u8> {
    let mut out = Vec::new();
    AudioDecrypt::new(AudioKey(key), data).read_to_end(&mut out).unwrap();
    out
}

#[test]
fn preamble_is_removed() {
    let data: Vec<u8> = (0..200u32).map(|i| i as u8).collect();
    let p = strip_preamble(&data).unwrap();
    assert_eq!(p.len(), 33);
    assert_eq!(p, data[167..].to_vec());
}

#[test]
fn preamble_alone_leaves_nothing() {
    assert_eq!(strip_preamble(&vec![0u8; 167]), Some(Vec::new()));
    assert_eq!(strip_preamble(&vec![0u8; 166]), None);
}

#[test]
fn payload_is_decrypted_and_stripped() {
    let key = [7u8; 16];
    let encrypted: Vec<u8> = (0..1000u32).map(|i| (i * 31) as u8).collect();
    let decrypted = decrypt_directly(key, &encrypted);
    assert_eq!(decrypted.len(), encrypted.len());
    let payload = decrypt_payload(key, &encrypted).unwrap();
    assert_eq!(payload.len(), encrypted.len() - PREAMBLE_LEN);
    assert_eq!(payload, decrypted[167..].to_vec());
    assert_ne!(payload, encrypted[167..].to_vec());
}

#[test]
fn short_file_is_truncated() {
    assert_eq!(decrypt_payload([1u8; 16], &vec![0u8; 100]), Err(FetchError::Truncated));
    assert_eq!(decrypt_payload([1u8; 16], &vec![0u8; 167]), Ok(Vec::new()));
}

#[test]
fn polling_continues_until_finished() {
    assert_eq!(poll_action(false), PollAction::Advance(100));
    assert_eq!(POLL_INTERVAL_MS, 100);
    assert_eq!(poll_action(true), PollAction::Collect);
}
