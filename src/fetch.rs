//! Decryption of a fetched file and the payload that is delivered from it.
use vstd::prelude::*;
use std::io::Read;
use librespot_audio::AudioDecrypt;
use librespot_core::audio_key::AudioKey;

verus! {

/// Number of bytes of container framing that lead the decrypted file.
pub const PREAMBLE_LEN: usize = 167;

/// What decrypting `data` with the audio key `key` gives: the catalogue's
/// AES-128 counter-mode key stream applied to it.
pub uninterp spec fn decrypted_of(key: Seq<u8>, data: Seq<u8>) -> Seq<u8>;

/// Relies on librespot_audio::AudioDecrypt read to its end over a byte slice:
/// each read applies the key stream in place to the bytes the slice handed over,
/// so the output has the input's length, and a slice reader never fails.
#[verifier::external_body]
fn decrypt_bytes(key: [u8; 16], data: &Vec<u8>) -> (r: Option<Vec<u8>>)
    ensures
        r is Some,
        r matches Some(out) ==> out@ == decrypted_of(key@, data@) && out@.len() == data@.len(),
{
    let mut out = Vec::new();
    match AudioDecrypt::new(AudioKey(key), &data[..]).read_to_end(&mut out) {
        Ok(_) => Some(out),
        Err(_) => None,
    }
}

/// Why no payload came out of a fetched file.
#[derive(Clone, Copy, Debug, PartialEq, Eq, Structural)]
pub enum FetchError {
    /// The file is shorter than its preamble.
    Truncated,
}

/// The playable part of a decrypted file: what follows its preamble; `None`
/// when the file is shorter than the preamble.
pub fn strip_preamble(decrypted: &Vec<u8>) -> (r: Option<Vec<u8>>)
    ensures
        r is Some <==> decrypted@.len() >= PREAMBLE_LEN,
        r matches Some(p) ==> p@ == decrypted@.subrange(
            PREAMBLE_LEN as int,
            decrypted@.len() as int,
        ),
{
    if decrypted.len() < PREAMBLE_LEN {
        return None;
    }
    let mut out: Vec<u8> = Vec::new();
    let mut i: usize = PREAMBLE_LEN;
    while i < decrypted.len()
        invariant
            PREAMBLE_LEN <= i <= decrypted@.len(),
            out@ == decrypted@.subrange(PREAMBLE_LEN as int, i as int),
        decreases decrypted@.len() - i,
    {
        out.push(decrypted[i]);
        i = i + 1;
        assert(out@ =~= decrypted@.subrange(PREAMBLE_LEN as int, i as int));
    }
    Some(out)
}

/// Decrypts a fetched file with `key` and returns its playable payload.
/// Decryption keeps the length, so the payload is `PREAMBLE_LEN` bytes shorter
/// than the encrypted file.
pub fn decrypt_payload(key: [u8; 16], encrypted: &Vec<u8>) -> (r: Result<Vec<u8>, FetchError>)
    ensures
        r == Err::<Vec<u8>, FetchError>(FetchError::Truncated) <==> encrypted@.len() < PREAMBLE_LEN,
        encrypted@.len() >= PREAMBLE_LEN ==> r is Ok,
        r is Ok ==> decrypted_of(key@, encrypted@).len() == encrypted@.len(),
        r matches Ok(p) ==> p@ == decrypted_of(key@, encrypted@).subrange(
            PREAMBLE_LEN as int,
            encrypted@.len() as int,
        ),
        r matches Ok(p) ==> p@.len() == encrypted@.len() - PREAMBLE_LEN,
{
    if encrypted.len() < PREAMBLE_LEN {
        return Err(FetchError::Truncated);
    }
    let decrypted = decrypt_bytes(key, encrypted).unwrap();
    Ok(strip_preamble(&decrypted).unwrap())
}

/// How long one turn of the event loop may wait, in milliseconds, while the
/// encrypted file is being read on another thread.
pub const POLL_INTERVAL_MS: u64 = 100;

/// What the thread that drives the event loop does while a file is read.
#[derive(Clone, Copy, Debug, PartialEq, Eq, Structural)]
pub enum PollAction {
    /// Advance the event loop, waiting at most this many milliseconds.
    Advance(u64),
    /// The reader has finished: take the buffer and the read's result.
    Collect,
}

/// The decision taken between turns of the event loop, from the completion
/// flag that the reading thread sets once it has finished: keep the loop
/// going until the flag is seen set, and only then touch the buffer.
pub fn poll_action(finished: bool) -> (r: PollAction)
    ensures
        finished ==> r == PollAction::Collect,
        !finished ==> r == PollAction::Advance(POLL_INTERVAL_MS),
{
    if finished {
        PollAction::Collect
    } else {
        PollAction::Advance(POLL_INTERVAL_MS)
    }
}

} // verus!
