//! Retrieval of tracks from a streaming catalogue: references in text lines,
//! the search among alternatives, the choice of an encoding, the decrypted
//! payload and where it is delivered.
pub mod dispatch;
pub mod extract;
pub mod fetch;
pub mod resolve;
pub mod select;
