//! Framing of a byte stream into logical frames: a transport contributes a
//! [`Framer`].

use vstd::prelude::*;

verus! {

/// Frames a byte stream: COBS, length-prefix, NDJSON.
pub trait Framer {
    /// Encode one logical frame, appending its wire bytes to `out`.
    fn encode(&self, frame: &[u8], out: &mut Vec<u8>);

    /// Feed received bytes into the accumulator.
    fn push_bytes(&mut self, bytes: &[u8]);

    /// Pull the next complete frame: `Some(Ok(frame))`, `Some(Err(()))` for a
    /// malformed or unsynced run (skipped, the stream resyncs), or `None`.
    fn next_frame(&mut self) -> Option<Result<Vec<u8>, ()>>;
}

} // verus!
