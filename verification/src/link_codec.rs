//! Per-link codec selection for [`Linkable`](crate::contracts::Linkable)
//! records: a codec decodes one connector payload and encodes a record,
//! into owned bytes or into caller-owned storage.

use vstd::prelude::*;

use crate::contracts::{encoded_into, Linkable, SerializeError};

verus! {

/// A wire codec selected for one inbound or outbound record link.
pub trait LinkCodec<T>: Clone + Send + Sync + 'static {
    /// Preferred reusable outbound scratch capacity, in bytes; `None` keeps
    /// the route on owned serialization.
    fn encode_buffer_capacity() -> (r: Option<usize>)
        default_ensures
            r is None,
    {
        None
    }

    /// Decode one connector payload into a record.
    fn decode(&self, bytes: &[u8]) -> Result<T, String>;

    /// Encode a record into owned bytes.
    fn encode(&self, value: &T) -> Result<Vec<u8>, SerializeError>;

    /// Encode a record into caller-owned storage, returning the number of
    /// bytes written, or `BufferTooSmall` when they do not fit.
    fn encode_into(&self, value: &T, out: &mut [u8]) -> Result<usize, SerializeError>;
}

/// Delegates to the record's own [`Linkable`] implementation.
#[derive(Clone, Copy, Debug)]
pub struct Default;

impl<T: Linkable> LinkCodec<T> for Default {
    fn encode_buffer_capacity() -> Option<usize> {
        T::ENCODE_BUFFER_CAPACITY
    }

    fn decode(&self, bytes: &[u8]) -> Result<T, String> {
        T::from_bytes(bytes)
    }

    fn encode(&self, value: &T) -> (r: Result<Vec<u8>, SerializeError>)
        ensures
            match value.serialized() {
                Some(b) => r matches Ok(v) && v@ == b,
                None => r == Err::<Vec<u8>, SerializeError>(SerializeError::InvalidData),
            },
    {
        match value.to_bytes() {
            Ok(b) => Ok(b),
            Err(_) => Err(SerializeError::InvalidData),
        }
    }

    fn encode_into(&self, value: &T, out: &mut [u8]) -> (r: Result<usize, SerializeError>)
        ensures
            encoded_into(value.serialized(), old(out)@, r, final(out)@),
    {
        value.encode_into(out)
    }
}

} // verus!
