//! Time-related traits for runtime adapters, and the timeout error.

use vstd::prelude::*;

use crate::error::DbError;

verus! {

/// Adapters that provide current time information.
pub trait TimestampProvider {
    /// Type representing an instant in time for this runtime.
    type Instant;

    /// The current timestamp according to the runtime's time source.
    fn now(&self) -> Self::Instant;
}

/// The error for an operation that exceeded its time limit: a failed
/// connection to the endpoint `timeout`, whose reason names the operation.
pub fn create_timeout_error(operation_name: &str) -> (r: DbError)
    ensures
        r matches DbError::ConnectionFailed { endpoint, reason } && endpoint@ == "timeout"@
            && reason@ == operation_name@ + " operation timed out"@,
{
    let endpoint = "timeout".to_owned();
    let reason = operation_name.to_owned().concat(" operation timed out");
    DbError::ConnectionFailed { endpoint, reason }
}

} // verus!
